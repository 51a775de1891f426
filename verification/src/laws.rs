//! Properties of the library as a whole: what reading back after a write
//! gives, what a deletion leaves, how relations and covers are kept, what a
//! search finds and what the reminders and pages hold.
use vstd::prelude::*;
use crate::backup::restore_copy_prefix;
use crate::clan::{after_clan_delete, group_in_clan, member_of_clan_or_graves};
use crate::db::{DbView, key_is_not};
use crate::graph::{child_edge, child_link, descendants, lemma_descendants_step, is_child_relation, join_related, joined, edge_of_member, edge_order, lemma_push_contains, edges_added, edge_input_error, edge_ids_free, has_spouse, relation_exists, reach, dedup_first, dedup_key, links, clan_graph_edges, clan_edge_rows,
    clan_member_ids, both_in};
use crate::sort::{sorted_rows, lemma_sorted_contains, lemma_sorted_unique, lex_lt, str_key, lemma_lex_total, lemma_lex_asym};
use crate::grave::{after_grave_delete, grave_in_clan, member_in_grave};
use crate::member::after_member_delete;
use crate::image::{after_cover, affects, covered, cover_outcome};
use crate::error::AppError;
use crate::models::{Edge, EdgeType, EntityType, Image, Member, ReminderType, edge_type_name, entity_type_name};
use crate::reminders::{Due, anniversaries, death_dues, due_if, festivals, festivals_in, lunar_due, lunar_text,
    reminder_dues};
use crate::search::{contains_pattern, like};
use crate::service::{page, text_starts_with};
use crate::store::{Keyed, has_key, lookup, unique_keys, key_index, keys_of, opt_is};

verus! {

// ---------------------------------------------------------------------------
// Reading back and deleting
// ---------------------------------------------------------------------------

/// A row added under a fresh key is what a lookup by that key gives back:
/// `get_*` after `create_*` returns the created row.
pub proof fn law_created_row_is_found<T: Keyed>(s: Seq<T>, x: T)
    requires
        unique_keys(s),
        !has_key(s, x.key()),
    ensures
        lookup(s.push(x), x.key()) == Some(x),
{
    let t = s.push(x);
    assert(t[s.len() as int].key() == x.key());
    assert(has_key(t, x.key()));
    let k = key_index(t, x.key());
    if k < s.len() {
        assert(t[k] == s[k]);
        assert(s[k].key() == x.key());
    }
}

/// A row added under a fresh key leaves the lookups of every other key as
/// they were.
pub proof fn law_create_keeps_other_rows<T: Keyed>(s: Seq<T>, x: T, k: Seq<char>)
    requires
        unique_keys(s),
        !has_key(s, x.key()),
        k != x.key(),
    ensures
        lookup(s.push(x), k) == lookup(s, k),
{
    let t = s.push(x);
    if has_key(s, k) {
        let i = key_index(s, k);
        assert(t[i] == s[i]);
        assert(has_key(t, k));
        let j = key_index(t, k);
        if j < s.len() {
            assert(t[j] == s[j]);
            assert(s[j].key() == s[i].key());
        }
    }
    if has_key(t, k) {
        let j = key_index(t, k);
        assert(j < s.len());
        assert(t[j] == s[j]);
        assert(has_key(s, k));
    }
}

/// A row replaced in place under its own key is what a lookup by that key
/// gives back: `get_*` after `update_*` returns the updated row.
pub proof fn law_updated_row_is_found<T: Keyed>(s: Seq<T>, id: Seq<char>, n: T)
    requires
        unique_keys(s),
        has_key(s, id),
        n.key() == id,
    ensures
        lookup(s.update(key_index(s, id), n), id) == Some(n),
{
    let i = key_index(s, id);
    let t = s.update(i, n);
    assert(t[i].key() == id);
    assert(has_key(t, id));
    let j = key_index(t, id);
    if j != i {
        assert(t[j] == s[j]);
        assert(s[j].key() == s[i].key());
    }
}

/// After the row with key `id` is deleted, a lookup of `id` finds nothing:
/// `get_*` after `delete_*` reports `NotFound`.
pub proof fn law_deleted_row_is_gone<T: Keyed>(s: Seq<T>, id: Seq<char>)
    ensures
        lookup(s.filter(key_is_not::<T>(id)), id) is None,
{
    broadcast use vstd::seq_lib::group_filter_ensures;
    let f = s.filter(key_is_not::<T>(id));
    if has_key(f, id) {
        let i = choose|i: int| 0 <= i < f.len() && #[trigger] f[i].key() == id;
        assert(key_is_not::<T>(id)(f[i]));
    }
}

/// Deleting a clan leaves no row of it: not the clan, none of its burial
/// groups, graves, members (whether they belong to it or are buried in its
/// graves), and no photo of the clan, of its graves or of its members.
pub proof fn law_clan_delete_leaves_nothing_of_it(v: DbView, id: Seq<char>)
    ensures
        ({
            let w = after_clan_delete(v, id);
            let tids = keys_of(v.graves.filter(grave_in_clan(id)));
            let mids = keys_of(v.members.filter(member_of_clan_or_graves(id, tids)));
            &&& !has_key(w.clans, id)
            &&& forall|i: int| 0 <= i < w.groups.len() ==> (#[trigger] w.groups[i]).clan_id@ != id
            &&& forall|i: int| 0 <= i < w.graves.len() ==> !opt_is((#[trigger] w.graves[i]).clan_id, id)
            &&& forall|i: int| 0 <= i < w.members.len() ==> {
                &&& !opt_is((#[trigger] w.members[i]).clan_id, id)
                &&& !(w.members[i].grave_id is Some && tids.contains(w.members[i].grave_id->0@))
            }
            &&& forall|i: int| 0 <= i < w.images.len() ==> {
                &&& !((#[trigger] w.images[i]).entity_type@ == entity_type_name(EntityType::Clan) && w.images[i].entity_id@ == id)
                &&& !(w.images[i].entity_type@ == entity_type_name(EntityType::Grave) && tids.contains(w.images[i].entity_id@))
                &&& !(w.images[i].entity_type@ == entity_type_name(EntityType::Member) && mids.contains(w.images[i].entity_id@))
            }
        }),
{
    broadcast use vstd::seq_lib::group_filter_ensures;
    let w = after_clan_delete(v, id);
    let tids = keys_of(v.graves.filter(grave_in_clan(id)));
    let mids = keys_of(v.members.filter(member_of_clan_or_graves(id, tids)));
    law_deleted_row_is_gone(v.clans, id);
    if has_key(w.clans, id) {
        let i = choose|i: int| 0 <= i < w.clans.len() && #[trigger] w.clans[i].key() == id;
        assert(key_is_not::<crate::models::Clan>(id)(w.clans[i]));
    }
    assert forall|i: int| 0 <= i < w.groups.len() implies (#[trigger] w.groups[i]).clan_id@ != id by {
        assert(!group_in_clan(id)(w.groups[i]));
    }
    assert forall|i: int| 0 <= i < w.graves.len() implies !opt_is((#[trigger] w.graves[i]).clan_id, id) by {
        assert(!grave_in_clan(id)(w.graves[i]));
    }
    assert forall|i: int| 0 <= i < w.members.len() implies {
        &&& !opt_is((#[trigger] w.members[i]).clan_id, id)
        &&& !(w.members[i].grave_id is Some && tids.contains(w.members[i].grave_id->0@))
    } by {
        assert(!member_of_clan_or_graves(id, tids)(w.members[i]));
    }
    let i1 = v.images.filter(crate::db::no_photos_of(entity_type_name(EntityType::Grave), tids));
    let i2 = i1.filter(crate::db::no_photos_of(entity_type_name(EntityType::Member), mids));
    assert forall|i: int| 0 <= i < w.images.len() implies {
        &&& !((#[trigger] w.images[i]).entity_type@ == entity_type_name(EntityType::Clan) && w.images[i].entity_id@ == id)
        &&& !(w.images[i].entity_type@ == entity_type_name(EntityType::Grave) && tids.contains(w.images[i].entity_id@))
        &&& !(w.images[i].entity_type@ == entity_type_name(EntityType::Member) && mids.contains(w.images[i].entity_id@))
    } by {
        let x = w.images[i];
        crate::store::lemma_filter_source(i2, crate::db::no_photos_of(entity_type_name(EntityType::Clan), seq![id]), i);
        assert(seq![id].contains(id) ==> !(x.entity_type@ == entity_type_name(EntityType::Clan) && x.entity_id@ == id));
        assert(seq![id][0] == id);
        assert(i2.contains(x));
        let j = choose|j: int| 0 <= j < i2.len() && i2[j] == x;
        crate::store::lemma_filter_source(i1, crate::db::no_photos_of(entity_type_name(EntityType::Member), mids), j);
        assert(i1.contains(x));
        let k = choose|k: int| 0 <= k < i1.len() && i1[k] == x;
        crate::store::lemma_filter_source(v.images, crate::db::no_photos_of(entity_type_name(EntityType::Grave), tids), k);
    }
}

/// Deleting a member leaves no row of it: not the member, no edge at either
/// end of which it stands, no photo of it.
pub proof fn law_member_delete_leaves_nothing_of_it(v: DbView, id: Seq<char>)
    ensures
        ({
            let w = after_member_delete(v, id);
            &&& !has_key(w.members, id)
            &&& forall|i: int| 0 <= i < w.edges.len() ==> (#[trigger] w.edges[i]).member_id@ != id
                && w.edges[i].related_member_id@ != id
            &&& forall|i: int| 0 <= i < w.images.len() ==>
                !((#[trigger] w.images[i]).entity_type@ == entity_type_name(EntityType::Member) && w.images[i].entity_id@ == id)
        }),
{
    broadcast use vstd::seq_lib::group_filter_ensures;
    let w = after_member_delete(v, id);
    law_deleted_row_is_gone(v.members, id);
    if has_key(w.members, id) {
        let i = choose|i: int| 0 <= i < w.members.len() && #[trigger] w.members[i].key() == id;
        assert(key_is_not::<crate::models::Member>(id)(w.members[i]));
    }
    assert(seq![id][0] == id);
    assert forall|i: int| 0 <= i < w.edges.len() implies (#[trigger] w.edges[i]).member_id@ != id
        && w.edges[i].related_member_id@ != id by {
        assert(crate::db::edge_avoids(seq![id])(w.edges[i]));
    }
    assert forall|i: int| 0 <= i < w.images.len() implies
        !((#[trigger] w.images[i]).entity_type@ == entity_type_name(EntityType::Member) && w.images[i].entity_id@ == id) by {
        assert(crate::db::no_photos_of(entity_type_name(EntityType::Member), seq![id])(w.images[i]));
    }
}

/// Deleting a grave leaves no row of it: not the grave, none of the members
/// buried in it, no photo of it or of them, no edge touching them.
pub proof fn law_grave_delete_leaves_nothing_of_it(v: DbView, id: Seq<char>)
    ensures
        ({
            let w = after_grave_delete(v, id);
            let mids = keys_of(v.members.filter(member_in_grave(id)));
            &&& !has_key(w.graves, id)
            &&& forall|i: int| 0 <= i < w.members.len() ==> !opt_is((#[trigger] w.members[i]).grave_id, id)
            &&& forall|i: int| 0 <= i < w.edges.len() ==> !mids.contains((#[trigger] w.edges[i]).member_id@)
                && !mids.contains(w.edges[i].related_member_id@)
            &&& forall|i: int| 0 <= i < w.images.len() ==> {
                &&& !((#[trigger] w.images[i]).entity_type@ == entity_type_name(EntityType::Grave) && w.images[i].entity_id@ == id)
                &&& !(w.images[i].entity_type@ == entity_type_name(EntityType::Member) && mids.contains(w.images[i].entity_id@))
            }
        }),
{
    broadcast use vstd::seq_lib::group_filter_ensures;
    let w = after_grave_delete(v, id);
    let mids = keys_of(v.members.filter(member_in_grave(id)));
    law_deleted_row_is_gone(v.graves, id);
    if has_key(w.graves, id) {
        let i = choose|i: int| 0 <= i < w.graves.len() && #[trigger] w.graves[i].key() == id;
        assert(key_is_not::<crate::models::Grave>(id)(w.graves[i]));
    }
    assert forall|i: int| 0 <= i < w.members.len() implies !opt_is((#[trigger] w.members[i]).grave_id, id) by {
        assert((|m: crate::models::Member| !opt_is(m.grave_id, id))(w.members[i]));
    }
    assert forall|i: int| 0 <= i < w.edges.len() implies !mids.contains((#[trigger] w.edges[i]).member_id@)
        && !mids.contains(w.edges[i].related_member_id@) by {
        assert(crate::db::edge_avoids(mids)(w.edges[i]));
    }
    let i1 = v.images.filter(crate::db::no_photos_of(entity_type_name(EntityType::Member), mids));
    assert(seq![id][0] == id);
    assert forall|i: int| 0 <= i < w.images.len() implies {
        &&& !((#[trigger] w.images[i]).entity_type@ == entity_type_name(EntityType::Grave) && w.images[i].entity_id@ == id)
        &&& !(w.images[i].entity_type@ == entity_type_name(EntityType::Member) && mids.contains(w.images[i].entity_id@))
    } by {
        let x = w.images[i];
        crate::store::lemma_filter_source(i1, crate::db::no_photos_of(entity_type_name(EntityType::Grave), seq![id]), i);
        let k = choose|k: int| 0 <= k < i1.len() && i1[k] == x;
        crate::store::lemma_filter_source(v.images, crate::db::no_photos_of(entity_type_name(EntityType::Member), mids), k);
    }
}

// ---------------------------------------------------------------------------
// Relations
// ---------------------------------------------------------------------------

/// A stored spouse relation reads the same from both members; a son or
/// daughter relation is stored from parent to child.
pub proof fn law_relation_stored(old_edges: Seq<Edge>, new_edges: Seq<Edge>, input: crate::models::NewEdge,
    id: Seq<char>, rev_id: Seq<char>)
    requires
        edges_added(old_edges, new_edges, input, id, rev_id),
    ensures
        relation_exists(new_edges, input.member_id@, input.related_member_id@, edge_type_name(input.relation_type)),
        input.relation_type == EdgeType::Spouse ==> relation_exists(new_edges, input.related_member_id@,
            input.member_id@, edge_type_name(EdgeType::Spouse)),
        forall|i: int| 0 <= i < old_edges.len() ==> new_edges[i] == #[trigger] old_edges[i],
{
    let n = old_edges.len() as int;
    assert(new_edges[n].member_id@ == input.member_id@);
    if input.relation_type == EdgeType::Spouse {
        assert(new_edges[n + 1].member_id@ == input.related_member_id@);
    }
    assert forall|i: int| 0 <= i < old_edges.len() implies new_edges[i] == #[trigger] old_edges[i] by {
        assert(new_edges.take(n)[i] == new_edges[i]);
    }
}

/// Deleting a relation removes it in both directions: no edge keeps the
/// deleted id, and none of the same type runs the other way.
pub proof fn law_relation_deleted_both_ways(edges: Seq<Edge>, id: Seq<char>, e: Edge)
    ensures
        ({
            let kept = edges.filter(key_is_not::<Edge>(id)).filter(|x: Edge| !(x.member_id@ == e.related_member_id@
                && x.related_member_id@ == e.member_id@ && x.relation_type@ == e.relation_type@));
            &&& !has_key(kept, id)
            &&& !relation_exists(kept, e.related_member_id@, e.member_id@, e.relation_type@)
        }),
{
    broadcast use vstd::seq_lib::group_filter_ensures;
    let rest = edges.filter(key_is_not::<Edge>(id));
    let rev = |x: Edge| !(x.member_id@ == e.related_member_id@ && x.related_member_id@ == e.member_id@
        && x.relation_type@ == e.relation_type@);
    let kept = rest.filter(rev);
    if has_key(kept, id) {
        let i = choose|i: int| 0 <= i < kept.len() && #[trigger] kept[i].key() == id;
        crate::store::lemma_filter_source(rest, rev, i);
        let j = choose|j: int| 0 <= j < rest.len() && rest[j] == kept[i];
        assert(key_is_not::<Edge>(id)(rest[j]));
    }
    if relation_exists(kept, e.related_member_id@, e.member_id@, e.relation_type@) {
        let i = choose|i: int| 0 <= i < kept.len() && #[trigger] kept[i].member_id@ == e.related_member_id@
            && kept[i].related_member_id@ == e.member_id@ && kept[i].relation_type@ == e.relation_type@;
        assert(rev(kept[i]));
    }
}

/// A filter that every row passes keeps the whole sequence.
proof fn lemma_filter_keeps_all<T>(s: Seq<T>, p: spec_fn(T) -> bool)
    requires
        forall|i: int| 0 <= i < s.len() ==> p(#[trigger] s[i]),
    ensures
        s.filter(p) == s,
    decreases s.len(),
{
    reveal(Seq::filter);
    if s.len() > 0 {
        let t = s.drop_last();
        assert forall|i: int| 0 <= i < t.len() implies p(#[trigger] t[i]) by {
            assert(t[i] == s[i]);
        }
        lemma_filter_keeps_all(t, p);
        assert(p(s[s.len() - 1]));
        assert(s.filter(p) =~= t.push(s.last()));
        assert(t.push(s.last()) =~= s);
    }
}

/// Deleting the forward edge of a newly created spouse relation gives back
/// the edges as they were before: `delete_edge` on the first edge that
/// `create_edge` stored undoes it, the edge in the other direction included.
pub proof fn law_spouse_delete_undoes_create(v: DbView, new_edges: Seq<Edge>, input: crate::models::NewEdge,
    id: Seq<char>, rev_id: Seq<char>)
    requires
        unique_keys(v.edges),
        input.relation_type == EdgeType::Spouse,
        edge_input_error(v, input) is None,
        edge_ids_free(v, input, id, rev_id),
        edges_added(v.edges, new_edges, input, id, rev_id),
    ensures
        lookup(new_edges, id) == Some(new_edges[v.edges.len() as int]),
        ({
            let e = new_edges[v.edges.len() as int];
            new_edges.filter(key_is_not::<Edge>(id)).filter(|x: Edge| !(x.member_id@ == e.related_member_id@
                && x.related_member_id@ == e.member_id@ && x.relation_type@ == e.relation_type@)) == v.edges
        }),
{
    let e0 = v.edges;
    let n = e0.len() as int;
    let f = new_edges[n];
    let b = new_edges[n + 1];
    assert(new_edges =~= e0.push(f).push(b)) by {
        assert forall|i: int| 0 <= i < n implies new_edges[i] == e0[i] by {
            assert(new_edges.take(n)[i] == new_edges[i]);
        }
    }
    crate::store::lemma_has_key_push(e0, f, rev_id);
    crate::store::lemma_push_unique(e0, f);
    crate::store::lemma_push_unique(e0.push(f), b);
    crate::store::lemma_key_index(new_edges, n);
    reveal(Seq::filter);
    let p1 = key_is_not::<Edge>(id);
    let rev = |x: Edge| !(x.member_id@ == f.related_member_id@ && x.related_member_id@ == f.member_id@
        && x.relation_type@ == f.relation_type@);
    assert forall|i: int| 0 <= i < e0.len() implies p1(#[trigger] e0[i]) by {
        if !p1(e0[i]) {
            assert(e0[i].key() == id);
        }
    }
    lemma_filter_keeps_all(e0, p1);
    assert(e0.push(f).drop_last() =~= e0);
    assert(new_edges.drop_last() =~= e0.push(f));
    assert(p1(b) && !p1(f));
    assert(e0.push(f).filter(p1) == e0.filter(p1));
    assert(new_edges.filter(p1) == e0.push(f).filter(p1).push(b));
    assert(new_edges.filter(p1) =~= e0.push(b));
    assert(!has_spouse(e0, input.member_id@));
    assert forall|i: int| 0 <= i < e0.len() implies rev(#[trigger] e0[i]) by {
        if !rev(e0[i]) {
            assert(e0[i].relation_type@ == edge_type_name(EdgeType::Spouse) && e0[i].related_member_id@
                == input.member_id@);
        }
    }
    lemma_filter_keeps_all(e0, rev);
    assert(e0.push(b).drop_last() =~= e0);
    assert(!rev(b));
}

/// A row whose related member exists is kept by the join, joined with that member.
proof fn lemma_join_keeps(rows: Seq<Edge>, members: Seq<Member>, j: int)
    requires
        0 <= j < rows.len(),
        lookup(members, rows[j].related_member_id@) is Some,
    ensures
        join_related(rows, members).contains(joined(rows[j], lookup(members, rows[j].related_member_id@)->0)),
    decreases rows.len(),
{
    let rest = join_related(rows.drop_last(), members);
    let x = joined(rows[j], lookup(members, rows[j].related_member_id@)->0);
    if j == rows.len() - 1 {
        lemma_push_contains(rest, x, x);
    } else {
        assert(rows.drop_last()[j] == rows[j]);
        lemma_join_keeps(rows.drop_last(), members, j);
        match lookup(members, rows.last().related_member_id@) {
            Some(q) => lemma_push_contains(rest, joined(rows.last(), q), x),
            None => {},
        }
    }
}

/// The edges that `create_edge` answers with hold the new relation: after a
/// relation from `a` to `b` is stored, the edges listed for `a` hold the new
/// edge, joined with `b`'s name and grave.
pub proof fn law_created_relation_listed(old_edges: Seq<Edge>, new_edges: Seq<Edge>, members: Seq<Member>,
    input: crate::models::NewEdge, id: Seq<char>, rev_id: Seq<char>, out: Seq<Edge>)
    requires
        unique_keys(members),
        has_key(members, input.related_member_id@),
        edges_added(old_edges, new_edges, input, id, rev_id),
        sorted_rows(join_related(new_edges.filter(edge_of_member(input.member_id@)), members),
            |e: Edge| edge_order(e), out),
    ensures
        out.contains(joined(new_edges[old_edges.len() as int], lookup(members, input.related_member_id@)->0)),
        new_edges[old_edges.len() as int].id@ == id,
        new_edges[old_edges.len() as int].member_id@ == input.member_id@,
        new_edges[old_edges.len() as int].related_member_id@ == input.related_member_id@,
        new_edges[old_edges.len() as int].relation_type@ == edge_type_name(input.relation_type),
{
    broadcast use vstd::seq_lib::group_filter_ensures;
    let n = old_edges.len() as int;
    let f = new_edges[n];
    let pred = edge_of_member(input.member_id@);
    assert(pred(f));
    new_edges.lemma_filter_contains(pred, n);
    let rows = new_edges.filter(pred);
    let j = choose|j: int| 0 <= j < rows.len() && rows[j] == f;
    let k = crate::store::key_index(members, input.related_member_id@);
    crate::store::lemma_key_index(members, k);
    lemma_join_keeps(rows, members, j);
    let joined_rows = join_related(rows, members);
    let t = choose|t: int| 0 <= t < joined_rows.len() && joined_rows[t] == joined(f,
        lookup(members, input.related_member_id@)->0);
    lemma_sorted_contains(joined_rows, |e: Edge| edge_order(e), out, t);
}

/// What `create_edge` answers, once its ids were free and the relation was
/// accepted, is what `list_edges_by_member` lists afterwards for the first
/// member, and it holds the new edge joined with the second member. The
/// stored edges are the old ones followed by the new rows (`edges_added`).
pub proof fn law_create_edge_answer(v0: DbView, v1: DbView, input: crate::models::NewEdge, id: Seq<char>,
    rev_id: Seq<char>, answer: Seq<Edge>, listed: Seq<Edge>)
    requires
        unique_keys(v0.members),
        edge_input_error(v0, input) is None,
        edge_ids_free(v0, input, id, rev_id),
        edges_added(v0.edges, v1.edges, input, id, rev_id),
        v1 == (DbView { edges: v1.edges, ..v0 }),
        sorted_rows(join_related(v1.edges.filter(edge_of_member(input.member_id@)), v1.members),
            |e: Edge| edge_order(e), answer),
        sorted_rows(join_related(v1.edges.filter(edge_of_member(input.member_id@)), v1.members),
            |e: Edge| edge_order(e), listed),
    ensures
        answer == listed,
        answer.contains(joined(v1.edges[v0.edges.len() as int], lookup(v0.members, input.related_member_id@)->0)),
        v1.edges.take(v0.edges.len() as int) == v0.edges,
{
    lemma_sorted_unique(join_related(v1.edges.filter(edge_of_member(input.member_id@)), v1.members),
        |e: Edge| edge_order(e), answer, listed);
    law_created_relation_listed(v0.edges, v1.edges, v0.members, input, id, rev_id, answer);
}

/// A line of descent: each member is a son or daughter of the one before.
pub open spec fn is_line(edges: Seq<Edge>, p: Seq<Seq<char>>) -> bool {
    &&& p.len() >= 1
    &&& forall|i: int| 0 <= i < p.len() - 1 ==> #[trigger] child_edge(edges, p[i], p[i + 1])
}

/// No member descends from itself: the son and daughter edges form no cycle.
pub open spec fn acyclic(edges: Seq<Edge>) -> bool {
    forall|p: Seq<Seq<char>>| #[trigger] is_line(edges, p) && p.len() >= 2 ==> p[0] != p.last()
}

proof fn lemma_descendants_grow(edges: Seq<Edge>, top: Seq<char>, d: nat, e: nat, x: Seq<char>)
    requires
        d <= e,
        descendants(edges, top, d).contains(x),
    ensures
        descendants(edges, top, e).contains(x),
    decreases e - d,
{
    if d < e {
        lemma_descendants_step(edges, top, d, x);
        lemma_descendants_grow(edges, top, d + 1, e, x);
    }
}

/// The end of a line descends from its start, as many generations down as the line has steps.
proof fn lemma_line_descends(edges: Seq<Edge>, p: Seq<Seq<char>>)
    requires
        is_line(edges, p),
    ensures
        descendants(edges, p[0], (p.len() - 1) as nat).contains(p.last()),
    decreases p.len(),
{
    if p.len() > 1 {
        let q = p.drop_last();
        assert forall|i: int| 0 <= i < q.len() - 1 implies #[trigger] child_edge(edges, q[i], q[i + 1]) by {
            assert(child_edge(edges, p[i], p[i + 1]));
        }
        lemma_line_descends(edges, q);
        let k = (p.len() - 2) as nat;
        let i = p.len() - 2;
        assert(child_edge(edges, p[i], p[i + 1]));
        lemma_descendants_step(edges, p[0], k, p.last());
    }
}

/// Without cycles a line takes each edge at most once, so it has at most as
/// many steps as there are edges.
proof fn lemma_line_short(edges: Seq<Edge>, p: Seq<Seq<char>>)
    requires
        acyclic(edges),
        is_line(edges, p),
    ensures
        p.len() - 1 <= edges.len(),
{
    broadcast use vstd::seq_lib::group_seq_properties;
    let k = p.len() - 1;
    let w = Seq::new(k as nat, |i: int| choose|j: int| 0 <= j < edges.len() && #[trigger] child_link(edges[j], p[i], p[i + 1]));
    assert forall|i: int| 0 <= i < k implies 0 <= #[trigger] w[i] < edges.len() && child_link(edges[w[i]], p[i], p[i + 1]) by {
        assert(child_edge(edges, p[i], p[i + 1]));
    }
    assert forall|i: int, j: int| 0 <= i < w.len() && 0 <= j < w.len() && i != j implies w[i] != w[j] by {
        if w[i] == w[j] {
            let (a, b) = if i < j { (i, j) } else { (j, i) };
            assert(p[a] == p[b]);
            let c = p.subrange(a, b + 1);
            assert forall|t: int| 0 <= t < c.len() - 1 implies #[trigger] child_edge(edges, c[t], c[t + 1]) by {
                assert(c[t] == p[a + t] && c[t + 1] == p[a + t + 1]);
                assert(child_edge(edges, p[a + t], p[a + t + 1]));
            }
            assert(is_line(edges, c));
            assert(c[0] == c.last());
        }
    }
    assert(w.no_duplicates());
    w.unique_seq_to_set();
    let r = vstd::set_lib::set_int_range(0, edges.len() as int);
    vstd::set_lib::lemma_int_range(0, edges.len() as int);
    assert forall|x: int| w.to_set().contains(x) implies r.contains(x) by {
        let i = choose|i: int| 0 <= i < w.len() && w[i] == x;
        assert(0 <= w[i] < edges.len());
    }
    vstd::set_lib::lemma_len_subset(w.to_set(), r);
}

/// A son or daughter edge among the new edges is an old one, or the new
/// relation itself.
proof fn lemma_new_child_edge(old_edges: Seq<Edge>, new_edges: Seq<Edge>, input: crate::models::NewEdge,
    id: Seq<char>, rev_id: Seq<char>, x: Seq<char>, y: Seq<char>)
    requires
        edges_added(old_edges, new_edges, input, id, rev_id),
        child_edge(new_edges, x, y),
    ensures
        child_edge(old_edges, x, y) || (input.relation_type != EdgeType::Spouse && x == input.member_id@
            && y == input.related_member_id@),
{
    let n = old_edges.len() as int;
    let j = choose|j: int| 0 <= j < new_edges.len() && #[trigger] child_link(new_edges[j], x, y);
    if j < n {
        assert(new_edges.take(n)[j] == new_edges[j]);
        assert(child_link(old_edges[j], x, y));
    } else if input.relation_type == EdgeType::Spouse {
        assert(!is_child_relation(edge_type_name(EdgeType::Spouse)));
    }
}

/// The first step of `p` from `from` on that is no son or daughter edge.
proof fn first_off_line(edges: Seq<Edge>, p: Seq<Seq<char>>, from: int) -> (i: int)
    requires
        0 <= from < p.len(),
        forall|t: int| 0 <= t < from ==> #[trigger] child_edge(edges, p[t], p[t + 1]),
        exists|t: int| from <= t < p.len() - 1 && !#[trigger] child_edge(edges, p[t], p[t + 1]),
    ensures
        from <= i < p.len() - 1,
        !child_edge(edges, p[i], p[i + 1]),
        forall|t: int| 0 <= t < i ==> #[trigger] child_edge(edges, p[t], p[t + 1]),
    decreases p.len() - from,
{
    if !child_edge(edges, p[from], p[from + 1]) {
        from
    } else {
        first_off_line(edges, p, from + 1)
    }
}

/// The last step of `p` before `to` that is no son or daughter edge.
proof fn last_off_line(edges: Seq<Edge>, p: Seq<Seq<char>>, to: int) -> (j: int)
    requires
        0 < to < p.len(),
        forall|t: int| to <= t < p.len() - 1 ==> #[trigger] child_edge(edges, p[t], p[t + 1]),
        exists|t: int| 0 <= t < to && !#[trigger] child_edge(edges, p[t], p[t + 1]),
    ensures
        0 <= j < to,
        !child_edge(edges, p[j], p[j + 1]),
        forall|t: int| j < t < p.len() - 1 ==> #[trigger] child_edge(edges, p[t], p[t + 1]),
    decreases to,
{
    if !child_edge(edges, p[to - 1], p[to]) {
        to - 1
    } else {
        last_off_line(edges, p, to - 1)
    }
}

/// Creating a relation keeps the son and daughter edges free of cycles: a
/// relation that would make a member its own ancestor is refused.
pub proof fn law_relations_stay_acyclic(v: DbView, new_edges: Seq<Edge>, input: crate::models::NewEdge,
    id: Seq<char>, rev_id: Seq<char>)
    requires
        acyclic(v.edges),
        edge_input_error(v, input) is None,
        edges_added(v.edges, new_edges, input, id, rev_id),
    ensures
        acyclic(new_edges),
{
    let old_edges = v.edges;
    let a = input.member_id@;
    let b = input.related_member_id@;
    assert forall|p: Seq<Seq<char>>| #[trigger] is_line(new_edges, p) && p.len() >= 2 implies p[0] != p.last() by {
        if p[0] == p.last() {
            let k = p.len() - 1;
            assert forall|t: int| 0 <= t < k implies #[trigger] child_edge(old_edges, p[t], p[t + 1])
                || (input.relation_type != EdgeType::Spouse && p[t] == a && p[t + 1] == b) by {
                assert(child_edge(new_edges, p[t], p[t + 1]));
                lemma_new_child_edge(old_edges, new_edges, input, id, rev_id, p[t], p[t + 1]);
            }
            if forall|t: int| 0 <= t < k ==> #[trigger] child_edge(old_edges, p[t], p[t + 1]) {
                assert(is_line(old_edges, p));
            } else {
                let i = first_off_line(old_edges, p, 0);
                let j = last_off_line(old_edges, p, k);
                assert(p[i] == a && p[j + 1] == b);
                let q = p.subrange(j + 1, k + 1) + p.subrange(1, i + 1);
                let m = k - j;
                assert(q.len() == m + i);
                assert(q[0] == b);
                assert(q.last() == a) by {
                    if i == 0 {
                        assert(q.last() == p[k]);
                    } else {
                        assert(q.last() == p[i]);
                    }
                }
                assert forall|t: int| 0 <= t < q.len() - 1 implies #[trigger] child_edge(old_edges, q[t], q[t + 1]) by {
                    if t + 1 < m {
                        assert(q[t] == p[j + 1 + t] && q[t + 1] == p[j + 2 + t]);
                        assert(child_edge(old_edges, p[j + 1 + t], p[j + 1 + t + 1]));
                    } else if t + 1 == m {
                        assert(q[t] == p[k] && q[t + 1] == p[1]);
                        assert(child_edge(old_edges, p[0int], p[0int + 1]));
                    } else {
                        let u = t - m + 1;
                        assert(q[t] == p[u] && q[t + 1] == p[u + 1]);
                        assert(child_edge(old_edges, p[u], p[u + 1]));
                    }
                }
                assert(is_line(old_edges, q));
                lemma_line_short(old_edges, q);
                lemma_line_descends(old_edges, q);
                lemma_descendants_grow(old_edges, b, (q.len() - 1) as nat, old_edges.len() as nat, a);
            }
        }
    }
}

/// Removing edges keeps the son and daughter edges free of cycles: every
/// deletion keeps a filtered part of the edge table.
pub proof fn law_removing_edges_keeps_acyclic(edges: Seq<Edge>, keep: spec_fn(Edge) -> bool)
    requires
        acyclic(edges),
    ensures
        acyclic(edges.filter(keep)),
{
    let f = edges.filter(keep);
    assert forall|p: Seq<Seq<char>>| #[trigger] is_line(f, p) && p.len() >= 2 implies p[0] != p.last() by {
        assert forall|t: int| 0 <= t < p.len() - 1 implies #[trigger] child_edge(edges, p[t], p[t + 1]) by {
            assert(child_edge(f, p[t], p[t + 1]));
            let j = choose|j: int| 0 <= j < f.len() && #[trigger] child_link(f[j], p[t], p[t + 1]);
            crate::store::lemma_filter_source(edges, keep, j);
            let k = choose|k: int| 0 <= k < edges.len() && edges[k] == f[j];
            assert(child_link(edges[k], p[t], p[t + 1]));
        }
        assert(is_line(edges, p));
    }
}

/// The ego graph always holds its centre, and what it holds at one depth it
/// holds at every greater depth.
pub proof fn law_ego_graph_grows(edges: Seq<Edge>, center: Seq<char>, d: nat, x: Seq<char>)
    ensures
        reach(edges, center, d).contains(center),
        reach(edges, center, d).contains(x) ==> reach(edges, center, d + 1).contains(x),
    decreases d,
{
    crate::graph::lemma_reach_step(edges, center, d, x);
    if d > 0 {
        law_ego_graph_grows(edges, center, (d - 1) as nat, center);
        crate::graph::lemma_reach_step(edges, center, (d - 1) as nat, center);
    }
}

/// The keys of the rows kept by `dedup_first` are keys of rows of the input,
/// and no two kept rows share a key.
proof fn lemma_dedup_distinct(s: Seq<Edge>)
    ensures
        forall|i: int| 0 <= i < dedup_first(s).len() ==>
            s.map_values(|e: Edge| dedup_key(e)).contains(dedup_key(#[trigger] dedup_first(s)[i])),
        forall|i: int, j: int| 0 <= i < j < dedup_first(s).len() ==>
            dedup_key(#[trigger] dedup_first(s)[i]) != dedup_key(#[trigger] dedup_first(s)[j]),
    decreases s.len(),
{
    if s.len() > 0 {
        let t = s.drop_last();
        lemma_dedup_distinct(t);
        let d = dedup_first(t);
        let tk = t.map_values(|e: Edge| dedup_key(e));
        let sk = s.map_values(|e: Edge| dedup_key(e));
        assert forall|x: Seq<char>| tk.contains(x) implies sk.contains(x) by {
            let k = choose|k: int| 0 <= k < tk.len() && tk[k] == x;
            assert(sk[k] == x);
        }
        assert(sk[s.len() - 1] == dedup_key(s.last()));
        if !tk.contains(dedup_key(s.last())) {
            let r = d.push(s.last());
            assert(dedup_first(s) == r);
            assert forall|i: int, j: int| 0 <= i < j < r.len() implies
                dedup_key(#[trigger] r[i]) != dedup_key(#[trigger] r[j]) by {
                if j == r.len() - 1 {
                    assert(r[i] == d[i]);
                    assert(tk.contains(dedup_key(d[i])));
                } else {
                    assert(r[i] == d[i] && r[j] == d[j]);
                }
            }
            assert forall|i: int| 0 <= i < r.len() implies sk.contains(dedup_key(#[trigger] r[i])) by {
                if i < d.len() {
                    assert(r[i] == d[i]);
                    assert(tk.contains(dedup_key(d[i])));
                }
            }
        }
    }
}

/// Filtering keeps the rows' keys apart.
proof fn lemma_filter_keeps_apart(s: Seq<Edge>, p: spec_fn(Edge) -> bool)
    requires
        forall|i: int, j: int| 0 <= i < j < s.len() ==> dedup_key(#[trigger] s[i]) != dedup_key(#[trigger] s[j]),
    ensures
        forall|i: int, j: int| 0 <= i < j < s.filter(p).len() ==>
            dedup_key(#[trigger] s.filter(p)[i]) != dedup_key(#[trigger] s.filter(p)[j]),
    decreases s.len(),
{
    reveal(Seq::filter);
    if s.len() > 0 {
        let t = s.drop_last();
        assert forall|i: int, j: int| 0 <= i < j < t.len() implies dedup_key(#[trigger] t[i]) != dedup_key(#[trigger] t[j]) by {
            assert(t[i] == s[i] && t[j] == s[j]);
        }
        lemma_filter_keeps_apart(t, p);
        let f = t.filter(p);
        if p(s.last()) {
            let r = f.push(s.last());
            assert(s.filter(p) == r);
            assert forall|i: int, j: int| 0 <= i < j < r.len() implies dedup_key(#[trigger] r[i]) != dedup_key(#[trigger] r[j]) by {
                if j == r.len() - 1 {
                    assert(r[i] == f[i]);
                    crate::store::lemma_filter_source(t, p, i);
                    let k = choose|k: int| 0 <= k < t.len() && t[k] == f[i];
                    assert(s[k] == t[k]);
                    assert(s[s.len() - 1] == s.last());
                } else {
                    assert(r[i] == f[i] && r[j] == f[j]);
                }
            }
        }
    }
}

proof fn lemma_str_key_injective(a: Seq<char>, b: Seq<char>)
    requires
        str_key(a) == str_key(b),
    ensures
        a == b,
    decreases a.len(),
{
    if a.len() > 0 && b.len() > 0 {
        assert(str_key(a)[0] == str_key(b)[0]);
        vstd::utf8::char_is_scalar(a[0]);
        vstd::utf8::char_is_scalar(b[0]);
        vstd::utf8::char_u32_cast(a[0], a[0] as u32);
        vstd::utf8::char_u32_cast(b[0], b[0] as u32);
        assert(str_key(a)[0] == ((a[0] as u32) as u64 + 1) as u64);
        assert(str_key(b)[0] == ((b[0] as u32) as u64 + 1) as u64);
        assert((a[0] as u32) == (b[0] as u32));
        assert(a[0] == b[0]);
        assert(str_key(a).drop_first() =~= str_key(a.drop_first()));
        assert(str_key(b).drop_first() =~= str_key(b.drop_first()));
        lemma_str_key_injective(a.drop_first(), b.drop_first());
        assert(a =~= seq![a[0]] + a.drop_first());
        assert(b =~= seq![b[0]] + b.drop_first());
    } else if a.len() > 0 {
        assert(str_key(a)[0] == str_key(b)[0]);
        vstd::utf8::char_is_scalar(a[0]);
        assert(str_key(a)[0] == ((a[0] as u32) as u64 + 1) as u64);
        assert(str_key(b)[0] == 0);
    } else if b.len() > 0 {
        assert(str_key(a)[0] == str_key(b)[0]);
        vstd::utf8::char_is_scalar(b[0]);
        assert(str_key(b)[0] == ((b[0] as u32) as u64 + 1) as u64);
        assert(str_key(a)[0] == 0);
    } else {
        assert(a =~= b);
    }
}

/// Two spouse edges that link the same two members share their key.
proof fn lemma_spouse_pair_key(e1: Edge, e2: Edge, x: Seq<char>, y: Seq<char>)
    requires
        e1.relation_type@ == edge_type_name(EdgeType::Spouse),
        e2.relation_type@ == edge_type_name(EdgeType::Spouse),
        links(e1, x, y),
        links(e2, x, y),
    ensures
        dedup_key(e1) == dedup_key(e2),
{
    lemma_lex_total(str_key(x), str_key(y));
    if str_key(x) == str_key(y) {
        lemma_str_key_injective(x, y);
    }
    if lex_lt(str_key(x), str_key(y)) {
        lemma_lex_asym(str_key(x), str_key(y));
    }
    if lex_lt(str_key(y), str_key(x)) {
        lemma_lex_asym(str_key(y), str_key(x));
    }
}

/// In a clan's graph each pair of spouses is shown by one edge, though the
/// pair is stored in both directions.
pub proof fn law_spouse_pair_shown_once(v: DbView, clan_id: Seq<char>, out: Seq<Edge>, x: Seq<char>, y: Seq<char>)
    requires
        clan_graph_edges(v, clan_id, out),
    ensures
        forall|i: int, j: int| 0 <= i < j < out.len() && (#[trigger] out[i]).relation_type@ == edge_type_name(EdgeType::Spouse)
            && (#[trigger] out[j]).relation_type@ == edge_type_name(EdgeType::Spouse) && links(out[i], x, y)
            ==> !links(out[j], x, y),
{
    let ids = clan_member_ids(v, clan_id);
    let s = choose|s: Seq<Edge>| #[trigger] clan_edge_rows(v, ids, s) && out == dedup_first(s).filter(both_in(ids));
    lemma_dedup_distinct(s);
    lemma_filter_keeps_apart(dedup_first(s), both_in(ids));
    assert forall|i: int, j: int| 0 <= i < j < out.len() && (#[trigger] out[i]).relation_type@ == edge_type_name(EdgeType::Spouse)
        && (#[trigger] out[j]).relation_type@ == edge_type_name(EdgeType::Spouse) && links(out[i], x, y)
        implies !links(out[j], x, y) by {
        if links(out[j], x, y) {
            lemma_spouse_pair_key(out[i], out[j], x, y);
        }
    }
}

// ---------------------------------------------------------------------------
// Covers
// ---------------------------------------------------------------------------

/// After a photo is made its entity's cover, it is the only cover among that
/// entity's photos; photos of other entities keep their cover mark.
pub proof fn law_single_cover(images: Seq<Image>, t: Image)
    ensures
        ({
            let after = after_cover(images, t, true);
            &&& after.len() == images.len()
            &&& forall|k: int| 0 <= k < after.len() && (#[trigger] after[k]).entity_type@ == t.entity_type@
                && after[k].entity_id@ == t.entity_id@ ==> (after[k].is_cover <==> after[k].id@ == t.id@)
            &&& forall|k: int| 0 <= k < after.len() && !((#[trigger] images[k]).entity_type@ == t.entity_type@
                && images[k].entity_id@ == t.entity_id@) ==> after[k] == images[k]
        }),
{
    let after = after_cover(images, t, true);
    assert forall|k: int| 0 <= k < after.len() && (#[trigger] after[k]).entity_type@ == t.entity_type@
        && after[k].entity_id@ == t.entity_id@ implies (after[k].is_cover <==> after[k].id@ == t.id@) by {
        if affects(images[k], t, true) {
            assert(after[k] == covered(images[k], t, true));
        } else {
            assert(after[k] == images[k]);
        }
    }
}

/// When `set_image_cover(id, true)` answers with a photo, that photo is `id`,
/// marked as the cover; among the photos of its entity exactly the photo `id`
/// is the cover afterwards, and the photos of other entities are unchanged.
pub proof fn law_set_cover_leaves_one_cover(v0: DbView, id: Seq<char>, v1: DbView, r: Result<Image, AppError>)
    requires
        unique_keys(v0.images),
        cover_outcome(v0, id, true, v1, r),
        r is Ok,
    ensures
        r matches Ok(img) && img.id@ == id && img.is_cover && {
            &&& v1.images.len() == v0.images.len()
            &&& exists|k: int| 0 <= k < v1.images.len() && #[trigger] v1.images[k].id@ == id && v1.images[k].is_cover
            &&& forall|k: int| 0 <= k < v1.images.len() && (#[trigger] v1.images[k]).entity_type@ == img.entity_type@
                && v1.images[k].entity_id@ == img.entity_id@ ==> (v1.images[k].is_cover <==> v1.images[k].id@ == id)
            &&& forall|k: int| 0 <= k < v1.images.len() && !((#[trigger] v0.images[k]).entity_type@ == img.entity_type@
                && v0.images[k].entity_id@ == img.entity_id@) ==> v1.images[k] == v0.images[k]
        },
{
    let t = lookup(v0.images, id)->0;
    let i = key_index(v0.images, id);
    assert(v0.images[i].key() == id);
    law_single_cover(v0.images, t);
    let after = after_cover(v0.images, t, true);
    assert(after[i] == covered(v0.images[i], t, true));
    assert(after[i].id@ == id && after[i].is_cover);
}

// ---------------------------------------------------------------------------
// Search
// ---------------------------------------------------------------------------

proof fn lemma_percent_matches_all(t: Seq<char>)
    ensures
        like(seq!['%'], t),
    decreases t.len(),
{
    assert(seq!['%'].drop_first() =~= Seq::<char>::empty());
    reveal_with_fuel(like, 2);
    if t.len() > 0 {
        lemma_percent_matches_all(t.drop_first());
    }
}

proof fn lemma_literal_prefix(k: Seq<char>, p: Seq<char>, t: Seq<char>)
    requires
        like(p, t),
    ensures
        like(k + p, k + t),
    decreases k.len(),
{
    if k.len() > 0 {
        lemma_literal_prefix(k.drop_first(), p, t);
        let kp = k + p;
        let kt = k + t;
        assert(kp.drop_first() =~= k.drop_first() + p);
        assert(kt.drop_first() =~= k.drop_first() + t);
        assert(kp[0] == k[0] && kt[0] == k[0]);
        if k[0] == '%' {
            // the `%` of the pattern takes the `%` of the text, and then nothing more
            assert(like(kp.drop_first(), kt.drop_first()));
            assert(like(kp, kt.drop_first()));
        }
    } else {
        assert(k + p =~= p);
        assert(k + t =~= t);
    }
}

proof fn lemma_percent_skips(p: Seq<char>, a: Seq<char>, u: Seq<char>)
    requires
        like(p, u),
    ensures
        like(seq!['%'] + p, a + u),
    decreases a.len(),
{
    let q = seq!['%'] + p;
    assert(q.drop_first() =~= p);
    if a.len() > 0 {
        lemma_percent_skips(p, a.drop_first(), u);
        assert((a + u).drop_first() =~= a.drop_first() + u);
    } else {
        assert(a + u =~= u);
    }
}

/// A text that holds the keyword matches the keyword's search pattern:
/// whatever contains the keyword is found.
pub proof fn law_keyword_found(k: Seq<char>, a: Seq<char>, b: Seq<char>)
    ensures
        like(contains_pattern(k), a + k + b),
{
    lemma_percent_matches_all(b);
    lemma_literal_prefix(k, seq!['%'], b);
    lemma_percent_skips(k + seq!['%'], a, k + b);
    assert(contains_pattern(k) =~= seq!['%'] + (k + seq!['%']));
    assert(a + k + b =~= a + (k + b));
}

// ---------------------------------------------------------------------------
// Reminders
// ---------------------------------------------------------------------------

/// A reminder falls within its window, and an anniversary shows a lunar date.
pub open spec fn due_ok(d: Due, days: int) -> bool {
    &&& 0 <= d.days_until <= days
    &&& d.kind == ReminderType::DeathAnniversary ==> text_starts_with(d.lunar_date, "农历"@)
}

pub open spec fn all_ok(s: Seq<Due>, days: int) -> bool {
    forall|i: int| 0 <= i < s.len() ==> due_ok(#[trigger] s[i], days)
}

proof fn lemma_all_ok_add(a: Seq<Due>, b: Seq<Due>, days: int)
    requires
        all_ok(a, days),
        all_ok(b, days),
    ensures
        all_ok(a + b, days),
{
    assert forall|i: int| 0 <= i < (a + b).len() implies due_ok(#[trigger] (a + b)[i], days) by {
        if i < a.len() {
            assert((a + b)[i] == a[i]);
        } else {
            assert((a + b)[i] == b[i - a.len()]);
        }
    }
}

proof fn lemma_due_if_ok(kind: ReminderType, title: Seq<char>, y: int, m: int, d: int, lunar: Seq<char>,
    mid: Option<Seq<char>>, gid: Option<Seq<char>>, today: crate::calendar::Ymd, days: int)
    requires
        kind == ReminderType::DeathAnniversary ==> text_starts_with(lunar, "农历"@),
    ensures
        all_ok(due_if(kind, title, y, m, d, lunar, mid, gid, today, days), days),
        all_ok(lunar_due(kind, title, y, m, d, false, lunar, mid, gid, today, days), days),
{
    reveal(due_if);
    match crate::reminders::solar_of_lunar(y, m, d, false) {
        Some((a, b, c)) => {
            reveal(due_if);
        },
        None => {},
    }
}

proof fn lemma_lunar_due_ok(kind: ReminderType, title: Seq<char>, y: int, m: int, d: int, leap: bool,
    lunar: Seq<char>, mid: Option<Seq<char>>, gid: Option<Seq<char>>, today: crate::calendar::Ymd, days: int)
    requires
        kind == ReminderType::DeathAnniversary ==> text_starts_with(lunar, "农历"@),
    ensures
        all_ok(lunar_due(kind, title, y, m, d, leap, lunar, mid, gid, today, days), days),
{
    reveal(due_if);
}

proof fn lemma_festivals_ok(today: crate::calendar::Ymd, days: int)
    ensures
        all_ok(festivals(today, days), days),
{
    assert forall|y: int| #[trigger] all_ok(festivals_in(y, today, days), days) by {
        reveal(festivals_in);
        reveal(due_if);
        let f = ReminderType::Festival;
        lemma_due_if_ok(f, "清明节"@, y, 4, 5, "公历 4 月 5 日"@, None, None, today, days);
        lemma_lunar_due_ok(f, "重阳节"@, y, 9, 9, false, "农历九月初九"@, None, None, today, days);
        lemma_lunar_due_ok(f, "春节"@, y, 1, 1, false, "农历正月初一"@, None, None, today, days);
        lemma_lunar_due_ok(f, "中元节"@, y, 7, 15, false, "农历七月十五"@, None, None, today, days);
        lemma_lunar_due_ok(f, "寒衣节"@, y, 10, 1, false, "农历十月初一"@, None, None, today, days);
        let a = due_if(f, "清明节"@, y, 4, 5, "公历 4 月 5 日"@, None, None, today, days);
        let b = lunar_due(f, "重阳节"@, y, 9, 9, false, "农历九月初九"@, None, None, today, days);
        let c = lunar_due(f, "春节"@, y, 1, 1, false, "农历正月初一"@, None, None, today, days);
        let d = lunar_due(f, "中元节"@, y, 7, 15, false, "农历七月十五"@, None, None, today, days);
        let e = lunar_due(f, "寒衣节"@, y, 10, 1, false, "农历十月初一"@, None, None, today, days);
        lemma_all_ok_add(a, b, days);
        lemma_all_ok_add(a + b, c, days);
        lemma_all_ok_add(a + b + c, d, days);
        lemma_all_ok_add(a + b + c + d, e, days);
    }
    let y = today.year as int;
    lemma_all_ok_add(festivals_in(y, today, days), festivals_in(y + 1, today, days), days);
    lemma_all_ok_add(festivals_in(y, today, days) + festivals_in(y + 1, today, days),
        festivals_in(y + 2, today, days), days);
}

proof fn lemma_anniversaries_ok(m: crate::models::Member, today: crate::calendar::Ymd, days: int)
    ensures
        all_ok(anniversaries(m, today, days), days),
{
    reveal(anniversaries);
    match crate::reminders::parsed_date(crate::reminders::death_text(m)) {
        Some((y, mo, d)) => match crate::reminders::lunar_of_solar(y, mo, d) {
            Some((ly, lm, ld, leap)) => {
                let lunar = lunar_text(lm, ld);
                assert(lunar.take(2) =~= "农历"@) by {
                    reveal_strlit("农历");
                }
                let title = crate::reminders::mourning_title(m);
                let mid = Some(m.id@);
                let gid = crate::store::opt_view(m.grave_id);
                let k = ReminderType::DeathAnniversary;
                let yr = today.year as int;
                lemma_lunar_due_ok(k, title, yr, lm, ld, leap, lunar, mid, gid, today, days);
                lemma_lunar_due_ok(k, title, yr + 1, lm, ld, leap, lunar, mid, gid, today, days);
                lemma_lunar_due_ok(k, title, yr + 2, lm, ld, leap, lunar, mid, gid, today, days);
                let a = lunar_due(k, title, yr, lm, ld, leap, lunar, mid, gid, today, days);
                let b = lunar_due(k, title, yr + 1, lm, ld, leap, lunar, mid, gid, today, days);
                let c = lunar_due(k, title, yr + 2, lm, ld, leap, lunar, mid, gid, today, days);
                lemma_all_ok_add(a, b, days);
                lemma_all_ok_add(a + b, c, days);
            },
            None => {},
        },
        None => {},
    }
}

proof fn lemma_death_dues_ok(ms: Seq<crate::models::Member>, today: crate::calendar::Ymd, days: int)
    ensures
        all_ok(death_dues(ms, today, days), days),
    decreases ms.len(),
{
    if ms.len() > 0 {
        lemma_death_dues_ok(ms.drop_last(), today, days);
        lemma_anniversaries_ok(ms.last(), today, days);
        lemma_all_ok_add(death_dues(ms.drop_last(), today, days), anniversaries(ms.last(), today, days), days);
        lemma_all_ok_add(death_dues(ms.drop_last(), today, days), Seq::<Due>::empty(), days);
    }
}

/// Every reminder of a window falls within it (from today to `days` days
/// later), and every death anniversary shows its date in the lunar calendar.
pub proof fn law_reminders_within_window(v: DbView, today: crate::calendar::Ymd, days: int)
    ensures
        forall|i: int| 0 <= i < reminder_dues(v, today, days).len() ==> {
            let d = #[trigger] reminder_dues(v, today, days)[i];
            &&& 0 <= d.days_until <= days
            &&& d.kind == ReminderType::DeathAnniversary ==> text_starts_with(d.lunar_date, "农历"@)
        },
{
    lemma_death_dues_ok(v.members, today, days);
    lemma_festivals_ok(today, days);
    lemma_all_ok_add(death_dues(v.members, today, days), festivals(today, days), days);
    assert forall|i: int| 0 <= i < reminder_dues(v, today, days).len() implies {
        let d = #[trigger] reminder_dues(v, today, days)[i];
        &&& 0 <= d.days_until <= days
        &&& d.kind == ReminderType::DeathAnniversary ==> text_starts_with(d.lunar_date, "农历"@)
    } by {
        assert(due_ok(reminder_dues(v, today, days)[i], days));
    }
}

// ---------------------------------------------------------------------------
// Pages and backups
// ---------------------------------------------------------------------------

/// Without a limit or an offset a listing is returned whole; with a limit, a
/// page holds at most that many items; an offset past the end gives an
/// empty page.
pub proof fn law_pages<T>(s: Seq<T>, limit: Option<usize>, offset: Option<usize>)
    ensures
        page(s, None, None) == s,
        limit matches Some(n) ==> page(s, limit, offset).len() <= n,
        offset matches Some(o) && o >= s.len() ==> page(s, limit, offset).len() == 0,
{
    assert(page(s, None, None) =~= s);
}

/// The directory a restore keeps replaced data in is one the cleanup of old
/// copies recognises.
pub proof fn law_restore_copies_recognised(stamp: Seq<char>)
    ensures
        text_starts_with(restore_copy_prefix() + stamp, restore_copy_prefix()),
{
    assert((restore_copy_prefix() + stamp).take(restore_copy_prefix().len() as int) =~= restore_copy_prefix());
}

// ---------------------------------------------------------------------------
// What the answers hold
// ---------------------------------------------------------------------------

/// A keyword search of graves finds every stored grave whose name, address
/// or description contains the keyword: whatever `search_graves(keyword)`
/// answers holds it.
pub proof fn law_search_finds_grave_texts(v: DbView, keyword: Seq<char>, out: Seq<crate::models::Grave>, i: int,
    a: Seq<char>, b: Seq<char>)
    requires
        sorted_rows(v.graves.filter(crate::search::grave_matches(contains_pattern(keyword))),
            |g: crate::models::Grave| crate::grave::grave_order(g), out),
        0 <= i < v.graves.len(),
        v.graves[i].name@ == a + keyword + b || opt_is(v.graves[i].address, a + keyword + b)
            || opt_is(v.graves[i].description, a + keyword + b),
    ensures
        out.contains(v.graves[i]),
{
    broadcast use vstd::seq_lib::group_filter_ensures;
    law_keyword_found(keyword, a, b);
    let p = crate::search::grave_matches(contains_pattern(keyword));
    assert(p(v.graves[i]));
    v.graves.lemma_filter_contains(p, i);
    let f = v.graves.filter(p);
    let j = choose|j: int| 0 <= j < f.len() && f[j] == v.graves[i];
    lemma_sorted_contains(f, |g: crate::models::Grave| crate::grave::grave_order(g), out, j);
}

/// A keyword search of members finds the grave of every member whose name or
/// biography contains the keyword: `search_members(keyword)` answers with it.
pub proof fn law_search_finds_member_graves(v: DbView, keyword: Seq<char>, out: Seq<crate::models::Grave>, i: int,
    t: int, a: Seq<char>, b: Seq<char>)
    requires
        sorted_rows(v.graves.filter(crate::search::grave_has_matching_member(v.members, contains_pattern(keyword))),
            |g: crate::models::Grave| crate::grave::grave_order(g), out),
        0 <= i < v.members.len(),
        0 <= t < v.graves.len(),
        opt_is(v.members[i].grave_id, v.graves[t].id@),
        v.members[i].name@ == a + keyword + b || opt_is(v.members[i].biography, a + keyword + b),
    ensures
        out.contains(v.graves[t]),
{
    broadcast use vstd::seq_lib::group_filter_ensures;
    law_keyword_found(keyword, a, b);
    let pat = contains_pattern(keyword);
    assert(crate::search::member_matches(pat)(v.members[i]));
    let p = crate::search::grave_has_matching_member(v.members, pat);
    assert(p(v.graves[t]));
    v.graves.lemma_filter_contains(p, t);
    let f = v.graves.filter(p);
    let j = choose|j: int| 0 <= j < f.len() && f[j] == v.graves[t];
    lemma_sorted_contains(f, |g: crate::models::Grave| crate::grave::grave_order(g), out, j);
}

/// A keyword search of clans finds every clan whose name or origin contains
/// the keyword.
pub proof fn law_search_finds_clan_texts(v: DbView, keyword: Seq<char>, out: Seq<crate::models::Clan>, i: int,
    a: Seq<char>, b: Seq<char>)
    requires
        sorted_rows(v.clans.filter(crate::search::clan_matches(contains_pattern(keyword))),
            |c: crate::models::Clan| crate::clan::clan_order(c), out),
        0 <= i < v.clans.len(),
        v.clans[i].name@ == a + keyword + b || opt_is(v.clans[i].origin, a + keyword + b),
    ensures
        out.contains(v.clans[i]),
{
    broadcast use vstd::seq_lib::group_filter_ensures;
    law_keyword_found(keyword, a, b);
    let p = crate::search::clan_matches(contains_pattern(keyword));
    assert(p(v.clans[i]));
    v.clans.lemma_filter_contains(p, i);
    let f = v.clans.filter(p);
    let j = choose|j: int| 0 <= j < f.len() && f[j] == v.clans[i];
    lemma_sorted_contains(f, |c: crate::models::Clan| crate::clan::clan_order(c), out, j);
}

proof fn lemma_concat_contains<A>(s: Seq<A>, t: Seq<A>, e: A)
    requires
        s.contains(e) || t.contains(e),
    ensures
        (s + t).contains(e),
{
    if s.contains(e) {
        let k = choose|k: int| 0 <= k < s.len() && s[k] == e;
        assert((s + t)[k] == e);
    } else {
        let k = choose|k: int| 0 <= k < t.len() && t[k] == e;
        assert((s + t)[s.len() + k] == e);
    }
}

/// What a dated member contributes to the anniversaries of the members.
proof fn lemma_death_dues_hold(ms: Seq<Member>, i: int, today: crate::calendar::Ymd, days: int, x: Due)
    requires
        0 <= i < ms.len(),
        crate::reminders::has_death_date(ms[i]),
        anniversaries(ms[i], today, days).contains(x),
    ensures
        death_dues(ms, today, days).contains(x),
    decreases ms.len(),
{
    let rest = ms.drop_last();
    if i == ms.len() - 1 {
        lemma_concat_contains(death_dues(rest, today, days), anniversaries(ms.last(), today, days), x);
    } else {
        assert(rest[i] == ms[i]);
        lemma_death_dues_hold(rest, i, today, days, x);
        let tail = if crate::reminders::has_death_date(ms.last()) {
            anniversaries(ms.last(), today, days)
        } else {
            Seq::<Due>::empty()
        };
        lemma_concat_contains(death_dues(rest, today, days), tail, x);
    }
}

/// The reminders list each dated member's anniversary in this lunar year and
/// in each of the next two: for `k` in 0..=2, when the member's lunar death
/// month and day of lunar year `today.year + k` has a solar date within the
/// window, `list_reminders_on(today, days)` answers with a death anniversary
/// of that member on that date.
pub proof fn law_anniversaries_listed(v: DbView, today: crate::calendar::Ymd, days: int,
    out: Seq<crate::models::Reminder>, i: int, k: int, y: int, mo: int, d: int, ly: int, lm: int, ld: int,
    leap: bool, sy: int, sm: int, sd: int)
    requires
        sorted_rows(reminder_dues(v, today, days), |x: Due| crate::reminders::due_key(x),
            out.map_values(|r: crate::models::Reminder| crate::reminders::due_of(r))),
        0 <= i < v.members.len(),
        crate::reminders::has_death_date(v.members[i]),
        crate::reminders::parsed_date(crate::reminders::death_text(v.members[i])) == Some((y, mo, d)),
        crate::reminders::lunar_of_solar(y, mo, d) == Some((ly, lm, ld, leap)),
        0 <= k <= 2,
        crate::reminders::solar_of_lunar(today.year + k, lm, ld, leap) == Some((sy, sm, sd)),
        crate::calendar::valid_ymd(sy, sm, sd),
        crate::calendar::day_number(today) <= crate::calendar::days_from_civil(sy, sm, sd)
            <= crate::calendar::day_number(today) + days,
    ensures
        exists|j: int| 0 <= j < out.len() && #[trigger] out[j].reminder_type == ReminderType::DeathAnniversary
            && crate::store::opt_view(out[j].member_id) == Some(v.members[i].id@)
            && out[j].date@ == crate::calendar::ymd_text(crate::calendar::Ymd { year: sy as i32, month: sm as u32,
                day: sd as u32 })
            && out[j].days_until == crate::calendar::days_from_civil(sy, sm, sd) - crate::calendar::day_number(today),
{
    let m = v.members[i];
    let date = crate::calendar::Ymd { year: sy as i32, month: sm as u32, day: sd as u32 };
    assert(crate::calendar::day_number(date) == crate::calendar::days_from_civil(sy, sm, sd));
    let title = crate::reminders::mourning_title(m);
    let lunar = lunar_text(lm, ld);
    let mid = Some(m.id@);
    let gid = crate::store::opt_view(m.grave_id);
    let x = Due {
        kind: ReminderType::DeathAnniversary,
        title,
        date: crate::calendar::ymd_text(date),
        lunar_date: lunar,
        member_id: mid,
        grave_id: gid,
        days_until: crate::calendar::days_from_civil(sy, sm, sd) - crate::calendar::day_number(today),
    };
    reveal(due_if);
    reveal(anniversaries);
    let a0 = lunar_due(ReminderType::DeathAnniversary, title, today.year as int, lm, ld, leap, lunar, mid, gid,
        today, days);
    let a1 = lunar_due(ReminderType::DeathAnniversary, title, today.year + 1, lm, ld, leap, lunar, mid, gid,
        today, days);
    let a2 = lunar_due(ReminderType::DeathAnniversary, title, today.year + 2, lm, ld, leap, lunar, mid, gid,
        today, days);
    assert(anniversaries(m, today, days) == a0 + a1 + a2);
    let ak = lunar_due(ReminderType::DeathAnniversary, title, today.year + k, lm, ld, leap, lunar, mid, gid,
        today, days);
    assert(ak == seq![x]);
    assert(ak[0] == x);
    if k == 0 {
        assert(a0 == ak);
        lemma_concat_contains(a0, a1, x);
        lemma_concat_contains(a0 + a1, a2, x);
    } else if k == 1 {
        assert(a1 == ak);
        lemma_concat_contains(a0, a1, x);
        lemma_concat_contains(a0 + a1, a2, x);
    } else {
        assert(a2 == ak);
        lemma_concat_contains(a0 + a1, a2, x);
    }
    lemma_death_dues_hold(v.members, i, today, days, x);
    lemma_concat_contains(death_dues(v.members, today, days), festivals(today, days), x);
    let rows = reminder_dues(v, today, days);
    let idx = choose|idx: int| 0 <= idx < rows.len() && rows[idx] == x;
    let listed = out.map_values(|r: crate::models::Reminder| crate::reminders::due_of(r));
    lemma_sorted_contains(rows, |x: Due| crate::reminders::due_key(x), listed, idx);
    let j = choose|j: int| 0 <= j < listed.len() && listed[j] == x;
    assert(crate::reminders::due_of(out[j]) == x);
    assert(out[j].reminder_type == ReminderType::DeathAnniversary);
}

/// Uploads are accepted by their extension exactly where the photo is then
/// served as an image: a file name's extension passes the upload check
/// precisely when `mime_type` gives it an image content type, and the
/// accepted extensions are jpg, jpeg, png, gif, webp, heic and heif.
pub proof fn law_upload_extensions_are_served_images(name: Seq<char>)
    ensures
        crate::upload::allowed_ext(crate::upload::upload_ext(Some(name)))
            <==> crate::upload::mime_of(name) != "application/octet-stream"@,
        crate::upload::allowed_ext("jpg"@) && crate::upload::allowed_ext("jpeg"@) && crate::upload::allowed_ext("png"@)
            && crate::upload::allowed_ext("gif"@) && crate::upload::allowed_ext("webp"@)
            && crate::upload::allowed_ext("heic"@) && crate::upload::allowed_ext("heif"@),
{
    reveal_strlit("application/octet-stream");
    reveal_strlit("image/jpeg");
    reveal_strlit("image/png");
    reveal_strlit("image/gif");
    reveal_strlit("image/webp");
    reveal_strlit("image/heic");
    reveal_strlit("image/heif");
    reveal_strlit("bin");
    reveal_strlit("jpg");
    reveal_strlit("jpeg");
    reveal_strlit("png");
    reveal_strlit("gif");
    reveal_strlit("webp");
    reveal_strlit("heic");
    reveal_strlit("heif");
    assert("image/jpeg"@[0] != "application/octet-stream"@[0]);
    assert("image/png"@[0] != "application/octet-stream"@[0]);
    assert("image/gif"@[0] != "application/octet-stream"@[0]);
    assert("image/webp"@[0] != "application/octet-stream"@[0]);
    assert("image/heic"@[0] != "application/octet-stream"@[0]);
    assert("image/heif"@[0] != "application/octet-stream"@[0]);
    assert("bin"@[0] != "jpg"@[0] && "bin"@[0] != "jpeg"@[0] && "bin"@[0] != "png"@[0] && "bin"@[0] != "gif"@[0]);
    assert("bin"@[0] != "webp"@[0] && "bin"@[0] != "heic"@[0] && "bin"@[0] != "heif"@[0]);
}

/// The members of a clan come deceased first, then living; members with the
/// same living mark by their order index; and with the same order index by
/// name: for any two members of the listing of `list_members_by_clan`, the
/// earlier one never sorts after the later one on these.
pub proof fn law_clan_members_in_order(v: DbView, clan_id: Seq<char>, alive: Option<bool>, out: Seq<Member>,
    i: int, j: int)
    requires
        sorted_rows(v.members.filter(crate::member::member_in_clan(clan_id, alive)),
            |m: Member| crate::member::member_clan_order(m), out),
        0 <= i < j < out.len(),
    ensures
        !(out[i].is_alive && !out[j].is_alive),
        out[i].is_alive == out[j].is_alive ==> out[i].order_index <= out[j].order_index,
        out[i].is_alive == out[j].is_alive && out[i].order_index == out[j].order_index
            ==> !lex_lt(str_key(out[j].name@), str_key(out[i].name@)),
{
    crate::sort::lemma_sorted_pair_order(v.members.filter(crate::member::member_in_clan(clan_id, alive)),
        |m: Member| crate::member::member_clan_order(m), out, i, j);
    let ki = crate::member::member_clan_order(out[i]);
    let kj = crate::member::member_clan_order(out[j]);
    assert(!lex_lt(kj, ki));
    let bi = crate::sort::bool_key(out[i].is_alive);
    let bj = crate::sort::bool_key(out[j].is_alive);
    let oi = crate::sort::i32_key(out[i].order_index);
    let oj = crate::sort::i32_key(out[j].order_index);
    assert(ki[0] == bi && kj[0] == bj);
    assert(ki.drop_first() =~= seq![oi] + str_key(out[i].name@));
    assert(kj.drop_first() =~= seq![oj] + str_key(out[j].name@));
    assert(ki.drop_first()[0] == oi && kj.drop_first()[0] == oj);
    assert(ki.drop_first().drop_first() =~= str_key(out[i].name@));
    assert(kj.drop_first().drop_first() =~= str_key(out[j].name@));
    if out[i].is_alive && !out[j].is_alive {
        assert(lex_lt(kj, ki));
    }
    if out[i].is_alive == out[j].is_alive {
        if out[i].order_index > out[j].order_index {
            assert(oj < oi);
            assert(lex_lt(kj.drop_first(), ki.drop_first()));
            assert(lex_lt(kj, ki));
        }
        if out[i].order_index == out[j].order_index && lex_lt(str_key(out[j].name@), str_key(out[i].name@)) {
            assert(lex_lt(kj.drop_first(), ki.drop_first()));
            assert(lex_lt(kj, ki));
        }
    }
}

/// Every edge of a clan's graph joins two of the people listed with it:
/// both ends of each edge that `list_graph_by_clan` answers with are ids of
/// the members it answers with.
pub proof fn law_clan_graph_edges_between_its_members(v: DbView, clan_id: Seq<char>, ms: Seq<Member>,
    es: Seq<Edge>, k: int)
    requires
        sorted_rows(v.members.filter(crate::graph::clan_people(v, clan_id)),
            |m: Member| crate::member::member_clan_order(m), ms),
        clan_graph_edges(v, clan_id, es),
        0 <= k < es.len(),
    ensures
        exists|a: int| 0 <= a < ms.len() && #[trigger] ms[a].id@ == es[k].member_id@,
        exists|b: int| 0 <= b < ms.len() && #[trigger] ms[b].id@ == es[k].related_member_id@,
{
    broadcast use vstd::seq_lib::group_filter_ensures;
    let ids = clan_member_ids(v, clan_id);
    let s = choose|s: Seq<Edge>| #[trigger] clan_edge_rows(v, ids, s) && es == dedup_first(s).filter(both_in(ids));
    dedup_first(s).lemma_filter_pred(both_in(ids), k);
    let f = v.members.filter(crate::graph::clan_people(v, clan_id));
    assert(ids == keys_of(f));
    let x = es[k].member_id@;
    let y = es[k].related_member_id@;
    assert(ids.contains(x) && ids.contains(y));
    let p = choose|p: int| 0 <= p < ids.len() && ids[p] == x;
    let q = choose|q: int| 0 <= q < ids.len() && ids[q] == y;
    assert(f[p].id@ == x && f[q].id@ == y);
    lemma_sorted_contains(f, |m: Member| crate::member::member_clan_order(m), ms, p);
    lemma_sorted_contains(f, |m: Member| crate::member::member_clan_order(m), ms, q);
    let a = choose|a: int| 0 <= a < ms.len() && ms[a] == f[p];
    let b = choose|b: int| 0 <= b < ms.len() && ms[b] == f[q];
    assert(ms[a].id@ == x);
    assert(ms[b].id@ == y);
}

/// The clan listing holds exactly the clan's members with the asked living
/// mark (the living ones when none is asked): `list_members_by_clan` answers
/// with every such member, and with no other row.
pub proof fn law_clan_members_listed(v: DbView, clan_id: Seq<char>, alive: Option<bool>, out: Seq<Member>)
    requires
        sorted_rows(v.members.filter(crate::member::member_in_clan(clan_id, alive)),
            |m: Member| crate::member::member_clan_order(m), out),
    ensures
        forall|i: int| 0 <= i < v.members.len() && opt_is(v.members[i].clan_id, clan_id)
            && v.members[i].is_alive == (match alive { Some(a) => a, None => true })
            ==> out.contains(#[trigger] v.members[i]),
        forall|j: int| 0 <= j < out.len() ==> v.members.contains(#[trigger] out[j])
            && opt_is(out[j].clan_id, clan_id) && out[j].is_alive == (match alive { Some(a) => a, None => true }),
{
    broadcast use vstd::seq_lib::group_filter_ensures;
    let p = crate::member::member_in_clan(clan_id, alive);
    let f = v.members.filter(p);
    let kf = |m: Member| crate::member::member_clan_order(m);
    assert forall|i: int| 0 <= i < v.members.len() && opt_is(v.members[i].clan_id, clan_id)
        && v.members[i].is_alive == (match alive { Some(a) => a, None => true })
        implies out.contains(#[trigger] v.members[i]) by {
        assert(p(v.members[i]));
        v.members.lemma_filter_contains(p, i);
        let j = choose|j: int| 0 <= j < f.len() && f[j] == v.members[i];
        lemma_sorted_contains(f, kf, out, j);
    }
    assert forall|j: int| 0 <= j < out.len() implies v.members.contains(#[trigger] out[j])
        && opt_is(out[j].clan_id, clan_id) && out[j].is_alive == (match alive { Some(a) => a, None => true }) by {
        crate::sort::lemma_sorted_from(f, kf, out, j);
        let k = choose|k: int| 0 <= k < f.len() && f[k] == out[j];
        crate::store::lemma_filter_source(v.members, p, k);
    }
}

/// A clan's graph holds all its people: every member of the clan and every
/// member buried in one of the clan's graves is among the members that
/// `list_graph_by_clan` answers with.
pub proof fn law_clan_graph_holds_its_people(v: DbView, clan_id: Seq<char>, ms: Seq<Member>, i: int)
    requires
        sorted_rows(v.members.filter(crate::graph::clan_people(v, clan_id)),
            |m: Member| crate::member::member_clan_order(m), ms),
        0 <= i < v.members.len(),
        opt_is(v.members[i].clan_id, clan_id) || exists|t: int| 0 <= t < v.graves.len()
            && opt_is(#[trigger] v.graves[t].clan_id, clan_id) && opt_is(v.members[i].grave_id, v.graves[t].id@),
    ensures
        ms.contains(v.members[i]),
{
    broadcast use vstd::seq_lib::group_filter_ensures;
    let gs = v.graves.filter(grave_in_clan(clan_id));
    if !opt_is(v.members[i].clan_id, clan_id) {
        let t = choose|t: int| 0 <= t < v.graves.len()
            && opt_is(#[trigger] v.graves[t].clan_id, clan_id) && opt_is(v.members[i].grave_id, v.graves[t].id@);
        v.graves.lemma_filter_contains(grave_in_clan(clan_id), t);
        let u = choose|u: int| 0 <= u < gs.len() && gs[u] == v.graves[t];
        assert(keys_of(gs)[u] == v.graves[t].id@);
        assert(keys_of(gs).contains(v.graves[t].id@));
    }
    let p = crate::graph::clan_people(v, clan_id);
    assert(p(v.members[i]));
    v.members.lemma_filter_contains(p, i);
    let f = v.members.filter(p);
    let j = choose|j: int| 0 <= j < f.len() && f[j] == v.members[i];
    lemma_sorted_contains(f, |m: Member| crate::member::member_clan_order(m), ms, j);
}

/// The reminders list Qingming, April 5th, of this year and the next two
/// wherever it falls within the window: `list_reminders_on(today, days)`
/// answers with a festival titled 清明节 on that date.
#[verifier::spinoff_prover]
#[verifier::rlimit(60)]
pub proof fn law_qingming_listed(v: DbView, today: crate::calendar::Ymd, days: int,
    out: Seq<crate::models::Reminder>, k: int)
    requires
        sorted_rows(reminder_dues(v, today, days), |x: Due| crate::reminders::due_key(x),
            out.map_values(|r: crate::models::Reminder| crate::reminders::due_of(r))),
        0 <= k <= 2,
        crate::calendar::valid_ymd(today.year + k, 4, 5),
        crate::calendar::day_number(today) <= crate::calendar::days_from_civil(today.year + k, 4, 5)
            <= crate::calendar::day_number(today) + days,
    ensures
        exists|j: int| 0 <= j < out.len() && #[trigger] out[j].reminder_type == ReminderType::Festival
            && out[j].title@ == "清明节"@
            && out[j].date@ == crate::calendar::ymd_text(crate::calendar::Ymd { year: (today.year + k) as i32,
                month: 4, day: 5 }),
{
    reveal(due_if);
    reveal(festivals_in);
    let y = today.year + k;
    let date = crate::calendar::Ymd { year: y as i32, month: 4, day: 5 };
    assert(crate::calendar::day_number(date) == crate::calendar::days_from_civil(y, 4, 5));
    let q = due_if(ReminderType::Festival, "清明节"@, y, 4, 5, "公历 4 月 5 日"@, None, None, today, days);
    let x = q[0];
    assert(q.len() == 1);
    let fy = festivals_in(y, today, days);
    assert(fy[0] == x);
    assert(fy.contains(x));
    let f0 = festivals_in(today.year as int, today, days);
    let f1 = festivals_in(today.year + 1, today, days);
    let f2 = festivals_in(today.year + 2, today, days);
    if k == 0 {
        assert(f0 == fy);
        lemma_concat_contains(f0, f1, x);
        lemma_concat_contains(f0 + f1, f2, x);
    } else if k == 1 {
        assert(f1 == fy);
        lemma_concat_contains(f0, f1, x);
        lemma_concat_contains(f0 + f1, f2, x);
    } else {
        assert(f2 == fy);
        lemma_concat_contains(f0 + f1, f2, x);
    }
    assert(festivals(today, days) == f0 + f1 + f2);
    lemma_concat_contains(death_dues(v.members, today, days), festivals(today, days), x);
    let rows = reminder_dues(v, today, days);
    let idx = choose|idx: int| 0 <= idx < rows.len() && rows[idx] == x;
    let listed = out.map_values(|r: crate::models::Reminder| crate::reminders::due_of(r));
    lemma_sorted_contains(rows, |x: Due| crate::reminders::due_key(x), listed, idx);
    let j = choose|j: int| 0 <= j < listed.len() && listed[j] == x;
    assert(crate::reminders::due_of(out[j]) == x);
}

} // verus!
