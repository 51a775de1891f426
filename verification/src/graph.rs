//! Kinship edges and the graphs built from them.
use vstd::prelude::*;
use crate::db::{ClanTrailDb, DbView, concat_str, key_is_not};
use crate::error::{AppError, db_error, invalid_input, not_found};
use crate::member::{member_clan_order, member_clan_key};
use crate::clan::member_of_clan_or_graves;
use crate::grave::grave_in_clan;
use crate::models::{Edge, EdgeType, Grave, Member, NewEdge, edge_type_name, new_uuid, now_iso};
use crate::sort::{order_rows, push_str_key, sorted_rows, str_key, lex_less, lex_lt};
use crate::store::{Keyed, has_key, lookup, keys_of, position, retain_where, keys_vec, contains_str,
    lemma_filter_unique, clone_opt, opt_view};
use crate::text::{chars_of, chars_eq, str_eq, string_of};

verus! {

/// The edge as returned by queries: the related member's name and grave are
/// filled in from the member row.
pub open spec fn joined(e: Edge, p: Member) -> Edge {
    Edge { related_member_name: Some(p.name), related_member_grave_id: p.grave_id, ..e }
}

/// Rows joined with the member at their related end; rows whose related
/// member does not exist are dropped (an inner join).
pub open spec fn join_related(rows: Seq<Edge>, members: Seq<Member>) -> Seq<Edge>
    decreases rows.len(),
{
    if rows.len() == 0 {
        Seq::empty()
    } else {
        let rest = join_related(rows.drop_last(), members);
        match lookup(members, rows.last().related_member_id@) {
            Some(p) => rest.push(joined(rows.last(), p)),
            None => rest,
        }
    }
}

pub open spec fn is_child_relation(t: Seq<char>) -> bool {
    t == edge_type_name(EdgeType::Son) || t == edge_type_name(EdgeType::Daughter)
}

/// The edges a member sees: those it starts, and the son/daughter edges that
/// end at it (spouse edges are stored in both directions).
pub open spec fn edge_of_member(m: Seq<char>) -> spec_fn(Edge) -> bool {
    |e: Edge| e.member_id@ == m || (e.related_member_id@ == m && is_child_relation(e.relation_type@))
}

/// Query order of a member's edges: by relation type, then related member's name.
pub open spec fn edge_order(e: Edge) -> Seq<u64> {
    str_key(e.relation_type@) + str_key(match e.related_member_name { Some(n) => n@, None => Seq::empty() })
}

/// Query order of a clan's edges: by relation type.
pub open spec fn edge_type_order(e: Edge) -> Seq<u64> {
    str_key(e.relation_type@)
}

/// `e` is the stored row of a new edge with these fields.
pub open spec fn is_edge_row(e: Edge, id: Seq<char>, from: Seq<char>, to: Seq<char>, t: EdgeType,
    now: Seq<char>, side: Option<Seq<char>>) -> bool {
    &&& e.id@ == id
    &&& e.member_id@ == from
    &&& e.related_member_id@ == to
    &&& e.relation_type@ == edge_type_name(t)
    &&& e.created_at@ == now
    &&& opt_view(e.side) == side
    &&& e.version == 1
    &&& !e.deleted
    &&& e.related_member_name is None
    &&& e.related_member_grave_id is None
}

/// An edge from `from` to `to` of type `t` is already stored.
pub open spec fn relation_exists(edges: Seq<Edge>, from: Seq<char>, to: Seq<char>, t: Seq<char>) -> bool {
    exists|i: int| 0 <= i < edges.len() && #[trigger] edges[i].member_id@ == from
        && edges[i].related_member_id@ == to && edges[i].relation_type@ == t
}

/// The check a new edge must pass before it is stored, in order; `None` when it passes.
pub open spec fn edge_input_error(v: DbView, input: NewEdge) -> Option<(bool, Seq<char>)> {
    if !has_key(v.members, input.member_id@) {
        Some((false, "member "@ + input.member_id@))
    } else if !has_key(v.members, input.related_member_id@) {
        Some((false, "member "@ + input.related_member_id@))
    } else if input.member_id@ == input.related_member_id@ {
        Some((true, "cannot create self-relation"@))
    } else if relation_exists(v.edges, input.member_id@, input.related_member_id@, edge_type_name(input.relation_type)) {
        Some((true, "relation already exists"@))
    } else if input.relation_type == EdgeType::Spouse && (has_spouse(v.edges, input.member_id@)
        || has_spouse(v.edges, input.related_member_id@)) {
        Some((true, "member already has a spouse"@))
    } else if input.relation_type != EdgeType::Spouse && descendants(v.edges, input.related_member_id@,
        v.edges.len() as nat).contains(input.member_id@) {
        Some((true, "cannot create parent-child cycle"@))
    } else {
        None
    }
}

/// `x` has a spouse: a spouse edge starts or ends at it.
pub open spec fn has_spouse(edges: Seq<Edge>, x: Seq<char>) -> bool {
    exists|i: int| 0 <= i < edges.len() && #[trigger] edges[i].relation_type@ == edge_type_name(EdgeType::Spouse)
        && (edges[i].member_id@ == x || edges[i].related_member_id@ == x)
}

/// Edge `e` is a son or daughter edge from parent `p` to child `c`.
pub open spec fn child_link(e: Edge, p: Seq<char>, c: Seq<char>) -> bool {
    e.member_id@ == p && e.related_member_id@ == c && is_child_relation(e.relation_type@)
}

/// Some son or daughter edge runs from parent `p` to child `c`.
pub open spec fn child_edge(edges: Seq<Edge>, p: Seq<char>, c: Seq<char>) -> bool {
    exists|i: int| 0 <= i < edges.len() && #[trigger] child_link(edges[i], p, c)
}

/// `prev` and the children of its members.
pub open spec fn expand_down(edges: Seq<Edge>, prev: Set<Seq<char>>) -> Set<Seq<char>> {
    Set::new(|x: Seq<char>| prev.contains(x) || exists|y: Seq<char>| #[trigger] prev.contains(y) && child_edge(edges, y, x))
}

/// `top` and its descendants at most `d` generations down. With `d` the
/// number of edges this is every descendant, since a line of descent uses
/// each edge at most once.
pub open spec fn descendants(edges: Seq<Edge>, top: Seq<char>, d: nat) -> Set<Seq<char>>
    decreases d,
{
    if d == 0 {
        set![top]
    } else {
        expand_down(edges, descendants(edges, top, (d - 1) as nat))
    }
}

/// The store accepts both new rows: fresh, distinct ids.
pub open spec fn edge_ids_free(v: DbView, input: NewEdge, id: Seq<char>, rev_id: Seq<char>) -> bool {
    &&& !has_key(v.edges, id)
    &&& input.relation_type == EdgeType::Spouse ==> (!has_key(v.edges, rev_id) && rev_id != id)
}

/// The edges after a new relation is stored: the edge, and for a spouse the
/// edge in the other direction too.
pub open spec fn edges_added(old_edges: Seq<Edge>, new_edges: Seq<Edge>, input: NewEdge, id: Seq<char>,
    rev_id: Seq<char>) -> bool {
    let side = opt_view(input.side);
    let t = input.relation_type;
    if t == EdgeType::Spouse {
        &&& new_edges.len() == old_edges.len() + 2
        &&& new_edges.take(old_edges.len() as int) == old_edges
        &&& is_edge_row(new_edges[old_edges.len() as int], id, input.member_id@, input.related_member_id@, t,
            new_edges[old_edges.len() as int].created_at@, side)
        &&& is_edge_row(new_edges[old_edges.len() as int + 1], rev_id, input.related_member_id@, input.member_id@, t,
            new_edges[old_edges.len() as int].created_at@, side)
    } else {
        &&& new_edges.len() == old_edges.len() + 1
        &&& new_edges.take(old_edges.len() as int) == old_edges
        &&& is_edge_row(new_edges[old_edges.len() as int], id, input.member_id@, input.related_member_id@, t,
            new_edges[old_edges.len() as int].created_at@, side)
    }
}

/// Edges with at least one end among `ids`.
pub open spec fn touches_any(ids: Seq<Seq<char>>) -> spec_fn(Edge) -> bool {
    |e: Edge| ids.contains(e.member_id@) || ids.contains(e.related_member_id@)
}

/// Edges with both ends among `ids`.
pub open spec fn both_in(ids: Seq<Seq<char>>) -> spec_fn(Edge) -> bool {
    |e: Edge| ids.contains(e.member_id@) && ids.contains(e.related_member_id@)
}

/// The text `a|b`.
pub open spec fn pair_text(a: Seq<char>, b: Seq<char>) -> Seq<char> {
    a + seq!['|'] + b
}

/// The text by which a clan's graph keeps one edge of a kind: a spouse pair
/// (stored in both directions) by its two ends, the smaller id first; any
/// other edge by its id.
pub open spec fn dedup_key(e: Edge) -> Seq<char> {
    if e.relation_type@ == edge_type_name(EdgeType::Spouse) {
        if lex_lt(str_key(e.member_id@), str_key(e.related_member_id@)) {
            pair_text(e.member_id@, e.related_member_id@)
        } else {
            pair_text(e.related_member_id@, e.member_id@)
        }
    } else {
        e.id@
    }
}

/// The rows whose key did not occur in an earlier row.
pub open spec fn dedup_first(s: Seq<Edge>) -> Seq<Edge>
    decreases s.len(),
{
    if s.len() == 0 {
        s
    } else {
        let d = dedup_first(s.drop_last());
        if s.drop_last().map_values(|e: Edge| dedup_key(e)).contains(dedup_key(s.last())) {
            d
        } else {
            d.push(s.last())
        }
    }
}

/// The people of a clan, living and deceased: those who belong to it
/// directly and those buried in its graves.
pub open spec fn clan_people(v: DbView, clan_id: Seq<char>) -> spec_fn(Member) -> bool {
    member_of_clan_or_graves(clan_id, keys_of(v.graves.filter(grave_in_clan(clan_id))))
}

/// The ids of a clan's people.
pub open spec fn clan_member_ids(v: DbView, clan_id: Seq<char>) -> Seq<Seq<char>> {
    keys_of(v.members.filter(clan_people(v, clan_id)))
}

/// The edges of a clan's graph: edges touching its members, joined with the
/// related member and ordered by relation type, with spouse pairs kept once,
/// restricted to edges with both ends in the clan.
pub open spec fn clan_graph_edges(v: DbView, clan_id: Seq<char>, out: Seq<Edge>) -> bool {
    let ids = clan_member_ids(v, clan_id);
    exists|s: Seq<Edge>| #[trigger] clan_edge_rows(v, ids, s) && out == dedup_first(s).filter(both_in(ids))
}

/// `s` holds the edges touching `ids`, joined and ordered by relation type.
pub open spec fn clan_edge_rows(v: DbView, ids: Seq<Seq<char>>, s: Seq<Edge>) -> bool {
    sorted_rows(join_related(v.edges.filter(touches_any(ids)), v.members), |e: Edge| edge_type_order(e), s)
}

fn dedup_key_of(e: &Edge) -> (k: Vec<char>)
    ensures
        k@ == dedup_key(*e),
{
    if str_eq(e.relation_type.as_str(), EdgeType::Spouse.as_str()) {
        let mut ka: Vec<u64> = Vec::new();
        push_str_key(&mut ka, e.member_id.as_str());
        let mut kb: Vec<u64> = Vec::new();
        push_str_key(&mut kb, e.related_member_id.as_str());
        let (a, b) = if lex_less(&ka, &kb) {
            (e.member_id.as_str(), e.related_member_id.as_str())
        } else {
            (e.related_member_id.as_str(), e.member_id.as_str())
        };
        let mut k = chars_of(a);
        k.push('|');
        let mut kb2 = chars_of(b);
        k.append(&mut kb2);
        assert(k@ =~= dedup_key(*e));
        k
    } else {
        chars_of(e.id.as_str())
    }
}

fn contains_chars(seen: &Vec<Vec<char>>, k: &Vec<char>) -> (r: bool)
    ensures
        r == seen@.map_values(|x: Vec<char>| x@).contains(k@),
{
    let ghost sv = seen@.map_values(|x: Vec<char>| x@);
    let mut i: usize = 0;
    while i < seen.len()
        invariant
            i <= seen.len(),
            sv == seen@.map_values(|x: Vec<char>| x@),
            forall|j: int| 0 <= j < i ==> sv[j] != k@,
        decreases seen.len() - i,
    {
        if chars_eq(&seen[i], k) {
            assert(sv[i as int] == k@);
            return true;
        }
        i = i + 1;
    }
    false
}

/// Keeps the first row of each key.
fn dedup_rows(s: Vec<Edge>) -> (r: Vec<Edge>)
    ensures
        r@ == dedup_first(s@),
{
    let mut seen: Vec<Vec<char>> = Vec::new();
    let mut out: Vec<Edge> = Vec::new();
    let mut i: usize = 0;
    while i < s.len()
        invariant
            i <= s.len(),
            seen@.map_values(|x: Vec<char>| x@) == s@.take(i as int).map_values(|e: Edge| dedup_key(e)),
            out@ == dedup_first(s@.take(i as int)),
        decreases s.len() - i,
    {
        let k = dedup_key_of(&s[i]);
        let dup = contains_chars(&seen, &k);
        proof {
            assert(s@.take(i as int + 1).drop_last() =~= s@.take(i as int));
            assert(s@.take(i as int + 1).last() == s@[i as int]);
        }
        if !dup {
            out.push(s[i].duplicate());
        }
        let ghost before = seen@;
        seen.push(k);
        proof {
            let a = seen@.map_values(|x: Vec<char>| x@);
            let b = s@.take(i as int + 1).map_values(|e: Edge| dedup_key(e));
            assert(before.map_values(|x: Vec<char>| x@).len() == s@.take(i as int).map_values(|e: Edge| dedup_key(e)).len());
            assert(before.len() == i);
            assert(b.len() == i + 1);
            assert(a.len() == b.len());
            assert forall|j: int| 0 <= j < a.len() implies a[j] == b[j] by {
                if j < i {
                    assert(seen@[j] == before[j]);
                    assert(before.map_values(|x: Vec<char>| x@)[j] == s@.take(i as int).map_values(|e: Edge| dedup_key(e))[j]);
                }
            }
            assert(seen@.map_values(|x: Vec<char>| x@) =~= s@.take(i as int + 1).map_values(|e: Edge| dedup_key(e)));
        }
        i = i + 1;
    }
    assert(s@.take(s.len() as int) =~= s@);
    out
}

/// Edge `e` links `x` and `y`, in either direction.
pub open spec fn links(e: Edge, x: Seq<char>, y: Seq<char>) -> bool {
    (e.member_id@ == x && e.related_member_id@ == y) || (e.related_member_id@ == x && e.member_id@ == y)
}

/// Some edge links `x` and `y`.
pub open spec fn adjacent(edges: Seq<Edge>, x: Seq<char>, y: Seq<char>) -> bool {
    exists|i: int| 0 <= i < edges.len() && #[trigger] links(edges[i], x, y)
}

/// `prev` and everything adjacent to a member of `prev`.
pub open spec fn expand(edges: Seq<Edge>, prev: Set<Seq<char>>) -> Set<Seq<char>> {
    Set::new(|x: Seq<char>| prev.contains(x) || exists|y: Seq<char>| #[trigger] prev.contains(y) && adjacent(edges, y, x))
}

/// Everything at most `d` edges away from `start`, edges taken in either direction.
pub open spec fn reach(edges: Seq<Edge>, start: Seq<char>, d: nat) -> Set<Seq<char>>
    decreases d,
{
    if d == 0 {
        set![start]
    } else {
        expand(edges, reach(edges, start, (d - 1) as nat))
    }
}

pub proof fn lemma_push_contains<A>(s: Seq<A>, x: A, y: A)
    ensures
        s.push(x).contains(y) <==> (s.contains(y) || y == x),
{
    if s.contains(y) {
        let i = choose|i: int| 0 <= i < s.len() && s[i] == y;
        assert(s.push(x)[i] == y);
    }
    if y == x {
        assert(s.push(x)[s.len() as int] == y);
    }
    if s.push(x).contains(y) {
        let i = choose|i: int| 0 <= i < s.len() + 1 && s.push(x)[i] == y;
        if i < s.len() {
            assert(s[i] == y);
        }
    }
}

pub proof fn lemma_reach_step(edges: Seq<Edge>, start: Seq<char>, d: nat, x: Seq<char>)
    ensures
        reach(edges, start, d + 1).contains(x) == (reach(edges, start, d).contains(x) || exists|y: Seq<char>|
            #[trigger] reach(edges, start, d).contains(y) && adjacent(edges, y, x)),
{
    assert(reach(edges, start, d + 1) == expand(edges, reach(edges, start, d)));
}

pub proof fn lemma_descendants_step(edges: Seq<Edge>, top: Seq<char>, d: nat, x: Seq<char>)
    ensures
        descendants(edges, top, d + 1).contains(x) == (descendants(edges, top, d).contains(x) || exists|y: Seq<char>|
            #[trigger] descendants(edges, top, d).contains(y) && child_edge(edges, y, x)),
{
    assert(descendants(edges, top, d + 1) == expand_down(edges, descendants(edges, top, d)));
}

/// Whether `x` descends from `top` (or is `top`) through the son and
/// daughter edges, at most `depth` generations down.
fn descends_within(edges: &Vec<Edge>, top: &str, x: &str, depth: usize) -> (r: bool)
    ensures
        r == descendants(edges@, top@, depth as nat).contains(x@),
{
    let ghost es = edges@;
    let ghost m = top@;
    let mut visited: Vec<String> = Vec::new();
    visited.push(string_of(top));
    let mut frontier: Vec<String> = Vec::new();
    frontier.push(string_of(top));
    assert(view_of(visited@) =~= seq![m]);
    assert(view_of(frontier@) =~= seq![m]);
    assert forall|y: Seq<char>| view_of(visited@).contains(y) <==> #[trigger] descendants(es, m, 0nat).contains(y) by {
        if y == m {
            assert(view_of(visited@)[0] == m);
        }
    }
    let mut layer: usize = 0;
    while layer < depth
        invariant
            layer <= depth,
            edges@ == es,
            forall|y: Seq<char>| view_of(visited@).contains(y) <==> #[trigger] descendants(es, m, layer as nat).contains(y),
            forall|y: Seq<char>, z: Seq<char>| view_of(visited@).contains(y) && !view_of(frontier@).contains(y)
                && #[trigger] child_edge(es, y, z) ==> view_of(visited@).contains(z),
            forall|y: Seq<char>| #[trigger] view_of(frontier@).contains(y) ==> view_of(visited@).contains(y),
        decreases depth - layer,
    {
        let ghost vis0 = view_of(visited@);
        let ghost front = view_of(frontier@);
        let mut next: Vec<String> = Vec::new();
        let mut f: usize = 0;
        while f < frontier.len()
            invariant
                edges@ == es,
                front == view_of(frontier@),
                f <= frontier.len(),
                forall|y: Seq<char>| #[trigger] front.contains(y) ==> vis0.contains(y),
                forall|z: Seq<char>| #[trigger] view_of(visited@).contains(z) <==> (vis0.contains(z)
                    || exists|g: int| 0 <= g < f && #[trigger] child_edge(es, front[g], z)),
                forall|z: Seq<char>| #[trigger] view_of(next@).contains(z) <==> (view_of(visited@).contains(z)
                    && !vis0.contains(z)),
            decreases frontier.len() - f,
        {
            let mid = &frontier[f];
            let ghost md = mid@;
            assert(md == front[f as int]);
            assert(front.contains(md));
            let mut i: usize = 0;
            while i < edges.len()
                invariant
                    edges@ == es,
                    front == view_of(frontier@),
                    f < frontier.len(),
                    md == front[f as int],
                    mid@ == md,
                    vis0.contains(md),
                    i <= es.len(),
                    forall|y: Seq<char>| #[trigger] front.contains(y) ==> vis0.contains(y),
                    forall|z: Seq<char>| #[trigger] view_of(visited@).contains(z) <==> (vis0.contains(z)
                        || (exists|g: int| 0 <= g < f && #[trigger] child_edge(es, front[g], z))
                        || (exists|j: int| 0 <= j < i && #[trigger] child_link(es[j], md, z))),
                    forall|z: Seq<char>| #[trigger] view_of(next@).contains(z) <==> (view_of(visited@).contains(z)
                        && !vis0.contains(z)),
                decreases es.len() - i,
            {
                let e = &edges[i];
                if str_eq(e.member_id.as_str(), mid.as_str()) && is_child_type(e.relation_type.as_str())
                    && !contains_str(&visited, e.related_member_id.as_str()) {
                    assert(*e == es[i as int]);
                    let ghost vis1 = view_of(visited@);
                    let ghost nx1 = view_of(next@);
                    let ghost b = e.related_member_id@;
                    visited.push(string_of(e.related_member_id.as_str()));
                    next.push(string_of(e.related_member_id.as_str()));
                    assert(view_of(visited@) =~= vis1.push(b));
                    assert(view_of(next@) =~= nx1.push(b));
                    proof {
                        assert(child_link(es[i as int], md, b));
                        assert forall|z: Seq<char>| #[trigger] view_of(visited@).contains(z) <==> (vis0.contains(z)
                            || (exists|g: int| 0 <= g < f && #[trigger] child_edge(es, front[g], z))
                            || (exists|j: int| 0 <= j < i + 1 && #[trigger] child_link(es[j], md, z))) by {
                            lemma_push_contains(vis1, b, z);
                            if exists|j: int| 0 <= j < i + 1 && #[trigger] child_link(es[j], md, z) {
                                let j = choose|j: int| 0 <= j < i + 1 && #[trigger] child_link(es[j], md, z);
                                if j == i {
                                    assert(z == b);
                                }
                            }
                        }
                        assert forall|z: Seq<char>| #[trigger] view_of(next@).contains(z) <==> (view_of(visited@).contains(z)
                            && !vis0.contains(z)) by {
                            lemma_push_contains(nx1, b, z);
                            lemma_push_contains(vis1, b, z);
                        }
                    }
                } else {
                    proof {
                        assert forall|z: Seq<char>| #[trigger] view_of(visited@).contains(z) <==> (vis0.contains(z)
                            || (exists|g: int| 0 <= g < f && #[trigger] child_edge(es, front[g], z))
                            || (exists|j: int| 0 <= j < i + 1 && #[trigger] child_link(es[j], md, z))) by {
                            if child_link(es[i as int], md, z) {
                                assert(edges@[i as int] == es[i as int]);
                                assert(view_of(visited@).contains(z));
                            }
                        }
                    }
                }
                i = i + 1;
            }
            proof {
                assert forall|z: Seq<char>| #[trigger] view_of(visited@).contains(z) <==> (vis0.contains(z)
                    || exists|g: int| 0 <= g < f + 1 && #[trigger] child_edge(es, front[g], z)) by {
                    if exists|j: int| 0 <= j < es.len() && #[trigger] child_link(es[j], md, z) {
                        assert(child_edge(es, front[f as int], z));
                    }
                    if child_edge(es, front[f as int], z) {
                        let j = choose|j: int| 0 <= j < es.len() && #[trigger] child_link(es[j], front[f as int], z);
                        assert(child_link(es[j], md, z));
                    }
                }
            }
            f = f + 1;
        }
        proof {
            let nl = (layer + 1) as nat;
            assert forall|y: Seq<char>| view_of(visited@).contains(y) <==> #[trigger] descendants(es, m, nl).contains(y) by {
                lemma_descendants_step(es, m, layer as nat, y);
                if view_of(visited@).contains(y) && !vis0.contains(y) {
                    let g = choose|g: int| 0 <= g < front.len() && #[trigger] child_edge(es, front[g], y);
                    assert(front.contains(front[g]));
                    assert(descendants(es, m, layer as nat).contains(front[g]));
                }
                if descendants(es, m, nl).contains(y) && !descendants(es, m, layer as nat).contains(y) {
                    let w = choose|w: Seq<char>| #[trigger] descendants(es, m, layer as nat).contains(w)
                        && child_edge(es, w, y);
                    assert(vis0.contains(w));
                    if front.contains(w) {
                        let g = choose|g: int| 0 <= g < front.len() && front[g] == w;
                        assert(child_edge(es, front[g], y));
                    }
                }
            }
            assert forall|y: Seq<char>, z: Seq<char>| view_of(visited@).contains(y) && !view_of(next@).contains(y)
                && #[trigger] child_edge(es, y, z) implies view_of(visited@).contains(z) by {
                assert(vis0.contains(y));
                if front.contains(y) {
                    let g = choose|g: int| 0 <= g < front.len() && front[g] == y;
                    assert(child_edge(es, front[g], z));
                }
            }
        }
        frontier = next;
        layer = layer + 1;
    }
    contains_str(&visited, x)
}

/// The members of the ego graph: those within `depth` edges of the centre, in table order.
pub open spec fn ego_members(v: DbView, center: Seq<char>, depth: nat) -> Seq<Member> {
    v.members.filter(|p: Member| reach(v.edges, center, depth).contains(p.id@))
}

/// The edges of the ego graph: those starting at a member of the graph, and
/// the son/daughter edges ending at one, joined with the related member.
pub open spec fn ego_edges(v: DbView, center: Seq<char>, depth: nat) -> Seq<Edge> {
    join_related(v.edges.filter(|e: Edge| reach(v.edges, center, depth).contains(e.member_id@)
        || (reach(v.edges, center, depth).contains(e.related_member_id@) && is_child_relation(e.relation_type@))),
        v.members)
}

pub open spec fn view_of(v: Seq<String>) -> Seq<Seq<char>> {
    v.map_values(|s: String| s@)
}

/// Joins rows with the member at their related end.
fn join_rows(rows: &Vec<Edge>, members: &Vec<Member>) -> (r: Vec<Edge>)
    requires
        crate::store::unique_keys(members@),
    ensures
        r@ == join_related(rows@, members@),
{
    let mut out: Vec<Edge> = Vec::new();
    let mut i: usize = 0;
    while i < rows.len()
        invariant
            i <= rows.len(),
            crate::store::unique_keys(members@),
            out@ == join_related(rows@.take(i as int), members@),
        decreases rows.len() - i,
    {
        let e = &rows[i];
        proof {
            assert(rows@.take(i as int + 1).drop_last() =~= rows@.take(i as int));
            assert(rows@.take(i as int + 1).last() == rows@[i as int]);
        }
        match position(members, e.related_member_id.as_str()) {
            Some(k) => {
                let p = &members[k];
                out.push(Edge {
                    id: e.id.clone(),
                    member_id: e.member_id.clone(),
                    related_member_id: e.related_member_id.clone(),
                    relation_type: e.relation_type.clone(),
                    created_at: e.created_at.clone(),
                    side: clone_opt(&e.side),
                    version: e.version,
                    deleted: e.deleted,
                    related_member_name: Some(p.name.clone()),
                    related_member_grave_id: clone_opt(&p.grave_id),
                });
            },
            None => {},
        }
        i = i + 1;
    }
    assert(rows@.take(rows.len() as int) =~= rows@);
    out
}

fn edge_key(e: &Edge) -> (k: Vec<u64>)
    ensures
        k@ == edge_order(*e),
{
    let mut k: Vec<u64> = Vec::new();
    push_str_key(&mut k, e.relation_type.as_str());
    match &e.related_member_name {
        Some(n) => push_str_key(&mut k, n.as_str()),
        None => push_str_key(&mut k, ""),
    }
    proof { reveal_strlit(""); }
    k
}

fn edge_type_key(e: &Edge) -> (k: Vec<u64>)
    ensures
        k@ == edge_type_order(*e),
{
    let mut k: Vec<u64> = Vec::new();
    push_str_key(&mut k, e.relation_type.as_str());
    k
}

fn is_child_type(t: &str) -> (b: bool)
    ensures
        b == is_child_relation(t@),
{
    str_eq(t, EdgeType::Son.as_str()) || str_eq(t, EdgeType::Daughter.as_str())
}

impl ClanTrailDb {
    /// The edges of a member: those it starts, and the son/daughter edges that
    /// end at it, with the related member's name and grave, ordered by
    /// relation type and then by that name.
    pub fn list_edges_by_member(&self, member_id: &str) -> (r: Result<Vec<Edge>, AppError>)
        ensures
            r matches Ok(v) && sorted_rows(join_related(self@.edges.filter(edge_of_member(member_id@)), self@.members),
                |e: Edge| edge_order(e), v@),
    {
        let rows = retain_where(self.edges(),
            |e: &Edge| -> (b: bool) ensures b == edge_of_member(member_id@)(*e) {
                str_eq(e.member_id.as_str(), member_id)
                    || (str_eq(e.related_member_id.as_str(), member_id) && is_child_type(e.relation_type.as_str()))
            },
            Ghost(edge_of_member(member_id@)));
        let joined_rows = join_rows(&rows, self.members());
        Ok(order_rows(joined_rows, |e: &Edge| -> (k: Vec<u64>) ensures k@ == edge_order(*e) { edge_key(e) },
            Ghost(|e: Edge| edge_order(e))))
    }

    /// Stores a relation under the given ids, stamped with `now`, once both
    /// members exist, differ, and the relation is not stored yet. A spouse
    /// relation is stored in both directions; son and daughter only from
    /// parent to child. Returns the edges of the first member.
    pub fn insert_edge(&mut self, input: NewEdge, id: String, rev_id: String, now: String)
        -> (r: Result<Vec<Edge>, AppError>)
        ensures
            edge_input_error(old(self)@, input) matches Some(e) ==> (final(self)@ == old(self)@ && if e.0 {
                invalid_input(r, e.1) } else { not_found(r, e.1) }),
            edge_input_error(old(self)@, input) is None && !edge_ids_free(old(self)@, input, id@, rev_id@)
                ==> (db_error(r) && final(self)@ == old(self)@),
            edge_input_error(old(self)@, input) is None && edge_ids_free(old(self)@, input, id@, rev_id@) ==> {
                &&& edges_added(old(self)@.edges, final(self)@.edges, input, id@, rev_id@)
                &&& final(self)@.edges[old(self)@.edges.len() as int].created_at@ == now@
                &&& final(self)@ == (DbView { edges: final(self)@.edges, ..old(self)@ })
                &&& r matches Ok(v) && sorted_rows(join_related(final(self)@.edges.filter(
                    edge_of_member(input.member_id@)), final(self)@.members), |e: Edge| edge_order(e), v@)
            },
    {
        let ghost v = self@;
        if position(self.members(), input.member_id.as_str()).is_none() {
            return Err(AppError::NotFound(concat_str("member ", input.member_id.as_str())));
        }
        if position(self.members(), input.related_member_id.as_str()).is_none() {
            return Err(AppError::NotFound(concat_str("member ", input.related_member_id.as_str())));
        }
        if str_eq(input.member_id.as_str(), input.related_member_id.as_str()) {
            return Err(AppError::InvalidInput(string_of("cannot create self-relation")));
        }
        let t = input.relation_type.as_str();
        let mut i: usize = 0;
        while i < self.edges().len()
            invariant
                self@ == v,
                old(self)@ == v,
                has_key(v.members, input.member_id@),
                has_key(v.members, input.related_member_id@),
                input.member_id@ != input.related_member_id@,
                i <= v.edges.len(),
                t@ == edge_type_name(input.relation_type),
                forall|j: int| 0 <= j < i ==> !(#[trigger] v.edges[j].member_id@ == input.member_id@
                    && v.edges[j].related_member_id@ == input.related_member_id@
                    && v.edges[j].relation_type@ == t@),
            decreases v.edges.len() - i,
        {
            let e = &self.edges()[i];
            if str_eq(e.member_id.as_str(), input.member_id.as_str())
                && str_eq(e.related_member_id.as_str(), input.related_member_id.as_str())
                && str_eq(e.relation_type.as_str(), t) {
                assert(v.edges[i as int].member_id@ == input.member_id@
                    && v.edges[i as int].related_member_id@ == input.related_member_id@
                    && v.edges[i as int].relation_type@ == edge_type_name(input.relation_type));
                return Err(AppError::InvalidInput(string_of("relation already exists")));
            }
            i = i + 1;
        }
        proof {
            if relation_exists(v.edges, input.member_id@, input.related_member_id@, t@) {
                let k = choose|k: int| 0 <= k < v.edges.len() && #[trigger] v.edges[k].member_id@ == input.member_id@
                    && v.edges[k].related_member_id@ == input.related_member_id@ && v.edges[k].relation_type@ == t@;
                assert(!(v.edges[k].member_id@ == input.member_id@
                    && v.edges[k].related_member_id@ == input.related_member_id@ && v.edges[k].relation_type@ == t@));
            }
        }
        let spouse = input.relation_type == EdgeType::Spouse;
        if spouse {
            let spouse_ty = EdgeType::Spouse.as_str();
            let mut j: usize = 0;
            while j < self.edges().len()
                invariant
                    self@ == v,
                    old(self)@ == v,
                    has_key(v.members, input.member_id@),
                    has_key(v.members, input.related_member_id@),
                    input.member_id@ != input.related_member_id@,
                    !relation_exists(v.edges, input.member_id@, input.related_member_id@,
                        edge_type_name(input.relation_type)),
                    input.relation_type == EdgeType::Spouse,
                    j <= v.edges.len(),
                    spouse_ty@ == edge_type_name(EdgeType::Spouse),
                    forall|k: int| 0 <= k < j ==> !(#[trigger] v.edges[k].relation_type@ == edge_type_name(EdgeType::Spouse)
                        && (v.edges[k].member_id@ == input.member_id@ || v.edges[k].related_member_id@ == input.member_id@
                        || v.edges[k].member_id@ == input.related_member_id@
                        || v.edges[k].related_member_id@ == input.related_member_id@)),
                decreases v.edges.len() - j,
            {
                let e = &self.edges()[j];
                if str_eq(e.relation_type.as_str(), spouse_ty)
                    && (str_eq(e.member_id.as_str(), input.member_id.as_str())
                    || str_eq(e.related_member_id.as_str(), input.member_id.as_str())
                    || str_eq(e.member_id.as_str(), input.related_member_id.as_str())
                    || str_eq(e.related_member_id.as_str(), input.related_member_id.as_str())) {
                    proof {
                        if v.edges[j as int].member_id@ == input.member_id@
                            || v.edges[j as int].related_member_id@ == input.member_id@ {
                            assert(has_spouse(v.edges, input.member_id@));
                        } else {
                            assert(has_spouse(v.edges, input.related_member_id@));
                        }
                    }
                    return Err(AppError::InvalidInput(string_of("member already has a spouse")));
                }
                j = j + 1;
            }
            proof {
                if has_spouse(v.edges, input.member_id@) {
                    let k = choose|k: int| 0 <= k < v.edges.len() && #[trigger] v.edges[k].relation_type@
                        == edge_type_name(EdgeType::Spouse)
                        && (v.edges[k].member_id@ == input.member_id@ || v.edges[k].related_member_id@ == input.member_id@);
                    assert(!(v.edges[k].relation_type@ == edge_type_name(EdgeType::Spouse)
                        && (v.edges[k].member_id@ == input.member_id@ || v.edges[k].related_member_id@ == input.member_id@
                        || v.edges[k].member_id@ == input.related_member_id@
                        || v.edges[k].related_member_id@ == input.related_member_id@)));
                }
                if has_spouse(v.edges, input.related_member_id@) {
                    let k = choose|k: int| 0 <= k < v.edges.len() && #[trigger] v.edges[k].relation_type@
                        == edge_type_name(EdgeType::Spouse)
                        && (v.edges[k].member_id@ == input.related_member_id@
                        || v.edges[k].related_member_id@ == input.related_member_id@);
                    assert(!(v.edges[k].relation_type@ == edge_type_name(EdgeType::Spouse)
                        && (v.edges[k].member_id@ == input.member_id@ || v.edges[k].related_member_id@ == input.member_id@
                        || v.edges[k].member_id@ == input.related_member_id@
                        || v.edges[k].related_member_id@ == input.related_member_id@)));
                }
            }
        } else if descends_within(self.edges(), input.related_member_id.as_str(), input.member_id.as_str(),
            self.edges().len()) {
            return Err(AppError::InvalidInput(string_of("cannot create parent-child cycle")));
        }
        if position(self.edges(), id.as_str()).is_some()
            || (spouse && (position(self.edges(), rev_id.as_str()).is_some() || str_eq(id.as_str(), rev_id.as_str()))) {
            return Err(AppError::Database(concat_str("UNIQUE constraint failed: ", "edges.id")));
        }
        let forward = Edge {
            id: id,
            member_id: input.member_id.clone(),
            related_member_id: input.related_member_id.clone(),
            relation_type: string_of(t),
            created_at: now.clone(),
            side: clone_opt(&input.side),
            version: 1,
            deleted: false,
            related_member_name: None,
            related_member_grave_id: None,
        };
        self.push_edge(forward);
        if spouse {
            let backward = Edge {
                id: rev_id,
                member_id: input.related_member_id.clone(),
                related_member_id: input.member_id.clone(),
                relation_type: string_of(t),
                created_at: now,
                side: clone_opt(&input.side),
                version: 1,
                deleted: false,
                related_member_name: None,
                related_member_grave_id: None,
            };
            self.push_edge(backward);
        }
        proof {
            assert(self@.edges.take(v.edges.len() as int) =~= v.edges);
        }
        self.list_edges_by_member(input.member_id.as_str())
    }

    /// Stores a relation with fresh ids and the current time (see `insert_edge`).
    pub fn create_edge(&mut self, input: NewEdge) -> (r: Result<Vec<Edge>, AppError>)
        ensures
            edge_input_error(old(self)@, input) matches Some(e) ==> (final(self)@ == old(self)@ && if e.0 {
                invalid_input(r, e.1) } else { not_found(r, e.1) }),
            edge_input_error(old(self)@, input) is None ==> (
                (db_error(r) && final(self)@ == old(self)@) || (exists|id: Seq<char>, rev_id: Seq<char>| {
                    &&& edge_ids_free(old(self)@, input, id, rev_id)
                    &&& #[trigger] edges_added(old(self)@.edges, final(self)@.edges, input, id, rev_id)
                    &&& final(self)@ == (DbView { edges: final(self)@.edges, ..old(self)@ })
                    &&& r matches Ok(v) && sorted_rows(join_related(final(self)@.edges.filter(
                        edge_of_member(input.member_id@)), final(self)@.members), |e: Edge| edge_order(e), v@)
                })),
            edge_input_error(old(self)@, input) is None && old(self)@.edges.len() == 0
                && input.relation_type != EdgeType::Spouse ==> r is Ok,
    {
        let id = new_uuid();
        let rev_id = new_uuid();
        let now = now_iso();
        let ghost ids = (id@, rev_id@);
        let r = self.insert_edge(input, id, rev_id, now);
        proof {
            if edge_input_error(old(self)@, input) is None && edge_ids_free(old(self)@, input, ids.0, ids.1) {
                assert(edges_added(old(self)@.edges, self@.edges, input, ids.0, ids.1));
            }
        }
        r
    }

    /// Deletes an edge and the edge of the same type in the other direction.
    pub fn delete_edge(&mut self, id: &str) -> (r: Result<(), AppError>)
        ensures
            match lookup(old(self)@.edges, id@) {
                None => final(self)@ == old(self)@ && not_found(r, "relation "@ + id@),
                Some(e) => r is Ok && final(self)@ == (DbView { edges: old(self)@.edges.filter(key_is_not::<Edge>(id@))
                    .filter(|x: Edge| !(x.member_id@ == e.related_member_id@ && x.related_member_id@ == e.member_id@
                        && x.relation_type@ == e.relation_type@)), ..old(self)@ }),
            },
    {
        let ghost v = self@;
        let k = match position(self.edges(), id) {
            Some(k) => k,
            None => return Err(AppError::NotFound(concat_str("relation ", id))),
        };
        let e = self.edges()[k].duplicate();
        let rest = retain_where(self.edges(),
            |x: &Edge| -> (b: bool) ensures b == (x.id@ != id@) { !str_eq(x.id.as_str(), id) },
            Ghost(key_is_not::<Edge>(id@)));
        let ghost rev = |x: Edge| !(x.member_id@ == e.related_member_id@ && x.related_member_id@ == e.member_id@
            && x.relation_type@ == e.relation_type@);
        let kept = retain_where(&rest,
            |x: &Edge| -> (b: bool) ensures b == rev(*x) {
                !(str_eq(x.member_id.as_str(), e.related_member_id.as_str())
                    && str_eq(x.related_member_id.as_str(), e.member_id.as_str())
                    && str_eq(x.relation_type.as_str(), e.relation_type.as_str()))
            },
            Ghost(rev));
        proof {
            lemma_filter_unique(v.edges, key_is_not::<Edge>(id@));
            lemma_filter_unique(rest@, rev);
        }
        self.set_edges(kept);
        Ok(())
    }

    /// The graph of a clan: all its people, living and deceased (see
    /// `clan_people`; deceased first, then by order and name), and the edges
    /// between them, each spouse pair once.
    pub fn list_graph_by_clan(&self, clan_id: &str) -> (r: Result<(Vec<Member>, Vec<Edge>), AppError>)
        ensures
            r matches Ok(g) && sorted_rows(self@.members.filter(clan_people(self@, clan_id@)),
                |m: Member| member_clan_order(m), g.0@) && clan_graph_edges(self@, clan_id@, g.1@),
    {
        let clan_graves = retain_where(self.graves(),
            |t: &Grave| -> (b: bool) ensures b == crate::store::opt_is(t.clan_id, clan_id@) {
                crate::store::opt_eq_str(&t.clan_id, clan_id)
            },
            Ghost(grave_in_clan(clan_id@)));
        let tids = keys_vec(&clan_graves);
        let ghost tv = keys_of(self@.graves.filter(grave_in_clan(clan_id@)));
        let in_clan = retain_where(self.members(),
            |m: &Member| -> (b: bool) ensures b == member_of_clan_or_graves(clan_id@, tv)(*m) {
                (match &m.grave_id { Some(g) => contains_str(&tids, g.as_str()), None => false })
                    || crate::store::opt_eq_str(&m.clan_id, clan_id)
            },
            Ghost(clan_people(self@, clan_id@)));
        let ids = keys_vec(&in_clan);
        let ghost iv = clan_member_ids(self@, clan_id@);
        let members = order_rows(in_clan, |m: &Member| -> (k: Vec<u64>) ensures k@ == member_clan_order(*m) {
            member_clan_key(m) }, Ghost(|m: Member| member_clan_order(m)));
        let rows = retain_where(self.edges(),
            |e: &Edge| -> (b: bool) ensures b == touches_any(iv)(*e) {
                contains_str(&ids, e.member_id.as_str()) || contains_str(&ids, e.related_member_id.as_str())
            },
            Ghost(touches_any(iv)));
        let joined_rows = join_rows(&rows, self.members());
        let sorted = order_rows(joined_rows, |e: &Edge| -> (k: Vec<u64>) ensures k@ == edge_type_order(*e) {
            edge_type_key(e) }, Ghost(|e: Edge| edge_type_order(e)));
        let ghost sv = sorted@;
        let unique = dedup_rows(sorted);
        let edges = retain_where(&unique,
            |e: &Edge| -> (b: bool) ensures b == both_in(iv)(*e) {
                contains_str(&ids, e.member_id.as_str()) && contains_str(&ids, e.related_member_id.as_str())
            },
            Ghost(both_in(iv)));
        proof {
            assert(clan_edge_rows(self@, iv, sv));
        }
        Ok((members, edges))
    }

    /// The ego graph of a member: everyone within `depth` edges of it (edges
    /// taken in either direction) and the edges among them.
    pub fn list_egograph(&self, member_id: &str, depth: usize) -> (r: Result<(Vec<Member>, Vec<Edge>), AppError>)
        ensures
            r matches Ok(g) && g.0@ == ego_members(self@, member_id@, depth as nat)
                && g.1@ == ego_edges(self@, member_id@, depth as nat),
    {
        let ghost es = self@.edges;
        let ghost m = member_id@;
        let edges = self.edges();
        let mut visited: Vec<String> = Vec::new();
        visited.push(string_of(member_id));
        let mut frontier: Vec<String> = Vec::new();
        frontier.push(string_of(member_id));
        assert(view_of(visited@) =~= seq![m]);
        assert(view_of(frontier@) =~= seq![m]);
        assert forall|x: Seq<char>| view_of(visited@).contains(x) <==> #[trigger] reach(es, m, 0nat).contains(x) by {
            if x == m {
                assert(view_of(visited@)[0] == m);
            }
        }
        let mut layer: usize = 0;
        while layer < depth
            invariant
                layer <= depth,
                edges@ == es,
                forall|x: Seq<char>| view_of(visited@).contains(x) <==> #[trigger] reach(es, m, layer as nat).contains(x),
                forall|x: Seq<char>, y: Seq<char>| view_of(visited@).contains(x) && !view_of(frontier@).contains(x)
                    && #[trigger] adjacent(es, x, y) ==> view_of(visited@).contains(y),
                forall|x: Seq<char>| #[trigger] view_of(frontier@).contains(x) ==> view_of(visited@).contains(x),
            decreases depth - layer,
        {
            let ghost vis0 = view_of(visited@);
            let ghost front = view_of(frontier@);
            let mut next: Vec<String> = Vec::new();
            let mut f: usize = 0;
            while f < frontier.len()
                invariant
                    edges@ == es,
                    front == view_of(frontier@),
                    f <= frontier.len(),
                    forall|x: Seq<char>| #[trigger] front.contains(x) ==> vis0.contains(x),
                    forall|y: Seq<char>| #[trigger] view_of(visited@).contains(y) <==> (vis0.contains(y)
                        || exists|g: int| 0 <= g < f && #[trigger] adjacent(es, front[g], y)),
                    forall|y: Seq<char>| #[trigger] view_of(next@).contains(y) <==> (view_of(visited@).contains(y)
                        && !vis0.contains(y)),
                decreases frontier.len() - f,
            {
                let mid = &frontier[f];
                let ghost md = mid@;
                assert(mid@ == md);
                assert(md == front[f as int]);
                assert(front.contains(md));
                let mut i: usize = 0;
                while i < edges.len()
                    invariant
                        edges@ == es,
                        front == view_of(frontier@),
                        f < frontier.len(),
                        md == front[f as int],
                        mid@ == md,
                        vis0.contains(md),
                        i <= es.len(),
                        forall|x: Seq<char>| #[trigger] front.contains(x) ==> vis0.contains(x),
                        forall|y: Seq<char>| #[trigger] view_of(visited@).contains(y) <==> (vis0.contains(y)
                            || (exists|g: int| 0 <= g < f && #[trigger] adjacent(es, front[g], y))
                            || (exists|j: int| 0 <= j < i && #[trigger] links(es[j], md, y))),
                        forall|y: Seq<char>| #[trigger] view_of(next@).contains(y) <==> (view_of(visited@).contains(y)
                            && !vis0.contains(y)),
                    decreases es.len() - i,
                {
                    let e = &edges[i];
                    if str_eq(e.member_id.as_str(), mid.as_str()) || str_eq(e.related_member_id.as_str(), mid.as_str()) {
                        assert(*e == es[i as int]);
                        assert(mid@ == md);
                        assert(es[i as int].member_id@ == md || es[i as int].related_member_id@ == md);
                        let ghost vis1 = view_of(visited@);
                        let ghost nx1 = view_of(next@);
                        let ghost a = e.member_id@;
                        let ghost b = e.related_member_id@;
                        let pa = !contains_str(&visited, e.member_id.as_str());
                        if pa {
                            visited.push(string_of(e.member_id.as_str()));
                            next.push(string_of(e.member_id.as_str()));
                            assert(view_of(visited@) =~= vis1.push(a));
                            assert(view_of(next@) =~= nx1.push(a));
                        }
                        let ghost vis2 = view_of(visited@);
                        let ghost nx2 = view_of(next@);
                        let pb = !contains_str(&visited, e.related_member_id.as_str());
                        if pb {
                            visited.push(string_of(e.related_member_id.as_str()));
                            next.push(string_of(e.related_member_id.as_str()));
                            assert(view_of(visited@) =~= vis2.push(b));
                            assert(view_of(next@) =~= nx2.push(b));
                        }
                        proof {
                            let e0 = es[i as int];
                            assert(a == e0.member_id@ && b == e0.related_member_id@);
                            assert forall|y: Seq<char>| #[trigger] view_of(visited@).contains(y) <==> (vis1.contains(y)
                                || ((y == a || y == b) && !vis1.contains(y))) by {
                                if pa { lemma_push_contains(vis1, a, y); }
                                if pb { lemma_push_contains(vis2, b, y); }
                            }
                            assert forall|y: Seq<char>| #[trigger] view_of(next@).contains(y) <==> (nx1.contains(y)
                                || ((y == a || y == b) && !vis1.contains(y))) by {
                                if pa { lemma_push_contains(nx1, a, y); lemma_push_contains(vis1, a, y); }
                                if pb { lemma_push_contains(nx2, b, y); lemma_push_contains(vis2, b, y); }
                            }
                            assert forall|y: Seq<char>| #[trigger] view_of(visited@).contains(y) <==> (vis0.contains(y)
                                || (exists|g: int| 0 <= g < f && #[trigger] adjacent(es, front[g], y))
                                || (exists|j: int| 0 <= j < i + 1 && #[trigger] links(es[j], md, y))) by {
                                if (y == a || y == b) && !vis1.contains(y) {
                                    assert(!vis0.contains(y));
                                    assert(y != md);
                                    assert(links(es[i as int], md, y));
                                }
                                if exists|j: int| 0 <= j < i + 1 && #[trigger] links(es[j], md, y) {
                                    let j = choose|j: int| 0 <= j < i + 1 && #[trigger] links(es[j], md, y);
                                    if j == i {
                                        assert(y == a || y == b);
                                    } else {
                                        assert(vis1.contains(y));
                                    }
                                }
                            }
                        }
                    } else {
                        proof {
                            assert forall|y: Seq<char>| #[trigger] view_of(visited@).contains(y) <==> (vis0.contains(y)
                                || (exists|g: int| 0 <= g < f && #[trigger] adjacent(es, front[g], y))
                                || (exists|j: int| 0 <= j < i + 1 && #[trigger] links(es[j], md, y))) by {
                                assert(!links(es[i as int], md, y));
                            }
                        }
                    }
                    i = i + 1;
                }
                proof {
                    assert forall|y: Seq<char>| #[trigger] view_of(visited@).contains(y) <==> (vis0.contains(y)
                        || exists|g: int| 0 <= g < f + 1 && #[trigger] adjacent(es, front[g], y)) by {
                        if exists|j: int| 0 <= j < es.len() && #[trigger] links(es[j], md, y) {
                            assert(adjacent(es, front[f as int], y));
                        }
                        if adjacent(es, front[f as int], y) {
                            let j = choose|j: int| 0 <= j < es.len() && #[trigger] links(es[j], front[f as int], y);
                            assert(links(es[j], md, y));
                        }
                    }
                }
                f = f + 1;
            }
            proof {
                let nl = (layer + 1) as nat;
                assert forall|x: Seq<char>| view_of(visited@).contains(x) <==> #[trigger] reach(es, m, nl).contains(x) by {
                    lemma_reach_step(es, m, layer as nat, x);
                    
                    if view_of(visited@).contains(x) && !vis0.contains(x) {
                        let g = choose|g: int| 0 <= g < front.len() && #[trigger] adjacent(es, front[g], x);
                        assert(front.contains(front[g]));
                        assert(reach(es, m, layer as nat).contains(front[g]));
                    }
                    if reach(es, m, nl).contains(x) && !reach(es, m, layer as nat).contains(x) {
                        let y = choose|y: Seq<char>| #[trigger] reach(es, m, layer as nat).contains(y) && adjacent(es, y, x);
                        assert(vis0.contains(y));
                        if front.contains(y) {
                            let g = choose|g: int| 0 <= g < front.len() && front[g] == y;
                            assert(adjacent(es, front[g], x));
                        }
                    }
                }
                assert forall|x: Seq<char>, y: Seq<char>| view_of(visited@).contains(x) && !view_of(next@).contains(x)
                    && #[trigger] adjacent(es, x, y) implies view_of(visited@).contains(y) by {
                    assert(vis0.contains(x));
                    if front.contains(x) {
                        let g = choose|g: int| 0 <= g < front.len() && front[g] == x;
                        assert(adjacent(es, front[g], y));
                    }
                }
            }
            frontier = next;
            layer = layer + 1;
        }
        let members = retain_where(self.members(),
            |p: &Member| -> (b: bool) ensures b == reach(es, m, depth as nat).contains(p.id@) {
                contains_str(&visited, p.id.as_str())
            },
            Ghost(|p: Member| reach(es, m, depth as nat).contains(p.id@)));
        let rows = retain_where(edges,
            |e: &Edge| -> (b: bool) ensures b == (reach(es, m, depth as nat).contains(e.member_id@)
                || (reach(es, m, depth as nat).contains(e.related_member_id@) && is_child_relation(e.relation_type@))) {
                contains_str(&visited, e.member_id.as_str())
                    || (contains_str(&visited, e.related_member_id.as_str()) && is_child_type(e.relation_type.as_str()))
            },
            Ghost(|e: Edge| reach(es, m, depth as nat).contains(e.member_id@)
                || (reach(es, m, depth as nat).contains(e.related_member_id@) && is_child_relation(e.relation_type@))));
        let joined_rows = join_rows(&rows, self.members());
        Ok((members, joined_rows))
    }
}

} // verus!
