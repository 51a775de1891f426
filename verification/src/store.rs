//! Generic table machinery: records with a primary key, lookups by key,
//! filtering, and the uniqueness of keys.
use vstd::prelude::*;
use crate::models::{BurialGroup, Clan, Edge, Grave, Image, Member};
use crate::text::str_eq;

verus! {

/// A table row with a primary key.
pub trait Keyed: Sized {
    /// The primary key of the row.
    spec fn key(&self) -> Seq<char>;

    fn key_str(&self) -> (r: &str)
        ensures
            r@ == self.key();

    /// A copy of the row.
    fn duplicate(&self) -> (r: Self)
        ensures
            r == *self;
}

/// A copy of an optional string.
pub fn clone_opt(o: &Option<String>) -> (r: Option<String>)
    ensures
        r == *o,
{
    match o {
        Some(s) => Some(s.clone()),
        None => None,
    }
}

/// Whether an optional string holds exactly the given text.
pub open spec fn opt_is(o: Option<String>, k: Seq<char>) -> bool {
    o matches Some(s) && s@ == k
}

pub fn opt_eq_str(o: &Option<String>, k: &str) -> (r: bool)
    ensures
        r == opt_is(*o, k@),
{
    match o {
        Some(s) => str_eq(s.as_str(), k),
        None => false,
    }
}

/// The view of an optional string.
pub open spec fn opt_view(o: Option<String>) -> Option<Seq<char>> {
    match o {
        Some(s) => Some(s@),
        None => None,
    }
}

/// No key occurs twice in the table.
pub open spec fn unique_keys<T: Keyed>(s: Seq<T>) -> bool {
    forall|i: int, j: int|
        0 <= i < s.len() && 0 <= j < s.len() && #[trigger] s[i].key() == #[trigger] s[j].key()
            ==> i == j
}

pub open spec fn has_key<T: Keyed>(s: Seq<T>, k: Seq<char>) -> bool {
    exists|i: int| 0 <= i < s.len() && #[trigger] s[i].key() == k
}

/// The position of the row with key `k`.
pub open spec fn key_index<T: Keyed>(s: Seq<T>, k: Seq<char>) -> int {
    choose|i: int| 0 <= i < s.len() && #[trigger] s[i].key() == k
}

/// The row with key `k`, if any.
pub open spec fn lookup<T: Keyed>(s: Seq<T>, k: Seq<char>) -> Option<T> {
    if has_key(s, k) {
        Some(s[key_index(s, k)])
    } else {
        None
    }
}

/// The keys of all rows, in table order.
pub open spec fn keys_of<T: Keyed>(s: Seq<T>) -> Seq<Seq<char>> {
    s.map_values(|x: T| x.key())
}

pub proof fn lemma_key_index<T: Keyed>(s: Seq<T>, i: int)
    requires
        unique_keys(s),
        0 <= i < s.len(),
    ensures
        has_key(s, s[i].key()),
        key_index(s, s[i].key()) == i,
        lookup(s, s[i].key()) == Some(s[i]),
{
    assert(0 <= i < s.len() && s[i].key() == s[i].key());
}

/// Finds the row with key `k`.
pub fn position<T: Keyed>(v: &Vec<T>, k: &str) -> (r: Option<usize>)
    requires
        unique_keys(v@),
    ensures
        match r {
            Some(i) => i < v.len() && v@[i as int].key() == k@ && key_index(v@, k@) == i
                && lookup(v@, k@) == Some(v@[i as int]),
            None => !has_key(v@, k@) && lookup(v@, k@) is None,
        },
{
    let mut i: usize = 0;
    while i < v.len()
        invariant
            unique_keys(v@),
            i <= v.len(),
            forall|j: int| 0 <= j < i ==> #[trigger] v@[j].key() != k@,
        decreases v.len() - i,
    {
        if str_eq(v[i].key_str(), k) {
            proof {
                lemma_key_index(v@, i as int);
            }
            return Some(i);
        }
        i = i + 1;
    }
    None
}

/// Every row of a filtered table is a row of the table.
pub proof fn lemma_filter_source<T>(s: Seq<T>, p: spec_fn(T) -> bool, i: int)
    requires
        0 <= i < s.filter(p).len(),
    ensures
        s.contains(s.filter(p)[i]),
        p(s.filter(p)[i]),
{
    broadcast use vstd::seq_lib::group_filter_ensures;
    assert(s.filter(p).contains(s.filter(p)[i]));
    s.lemma_filter_contains_rev(p, s.filter(p)[i]);
}

/// Filtering keeps keys unique.
pub proof fn lemma_filter_unique<T: Keyed>(s: Seq<T>, p: spec_fn(T) -> bool)
    requires
        unique_keys(s),
    ensures
        unique_keys(s.filter(p)),
    decreases s.len(),
{
    broadcast use vstd::seq_lib::group_filter_ensures;
    reveal(Seq::filter);
    if s.len() > 0 {
        let d = s.drop_last();
        assert(unique_keys(d)) by {
            assert forall|i: int, j: int|
                0 <= i < d.len() && 0 <= j < d.len() && #[trigger] d[i].key() == #[trigger] d[j].key()
                implies i == j by {
                assert(d[i] == s[i] && d[j] == s[j]);
            }
        }
        lemma_filter_unique(d, p);
        if p(s.last()) {
            let f = d.filter(p);
            let g = f.push(s.last());
            assert forall|i: int, j: int|
                0 <= i < g.len() && 0 <= j < g.len() && #[trigger] g[i].key() == #[trigger] g[j].key()
                implies i == j by {
                if i < f.len() && j < f.len() {
                    assert(g[i] == f[i] && g[j] == f[j]);
                } else if i < f.len() || j < f.len() {
                    let a = if i < f.len() { i } else { j };
                    lemma_filter_source(d, p, a);
                    let k = choose|k: int| 0 <= k < d.len() && d[k] == f[a];
                    assert(s[k] == d[k]);
                    assert(s[s.len() - 1] == s.last());
                    assert(s[k].key() == s[s.len() - 1].key());
                }
            }
        }
    }
}

/// Appending a row with a fresh key keeps keys unique.
pub proof fn lemma_push_unique<T: Keyed>(s: Seq<T>, x: T)
    requires
        unique_keys(s),
        !has_key(s, x.key()),
    ensures
        unique_keys(s.push(x)),
{
    let t = s.push(x);
    assert forall|i: int, j: int|
        0 <= i < t.len() && 0 <= j < t.len() && #[trigger] t[i].key() == #[trigger] t[j].key()
        implies i == j by {
        if i < s.len() && j < s.len() {
            assert(t[i] == s[i] && t[j] == s[j]);
        } else if i < s.len() {
            assert(t[i] == s[i]);
        } else if j < s.len() {
            assert(t[j] == s[j]);
        }
    }
}

/// After appending a row, a key occurs exactly when it occurred before or is the new row's.
pub proof fn lemma_has_key_push<T: Keyed>(s: Seq<T>, x: T, k: Seq<char>)
    ensures
        has_key(s.push(x), k) <==> (has_key(s, k) || x.key() == k),
{
    let t = s.push(x);
    if has_key(s, k) {
        let i = choose|i: int| 0 <= i < s.len() && #[trigger] s[i].key() == k;
        assert(t[i] == s[i]);
    }
    if x.key() == k {
        assert(t[s.len() as int] == x);
    }
    if has_key(t, k) {
        let i = choose|i: int| 0 <= i < t.len() && #[trigger] t[i].key() == k;
        if i < s.len() {
            assert(t[i] == s[i]);
        }
    }
}

/// Rows that keep their keys keep the keys unique.
pub proof fn lemma_same_keys_unique<T: Keyed>(s: Seq<T>, t: Seq<T>)
    requires
        unique_keys(s),
        s.len() == t.len(),
        forall|i: int| 0 <= i < s.len() ==> #[trigger] t[i].key() == s[i].key(),
    ensures
        unique_keys(t),
{
    assert forall|i: int, j: int|
        0 <= i < t.len() && 0 <= j < t.len() && #[trigger] t[i].key() == #[trigger] t[j].key()
        implies i == j by {
        assert(s[i].key() == s[j].key());
    }
}

/// The rows of `v` that satisfy `p`, in table order.
pub fn retain_where<T: Keyed, F: Fn(&T) -> bool>(
    v: &Vec<T>,
    f: F,
    Ghost(p): Ghost<spec_fn(T) -> bool>,
) -> (r: Vec<T>)
    requires
        forall|x: &T| #[trigger] f.requires((x,)),
        forall|x: &T, b: bool| f.ensures((x,), b) ==> b == p(*x),
    ensures
        r@ == v@.filter(p),
{
    let mut r: Vec<T> = Vec::new();
    let mut i: usize = 0;
    while i < v.len()
        invariant
            i <= v.len(),
            forall|x: &T| #[trigger] f.requires((x,)),
            forall|x: &T, b: bool| f.ensures((x,), b) ==> b == p(*x),
            r@ == v@.take(i as int).filter(p),
        decreases v.len() - i,
    {
        let keep = f(&v[i]);
        proof {
            reveal(Seq::filter);
            assert(v@.take(i as int + 1).drop_last() =~= v@.take(i as int));
            assert(v@.take(i as int + 1).last() == v@[i as int]);
        }
        if keep {
            r.push(v[i].duplicate());
        }
        i = i + 1;
    }
    assert(v@.take(v.len() as int) =~= v@);
    r
}

/// The keys of the rows of `v`, in table order.
pub fn keys_vec<T: Keyed>(v: &Vec<T>) -> (r: Vec<String>)
    ensures
        r@.map_values(|s: String| s@) == keys_of(v@),
{
    let mut r: Vec<String> = Vec::new();
    let mut i: usize = 0;
    while i < v.len()
        invariant
            i <= v.len(),
            r@.len() == i,
            forall|j: int| 0 <= j < i ==> (#[trigger] r@[j])@ == v@[j].key(),
        decreases v.len() - i,
    {
        let k = v[i].key_str();
        r.push(crate::text::string_of(k));
        i = i + 1;
    }
    assert(r@.map_values(|s: String| s@) =~= keys_of(v@));
    r
}

/// Whether `k` is one of the texts in `ids`.
pub fn contains_str(ids: &Vec<String>, k: &str) -> (r: bool)
    ensures
        r == ids@.map_values(|s: String| s@).contains(k@),
{
    let ghost vs = ids@.map_values(|s: String| s@);
    let mut i: usize = 0;
    while i < ids.len()
        invariant
            i <= ids.len(),
            vs == ids@.map_values(|s: String| s@),
            forall|j: int| 0 <= j < i ==> vs[j] != k@,
        decreases ids.len() - i,
    {
        if str_eq(ids[i].as_str(), k) {
            assert(vs[i as int] == k@);
            return true;
        }
        i = i + 1;
    }
    false
}

// ---------------------------------------------------------------------------
// Row copies and keys of the model records
// ---------------------------------------------------------------------------

impl Keyed for Clan {
    open spec fn key(&self) -> Seq<char> {
        self.id@
    }

    fn key_str(&self) -> (r: &str) {
        self.id.as_str()
    }

    fn duplicate(&self) -> (r: Clan) {
        Clan {
            id: self.id.clone(),
            name: self.name.clone(),
            description: clone_opt(&self.description),
            origin: clone_opt(&self.origin),
            created_at: self.created_at.clone(),
            updated_at: self.updated_at.clone(),
            version: self.version,
            deleted: self.deleted,
        }
    }
}

impl Keyed for BurialGroup {
    open spec fn key(&self) -> Seq<char> {
        self.id@
    }

    fn key_str(&self) -> (r: &str) {
        self.id.as_str()
    }

    fn duplicate(&self) -> (r: BurialGroup) {
        BurialGroup {
            id: self.id.clone(),
            clan_id: self.clan_id.clone(),
            name: self.name.clone(),
            description: clone_opt(&self.description),
            created_at: self.created_at.clone(),
            updated_at: self.updated_at.clone(),
        }
    }
}

impl Keyed for Grave {
    open spec fn key(&self) -> Seq<char> {
        self.id@
    }

    fn key_str(&self) -> (r: &str) {
        self.id.as_str()
    }

    fn duplicate(&self) -> (r: Grave) {
        Grave {
            id: self.id.clone(),
            name: self.name.clone(),
            latitude: self.latitude,
            longitude: self.longitude,
            address: clone_opt(&self.address),
            description: clone_opt(&self.description),
            burial_group_id: clone_opt(&self.burial_group_id),
            clan_id: clone_opt(&self.clan_id),
            created_at: self.created_at.clone(),
            updated_at: self.updated_at.clone(),
            version: self.version,
            deleted: self.deleted,
        }
    }
}

impl Keyed for Member {
    open spec fn key(&self) -> Seq<char> {
        self.id@
    }

    fn key_str(&self) -> (r: &str) {
        self.id.as_str()
    }

    fn duplicate(&self) -> (r: Member) {
        Member {
            id: self.id.clone(),
            grave_id: clone_opt(&self.grave_id),
            clan_id: clone_opt(&self.clan_id),
            name: self.name.clone(),
            title: clone_opt(&self.title),
            birth_date: clone_opt(&self.birth_date),
            death_date: clone_opt(&self.death_date),
            biography: clone_opt(&self.biography),
            epitaph: clone_opt(&self.epitaph),
            spouse: clone_opt(&self.spouse),
            is_joint_burial: self.is_joint_burial,
            children: clone_opt(&self.children),
            is_alive: self.is_alive,
            order_index: self.order_index,
            created_at: self.created_at.clone(),
            updated_at: self.updated_at.clone(),
            version: self.version,
            deleted: self.deleted,
        }
    }
}

impl Keyed for Image {
    open spec fn key(&self) -> Seq<char> {
        self.id@
    }

    fn key_str(&self) -> (r: &str) {
        self.id.as_str()
    }

    fn duplicate(&self) -> (r: Image) {
        Image {
            id: self.id.clone(),
            entity_type: self.entity_type.clone(),
            entity_id: self.entity_id.clone(),
            file_path: self.file_path.clone(),
            caption: clone_opt(&self.caption),
            is_cover: self.is_cover,
            created_at: self.created_at.clone(),
            version: self.version,
            deleted: self.deleted,
        }
    }
}

impl Keyed for Edge {
    open spec fn key(&self) -> Seq<char> {
        self.id@
    }

    fn key_str(&self) -> (r: &str) {
        self.id.as_str()
    }

    fn duplicate(&self) -> (r: Edge) {
        Edge {
            id: self.id.clone(),
            member_id: self.member_id.clone(),
            related_member_id: self.related_member_id.clone(),
            relation_type: self.relation_type.clone(),
            created_at: self.created_at.clone(),
            side: clone_opt(&self.side),
            version: self.version,
            deleted: self.deleted,
            related_member_name: clone_opt(&self.related_member_name),
            related_member_grave_id: clone_opt(&self.related_member_grave_id),
        }
    }
}

} // verus!
