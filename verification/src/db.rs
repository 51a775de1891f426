//! The relational store: tables of clans, burial groups, graves, members,
//! photos and kinship edges, with the operations the application runs on them.
use vstd::prelude::*;
use crate::error::AppError;
use crate::models::{BurialGroup, Clan, Edge, Grave, Image, Member};
use crate::store::{Keyed, unique_keys, has_key, lemma_push_unique, lemma_same_keys_unique};
use crate::text::{chars_of, str_eq, string_from_chars};

verus! {

/// The contents of the store, table by table, in insertion order.
pub struct DbView {
    pub clans: Seq<Clan>,
    pub groups: Seq<BurialGroup>,
    pub graves: Seq<Grave>,
    pub members: Seq<Member>,
    pub images: Seq<Image>,
    pub edges: Seq<Edge>,
}

/// Every table keeps its primary keys unique.
pub open spec fn wf_view(v: DbView) -> bool {
    &&& unique_keys(v.clans)
    &&& unique_keys(v.groups)
    &&& unique_keys(v.graves)
    &&& unique_keys(v.members)
    &&& unique_keys(v.images)
    &&& unique_keys(v.edges)
}

/// Keeps the photos that are not of an entity of type `ty` among `ids`.
pub open spec fn no_photos_of(ty: Seq<char>, ids: Seq<Seq<char>>) -> spec_fn(Image) -> bool {
    |i: Image| !(i.entity_type@ == ty && ids.contains(i.entity_id@))
}

/// Keeps the edges that touch none of `ids` at either end.
pub open spec fn edge_avoids(ids: Seq<Seq<char>>) -> spec_fn(Edge) -> bool {
    |e: Edge| !(ids.contains(e.member_id@) || ids.contains(e.related_member_id@))
}

/// Keeps the rows whose key is not `id`.
pub open spec fn key_is_not<T: Keyed>(id: Seq<char>) -> spec_fn(T) -> bool {
    |x: T| x.key() != id
}

/// The local store, the application's offline-first source of data.
pub struct ClanTrailDb {
    pub(crate) clans: Vec<Clan>,
    pub(crate) groups: Vec<BurialGroup>,
    pub(crate) graves: Vec<Grave>,
    pub(crate) members: Vec<Member>,
    pub(crate) images: Vec<Image>,
    pub(crate) edges: Vec<Edge>,
}

impl View for ClanTrailDb {
    type V = DbView;

    closed spec fn view(&self) -> DbView {
        DbView {
            clans: self.clans@,
            groups: self.groups@,
            graves: self.graves@,
            members: self.members@,
            images: self.images@,
            edges: self.edges@,
        }
    }
}

/// The concatenation of two texts.
pub fn concat_str(a: &str, b: &str) -> (r: String)
    ensures
        r@ == a@ + b@,
{
    let mut x = chars_of(a);
    let mut y = chars_of(b);
    x.append(&mut y);
    string_from_chars(&x)
}

impl ClanTrailDb {
    #[verifier::type_invariant]
    closed spec fn inv(self) -> bool {
        wf_view(self@)
    }

    /// The store's invariant, for callers: in every table no key occurs twice.
    /// (Each table's accessor, such as `clans()`, states it for its table too.)
    pub fn keys_are_unique(&self)
        ensures
            wf_view(self@),
    {
        proof { use_type_invariant(self); }
    }

    /// An empty store.
    pub fn in_memory() -> (r: ClanTrailDb)
        ensures
            r@.clans == Seq::<Clan>::empty(),
            r@.groups == Seq::<BurialGroup>::empty(),
            r@.graves == Seq::<Grave>::empty(),
            r@.members == Seq::<Member>::empty(),
            r@.images == Seq::<Image>::empty(),
            r@.edges == Seq::<Edge>::empty(),
    {
        ClanTrailDb {
            clans: Vec::new(),
            groups: Vec::new(),
            graves: Vec::new(),
            members: Vec::new(),
            images: Vec::new(),
            edges: Vec::new(),
        }
    }

    /// A store holding the given tables, refused when a table repeats a key.
    pub fn from_tables(
        clans: Vec<Clan>,
        groups: Vec<BurialGroup>,
        graves: Vec<Grave>,
        members: Vec<Member>,
        images: Vec<Image>,
        edges: Vec<Edge>,
    ) -> (r: Result<ClanTrailDb, AppError>)
        ensures
            match r {
                Ok(db) => db@ == (DbView { clans: clans@, groups: groups@, graves: graves@,
                    members: members@, images: images@, edges: edges@ }),
                Err(e) => e is Database && !wf_view((DbView { clans: clans@, groups: groups@, graves: graves@,
                    members: members@, images: images@, edges: edges@ })),
            },
    {
        if !all_keys_unique(&clans) || !all_keys_unique(&groups) || !all_keys_unique(&graves)
            || !all_keys_unique(&members) || !all_keys_unique(&images) || !all_keys_unique(&edges) {
            return Err(AppError::Database(concat_str("UNIQUE constraint failed: ", "id")));
        }
        Ok(ClanTrailDb { clans, groups, graves, members, images, edges })
    }

    pub fn clans(&self) -> (r: &Vec<Clan>)
        ensures
            r@ == self@.clans,
            unique_keys(r@),
    {
        proof { use_type_invariant(self); }
        &self.clans
    }

    pub fn groups(&self) -> (r: &Vec<BurialGroup>)
        ensures
            r@ == self@.groups,
            unique_keys(r@),
    {
        proof { use_type_invariant(self); }
        &self.groups
    }

    pub fn graves(&self) -> (r: &Vec<Grave>)
        ensures
            r@ == self@.graves,
            unique_keys(r@),
    {
        proof { use_type_invariant(self); }
        &self.graves
    }

    pub fn members(&self) -> (r: &Vec<Member>)
        ensures
            r@ == self@.members,
            unique_keys(r@),
    {
        proof { use_type_invariant(self); }
        &self.members
    }

    pub fn images(&self) -> (r: &Vec<Image>)
        ensures
            r@ == self@.images,
            unique_keys(r@),
    {
        proof { use_type_invariant(self); }
        &self.images
    }

    pub fn edges(&self) -> (r: &Vec<Edge>)
        ensures
            r@ == self@.edges,
            unique_keys(r@),
    {
        proof { use_type_invariant(self); }
        &self.edges
    }

    pub(crate) fn set_clans(&mut self, v: Vec<Clan>)
        requires
            unique_keys(v@),
        ensures
            final(self)@ == (DbView { clans: v@, ..old(self)@ }),
    {
        proof { use_type_invariant(&*self); }
        self.clans = v;
    }

    pub(crate) fn set_groups(&mut self, v: Vec<BurialGroup>)
        requires
            unique_keys(v@),
        ensures
            final(self)@ == (DbView { groups: v@, ..old(self)@ }),
    {
        proof { use_type_invariant(&*self); }
        self.groups = v;
    }

    pub(crate) fn set_graves(&mut self, v: Vec<Grave>)
        requires
            unique_keys(v@),
        ensures
            final(self)@ == (DbView { graves: v@, ..old(self)@ }),
    {
        proof { use_type_invariant(&*self); }
        self.graves = v;
    }

    pub(crate) fn set_members(&mut self, v: Vec<Member>)
        requires
            unique_keys(v@),
        ensures
            final(self)@ == (DbView { members: v@, ..old(self)@ }),
    {
        proof { use_type_invariant(&*self); }
        self.members = v;
    }

    pub(crate) fn set_images(&mut self, v: Vec<Image>)
        requires
            unique_keys(v@),
        ensures
            final(self)@ == (DbView { images: v@, ..old(self)@ }),
    {
        proof { use_type_invariant(&*self); }
        self.images = v;
    }

    pub(crate) fn set_edges(&mut self, v: Vec<Edge>)
        requires
            unique_keys(v@),
        ensures
            final(self)@ == (DbView { edges: v@, ..old(self)@ }),
    {
        proof { use_type_invariant(&*self); }
        self.edges = v;
    }

    pub(crate) fn push_clan(&mut self, x: Clan)
        requires
            !has_key(old(self)@.clans, x.key()),
        ensures
            final(self)@ == (DbView { clans: old(self)@.clans.push(x), ..old(self)@ }),
    {
        proof {
            use_type_invariant(&*self);
            lemma_push_unique(self.clans@, x);
        }
        let mut v: Vec<_> = Vec::new();
        std::mem::swap(&mut v, &mut self.clans);
        v.push(x);
        self.clans = v;
    }

    pub(crate) fn set_clan_row(&mut self, i: usize, x: Clan)
        requires
            i < old(self)@.clans.len(),
            x.key() == old(self)@.clans[i as int].key(),
        ensures
            final(self)@ == (DbView { clans: old(self)@.clans.update(i as int, x), ..old(self)@ }),
    {
        proof {
            use_type_invariant(&*self);
            let t = self.clans@.update(i as int, x);
            assert forall|k: int| 0 <= k < t.len() implies #[trigger] t[k].key() == self.clans@[k].key() by {}
            lemma_same_keys_unique(self.clans@, t);
        }
        let mut v: Vec<_> = Vec::new();
        std::mem::swap(&mut v, &mut self.clans);
        v.set(i, x);
        self.clans = v;
    }

    pub(crate) fn push_group(&mut self, x: BurialGroup)
        requires
            !has_key(old(self)@.groups, x.key()),
        ensures
            final(self)@ == (DbView { groups: old(self)@.groups.push(x), ..old(self)@ }),
    {
        proof {
            use_type_invariant(&*self);
            lemma_push_unique(self.groups@, x);
        }
        let mut v: Vec<_> = Vec::new();
        std::mem::swap(&mut v, &mut self.groups);
        v.push(x);
        self.groups = v;
    }

    pub(crate) fn push_grave(&mut self, x: Grave)
        requires
            !has_key(old(self)@.graves, x.key()),
        ensures
            final(self)@ == (DbView { graves: old(self)@.graves.push(x), ..old(self)@ }),
    {
        proof {
            use_type_invariant(&*self);
            lemma_push_unique(self.graves@, x);
        }
        let mut v: Vec<_> = Vec::new();
        std::mem::swap(&mut v, &mut self.graves);
        v.push(x);
        self.graves = v;
    }

    pub(crate) fn set_grave_row(&mut self, i: usize, x: Grave)
        requires
            i < old(self)@.graves.len(),
            x.key() == old(self)@.graves[i as int].key(),
        ensures
            final(self)@ == (DbView { graves: old(self)@.graves.update(i as int, x), ..old(self)@ }),
    {
        proof {
            use_type_invariant(&*self);
            let t = self.graves@.update(i as int, x);
            assert forall|k: int| 0 <= k < t.len() implies #[trigger] t[k].key() == self.graves@[k].key() by {}
            lemma_same_keys_unique(self.graves@, t);
        }
        let mut v: Vec<_> = Vec::new();
        std::mem::swap(&mut v, &mut self.graves);
        v.set(i, x);
        self.graves = v;
    }

    pub(crate) fn push_member(&mut self, x: Member)
        requires
            !has_key(old(self)@.members, x.key()),
        ensures
            final(self)@ == (DbView { members: old(self)@.members.push(x), ..old(self)@ }),
    {
        proof {
            use_type_invariant(&*self);
            lemma_push_unique(self.members@, x);
        }
        let mut v: Vec<_> = Vec::new();
        std::mem::swap(&mut v, &mut self.members);
        v.push(x);
        self.members = v;
    }

    pub(crate) fn set_member_row(&mut self, i: usize, x: Member)
        requires
            i < old(self)@.members.len(),
            x.key() == old(self)@.members[i as int].key(),
        ensures
            final(self)@ == (DbView { members: old(self)@.members.update(i as int, x), ..old(self)@ }),
    {
        proof {
            use_type_invariant(&*self);
            let t = self.members@.update(i as int, x);
            assert forall|k: int| 0 <= k < t.len() implies #[trigger] t[k].key() == self.members@[k].key() by {}
            lemma_same_keys_unique(self.members@, t);
        }
        let mut v: Vec<_> = Vec::new();
        std::mem::swap(&mut v, &mut self.members);
        v.set(i, x);
        self.members = v;
    }

    pub(crate) fn push_image(&mut self, x: Image)
        requires
            !has_key(old(self)@.images, x.key()),
        ensures
            final(self)@ == (DbView { images: old(self)@.images.push(x), ..old(self)@ }),
    {
        proof {
            use_type_invariant(&*self);
            lemma_push_unique(self.images@, x);
        }
        let mut v: Vec<_> = Vec::new();
        std::mem::swap(&mut v, &mut self.images);
        v.push(x);
        self.images = v;
    }

    pub(crate) fn push_edge(&mut self, x: Edge)
        requires
            !has_key(old(self)@.edges, x.key()),
        ensures
            final(self)@ == (DbView { edges: old(self)@.edges.push(x), ..old(self)@ }),
    {
        proof {
            use_type_invariant(&*self);
            lemma_push_unique(self.edges@, x);
        }
        let mut v: Vec<_> = Vec::new();
        std::mem::swap(&mut v, &mut self.edges);
        v.push(x);
        self.edges = v;
    }

}

/// Whether no key occurs twice in a table.
pub fn all_keys_unique<T: Keyed>(v: &Vec<T>) -> (r: bool)
    ensures
        r == unique_keys(v@),
{
    let mut i: usize = 0;
    while i < v.len()
        invariant
            i <= v.len(),
            forall|a: int, b: int| 0 <= a < i && 0 <= b < v.len() && #[trigger] v@[a].key() == #[trigger] v@[b].key() ==> a == b,
        decreases v.len() - i,
    {
        let mut j: usize = 0;
        while j < v.len()
            invariant
                i < v.len(),
                j <= v.len(),
                forall|a: int, b: int| 0 <= a < i && 0 <= b < v.len() && #[trigger] v@[a].key() == #[trigger] v@[b].key() ==> a == b,
                forall|b: int| 0 <= b < j && v@[i as int].key() == #[trigger] v@[b].key() ==> b == i,
            decreases v.len() - j,
        {
            if j != i && str_eq(v[i].key_str(), v[j].key_str()) {
                return false;
            }
            j = j + 1;
        }
        i = i + 1;
    }
    true
}

} // verus!
