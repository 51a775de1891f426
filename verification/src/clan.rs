//! Clans and their burial groups.
use vstd::prelude::*;
use crate::db::{ClanTrailDb, DbView, concat_str, no_photos_of, edge_avoids, key_is_not};
use crate::error::{AppError, db_error, not_found};
use crate::models::{BurialGroup, Clan, Edge, EntityType, Grave, Image, Member, NewBurialGroup, NewClan,
    entity_type_name, new_uuid, now_iso};
use crate::sort::{order_rows, push_str_key, sorted_rows, str_key};
use crate::store::{Keyed, has_key, lookup, key_index, keys_of, position, retain_where, keys_vec, contains_str,
    opt_is, opt_eq_str, lemma_filter_unique, lemma_same_keys_unique};
use crate::grave::{grave_in_clan, photo_of, edge_touches};
use crate::text::str_eq;

verus! {

/// The row stored for a new clan.
pub open spec fn new_clan_row(input: NewClan, id: String, now: String) -> Clan {
    Clan {
        id: id,
        name: input.name,
        description: input.description,
        origin: input.origin,
        created_at: now,
        updated_at: now,
        version: 1,
        deleted: false,
    }
}

/// A clan after an update: given fields replace the stored ones.
pub open spec fn updated_clan(
    c: Clan,
    name: Option<String>,
    description: Option<String>,
    origin: Option<String>,
    now: String,
) -> Clan {
    Clan {
        name: match name { Some(n) => n, None => c.name },
        description: match description { Some(d) => Some(d), None => c.description },
        origin: match origin { Some(o) => Some(o), None => c.origin },
        updated_at: now,
        version: (c.version + 1) as u32,
        ..c
    }
}

/// The row stored for a new burial group.
pub open spec fn new_group_row(input: NewBurialGroup, id: String, now: String) -> BurialGroup {
    BurialGroup {
        id: id,
        clan_id: input.clan_id,
        name: input.name,
        description: input.description,
        created_at: now,
        updated_at: now,
    }
}

/// Clans are listed by name.
pub open spec fn clan_order(c: Clan) -> Seq<u64> {
    str_key(c.name@)
}

/// Burial groups are listed by name.
pub open spec fn group_order(g: BurialGroup) -> Seq<u64> {
    str_key(g.name@)
}

pub open spec fn group_in_clan(clan_id: Seq<char>) -> spec_fn(BurialGroup) -> bool {
    |g: BurialGroup| g.clan_id@ == clan_id
}

/// Graves whose burial group is among `gids` lose that group.
pub open spec fn unlink_groups(graves: Seq<Grave>, gids: Seq<Seq<char>>) -> Seq<Grave> {
    graves.map_values(|t: Grave| if t.burial_group_id is Some && gids.contains(t.burial_group_id->0@) {
        Grave { burial_group_id: None, ..t }
    } else {
        t
    })
}

/// Members that are buried in one of `grave_ids` or belong to the clan directly.
pub open spec fn member_of_clan_or_graves(clan_id: Seq<char>, grave_ids: Seq<Seq<char>>) -> spec_fn(Member) -> bool {
    |m: Member| (m.grave_id is Some && grave_ids.contains(m.grave_id->0@)) || opt_is(m.clan_id, clan_id)
}

/// The store after a burial group is deleted: its graves stay with their
/// clan and only lose the group; the group row is gone.
pub open spec fn after_group_delete(v: DbView, id: Seq<char>) -> DbView {
    DbView {
        graves: unlink_groups(v.graves, seq![id]),
        groups: v.groups.filter(key_is_not::<BurialGroup>(id)),
        ..v
    }
}

/// The store after a clan is deleted: graves of its burial groups lose the
/// group; the photos of its graves; its members (buried in its graves or
/// belonging to it directly) with their photos and edges in both directions;
/// its graves, its burial groups, its photos and the clan row are gone.
pub open spec fn after_clan_delete(v: DbView, id: Seq<char>) -> DbView {
    let gids = keys_of(v.groups.filter(group_in_clan(id)));
    let tids = keys_of(v.graves.filter(grave_in_clan(id)));
    let mids = keys_of(v.members.filter(member_of_clan_or_graves(id, tids)));
    DbView {
        clans: v.clans.filter(key_is_not::<Clan>(id)),
        groups: v.groups.filter(|g: BurialGroup| !group_in_clan(id)(g)),
        graves: unlink_groups(v.graves, gids).filter(|t: Grave| !grave_in_clan(id)(t)),
        members: v.members.filter(|m: Member| !member_of_clan_or_graves(id, tids)(m)),
        images: v.images.filter(no_photos_of(entity_type_name(EntityType::Grave), tids))
            .filter(no_photos_of(entity_type_name(EntityType::Member), mids))
            .filter(no_photos_of(entity_type_name(EntityType::Clan), seq![id])),
        edges: v.edges.filter(edge_avoids(mids)),
    }
}

/// The graves with their burial group cleared when it is among `gids`.
fn unlinked_graves(graves: &Vec<Grave>, gids: &Vec<String>) -> (r: Vec<Grave>)
    requires
        crate::store::unique_keys(graves@),
    ensures
        r@ == unlink_groups(graves@, gids@.map_values(|s: String| s@)),
        crate::store::unique_keys(r@),
{
    let ghost gv = gids@.map_values(|s: String| s@);
    let mut out: Vec<Grave> = Vec::new();
    let mut i: usize = 0;
    while i < graves.len()
        invariant
            i <= graves.len(),
            gv == gids@.map_values(|s: String| s@),
            out@.len() == i,
            forall|j: int| 0 <= j < i ==> #[trigger] out@[j] == unlink_groups(graves@, gv)[j],
        decreases graves.len() - i,
    {
        let t = graves[i].duplicate();
        let hit = match &t.burial_group_id {
            Some(g) => contains_str(gids, g.as_str()),
            None => false,
        };
        if hit {
            out.push(Grave {
                id: t.id,
                name: t.name,
                latitude: t.latitude,
                longitude: t.longitude,
                address: t.address,
                description: t.description,
                burial_group_id: None,
                clan_id: t.clan_id,
                created_at: t.created_at,
                updated_at: t.updated_at,
                version: t.version,
                deleted: t.deleted,
            });
        } else {
            out.push(t);
        }
        i = i + 1;
    }
    proof {
        assert(out@ =~= unlink_groups(graves@, gv));
        assert forall|j: int| 0 <= j < out@.len() implies #[trigger] out@[j].key() == graves@[j].key() by {}
        lemma_same_keys_unique(graves@, out@);
    }
    out
}

pub(crate) fn clan_key_of(c: &Clan) -> (k: Vec<u64>)
    ensures
        k@ == clan_order(*c),
{
    let mut k: Vec<u64> = Vec::new();
    push_str_key(&mut k, c.name.as_str());
    k
}

fn group_key(g: &BurialGroup) -> (k: Vec<u64>)
    ensures
        k@ == group_order(*g),
{
    let mut k: Vec<u64> = Vec::new();
    push_str_key(&mut k, g.name.as_str());
    k
}

impl ClanTrailDb {
    /// Adds a clan under the given id, stamped with `now`.
    pub fn insert_clan(&mut self, input: NewClan, id: String, now: String) -> (r: Result<Clan, AppError>)
        ensures
            has_key(old(self)@.clans, id@) ==> (db_error(r) && final(self)@ == old(self)@),
            !has_key(old(self)@.clans, id@) ==> {
                &&& r == Ok::<Clan, AppError>(new_clan_row(input, id, now))
                &&& final(self)@ == (DbView { clans: old(self)@.clans.push(new_clan_row(input, id, now)), ..old(self)@ })
            },
    {
        if position(self.clans(), id.as_str()).is_some() {
            return Err(AppError::Database(concat_str("UNIQUE constraint failed: ", "clans.id")));
        }
        let clan = Clan {
            id: id,
            name: input.name,
            description: input.description,
            origin: input.origin,
            created_at: now.clone(),
            updated_at: now,
            version: 1,
            deleted: false,
        };
        self.push_clan(clan.duplicate());
        Ok(clan)
    }

    /// Creates a clan with a fresh id and the current time.
    pub fn create_clan(&mut self, input: NewClan) -> (r: Result<Clan, AppError>)
        ensures
            match r {
                Ok(c) => c == new_clan_row(input, c.id, c.created_at) && !has_key(old(self)@.clans, c.id@)
                    && final(self)@ == (DbView { clans: old(self)@.clans.push(c), ..old(self)@ }),
                Err(e) => e is Database && final(self)@ == old(self)@,
            },
            old(self)@.clans.len() == 0 ==> r is Ok,
    {
        let id = new_uuid();
        let now = now_iso();
        self.insert_clan(input, id, now)
    }

    pub fn get_clan(&self, id: &str) -> (r: Result<Clan, AppError>)
        ensures
            match lookup(self@.clans, id@) {
                Some(c) => r == Ok::<Clan, AppError>(c),
                None => not_found(r, "clan "@ + id@),
            },
    {
        match position(self.clans(), id) {
            Some(i) => Ok(self.clans()[i].duplicate()),
            None => Err(AppError::NotFound(concat_str("clan ", id))),
        }
    }

    /// All clans, ordered by name.
    pub fn list_clans(&self) -> (r: Result<Vec<Clan>, AppError>)
        ensures
            r matches Ok(v) && sorted_rows(self@.clans, |c: Clan| clan_order(c), v@),
    {
        let rows = retain_where(self.clans(), |c: &Clan| -> (b: bool) ensures b == true { true },
            Ghost(|c: Clan| true));
        proof {
            reveal(Seq::filter);
            assert(self@.clans.filter(|c: Clan| true) =~= self@.clans) by {
                lemma_filter_all(self@.clans);
            }
        }
        Ok(order_rows(rows, |c: &Clan| -> (k: Vec<u64>) ensures k@ == clan_order(*c) { clan_key_of(c) },
            Ghost(|c: Clan| clan_order(c))))
    }

    /// Updates a clan with the given fields, stamped with `now`.
    pub fn apply_clan_update(
        &mut self,
        id: &str,
        name: Option<String>,
        description: Option<String>,
        origin: Option<String>,
        now: String,
    ) -> (r: Result<Clan, AppError>)
        ensures
            match lookup(old(self)@.clans, id@) {
                None => final(self)@ == old(self)@ && not_found(r, "clan "@ + id@),
                Some(c) => if c.version == u32::MAX {
                    final(self)@ == old(self)@ && db_error(r)
                } else {
                    &&& r == Ok::<Clan, AppError>(updated_clan(c, name, description, origin, now))
                    &&& final(self)@ == (DbView { clans: old(self)@.clans.update(
                        key_index(old(self)@.clans, id@), updated_clan(c, name, description, origin, now)),
                        ..old(self)@ })
                },
            },
    {
        let i = match position(self.clans(), id) {
            Some(i) => i,
            None => return Err(AppError::NotFound(concat_str("clan ", id))),
        };
        let cur = self.clans()[i].duplicate();
        if cur.version == u32::MAX {
            return Err(AppError::Database(concat_str("integer out of range: ", "clans.version")));
        }
        let new = Clan {
            id: cur.id,
            name: match name { Some(n) => n, None => cur.name },
            description: match description { Some(d) => Some(d), None => cur.description },
            origin: match origin { Some(o) => Some(o), None => cur.origin },
            created_at: cur.created_at,
            updated_at: now,
            version: cur.version + 1,
            deleted: cur.deleted,
        };
        self.set_clan_row(i, new.duplicate());
        Ok(new)
    }

    /// Updates a clan; fields left out keep their stored values.
    pub fn update_clan(
        &mut self,
        id: &str,
        name: Option<String>,
        description: Option<String>,
        origin: Option<String>,
    ) -> (r: Result<Clan, AppError>)
        ensures
            match lookup(old(self)@.clans, id@) {
                None => final(self)@ == old(self)@ && not_found(r, "clan "@ + id@),
                Some(c) => if c.version == u32::MAX {
                    final(self)@ == old(self)@ && db_error(r)
                } else {
                    &&& r matches Ok(n)
                    &&& n == updated_clan(c, name, description, origin, n.updated_at)
                    &&& final(self)@ == (DbView { clans: old(self)@.clans.update(
                        key_index(old(self)@.clans, id@), n), ..old(self)@ })
                },
            },
    {
        let now = now_iso();
        self.apply_clan_update(id, name, description, origin, now)
    }

    /// Adds a burial group under the given id, stamped with `now`; the clan must exist.
    pub fn insert_burial_group(&mut self, input: NewBurialGroup, id: String, now: String)
        -> (r: Result<BurialGroup, AppError>)
        ensures
            !has_key(old(self)@.clans, input.clan_id@) ==> (final(self)@ == old(self)@
                && not_found(r, "clan "@ + input.clan_id@)),
            has_key(old(self)@.clans, input.clan_id@) && has_key(old(self)@.groups, id@)
                ==> (db_error(r) && final(self)@ == old(self)@),
            has_key(old(self)@.clans, input.clan_id@) && !has_key(old(self)@.groups, id@) ==> {
                &&& r == Ok::<BurialGroup, AppError>(new_group_row(input, id, now))
                &&& final(self)@ == (DbView { groups: old(self)@.groups.push(new_group_row(input, id, now)), ..old(self)@ })
            },
    {
        if position(self.clans(), input.clan_id.as_str()).is_none() {
            return Err(AppError::NotFound(concat_str("clan ", input.clan_id.as_str())));
        }
        if position(self.groups(), id.as_str()).is_some() {
            return Err(AppError::Database(concat_str("UNIQUE constraint failed: ", "burial_groups.id")));
        }
        let group = BurialGroup {
            id: id,
            clan_id: input.clan_id,
            name: input.name,
            description: input.description,
            created_at: now.clone(),
            updated_at: now,
        };
        self.push_group(group.duplicate());
        Ok(group)
    }

    /// Creates a burial group of an existing clan, with a fresh id and the current time.
    pub fn create_burial_group(&mut self, input: NewBurialGroup) -> (r: Result<BurialGroup, AppError>)
        ensures
            !has_key(old(self)@.clans, input.clan_id@) ==> (final(self)@ == old(self)@
                && not_found(r, "clan "@ + input.clan_id@)),
            has_key(old(self)@.clans, input.clan_id@) ==> match r {
                Ok(g) => g == new_group_row(input, g.id, g.created_at) && !has_key(old(self)@.groups, g.id@)
                    && final(self)@ == (DbView { groups: old(self)@.groups.push(g), ..old(self)@ }),
                Err(e) => e is Database && final(self)@ == old(self)@,
            },
            has_key(old(self)@.clans, input.clan_id@) && old(self)@.groups.len() == 0 ==> r is Ok,
    {
        let id = new_uuid();
        let now = now_iso();
        self.insert_burial_group(input, id, now)
    }

    pub fn get_burial_group(&self, id: &str) -> (r: Result<BurialGroup, AppError>)
        ensures
            match lookup(self@.groups, id@) {
                Some(g) => r == Ok::<BurialGroup, AppError>(g),
                None => not_found(r, "burial_group "@ + id@),
            },
    {
        match position(self.groups(), id) {
            Some(i) => Ok(self.groups()[i].duplicate()),
            None => Err(AppError::NotFound(concat_str("burial_group ", id))),
        }
    }

    /// The burial groups of a clan, ordered by name.
    pub fn list_groups_by_clan(&self, clan_id: &str) -> (r: Result<Vec<BurialGroup>, AppError>)
        ensures
            r matches Ok(v) && sorted_rows(self@.groups.filter(group_in_clan(clan_id@)),
                |g: BurialGroup| group_order(g), v@),
    {
        let rows = retain_where(self.groups(),
            |g: &BurialGroup| -> (b: bool) ensures b == (g.clan_id@ == clan_id@) { str_eq(g.clan_id.as_str(), clan_id) },
            Ghost(group_in_clan(clan_id@)));
        Ok(order_rows(rows, |g: &BurialGroup| -> (k: Vec<u64>) ensures k@ == group_order(*g) { group_key(g) },
            Ghost(|g: BurialGroup| group_order(g))))
    }
}

impl ClanTrailDb {
    /// Deletes a burial group. Its graves stay with their clan and only lose
    /// the group, even when the group does not exist, which is then reported.
    pub fn delete_burial_group(&mut self, id: &str) -> (r: Result<(), AppError>)
        ensures
            final(self)@ == after_group_delete(old(self)@, id@),
            has_key(old(self)@.groups, id@) ==> r is Ok,
            !has_key(old(self)@.groups, id@) ==> not_found(r, "burial_group "@ + id@),
    {
        let ghost v = self@;
        let mut only = Vec::new();
        only.push(crate::text::string_of(id));
        assert(only@.map_values(|s: String| s@) =~= seq![id@]);
        let graves = unlinked_graves(self.graves(), &only);
        let groups = retain_where(self.groups(),
            |g: &BurialGroup| -> (b: bool) ensures b == (g.id@ != id@) { !str_eq(g.id.as_str(), id) },
            Ghost(key_is_not::<BurialGroup>(id@)));
        let found = position(self.groups(), id).is_some();
        proof { lemma_filter_unique(v.groups, key_is_not::<BurialGroup>(id@)); }
        self.set_graves(graves);
        self.set_groups(groups);
        if !found {
            return Err(AppError::NotFound(concat_str("burial_group ", id)));
        }
        Ok(())
    }

    /// Deletes a clan and everything under it (see `after_clan_delete`).
    /// Graves of its burial groups that belong to another clan only lose the
    /// group. Everything but the clan row is cleared even when the clan does
    /// not exist, which is then reported.
    pub fn delete_clan(&mut self, id: &str) -> (r: Result<(), AppError>)
        ensures
            final(self)@ == after_clan_delete(old(self)@, id@),
            has_key(old(self)@.clans, id@) ==> r is Ok,
            !has_key(old(self)@.clans, id@) ==> not_found(r, "clan "@ + id@),
    {
        let ghost v = self@;
        let grave_ty = EntityType::Grave.as_str();
        let member_ty = EntityType::Member.as_str();
        let clan_ty = EntityType::Clan.as_str();
        let mut only = Vec::new();
        only.push(crate::text::string_of(id));
        assert(only@.map_values(|s: String| s@) =~= seq![id@]);

        let clan_groups = retain_where(self.groups(),
            |g: &BurialGroup| -> (b: bool) ensures b == (g.clan_id@ == id@) { str_eq(g.clan_id.as_str(), id) },
            Ghost(group_in_clan(id@)));
        let gids = keys_vec(&clan_groups);
        let clan_graves = retain_where(self.graves(),
            |t: &Grave| -> (b: bool) ensures b == opt_is(t.clan_id, id@) { opt_eq_str(&t.clan_id, id) },
            Ghost(grave_in_clan(id@)));
        let tids = keys_vec(&clan_graves);
        let ghost tv = keys_of(v.graves.filter(grave_in_clan(id@)));
        let clan_members = retain_where(self.members(),
            |m: &Member| -> (b: bool) ensures b == member_of_clan_or_graves(id@, tv)(*m) {
                (match &m.grave_id { Some(g) => contains_str(&tids, g.as_str()), None => false })
                    || opt_eq_str(&m.clan_id, id)
            },
            Ghost(member_of_clan_or_graves(id@, tv)));
        let mids = keys_vec(&clan_members);
        let ghost mv = keys_of(v.members.filter(member_of_clan_or_graves(id@, tv)));

        let graves1 = unlinked_graves(self.graves(), &gids);
        let images1 = retain_where(self.images(),
            |i: &Image| -> (b: bool) ensures b == no_photos_of(entity_type_name(EntityType::Grave), tv)(*i) {
                !photo_of(i, grave_ty, &tids)
            },
            Ghost(no_photos_of(entity_type_name(EntityType::Grave), tv)));
        let images2 = retain_where(&images1,
            |i: &Image| -> (b: bool) ensures b == no_photos_of(entity_type_name(EntityType::Member), mv)(*i) {
                !photo_of(i, member_ty, &mids)
            },
            Ghost(no_photos_of(entity_type_name(EntityType::Member), mv)));
        let edges = retain_where(self.edges(),
            |e: &Edge| -> (b: bool) ensures b == edge_avoids(mv)(*e) { !edge_touches(e, &mids) },
            Ghost(edge_avoids(mv)));
        let members = retain_where(self.members(),
            |m: &Member| -> (b: bool) ensures b == !member_of_clan_or_graves(id@, tv)(*m) {
                !((match &m.grave_id { Some(g) => contains_str(&tids, g.as_str()), None => false })
                    || opt_eq_str(&m.clan_id, id))
            },
            Ghost(|m: Member| !member_of_clan_or_graves(id@, tv)(m)));
        let graves2 = retain_where(&graves1,
            |t: &Grave| -> (b: bool) ensures b == !grave_in_clan(id@)(*t) { !opt_eq_str(&t.clan_id, id) },
            Ghost(|t: Grave| !grave_in_clan(id@)(t)));
        let groups = retain_where(self.groups(),
            |g: &BurialGroup| -> (b: bool) ensures b == !group_in_clan(id@)(*g) { !str_eq(g.clan_id.as_str(), id) },
            Ghost(|g: BurialGroup| !group_in_clan(id@)(g)));
        let images3 = retain_where(&images2,
            |i: &Image| -> (b: bool) ensures b == no_photos_of(entity_type_name(EntityType::Clan), seq![id@])(*i) {
                !photo_of(i, clan_ty, &only)
            },
            Ghost(no_photos_of(entity_type_name(EntityType::Clan), seq![id@])));
        let clans = retain_where(self.clans(),
            |c: &Clan| -> (b: bool) ensures b == (c.id@ != id@) { !str_eq(c.id.as_str(), id) },
            Ghost(key_is_not::<Clan>(id@)));
        let found = position(self.clans(), id).is_some();
        proof {
            lemma_filter_unique(v.images, no_photos_of(entity_type_name(EntityType::Grave), tv));
            lemma_filter_unique(images1@, no_photos_of(entity_type_name(EntityType::Member), mv));
            lemma_filter_unique(images2@, no_photos_of(entity_type_name(EntityType::Clan), seq![id@]));
            lemma_filter_unique(v.edges, edge_avoids(mv));
            lemma_filter_unique(v.members, |m: Member| !member_of_clan_or_graves(id@, tv)(m));
            lemma_filter_unique(graves1@, |t: Grave| !grave_in_clan(id@)(t));
            lemma_filter_unique(v.groups, |g: BurialGroup| !group_in_clan(id@)(g));
            lemma_filter_unique(v.clans, key_is_not::<Clan>(id@));
        }
        self.set_graves(graves2);
        self.set_images(images3);
        self.set_edges(edges);
        self.set_members(members);
        self.set_groups(groups);
        self.set_clans(clans);
        if !found {
            return Err(AppError::NotFound(concat_str("clan ", id)));
        }
        Ok(())
    }
}

/// Filtering by a predicate that holds everywhere keeps everything.
pub proof fn lemma_filter_all<T>(s: Seq<T>)
    ensures
        s.filter(|x: T| true) == s,
    decreases s.len(),
{
    reveal(Seq::filter);
    if s.len() > 0 {
        lemma_filter_all(s.drop_last());
        assert(s.drop_last().push(s.last()) =~= s);
    }
}

} // verus!
