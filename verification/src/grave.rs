//! Graves: coordinates, membership in clans and burial groups, and deletion
//! with everything that hangs off a grave.
use vstd::prelude::*;
use crate::db::{ClanTrailDb, DbView, concat_str, no_photos_of, edge_avoids, key_is_not};
use crate::error::{AppError, db_error, invalid_input, not_found};
use crate::models::{EntityType, Grave, Image, Edge, Member, NewGrave, entity_type_name, new_uuid, now_iso};
use crate::sort::{order_rows, push_str_key, sorted_rows, str_key};
use crate::store::{Keyed, has_key, lookup, key_index, keys_of, position, retain_where, keys_vec,
    contains_str, opt_is, opt_eq_str, lemma_filter_unique};
use crate::text::str_eq;

verus! {

/// Bit pattern of the double 90.0.
pub const LATITUDE_LIMIT_BITS: u64 = 0x4056_8000_0000_0000u64;

/// Bit pattern of the double 180.0.
pub const LONGITUDE_LIMIT_BITS: u64 = 0x4066_8000_0000_0000u64;

/// Whether the double with bit pattern `b` compares below `-limit` or above
/// `limit`, where `limit_bits` is the pattern of a positive finite `limit`.
/// Doubles of one sign are ordered as their magnitude bits; the infinities are
/// out of every range, and NaN compares false with everything, so it is never
/// out of range.
pub open spec fn coord_out_of_range(b: u64, limit_bits: u64) -> bool {
    let m = b & 0x7FFF_FFFF_FFFF_FFFFu64;
    m > limit_bits && m <= 0x7FF0_0000_0000_0000u64
}

pub fn coordinate_out_of_range(b: u64, limit_bits: u64) -> (r: bool)
    ensures
        r == coord_out_of_range(b, limit_bits),
{
    let m = b & 0x7FFF_FFFF_FFFF_FFFFu64;
    m > limit_bits && m <= 0x7FF0_0000_0000_0000u64
}

/// The row stored for a new grave.
pub open spec fn new_grave_row(input: NewGrave, id: String, now: String) -> Grave {
    Grave {
        id: id,
        name: input.name,
        latitude: input.latitude,
        longitude: input.longitude,
        address: input.address,
        description: input.description,
        burial_group_id: input.burial_group_id,
        clan_id: input.clan_id,
        created_at: now,
        updated_at: now,
        version: 1,
        deleted: false,
    }
}

/// The checks a new grave must pass before it is stored, in order; `None` when all pass.
pub open spec fn grave_input_error(v: DbView, input: NewGrave) -> Option<(bool, Seq<char>)> {
    if coord_out_of_range(input.latitude, LATITUDE_LIMIT_BITS) {
        Some((true, "latitude out of range"@))
    } else if coord_out_of_range(input.longitude, LONGITUDE_LIMIT_BITS) {
        Some((true, "longitude out of range"@))
    } else if input.clan_id is Some && !has_key(v.clans, input.clan_id->0@) {
        Some((false, "clan "@ + input.clan_id->0@))
    } else if input.burial_group_id is Some && !has_key(v.groups, input.burial_group_id->0@) {
        Some((false, "burial_group "@ + input.burial_group_id->0@))
    } else {
        None
    }
}

/// The error a refused grave input is answered with: `InvalidInput` for the
/// coordinate checks, `NotFound` for a missing clan or group.
pub open spec fn refused_with<T>(r: Result<T, AppError>, e: (bool, Seq<char>)) -> bool {
    if e.0 { invalid_input(r, e.1) } else { not_found(r, e.1) }
}

/// A grave after an update: given fields replace the stored ones.
pub open spec fn updated_grave(
    g: Grave,
    name: Option<String>,
    latitude: Option<u64>,
    longitude: Option<u64>,
    address: Option<String>,
    description: Option<String>,
    burial_group_id: Option<String>,
    clan_id: Option<String>,
    now: String,
) -> Grave {
    Grave {
        name: match name { Some(n) => n, None => g.name },
        latitude: match latitude { Some(x) => x, None => g.latitude },
        longitude: match longitude { Some(x) => x, None => g.longitude },
        address: match address { Some(x) => Some(x), None => g.address },
        description: match description { Some(x) => Some(x), None => g.description },
        burial_group_id: match burial_group_id { Some(x) => Some(x), None => g.burial_group_id },
        clan_id: match clan_id { Some(x) => Some(x), None => g.clan_id },
        updated_at: now,
        version: (g.version + 1) as u32,
        ..g
    }
}

/// Graves are listed by name.
pub open spec fn grave_order(g: Grave) -> Seq<u64> {
    str_key(g.name@)
}

pub open spec fn grave_in_clan(clan_id: Seq<char>) -> spec_fn(Grave) -> bool {
    |g: Grave| opt_is(g.clan_id, clan_id)
}

pub open spec fn grave_in_group(group_id: Seq<char>) -> spec_fn(Grave) -> bool {
    |g: Grave| opt_is(g.burial_group_id, group_id)
}

pub open spec fn member_in_grave(grave_id: Seq<char>) -> spec_fn(Member) -> bool {
    |m: Member| opt_is(m.grave_id, grave_id)
}

/// The store after a grave is deleted: the photos and edges of its members,
/// its members, its own photos and the grave itself are gone.
pub open spec fn after_grave_delete(v: DbView, id: Seq<char>) -> DbView {
    let mids = keys_of(v.members.filter(member_in_grave(id)));
    DbView {
        images: v.images.filter(no_photos_of(entity_type_name(EntityType::Member), mids))
            .filter(no_photos_of(entity_type_name(EntityType::Grave), seq![id])),
        edges: v.edges.filter(edge_avoids(mids)),
        members: v.members.filter(|m: Member| !opt_is(m.grave_id, id)),
        graves: v.graves.filter(key_is_not::<Grave>(id)),
        ..v
    }
}

pub(crate) fn grave_key(g: &Grave) -> (k: Vec<u64>)
    ensures
        k@ == grave_order(*g),
{
    let mut k: Vec<u64> = Vec::new();
    push_str_key(&mut k, g.name.as_str());
    k
}

/// Whether a photo belongs to an entity of type `ty` whose id is among `ids`.
pub(crate) fn photo_of(i: &Image, ty: &str, ids: &Vec<String>) -> (b: bool)
    ensures
        b == (i.entity_type@ == ty@ && ids@.map_values(|s: String| s@).contains(i.entity_id@)),
{
    str_eq(i.entity_type.as_str(), ty) && contains_str(ids, i.entity_id.as_str())
}

/// Whether an edge touches one of `ids` at either end.
pub(crate) fn edge_touches(e: &Edge, ids: &Vec<String>) -> (b: bool)
    ensures
        b == (ids@.map_values(|s: String| s@).contains(e.member_id@)
            || ids@.map_values(|s: String| s@).contains(e.related_member_id@)),
{
    contains_str(ids, e.member_id.as_str()) || contains_str(ids, e.related_member_id.as_str())
}

impl ClanTrailDb {
    /// Adds a grave under the given id, stamped with `now`, once its
    /// coordinates are in range and its clan and burial group exist.
    pub fn insert_grave(&mut self, input: NewGrave, id: String, now: String) -> (r: Result<Grave, AppError>)
        ensures
            grave_input_error(old(self)@, input) matches Some(e) ==> (refused_with(r, e)
                && final(self)@ == old(self)@),
            grave_input_error(old(self)@, input) is None && has_key(old(self)@.graves, id@)
                ==> (db_error(r) && final(self)@ == old(self)@),
            grave_input_error(old(self)@, input) is None && !has_key(old(self)@.graves, id@) ==> {
                &&& r == Ok::<Grave, AppError>(new_grave_row(input, id, now))
                &&& final(self)@ == (DbView { graves: old(self)@.graves.push(new_grave_row(input, id, now)), ..old(self)@ })
            },
    {
        if coordinate_out_of_range(input.latitude, LATITUDE_LIMIT_BITS) {
            return Err(AppError::InvalidInput(crate::text::string_of("latitude out of range")));
        }
        if coordinate_out_of_range(input.longitude, LONGITUDE_LIMIT_BITS) {
            return Err(AppError::InvalidInput(crate::text::string_of("longitude out of range")));
        }
        if let Some(c) = &input.clan_id {
            if position(self.clans(), c.as_str()).is_none() {
                return Err(AppError::NotFound(concat_str("clan ", c.as_str())));
            }
        }
        if let Some(g) = &input.burial_group_id {
            if position(self.groups(), g.as_str()).is_none() {
                return Err(AppError::NotFound(concat_str("burial_group ", g.as_str())));
            }
        }
        if position(self.graves(), id.as_str()).is_some() {
            return Err(AppError::Database(concat_str("UNIQUE constraint failed: ", "graves.id")));
        }
        let grave = Grave {
            id: id,
            name: input.name,
            latitude: input.latitude,
            longitude: input.longitude,
            address: input.address,
            description: input.description,
            burial_group_id: input.burial_group_id,
            clan_id: input.clan_id,
            created_at: now.clone(),
            updated_at: now,
            version: 1,
            deleted: false,
        };
        self.push_grave(grave.duplicate());
        Ok(grave)
    }

    /// Creates a grave with a fresh id and the current time.
    pub fn create_grave(&mut self, input: NewGrave) -> (r: Result<Grave, AppError>)
        ensures
            grave_input_error(old(self)@, input) matches Some(e) ==> (refused_with(r, e)
                && final(self)@ == old(self)@),
            grave_input_error(old(self)@, input) is None ==> match r {
                Ok(g) => g == new_grave_row(input, g.id, g.created_at) && !has_key(old(self)@.graves, g.id@)
                    && final(self)@ == (DbView { graves: old(self)@.graves.push(g), ..old(self)@ }),
                Err(e) => e is Database && final(self)@ == old(self)@,
            },
            grave_input_error(old(self)@, input) is None && old(self)@.graves.len() == 0 ==> r is Ok,
    {
        let id = new_uuid();
        let now = now_iso();
        self.insert_grave(input, id, now)
    }

    pub fn get_grave(&self, id: &str) -> (r: Result<Grave, AppError>)
        ensures
            match lookup(self@.graves, id@) {
                Some(g) => r == Ok::<Grave, AppError>(g),
                None => not_found(r, "grave "@ + id@),
            },
    {
        match position(self.graves(), id) {
            Some(i) => Ok(self.graves()[i].duplicate()),
            None => Err(AppError::NotFound(concat_str("grave ", id))),
        }
    }

    /// All graves, ordered by name.
    pub fn list_graves(&self) -> (r: Result<Vec<Grave>, AppError>)
        ensures
            r matches Ok(v) && sorted_rows(self@.graves, |g: Grave| grave_order(g), v@),
    {
        let rows = retain_where(self.graves(), |g: &Grave| -> (b: bool) ensures b == true { true },
            Ghost(|g: Grave| true));
        proof {
            crate::clan::lemma_filter_all(self@.graves);
        }
        Ok(order_rows(rows, |g: &Grave| -> (k: Vec<u64>) ensures k@ == grave_order(*g) { grave_key(g) },
            Ghost(|g: Grave| grave_order(g))))
    }

    /// The graves of a clan, ordered by name.
    pub fn list_graves_by_clan(&self, clan_id: &str) -> (r: Result<Vec<Grave>, AppError>)
        ensures
            r matches Ok(v) && sorted_rows(self@.graves.filter(grave_in_clan(clan_id@)),
                |g: Grave| grave_order(g), v@),
    {
        let rows = retain_where(self.graves(),
            |g: &Grave| -> (b: bool) ensures b == opt_is(g.clan_id, clan_id@) { opt_eq_str(&g.clan_id, clan_id) },
            Ghost(grave_in_clan(clan_id@)));
        Ok(order_rows(rows, |g: &Grave| -> (k: Vec<u64>) ensures k@ == grave_order(*g) { grave_key(g) },
            Ghost(|g: Grave| grave_order(g))))
    }

    /// The graves of a burial group, ordered by name.
    pub fn list_graves_by_group(&self, burial_group_id: &str) -> (r: Result<Vec<Grave>, AppError>)
        ensures
            r matches Ok(v) && sorted_rows(self@.graves.filter(grave_in_group(burial_group_id@)),
                |g: Grave| grave_order(g), v@),
    {
        let rows = retain_where(self.graves(),
            |g: &Grave| -> (b: bool) ensures b == opt_is(g.burial_group_id, burial_group_id@) {
                opt_eq_str(&g.burial_group_id, burial_group_id)
            },
            Ghost(grave_in_group(burial_group_id@)));
        Ok(order_rows(rows, |g: &Grave| -> (k: Vec<u64>) ensures k@ == grave_order(*g) { grave_key(g) },
            Ghost(|g: Grave| grave_order(g))))
    }

    /// Updates a grave with the given fields, stamped with `now`.
    pub fn apply_grave_update(
        &mut self,
        id: &str,
        name: Option<String>,
        latitude: Option<u64>,
        longitude: Option<u64>,
        address: Option<String>,
        description: Option<String>,
        burial_group_id: Option<String>,
        clan_id: Option<String>,
        now: String,
    ) -> (r: Result<Grave, AppError>)
        ensures
            match lookup(old(self)@.graves, id@) {
                None => final(self)@ == old(self)@ && not_found(r, "grave "@ + id@),
                Some(g) => if g.version == u32::MAX {
                    final(self)@ == old(self)@ && db_error(r)
                } else {
                    &&& r == Ok::<Grave, AppError>(updated_grave(g, name, latitude, longitude, address,
                        description, burial_group_id, clan_id, now))
                    &&& final(self)@ == (DbView { graves: old(self)@.graves.update(key_index(old(self)@.graves, id@),
                        updated_grave(g, name, latitude, longitude, address, description, burial_group_id,
                        clan_id, now)), ..old(self)@ })
                },
            },
    {
        let i = match position(self.graves(), id) {
            Some(i) => i,
            None => return Err(AppError::NotFound(concat_str("grave ", id))),
        };
        let cur = self.graves()[i].duplicate();
        if cur.version == u32::MAX {
            return Err(AppError::Database(concat_str("integer out of range: ", "graves.version")));
        }
        let new = Grave {
            id: cur.id,
            name: match name { Some(x) => x, None => cur.name },
            latitude: match latitude { Some(x) => x, None => cur.latitude },
            longitude: match longitude { Some(x) => x, None => cur.longitude },
            address: match address { Some(x) => Some(x), None => cur.address },
            description: match description { Some(x) => Some(x), None => cur.description },
            burial_group_id: match burial_group_id { Some(x) => Some(x), None => cur.burial_group_id },
            clan_id: match clan_id { Some(x) => Some(x), None => cur.clan_id },
            created_at: cur.created_at,
            updated_at: now,
            version: cur.version + 1,
            deleted: cur.deleted,
        };
        self.set_grave_row(i, new.duplicate());
        Ok(new)
    }

    /// Updates a grave; fields left out keep their stored values.
    pub fn update_grave(
        &mut self,
        id: &str,
        name: Option<String>,
        latitude: Option<u64>,
        longitude: Option<u64>,
        address: Option<String>,
        description: Option<String>,
        burial_group_id: Option<String>,
        clan_id: Option<String>,
    ) -> (r: Result<Grave, AppError>)
        ensures
            match lookup(old(self)@.graves, id@) {
                None => final(self)@ == old(self)@ && not_found(r, "grave "@ + id@),
                Some(g) => if g.version == u32::MAX {
                    final(self)@ == old(self)@ && db_error(r)
                } else {
                    &&& r matches Ok(n)
                    &&& n == updated_grave(g, name, latitude, longitude, address, description,
                        burial_group_id, clan_id, n.updated_at)
                    &&& final(self)@ == (DbView { graves: old(self)@.graves.update(key_index(old(self)@.graves, id@), n),
                        ..old(self)@ })
                },
            },
    {
        let now = now_iso();
        self.apply_grave_update(id, name, latitude, longitude, address, description, burial_group_id, clan_id, now)
    }

    /// Deletes a grave with its members, their photos and edges (in both
    /// directions), and its own photos. Everything but the grave row is
    /// cleared even when the grave does not exist, which is then reported.
    pub fn delete_grave(&mut self, id: &str) -> (r: Result<(), AppError>)
        ensures
            final(self)@ == after_grave_delete(old(self)@, id@),
            has_key(old(self)@.graves, id@) ==> r is Ok,
            !has_key(old(self)@.graves, id@) ==> not_found(r, "grave "@ + id@),
    {
        let ghost v = self@;
        let in_grave = retain_where(self.members(),
            |m: &Member| -> (b: bool) ensures b == opt_is(m.grave_id, id@) { opt_eq_str(&m.grave_id, id) },
            Ghost(member_in_grave(id@)));
        let mids = keys_vec(&in_grave);
        let ghost mv = keys_of(v.members.filter(member_in_grave(id@)));
        let member_ty = EntityType::Member.as_str();
        let grave_ty = EntityType::Grave.as_str();
        let mut only = Vec::new();
        only.push(crate::text::string_of(id));
        assert(only@.map_values(|s: String| s@) =~= seq![id@]);

        let images1 = retain_where(self.images(),
            |i: &Image| -> (b: bool) ensures b == no_photos_of(entity_type_name(EntityType::Member), mv)(*i) {
                !photo_of(i, member_ty, &mids)
            },
            Ghost(no_photos_of(entity_type_name(EntityType::Member), mv)));
        let images2 = retain_where(&images1,
            |i: &Image| -> (b: bool) ensures b == no_photos_of(entity_type_name(EntityType::Grave), seq![id@])(*i) {
                !photo_of(i, grave_ty, &only)
            },
            Ghost(no_photos_of(entity_type_name(EntityType::Grave), seq![id@])));
        let edges = retain_where(self.edges(),
            |e: &Edge| -> (b: bool) ensures b == edge_avoids(mv)(*e) { !edge_touches(e, &mids) },
            Ghost(edge_avoids(mv)));
        let members = retain_where(self.members(),
            |m: &Member| -> (b: bool) ensures b == !opt_is(m.grave_id, id@) { !opt_eq_str(&m.grave_id, id) },
            Ghost(|m: Member| !opt_is(m.grave_id, id@)));
        let graves = retain_where(self.graves(),
            |g: &Grave| -> (b: bool) ensures b == (g.id@ != id@) { !str_eq(g.id.as_str(), id) },
            Ghost(key_is_not::<Grave>(id@)));
        let found = position(self.graves(), id).is_some();
        proof {
            lemma_filter_unique(v.images, no_photos_of(entity_type_name(EntityType::Member), mv));
            lemma_filter_unique(images1@, no_photos_of(entity_type_name(EntityType::Grave), seq![id@]));
            lemma_filter_unique(v.edges, edge_avoids(mv));
            lemma_filter_unique(v.members, |m: Member| !opt_is(m.grave_id, id@));
            lemma_filter_unique(v.graves, key_is_not::<Grave>(id@));
        }
        self.set_images(images2);
        self.set_edges(edges);
        self.set_members(members);
        self.set_graves(graves);
        if !found {
            return Err(AppError::NotFound(concat_str("grave ", id)));
        }
        Ok(())
    }
}

} // verus!
