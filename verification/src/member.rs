//! Members: the people buried in graves and their living relatives.
use vstd::prelude::*;
use crate::db::{ClanTrailDb, DbView, concat_str, no_photos_of, edge_avoids, key_is_not};
use crate::error::{AppError, db_error, not_found};
use crate::grave::{photo_of, edge_touches, member_in_grave};
use crate::models::{EntityType, Image, Edge, Member, NewMember, entity_type_name, new_uuid, now_iso};
use crate::sort::{order_rows, push_str_key, sorted_rows, str_key, i32_key, bool_key, i32_key_of};
use crate::store::{Keyed, has_key, lookup, key_index, position, retain_where,
    opt_is, opt_eq_str, lemma_filter_unique};
use crate::text::str_eq;

verus! {

/// The row stored for a new member.
pub open spec fn new_member_row(input: NewMember, id: String, now: String) -> Member {
    Member {
        id: id,
        grave_id: input.grave_id,
        clan_id: input.clan_id,
        name: input.name,
        title: input.title,
        birth_date: input.birth_date,
        death_date: input.death_date,
        biography: input.biography,
        epitaph: input.epitaph,
        spouse: input.spouse,
        is_joint_burial: input.is_joint_burial,
        children: input.children,
        is_alive: input.is_alive,
        order_index: input.order_index,
        created_at: now,
        updated_at: now,
        version: 1,
        deleted: false,
    }
}

/// The check a new member must pass: its grave and clan, when given, exist.
pub open spec fn member_input_error(v: DbView, input: NewMember) -> Option<Seq<char>> {
    if input.grave_id is Some && !has_key(v.graves, input.grave_id->0@) {
        Some("grave "@ + input.grave_id->0@)
    } else if input.clan_id is Some && !has_key(v.clans, input.clan_id->0@) {
        Some("clan "@ + input.clan_id->0@)
    } else {
        None
    }
}

/// The fields of a member update; `None` keeps the stored value.
pub struct MemberChanges {
    pub name: Option<String>,
    pub title: Option<String>,
    pub birth_date: Option<String>,
    pub death_date: Option<String>,
    pub biography: Option<String>,
    pub epitaph: Option<String>,
    pub spouse: Option<String>,
    pub is_joint_burial: Option<bool>,
    pub children: Option<String>,
    pub order_index: Option<i32>,
    pub clan_id: Option<String>,
    pub is_alive: Option<bool>,
}

pub open spec fn or_keep<T>(x: Option<T>, cur: T) -> T {
    match x { Some(v) => v, None => cur }
}

pub open spec fn or_keep_opt<T>(x: Option<T>, cur: Option<T>) -> Option<T> {
    match x { Some(v) => Some(v), None => cur }
}

/// A member after an update: given fields replace the stored ones.
pub open spec fn updated_member(m: Member, c: MemberChanges, now: String) -> Member {
    Member {
        name: or_keep(c.name, m.name),
        title: or_keep_opt(c.title, m.title),
        birth_date: or_keep_opt(c.birth_date, m.birth_date),
        death_date: or_keep_opt(c.death_date, m.death_date),
        biography: or_keep_opt(c.biography, m.biography),
        epitaph: or_keep_opt(c.epitaph, m.epitaph),
        spouse: or_keep_opt(c.spouse, m.spouse),
        is_joint_burial: or_keep(c.is_joint_burial, m.is_joint_burial),
        children: or_keep_opt(c.children, m.children),
        order_index: or_keep(c.order_index, m.order_index),
        clan_id: or_keep_opt(c.clan_id, m.clan_id),
        is_alive: or_keep(c.is_alive, m.is_alive),
        updated_at: now,
        version: (m.version + 1) as u32,
        ..m
    }
}

/// Members of a grave are listed by their order in the grave, then name.
pub open spec fn member_grave_order(m: Member) -> Seq<u64> {
    seq![i32_key(m.order_index)] + str_key(m.name@)
}

/// Members of a clan are listed deceased first, then by order and name.
pub open spec fn member_clan_order(m: Member) -> Seq<u64> {
    seq![bool_key(m.is_alive), i32_key(m.order_index)] + str_key(m.name@)
}

/// Members whose clan is `clan_id`: the living ones, or with `alive` given,
/// those whose living mark is `alive`.
pub open spec fn member_in_clan(clan_id: Seq<char>, alive: Option<bool>) -> spec_fn(Member) -> bool {
    |m: Member| opt_is(m.clan_id, clan_id) && m.is_alive == match alive { Some(a) => a, None => true }
}

/// The store after a member is deleted: its photos, its edges in both
/// directions and its row are gone.
pub open spec fn after_member_delete(v: DbView, id: Seq<char>) -> DbView {
    DbView {
        images: v.images.filter(no_photos_of(entity_type_name(EntityType::Member), seq![id])),
        edges: v.edges.filter(edge_avoids(seq![id])),
        members: v.members.filter(key_is_not::<Member>(id)),
        ..v
    }
}

fn member_grave_key(m: &Member) -> (k: Vec<u64>)
    ensures
        k@ == member_grave_order(*m),
{
    let mut k: Vec<u64> = Vec::new();
    k.push(i32_key_of(m.order_index));
    push_str_key(&mut k, m.name.as_str());
    assert(k@ =~= member_grave_order(*m));
    k
}

pub(crate) fn member_clan_key(m: &Member) -> (k: Vec<u64>)
    ensures
        k@ == member_clan_order(*m),
{
    let mut k: Vec<u64> = Vec::new();
    k.push(if m.is_alive { 1 } else { 0 });
    k.push(i32_key_of(m.order_index));
    push_str_key(&mut k, m.name.as_str());
    assert(k@ =~= member_clan_order(*m));
    k
}

impl ClanTrailDb {
    /// Adds a member under the given id, stamped with `now`, once its grave and
    /// clan (when given) exist.
    pub fn insert_member(&mut self, input: NewMember, id: String, now: String) -> (r: Result<Member, AppError>)
        ensures
            member_input_error(old(self)@, input) matches Some(msg) ==> (not_found(r, msg)
                && final(self)@ == old(self)@),
            member_input_error(old(self)@, input) is None && has_key(old(self)@.members, id@)
                ==> (db_error(r) && final(self)@ == old(self)@),
            member_input_error(old(self)@, input) is None && !has_key(old(self)@.members, id@) ==> {
                &&& r == Ok::<Member, AppError>(new_member_row(input, id, now))
                &&& final(self)@ == (DbView { members: old(self)@.members.push(new_member_row(input, id, now)),
                    ..old(self)@ })
            },
    {
        if let Some(g) = &input.grave_id {
            if position(self.graves(), g.as_str()).is_none() {
                return Err(AppError::NotFound(concat_str("grave ", g.as_str())));
            }
        }
        if let Some(c) = &input.clan_id {
            if position(self.clans(), c.as_str()).is_none() {
                return Err(AppError::NotFound(concat_str("clan ", c.as_str())));
            }
        }
        if position(self.members(), id.as_str()).is_some() {
            return Err(AppError::Database(concat_str("UNIQUE constraint failed: ", "members.id")));
        }
        let member = Member {
            id: id,
            grave_id: input.grave_id,
            clan_id: input.clan_id,
            name: input.name,
            title: input.title,
            birth_date: input.birth_date,
            death_date: input.death_date,
            biography: input.biography,
            epitaph: input.epitaph,
            spouse: input.spouse,
            is_joint_burial: input.is_joint_burial,
            children: input.children,
            is_alive: input.is_alive,
            order_index: input.order_index,
            created_at: now.clone(),
            updated_at: now,
            version: 1,
            deleted: false,
        };
        self.push_member(member.duplicate());
        Ok(member)
    }

    /// Creates a member with a fresh id and the current time.
    pub fn create_member(&mut self, input: NewMember) -> (r: Result<Member, AppError>)
        ensures
            member_input_error(old(self)@, input) matches Some(msg) ==> (not_found(r, msg)
                && final(self)@ == old(self)@),
            member_input_error(old(self)@, input) is None ==> match r {
                Ok(m) => m == new_member_row(input, m.id, m.created_at) && !has_key(old(self)@.members, m.id@)
                    && final(self)@ == (DbView { members: old(self)@.members.push(m), ..old(self)@ }),
                Err(e) => e is Database && final(self)@ == old(self)@,
            },
            member_input_error(old(self)@, input) is None && old(self)@.members.len() == 0 ==> r is Ok,
    {
        let id = new_uuid();
        let now = now_iso();
        self.insert_member(input, id, now)
    }

    /// The members of a grave, by their order in the grave, then by name.
    pub fn list_members_by_grave(&self, grave_id: &str) -> (r: Result<Vec<Member>, AppError>)
        ensures
            r matches Ok(v) && sorted_rows(self@.members.filter(member_in_grave(grave_id@)),
                |m: Member| member_grave_order(m), v@),
    {
        let rows = retain_where(self.members(),
            |m: &Member| -> (b: bool) ensures b == opt_is(m.grave_id, grave_id@) { opt_eq_str(&m.grave_id, grave_id) },
            Ghost(member_in_grave(grave_id@)));
        Ok(order_rows(rows, |m: &Member| -> (k: Vec<u64>) ensures k@ == member_grave_order(*m) { member_grave_key(m) },
            Ghost(|m: Member| member_grave_order(m))))
    }

    pub fn get_member(&self, id: &str) -> (r: Result<Member, AppError>)
        ensures
            match lookup(self@.members, id@) {
                Some(m) => r == Ok::<Member, AppError>(m),
                None => not_found(r, "member "@ + id@),
            },
    {
        match position(self.members(), id) {
            Some(i) => Ok(self.members()[i].duplicate()),
            None => Err(AppError::NotFound(concat_str("member ", id))),
        }
    }

    /// Updates a member with the given fields, stamped with `now`.
    pub fn apply_member_update(&mut self, id: &str, c: MemberChanges, now: String) -> (r: Result<Member, AppError>)
        ensures
            match lookup(old(self)@.members, id@) {
                None => final(self)@ == old(self)@ && not_found(r, "member "@ + id@),
                Some(m) => if m.version == u32::MAX {
                    final(self)@ == old(self)@ && db_error(r)
                } else {
                    &&& r == Ok::<Member, AppError>(updated_member(m, c, now))
                    &&& final(self)@ == (DbView { members: old(self)@.members.update(
                        key_index(old(self)@.members, id@), updated_member(m, c, now)), ..old(self)@ })
                },
            },
    {
        let i = match position(self.members(), id) {
            Some(i) => i,
            None => return Err(AppError::NotFound(concat_str("member ", id))),
        };
        let cur = self.members()[i].duplicate();
        if cur.version == u32::MAX {
            return Err(AppError::Database(concat_str("integer out of range: ", "members.version")));
        }
        let new = Member {
            id: cur.id,
            grave_id: cur.grave_id,
            clan_id: match c.clan_id { Some(x) => Some(x), None => cur.clan_id },
            name: match c.name { Some(x) => x, None => cur.name },
            title: match c.title { Some(x) => Some(x), None => cur.title },
            birth_date: match c.birth_date { Some(x) => Some(x), None => cur.birth_date },
            death_date: match c.death_date { Some(x) => Some(x), None => cur.death_date },
            biography: match c.biography { Some(x) => Some(x), None => cur.biography },
            epitaph: match c.epitaph { Some(x) => Some(x), None => cur.epitaph },
            spouse: match c.spouse { Some(x) => Some(x), None => cur.spouse },
            is_joint_burial: match c.is_joint_burial { Some(x) => x, None => cur.is_joint_burial },
            children: match c.children { Some(x) => Some(x), None => cur.children },
            is_alive: match c.is_alive { Some(x) => x, None => cur.is_alive },
            order_index: match c.order_index { Some(x) => x, None => cur.order_index },
            created_at: cur.created_at,
            updated_at: now,
            version: cur.version + 1,
            deleted: cur.deleted,
        };
        self.set_member_row(i, new.duplicate());
        Ok(new)
    }

    /// Updates a member; fields left out keep their stored values.
    pub fn update_member(
        &mut self,
        id: &str,
        name: Option<String>,
        title: Option<String>,
        birth_date: Option<String>,
        death_date: Option<String>,
        biography: Option<String>,
        epitaph: Option<String>,
        spouse: Option<String>,
        is_joint_burial: Option<bool>,
        children: Option<String>,
        order_index: Option<i32>,
        clan_id: Option<String>,
        is_alive: Option<bool>,
    ) -> (r: Result<Member, AppError>)
        ensures
            match lookup(old(self)@.members, id@) {
                None => final(self)@ == old(self)@ && not_found(r, "member "@ + id@),
                Some(m) => if m.version == u32::MAX {
                    final(self)@ == old(self)@ && db_error(r)
                } else {
                    &&& r matches Ok(n)
                    &&& n == updated_member(m, MemberChanges { name, title, birth_date, death_date, biography,
                        epitaph, spouse, is_joint_burial, children, order_index, clan_id, is_alive }, n.updated_at)
                    &&& final(self)@ == (DbView { members: old(self)@.members.update(
                        key_index(old(self)@.members, id@), n), ..old(self)@ })
                },
            },
    {
        let now = now_iso();
        let c = MemberChanges { name, title, birth_date, death_date, biography, epitaph, spouse,
            is_joint_burial, children, order_index, clan_id, is_alive };
        self.apply_member_update(id, c, now)
    }

    /// Deletes a member with its photos and its edges in both directions.
    /// Photos and edges are cleared even when the member does not exist,
    /// which is then reported.
    pub fn delete_member(&mut self, id: &str) -> (r: Result<(), AppError>)
        ensures
            final(self)@ == after_member_delete(old(self)@, id@),
            has_key(old(self)@.members, id@) ==> r is Ok,
            !has_key(old(self)@.members, id@) ==> not_found(r, "member "@ + id@),
    {
        let ghost v = self@;
        let member_ty = EntityType::Member.as_str();
        let mut only = Vec::new();
        only.push(crate::text::string_of(id));
        assert(only@.map_values(|s: String| s@) =~= seq![id@]);
        let images = retain_where(self.images(),
            |i: &Image| -> (b: bool) ensures b == no_photos_of(entity_type_name(EntityType::Member), seq![id@])(*i) {
                !photo_of(i, member_ty, &only)
            },
            Ghost(no_photos_of(entity_type_name(EntityType::Member), seq![id@])));
        let edges = retain_where(self.edges(),
            |e: &Edge| -> (b: bool) ensures b == edge_avoids(seq![id@])(*e) { !edge_touches(e, &only) },
            Ghost(edge_avoids(seq![id@])));
        let members = retain_where(self.members(),
            |m: &Member| -> (b: bool) ensures b == (m.id@ != id@) { !str_eq(m.id.as_str(), id) },
            Ghost(key_is_not::<Member>(id@)));
        let found = position(self.members(), id).is_some();
        proof {
            lemma_filter_unique(v.images, no_photos_of(entity_type_name(EntityType::Member), seq![id@]));
            lemma_filter_unique(v.edges, edge_avoids(seq![id@]));
            lemma_filter_unique(v.members, key_is_not::<Member>(id@));
        }
        self.set_images(images);
        self.set_edges(edges);
        self.set_members(members);
        if !found {
            return Err(AppError::NotFound(concat_str("member ", id)));
        }
        Ok(())
    }

    /// The living members of a clan (with `alive` given, the members whose
    /// living mark is `alive`), by order and name.
    pub fn list_members_by_clan(&self, clan_id: &str, alive: Option<bool>) -> (r: Result<Vec<Member>, AppError>)
        ensures
            r matches Ok(v) && sorted_rows(self@.members.filter(member_in_clan(clan_id@, alive)),
                |m: Member| member_clan_order(m), v@),
    {
        let rows = retain_where(self.members(),
            |m: &Member| -> (b: bool) ensures b == member_in_clan(clan_id@, alive)(*m) {
                opt_eq_str(&m.clan_id, clan_id) && m.is_alive == match alive { Some(a) => a, None => true }
            },
            Ghost(member_in_clan(clan_id@, alive)));
        Ok(order_rows(rows, |m: &Member| -> (k: Vec<u64>) ensures k@ == member_clan_order(*m) { member_clan_key(m) },
            Ghost(|m: Member| member_clan_order(m))))
    }
}

} // verus!
