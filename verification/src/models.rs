use vstd::prelude::*;
use crate::text::str_eq;

verus! {

// ---------------------------------------------------------------------------
// Records
// ---------------------------------------------------------------------------

/// A clan (family lineage).
#[derive(Clone, Debug)]
pub struct Clan {
    pub id: String,
    pub name: String,
    pub description: Option<String>,
    /// Ancestral home / place of origin.
    pub origin: Option<String>,
    pub created_at: String,
    pub updated_at: String,
    /// Sync version, incremented on every update.
    pub version: u32,
    /// Soft-delete flag (reserved for sync).
    pub deleted: bool,
}

#[derive(Clone, Debug)]
pub struct NewClan {
    pub name: String,
    pub description: Option<String>,
    pub origin: Option<String>,
}

/// A burial area inside a clan (such as the old ancestral plot).
#[derive(Clone, Debug)]
pub struct BurialGroup {
    pub id: String,
    pub clan_id: String,
    pub name: String,
    pub description: Option<String>,
    pub created_at: String,
    pub updated_at: String,
}

#[derive(Clone, Debug)]
pub struct NewBurialGroup {
    pub clan_id: String,
    pub name: String,
    pub description: Option<String>,
}

/// A single grave. Coordinates are IEEE-754 double-precision values held by
/// their bit patterns (`f64::to_bits`).
#[derive(Clone, Debug)]
pub struct Grave {
    pub id: String,
    pub name: String,
    pub latitude: u64,
    pub longitude: u64,
    pub address: Option<String>,
    pub description: Option<String>,
    pub burial_group_id: Option<String>,
    pub clan_id: Option<String>,
    pub created_at: String,
    pub updated_at: String,
    pub version: u32,
    pub deleted: bool,
}

/// Input of a new grave; coordinates are `f64` bit patterns.
#[derive(Clone, Debug)]
pub struct NewGrave {
    pub name: String,
    pub latitude: u64,
    pub longitude: u64,
    pub address: Option<String>,
    pub description: Option<String>,
    pub burial_group_id: Option<String>,
    pub clan_id: Option<String>,
}

/// A person: the occupant of a grave, or a living relative without one.
#[derive(Clone, Debug)]
pub struct Member {
    pub id: String,
    pub grave_id: Option<String>,
    pub clan_id: Option<String>,
    pub name: String,
    pub title: Option<String>,
    pub birth_date: Option<String>,
    pub death_date: Option<String>,
    pub biography: Option<String>,
    pub epitaph: Option<String>,
    pub spouse: Option<String>,
    pub is_joint_burial: bool,
    pub children: Option<String>,
    pub is_alive: bool,
    pub order_index: i32,
    pub created_at: String,
    pub updated_at: String,
    pub version: u32,
    pub deleted: bool,
}

#[derive(Clone, Debug)]
pub struct NewMember {
    pub grave_id: Option<String>,
    pub clan_id: Option<String>,
    pub name: String,
    pub title: Option<String>,
    pub birth_date: Option<String>,
    pub death_date: Option<String>,
    pub biography: Option<String>,
    pub epitaph: Option<String>,
    pub spouse: Option<String>,
    pub is_joint_burial: bool,
    pub children: Option<String>,
    pub is_alive: bool,
    pub order_index: i32,
}

/// The kind of entity a photo is attached to.
#[derive(Clone, Copy, Debug, PartialEq, Eq, Structural)]
pub enum EntityType {
    Grave,
    Member,
    Clan,
}

/// The stored name of an entity type.
pub open spec fn entity_type_name(t: EntityType) -> Seq<char> {
    match t {
        EntityType::Grave => seq!['g', 'r', 'a', 'v', 'e'],
        EntityType::Member => seq!['m', 'e', 'm', 'b', 'e', 'r'],
        EntityType::Clan => seq!['c', 'l', 'a', 'n'],
    }
}

/// The entity type stored under a name, if any.
pub open spec fn entity_type_parse(s: Seq<char>) -> Option<EntityType> {
    if s == entity_type_name(EntityType::Grave) {
        Some(EntityType::Grave)
    } else if s == entity_type_name(EntityType::Member) {
        Some(EntityType::Member)
    } else if s == entity_type_name(EntityType::Clan) {
        Some(EntityType::Clan)
    } else {
        None
    }
}

impl EntityType {
    pub fn as_str(&self) -> (r: &'static str)
        ensures
            r@ == entity_type_name(*self),
    {
        proof {
            reveal_strlit("grave");
            reveal_strlit("member");
            reveal_strlit("clan");
        }
        match self {
            EntityType::Grave => "grave",
            EntityType::Member => "member",
            EntityType::Clan => "clan",
        }
    }

    pub fn from_str(s: &str) -> (r: Option<EntityType>)
        ensures
            r == entity_type_parse(s@),
    {
        proof {
            reveal_strlit("grave");
            reveal_strlit("member");
            reveal_strlit("clan");
            assert("grave"@ =~= entity_type_name(EntityType::Grave));
            assert("member"@ =~= entity_type_name(EntityType::Member));
            assert("clan"@ =~= entity_type_name(EntityType::Clan));
        }
        if str_eq(s, "grave") {
            Some(EntityType::Grave)
        } else if str_eq(s, "member") {
            Some(EntityType::Member)
        } else if str_eq(s, "clan") {
            Some(EntityType::Clan)
        } else {
            None
        }
    }
}

/// A photo attached to a grave, a member or a clan.
#[derive(Clone, Debug)]
pub struct Image {
    pub id: String,
    pub entity_type: String,
    pub entity_id: String,
    pub file_path: String,
    pub caption: Option<String>,
    pub is_cover: bool,
    pub created_at: String,
    pub version: u32,
    pub deleted: bool,
}

#[derive(Clone, Debug)]
pub struct NewImage {
    pub entity_type: EntityType,
    pub entity_id: String,
    pub file_path: String,
    pub caption: Option<String>,
    pub is_cover: bool,
}

/// The three stored kinship relations; all others are derived.
#[derive(Clone, Copy, Debug, PartialEq, Eq, Structural)]
pub enum EdgeType {
    Spouse,
    Son,
    Daughter,
}

/// The stored name of a relation type.
pub open spec fn edge_type_name(t: EdgeType) -> Seq<char> {
    match t {
        EdgeType::Spouse => seq!['s', 'p', 'o', 'u', 's', 'e'],
        EdgeType::Son => seq!['s', 'o', 'n'],
        EdgeType::Daughter => seq!['d', 'a', 'u', 'g', 'h', 't', 'e', 'r'],
    }
}

/// The relation type stored under a name, if any.
pub open spec fn edge_type_parse(s: Seq<char>) -> Option<EdgeType> {
    if s == edge_type_name(EdgeType::Spouse) {
        Some(EdgeType::Spouse)
    } else if s == edge_type_name(EdgeType::Son) {
        Some(EdgeType::Son)
    } else if s == edge_type_name(EdgeType::Daughter) {
        Some(EdgeType::Daughter)
    } else {
        None
    }
}

impl EdgeType {
    pub fn as_str(&self) -> (r: &'static str)
        ensures
            r@ == edge_type_name(*self),
    {
        proof {
            reveal_strlit("spouse");
            reveal_strlit("son");
            reveal_strlit("daughter");
        }
        match self {
            EdgeType::Spouse => "spouse",
            EdgeType::Son => "son",
            EdgeType::Daughter => "daughter",
        }
    }

    pub fn from_str(s: &str) -> (r: Option<EdgeType>)
        ensures
            r == edge_type_parse(s@),
    {
        proof {
            reveal_strlit("spouse");
            reveal_strlit("son");
            reveal_strlit("daughter");
            assert("spouse"@ =~= edge_type_name(EdgeType::Spouse));
            assert("son"@ =~= edge_type_name(EdgeType::Son));
            assert("daughter"@ =~= edge_type_name(EdgeType::Daughter));
        }
        if str_eq(s, "spouse") {
            Some(EdgeType::Spouse)
        } else if str_eq(s, "son") {
            Some(EdgeType::Son)
        } else if str_eq(s, "daughter") {
            Some(EdgeType::Daughter)
        } else {
            None
        }
    }

    /// The relation seen from the other end. Spouse is symmetric; son and
    /// daughter are stored in the parent-to-child direction only, so the
    /// stored type is kept.
    pub fn reverse(&self) -> (r: EdgeType)
        ensures
            r == *self,
    {
        match self {
            EdgeType::Spouse => EdgeType::Spouse,
            EdgeType::Son => EdgeType::Son,
            EdgeType::Daughter => EdgeType::Daughter,
        }
    }
}

/// A kinship edge, with the related member's name and grave filled in by joins.
#[derive(Clone, Debug)]
pub struct Edge {
    pub id: String,
    pub member_id: String,
    pub related_member_id: String,
    pub relation_type: String,
    pub created_at: String,
    /// `born` (family of birth) or `married` (family by marriage).
    pub side: Option<String>,
    pub version: u32,
    pub deleted: bool,
    pub related_member_name: Option<String>,
    pub related_member_grave_id: Option<String>,
}

#[derive(Clone, Debug)]
pub struct NewEdge {
    pub member_id: String,
    pub related_member_id: String,
    pub relation_type: EdgeType,
    pub side: Option<String>,
}

/// Kind of reminder.
#[derive(Clone, Copy, Debug, PartialEq, Eq, Structural)]
pub enum ReminderType {
    /// A member's death anniversary (by the lunar calendar).
    DeathAnniversary,
    /// A traditional festival.
    Festival,
}

#[derive(Clone, Debug)]
pub struct Reminder {
    pub id: String,
    pub reminder_type: ReminderType,
    pub title: String,
    /// Gregorian date, `YYYY-MM-DD`.
    pub date: String,
    /// Lunar date description.
    pub lunar_date: String,
    pub member_id: Option<String>,
    pub grave_id: Option<String>,
    /// Days from today.
    pub days_until: i64,
}

// ---------------------------------------------------------------------------
// Timestamps and identifiers
// ---------------------------------------------------------------------------

/// The current UTC time as `YYYY-MM-DDTHH:MM:SS.mmmZ` (chrono's `Utc::now`,
/// formatted). Nothing is promised of the value: it depends on the clock.
#[verifier::external_body]
pub fn now_iso() -> String {
    chrono::Utc::now().format("%Y-%m-%dT%H:%M:%S%.3fZ").to_string()
}

/// A fresh random (version 4) UUID in hyphenated form (uuid's `Uuid::new_v4`).
/// Nothing is promised of the value: it is random.
#[verifier::external_body]
pub fn new_uuid() -> String {
    uuid::Uuid::new_v4().to_string()
}

// ---------------------------------------------------------------------------
// Laws of the relation and entity names
// ---------------------------------------------------------------------------

/// Parsing the stored name of an entity type gives the type back, and two
/// types never share a name.
pub proof fn lemma_entity_type_roundtrip(t: EntityType, u: EntityType)
    ensures
        entity_type_parse(entity_type_name(t)) == Some(t),
        entity_type_name(t) == entity_type_name(u) ==> t == u,
{
    assert(entity_type_name(EntityType::Grave) != entity_type_name(EntityType::Member));
    assert(entity_type_name(EntityType::Grave) != entity_type_name(EntityType::Clan));
    assert(entity_type_name(EntityType::Member) != entity_type_name(EntityType::Clan));
}

/// Parsing the stored name of a relation type gives the type back, and two
/// types never share a name.
pub proof fn lemma_edge_type_roundtrip(t: EdgeType, u: EdgeType)
    ensures
        edge_type_parse(edge_type_name(t)) == Some(t),
        edge_type_name(t) == edge_type_name(u) ==> t == u,
{
    assert(edge_type_name(EdgeType::Spouse) != edge_type_name(EdgeType::Son));
    assert(edge_type_name(EdgeType::Spouse) != edge_type_name(EdgeType::Daughter));
    assert(edge_type_name(EdgeType::Son) != edge_type_name(EdgeType::Daughter));
}

} // verus!
