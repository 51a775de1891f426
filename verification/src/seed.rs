//! Sample data for development: one clan with two burial groups, two graves
//! and five members, put into a store that holds no clan yet.
use vstd::prelude::*;
use crate::db::{ClanTrailDb, DbView, concat_str};
use crate::error::AppError;
use crate::models::{BurialGroup, Clan, Grave, Member, NewBurialGroup, NewClan, NewGrave, NewMember, new_uuid, now_iso};
use crate::store::{Keyed, has_key, opt_is, opt_view, position, unique_keys, lemma_has_key_push};
use crate::text::{string_of, str_eq};

verus! {

/// What seeding did.
#[derive(Debug)]
pub struct SeedOutcome {
    /// Whether the sample data was put in (only into a store without clans).
    pub seeded: bool,
    /// The id of the sample clan, when it was put in.
    pub clan_id: Option<String>,
    /// How many graves were put in.
    pub graves: usize,
    /// How many members were put in.
    pub members: usize,
}

/// The sample clan.
pub open spec fn seed_clan(c: Clan) -> bool {
    &&& c.name@ == "张氏家族"@
    &&& opt_is(c.description, "明代迁入西安，开枝散叶六代。"@)
    &&& opt_is(c.origin, "山西洪洞"@)
    &&& c.version == 1
    &&& !c.deleted
}

/// A sample burial group of the clan `clan`.
pub open spec fn seed_group(g: BurialGroup, clan: Seq<char>, name: Seq<char>, description: Seq<char>) -> bool {
    &&& g.clan_id@ == clan
    &&& g.name@ == name
    &&& opt_is(g.description, description)
}

/// A sample grave of the group `group` of the clan `clan`.
pub open spec fn seed_grave(
    t: Grave,
    group: Seq<char>,
    clan: Seq<char>,
    name: Seq<char>,
    latitude: u64,
    longitude: u64,
    address: Seq<char>,
    description: Seq<char>,
) -> bool {
    &&& t.name@ == name
    &&& t.latitude == latitude
    &&& t.longitude == longitude
    &&& opt_is(t.address, address)
    &&& opt_is(t.description, description)
    &&& opt_is(t.burial_group_id, group)
    &&& opt_is(t.clan_id, clan)
    &&& t.version == 1
    &&& !t.deleted
}

/// A sample member buried in `grave`, of the clan `clan`.
pub open spec fn seed_member(
    m: Member,
    grave: Seq<char>,
    clan: Seq<char>,
    name: Seq<char>,
    title: Seq<char>,
    birth: Seq<char>,
    death: Seq<char>,
    biography: Seq<char>,
    epitaph: Option<Seq<char>>,
    spouse: Option<Seq<char>>,
    joint: bool,
    children: Seq<char>,
    order: i32,
) -> bool {
    &&& opt_is(m.grave_id, grave)
    &&& opt_is(m.clan_id, clan)
    &&& m.name@ == name
    &&& opt_is(m.title, title)
    &&& opt_is(m.birth_date, birth)
    &&& opt_is(m.death_date, death)
    &&& opt_is(m.biography, biography)
    &&& opt_view(m.epitaph) == epitaph
    &&& opt_view(m.spouse) == spouse
    &&& m.is_joint_burial == joint
    &&& opt_is(m.children, children)
    &&& !m.is_alive
    &&& m.order_index == order
    &&& m.version == 1
    &&& !m.deleted
}

/// The sample data as it stands in the store after seeding: the clan, its
/// two groups (the old and the new burial ground), a grave in each, and five
/// members, three of them of the Ming dynasty.
pub open spec fn seeded(old_v: DbView, v: DbView, c: Clan, g1: BurialGroup, g2: BurialGroup, t1: Grave, t2: Grave,
    ms: Seq<Member>) -> bool {
    let cid = c.id@;
    &&& seed_clan(c)
    &&& seed_group(g1, cid, "老坟区"@, "明代老坟"@)
    &&& seed_group(g2, cid, "新区"@, "近现代新立"@)
    &&& seed_grave(t1, g1.id@, cid, "张氏祖坟"@, 0x40412bb98c7e2824u64, 0x405b3c25aee631f9u64, "西安东郊"@,
        "明代祖坟，历经六代修缮。"@)
    &&& seed_grave(t2, g2.id@, cid, "张公新墓"@, 0x40412d013a92a305u64, 0x405b3cc985f06f69u64, "西安南郊"@,
        "1980 年立"@)
    &&& ms.len() == 5
    &&& seed_member(ms[0], t1.id@, cid, "张远山"@, "一世祖"@, "1420-03-12"@, "1498-11-02"@,
        "明初随军入陕，定居西安东郊，开枝散叶。"@, Some("德泽绵长，后世永铭。"@), Some("李氏"@), true,
        "张大、张二、张三"@, 1)
    &&& seed_member(ms[1], t1.id@, cid, "李氏"@, "一世祖母"@, "1425-08-15"@, "1502-12-01"@,
        "随夫定居西安，相夫教子。"@, None, Some("张远山"@), true, "张大、张二、张三"@, 2)
    &&& seed_member(ms[2], t2.id@, cid, "张守业"@, "二世祖"@, "1445-06-20"@, "1512-09-15"@,
        "承父业，置田百亩，兴修家塾。"@, None, Some("王氏"@), false, "张文、张武"@, 1)
    &&& seed_member(ms[3], t2.id@, cid, "张建国"@, "曾祖"@, "1921-05-10"@, "1998-07-03"@,
        "务农为生，勤俭持家。"@, None, Some("刘秀兰"@), false, "张志强"@, 2)
    &&& seed_member(ms[4], t2.id@, cid, "张志强"@, "祖父"@, "1952-11-22"@, "2021-04-18"@,
        "工厂技师，晚年随子居西安南郊。"@, None, None, false, "张磊"@, 3)
    &&& v == (DbView {
        clans: old_v.clans.push(c),
        groups: old_v.groups.push(g1).push(g2),
        graves: old_v.graves.push(t1).push(t2),
        members: old_v.members + ms,
        ..old_v
    })
}

/// The text of each id.
pub open spec fn id_views(ids: Seq<String>) -> Seq<Seq<char>> {
    ids.map_values(|s: String| s@)
}

/// None of `ids[from..to]` is a key of `table`, and no two of them are equal.
pub open spec fn fresh_ids<T: Keyed>(table: Seq<T>, ids: Seq<Seq<char>>, from: int, to: int) -> bool {
    &&& forall|k: int| from <= k < to ==> !has_key(table, #[trigger] ids[k])
    &&& forall|j: int, k: int| from <= j < k < to ==> #[trigger] ids[j] != #[trigger] ids[k]
}

/// The ten ids for the sample rows (the clan, two groups, two graves and
/// five members, in that order) are new to their tables and to each other.
pub open spec fn seed_ids_free(v: DbView, ids: Seq<Seq<char>>) -> bool {
    &&& ids.len() == 10
    &&& fresh_ids(v.clans, ids, 0, 1)
    &&& fresh_ids(v.groups, ids, 1, 3)
    &&& fresh_ids(v.graves, ids, 3, 5)
    &&& fresh_ids(v.members, ids, 5, 10)
}

/// The sample rows carry the ten ids in order and the time `now`.
pub open spec fn seed_stamped(c: Clan, g1: BurialGroup, g2: BurialGroup, t1: Grave, t2: Grave, ms: Seq<Member>,
    ids: Seq<Seq<char>>, now: Seq<char>) -> bool {
    &&& c.id@ == ids[0] && c.created_at@ == now && c.updated_at@ == now
    &&& g1.id@ == ids[1] && g1.created_at@ == now && g1.updated_at@ == now
    &&& g2.id@ == ids[2] && g2.created_at@ == now && g2.updated_at@ == now
    &&& t1.id@ == ids[3] && t1.created_at@ == now && t1.updated_at@ == now
    &&& t2.id@ == ids[4] && t2.created_at@ == now && t2.updated_at@ == now
    &&& forall|k: int| #![trigger ms[k]] 0 <= k < 5 ==> ms[k].id@ == ids[5 + k] && ms[k].created_at@ == now
        && ms[k].updated_at@ == now
}

fn ids_fresh<T: Keyed>(table: &Vec<T>, ids: &Vec<String>, from: usize, to: usize) -> (r: bool)
    requires
        unique_keys(table@),
        from <= to <= ids.len(),
    ensures
        r == fresh_ids(table@, id_views(ids@), from as int, to as int),
{
    let ghost vs = id_views(ids@);
    let mut k = from;
    while k < to
        invariant
            from <= k <= to <= ids.len(),
            unique_keys(table@),
            vs == id_views(ids@),
            fresh_ids(table@, vs, from as int, k as int),
        decreases to - k,
    {
        assert(vs[k as int] == ids@[k as int]@);
        if position(table, ids[k].as_str()).is_some() {
            return false;
        }
        let mut j = from;
        while j < k
            invariant
                from <= j <= k < to <= ids.len(),
                vs == id_views(ids@),
                forall|i: int| from <= i < j ==> #[trigger] vs[i] != vs[k as int],
            decreases k - j,
        {
            assert(vs[j as int] == ids@[j as int]@);
            assert(vs[k as int] == ids@[k as int]@);
            if str_eq(ids[j].as_str(), ids[k].as_str()) {
                return false;
            }
            j = j + 1;
        }
        k = k + 1;
    }
    true
}

fn opt_text(s: Option<&str>) -> (r: Option<String>)
    ensures
        opt_view(r) == match s {
            Some(t) => Some(t@),
            None => None::<Seq<char>>,
        },
{
    match s {
        Some(t) => Some(string_of(t)),
        None => None,
    }
}

impl ClanTrailDb {
    fn put_seed_grave(
        &mut self,
        id: &String,
        now: &String,
        group: &String,
        clan: &String,
        name: &str,
        latitude: u64,
        longitude: u64,
        address: &str,
        description: &str,
    ) -> (r: Result<Grave, AppError>)
        requires
            !has_key(old(self)@.graves, id@),
            has_key(old(self)@.groups, group@),
            has_key(old(self)@.clans, clan@),
            !crate::grave::coord_out_of_range(latitude, crate::grave::LATITUDE_LIMIT_BITS),
            !crate::grave::coord_out_of_range(longitude, crate::grave::LONGITUDE_LIMIT_BITS),
        ensures
            r matches Ok(t) && seed_grave(t, group@, clan@, name@, latitude, longitude, address@, description@)
                && t.id@ == id@ && t.created_at@ == now@ && t.updated_at@ == now@
                && final(self)@ == (DbView { graves: old(self)@.graves.push(t), ..old(self)@ }),
    {
        let input = NewGrave {
            name: string_of(name),
            latitude,
            longitude,
            address: Some(string_of(address)),
            description: Some(string_of(description)),
            burial_group_id: Some(group.clone()),
            clan_id: Some(clan.clone()),
        };
        self.insert_grave(input, id.clone(), now.clone())
    }

    fn put_seed_member(
        &mut self,
        id: &String,
        now: &String,
        grave: &String,
        clan: &String,
        name: &str,
        title: &str,
        birth: &str,
        death: &str,
        biography: &str,
        epitaph: Option<&str>,
        spouse: Option<&str>,
        joint: bool,
        children: &str,
        order: i32,
    ) -> (r: Result<Member, AppError>)
        requires
            !has_key(old(self)@.members, id@),
            has_key(old(self)@.graves, grave@),
            has_key(old(self)@.clans, clan@),
        ensures
            r matches Ok(m) && seed_member(m, grave@, clan@, name@, title@, birth@, death@, biography@,
                match epitaph { Some(t) => Some(t@), None => None::<Seq<char>> },
                match spouse { Some(t) => Some(t@), None => None::<Seq<char>> }, joint, children@, order)
                && m.id@ == id@ && m.created_at@ == now@ && m.updated_at@ == now@
                && final(self)@ == (DbView { members: old(self)@.members.push(m), ..old(self)@ }),
    {
        let input = NewMember {
            grave_id: Some(grave.clone()),
            clan_id: Some(clan.clone()),
            name: string_of(name),
            title: Some(string_of(title)),
            birth_date: Some(string_of(birth)),
            death_date: Some(string_of(death)),
            biography: Some(string_of(biography)),
            epitaph: opt_text(epitaph),
            spouse: opt_text(spouse),
            is_joint_burial: joint,
            children: Some(string_of(children)),
            is_alive: false,
            order_index: order,
        };
        self.insert_member(input, id.clone(), now.clone())
    }

    /// Puts the sample data into a store that holds no clan, under the ten
    /// given ids (the clan, the two groups, the two graves, the five members)
    /// and the time `now`. A store with clans is left as it is; when an id is
    /// already taken, or two of them are equal, nothing is stored and the
    /// answer is a database error.
    pub fn seed_with(&mut self, ids: &Vec<String>, now: &String) -> (r: Result<SeedOutcome, AppError>)
        requires
            ids.len() == 10,
        ensures
            old(self)@.clans.len() > 0 ==> (r matches Ok(o) && !o.seeded && o.clan_id is None
                && o.graves == 0 && o.members == 0 && final(self)@ == old(self)@),
            old(self)@.clans.len() == 0 && !seed_ids_free(old(self)@, id_views(ids@)) ==> (r matches Err(e)
                && e is Database && final(self)@ == old(self)@),
            old(self)@.clans.len() == 0 && seed_ids_free(old(self)@, id_views(ids@)) ==> (r matches Ok(o)
                && o.seeded && o.graves == 2 && o.members == 5
                && exists|c: Clan, g1: BurialGroup, g2: BurialGroup, t1: Grave, t2: Grave, ms: Seq<Member>|
                    #[trigger] seeded(old(self)@, final(self)@, c, g1, g2, t1, t2, ms)
                    && seed_stamped(c, g1, g2, t1, t2, ms, id_views(ids@), now@) && o.clan_id == Some(c.id)),
    {
        let ghost v0 = self@;
        let ghost iv = id_views(ids@);
        let clans = match self.list_clans() {
            Ok(v) => v,
            Err(e) => return Err(e),
        };
        proof {
            crate::sort::lemma_sorted_len(self@.clans, |c: Clan| crate::clan::clan_order(c), clans@);
        }
        if clans.len() > 0 {
            return Ok(SeedOutcome { seeded: false, clan_id: None, graves: 0, members: 0 });
        }
        if !ids_fresh(self.clans(), ids, 0, 1) {
            return Err(AppError::Database(concat_str("UNIQUE constraint failed: ", "clans.id")));
        }
        if !ids_fresh(self.groups(), ids, 1, 3) {
            return Err(AppError::Database(concat_str("UNIQUE constraint failed: ", "burial_groups.id")));
        }
        if !ids_fresh(self.graves(), ids, 3, 5) {
            return Err(AppError::Database(concat_str("UNIQUE constraint failed: ", "graves.id")));
        }
        if !ids_fresh(self.members(), ids, 5, 10) {
            return Err(AppError::Database(concat_str("UNIQUE constraint failed: ", "members.id")));
        }
        proof {
            assert(iv.len() == 10);
            assert forall|k: int| 0 <= k < 10 implies #[trigger] iv[k] == ids@[k]@ by {}
            assert(iv[1] != iv[2]);
            assert(iv[3] != iv[4]);
            assert(iv[5] != iv[6] && iv[5] != iv[7] && iv[5] != iv[8] && iv[5] != iv[9]);
            assert(iv[6] != iv[7] && iv[6] != iv[8] && iv[6] != iv[9]);
            assert(iv[7] != iv[8] && iv[7] != iv[9] && iv[8] != iv[9]);
            assert(!has_key(v0.clans, iv[0]));
            assert(!has_key(v0.groups, iv[1]) && !has_key(v0.groups, iv[2]));
            assert(!has_key(v0.graves, iv[3]) && !has_key(v0.graves, iv[4]));
            assert(!has_key(v0.members, iv[5]) && !has_key(v0.members, iv[6]) && !has_key(v0.members, iv[7]));
            assert(!has_key(v0.members, iv[8]) && !has_key(v0.members, iv[9]));
        }
        let f = match self.insert_clan(NewClan {
            name: string_of("张氏家族"),
            description: Some(string_of("明代迁入西安，开枝散叶六代。")),
            origin: Some(string_of("山西洪洞")),
        }, ids[0].clone(), now.clone()) {
            Ok(c) => c,
            Err(e) => return Err(e),
        };
        proof { lemma_has_key_push(v0.clans, f, f.id@); }
        let g1 = match self.insert_burial_group(NewBurialGroup {
            clan_id: f.id.clone(),
            name: string_of("老坟区"),
            description: Some(string_of("明代老坟")),
        }, ids[1].clone(), now.clone()) {
            Ok(g) => g,
            Err(e) => return Err(e),
        };
        proof { lemma_has_key_push(v0.groups, g1, iv[2]); }
        let g2 = match self.insert_burial_group(NewBurialGroup {
            clan_id: f.id.clone(),
            name: string_of("新区"),
            description: Some(string_of("近现代新立")),
        }, ids[2].clone(), now.clone()) {
            Ok(g) => g,
            Err(e) => return Err(e),
        };
        proof {
            lemma_has_key_push(v0.groups, g1, g1.id@);
            lemma_has_key_push(v0.groups.push(g1), g2, g1.id@);
            lemma_has_key_push(v0.groups.push(g1), g2, g2.id@);
        }
        assert(!crate::grave::coord_out_of_range(0x40412bb98c7e2824u64, 0x4056_8000_0000_0000u64)) by (bit_vector);
        assert(!crate::grave::coord_out_of_range(0x405b3c25aee631f9u64, 0x4066_8000_0000_0000u64)) by (bit_vector);
        assert(!crate::grave::coord_out_of_range(0x40412d013a92a305u64, 0x4056_8000_0000_0000u64)) by (bit_vector);
        assert(!crate::grave::coord_out_of_range(0x405b3cc985f06f69u64, 0x4066_8000_0000_0000u64)) by (bit_vector);
        let t1 = match self.put_seed_grave(&ids[3], now, &g1.id, &f.id, "张氏祖坟", 0x40412bb98c7e2824u64,
            0x405b3c25aee631f9u64, "西安东郊", "明代祖坟，历经六代修缮。") {
            Ok(t) => t,
            Err(e) => return Err(e),
        };
        proof { lemma_has_key_push(v0.graves, t1, iv[4]); }
        let t2 = match self.put_seed_grave(&ids[4], now, &g2.id, &f.id, "张公新墓", 0x40412d013a92a305u64,
            0x405b3cc985f06f69u64, "西安南郊", "1980 年立") {
            Ok(t) => t,
            Err(e) => return Err(e),
        };
        proof {
            lemma_has_key_push(v0.graves, t1, t1.id@);
            lemma_has_key_push(v0.graves.push(t1), t2, t1.id@);
            lemma_has_key_push(v0.graves.push(t1), t2, t2.id@);
        }
        let ghost w0 = v0.members;
        let m1 = match self.put_seed_member(&ids[5], now, &t1.id, &f.id, "张远山", "一世祖", "1420-03-12",
            "1498-11-02", "明初随军入陕，定居西安东郊，开枝散叶。", Some("德泽绵长，后世永铭。"), Some("李氏"), true,
            "张大、张二、张三", 1) {
            Ok(m) => m,
            Err(e) => return Err(e),
        };
        let ghost w1 = w0.push(m1);
        proof {
            lemma_has_key_push(w0, m1, iv[6]);
            lemma_has_key_push(w0, m1, iv[7]);
            lemma_has_key_push(w0, m1, iv[8]);
            lemma_has_key_push(w0, m1, iv[9]);
        }
        let m2 = match self.put_seed_member(&ids[6], now, &t1.id, &f.id, "李氏", "一世祖母", "1425-08-15",
            "1502-12-01", "随夫定居西安，相夫教子。", None, Some("张远山"), true, "张大、张二、张三", 2) {
            Ok(m) => m,
            Err(e) => return Err(e),
        };
        let ghost w2 = w1.push(m2);
        proof {
            lemma_has_key_push(w1, m2, iv[7]);
            lemma_has_key_push(w1, m2, iv[8]);
            lemma_has_key_push(w1, m2, iv[9]);
        }
        let m3 = match self.put_seed_member(&ids[7], now, &t2.id, &f.id, "张守业", "二世祖", "1445-06-20",
            "1512-09-15", "承父业，置田百亩，兴修家塾。", None, Some("王氏"), false, "张文、张武", 1) {
            Ok(m) => m,
            Err(e) => return Err(e),
        };
        let ghost w3 = w2.push(m3);
        proof {
            lemma_has_key_push(w2, m3, iv[8]);
            lemma_has_key_push(w2, m3, iv[9]);
        }
        let m4 = match self.put_seed_member(&ids[8], now, &t2.id, &f.id, "张建国", "曾祖", "1921-05-10",
            "1998-07-03", "务农为生，勤俭持家。", None, Some("刘秀兰"), false, "张志强", 2) {
            Ok(m) => m,
            Err(e) => return Err(e),
        };
        proof {
            lemma_has_key_push(w3, m4, iv[9]);
        }
        let m5 = match self.put_seed_member(&ids[9], now, &t2.id, &f.id, "张志强", "祖父", "1952-11-22",
            "2021-04-18", "工厂技师，晚年随子居西安南郊。", None, None, false, "张磊", 3) {
            Ok(m) => m,
            Err(e) => return Err(e),
        };
        let ghost ms = seq![m1, m2, m3, m4, m5];
        proof {
            assert(self@.members =~= v0.members + ms);
            assert(seeded(v0, self@, f, g1, g2, t1, t2, ms));
            assert(seed_stamped(f, g1, g2, t1, t2, ms, iv, now@));
        }
        Ok(SeedOutcome { seeded: true, clan_id: Some(f.id), graves: 2, members: 5 })
    }

    /// Puts the sample data into a store that holds no clan, under fresh ids
    /// and the current time; a store with clans is left as it is.
    pub fn seed_dev_data(&mut self) -> (r: Result<SeedOutcome, AppError>)
        ensures
            old(self)@.clans.len() > 0 ==> (r matches Ok(o) && !o.seeded && o.clan_id is None
                && o.graves == 0 && o.members == 0 && final(self)@ == old(self)@),
            old(self)@.clans.len() == 0 ==> match r {
                Ok(o) => o.seeded && o.graves == 2 && o.members == 5 && exists|c: Clan, g1: BurialGroup, g2: BurialGroup,
                    t1: Grave, t2: Grave, ms: Seq<Member>|
                    #[trigger] seeded(old(self)@, final(self)@, c, g1, g2, t1, t2, ms) && o.clan_id == Some(c.id),
                Err(e) => e is Database && final(self)@ == old(self)@,
            },
    {
        let mut ids: Vec<String> = Vec::new();
        while ids.len() < 10
            invariant
                ids.len() <= 10,
            decreases 10 - ids.len(),
        {
            ids.push(new_uuid());
        }
        let now = now_iso();
        self.seed_with(&ids, &now)
    }
}

} // verus!
