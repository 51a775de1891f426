use clantrail::backup::{
    backup_file_name, check_manifest_version, newest_backups_first, restore_copies_to_remove,
    restore_copy_name, zip_entry_name, BackupEntry,
};
use clantrail::calendar::{date_opt, day_number_of, format_ymd, is_leap_year, Ymd};
use clantrail::db::ClanTrailDb;
use clantrail::error::AppError;
use clantrail::models::{
    EdgeType, EntityType, NewClan, NewEdge, NewGrave, NewImage, NewMember, ReminderType,
};
use clantrail::reminders::{add_lunar_anniversaries, due_reminder, lunar_day_name, lunar_label, LunarDay};
use clantrail::service::{check_edge_path, error_response, is_local_origin, paginate};
use clantrail::upload::{
    check_base64_upload, check_decoded_upload, check_upload, detect_image_kind, file_extension,
    image_path, is_allowed_ext, mime_type, upload_extension, utf8_longer_than,
};

fn grave_input(name: &str, clan_id: Option<String>) -> NewGrave {
    NewGrave {
        name: name.into(),
        latitude: 30.0f64.to_bits(),
        longitude: 114.0f64.to_bits(),
        address: None,
        description: None,
        burial_group_id: None,
        clan_id,
    }
}

fn member_input(name: &str, grave_id: Option<String>, clan_id: Option<String>, death: Option<&str>) -> NewMember {
    NewMember {
        grave_id,
        clan_id,
        name: name.into(),
        title: None,
        birth_date: None,
        death_date: death.map(|s| s.to_string()),
        biography: None,
        epitaph: None,
        spouse: None,
        is_joint_burial: false,
        children: None,
        is_alive: false,
        order_index: 1,
    }
}

fn ymd(year: i32, month: u32, day: u32) -> Ymd {
    Ymd { year, month, day }
}

const PNG_HEAD: [u8; 12] = [0x89, 0x50, 0x4E, 0x47, 0x0D, 0x0A, 0x1A, 0x0A, 0, 0, 0, 0x0D];

// ---------------------------------------------------------------------------
// Dates
// ---------------------------------------------------------------------------

#[test]
fn dates_print_as_chrono_does() {
    assert_eq!(format_ymd(ymd(2025, 4, 5)), "2025-04-05");
    assert_eq!(format_ymd(ymd(7, 1, 9)), "0007-01-09");
    assert_eq!(format_ymd(ymd(-1, 12, 31)), "-0001-12-31");
    assert_eq!(format_ymd(ymd(12345, 6, 7)), "+12345-06-07");
}

#[test]
fn leap_years_and_real_dates() {
    assert!(is_leap_year(2000));
    assert!(!is_leap_year(1900));
    assert!(is_leap_year(2024));
    assert!(is_leap_year(-4));
    assert!(date_opt(2023, 2, 29).is_none());
    assert!(date_opt(2024, 2, 29).is_some());
    assert!(date_opt(2024, 13, 1).is_none());
    assert!(date_opt(262143, 1, 1).is_none());
}

#[test]
fn day_numbers_count_from_1970() {
    assert_eq!(day_number_of(ymd(1970, 1, 1)), 0);
    assert_eq!(day_number_of(ymd(2000, 3, 1)), 11017);
    assert_eq!(day_number_of(ymd(2024, 2, 10)), 19763);
    assert_eq!(day_number_of(ymd(1969, 12, 31)), -1);
}

#[test]
fn the_next_date_is_one_day_later() {
    for (a, b) in [
        (ymd(2024, 2, 28), ymd(2024, 2, 29)),
        (ymd(2024, 2, 29), ymd(2024, 3, 1)),
        (ymd(2023, 2, 28), ymd(2023, 3, 1)),
        (ymd(1900, 2, 28), ymd(1900, 3, 1)),
        (ymd(2000, 2, 29), ymd(2000, 3, 1)),
        (ymd(2023, 12, 31), ymd(2024, 1, 1)),
        (ymd(2023, 4, 30), ymd(2023, 5, 1)),
    ] {
        assert_eq!(day_number_of(b), day_number_of(a) + 1);
    }
}

// ---------------------------------------------------------------------------
// Reminders
// ---------------------------------------------------------------------------

#[test]
fn lunar_day_names() {
    assert_eq!(lunar_day_name(1), "初一");
    assert_eq!(lunar_day_name(10), "初十");
    assert_eq!(lunar_day_name(11), "十一");
    assert_eq!(lunar_day_name(20), "二十");
    assert_eq!(lunar_day_name(21), "廿一");
    assert_eq!(lunar_day_name(29), "廿九");
    assert_eq!(lunar_day_name(30), "三十");
    assert_eq!(lunar_day_name(31), "初31");
    assert_eq!(lunar_day_name(0), "初0");
}

#[test]
fn lunar_labels() {
    assert_eq!(lunar_label(7, 3), "农历七月初三");
    assert_eq!(lunar_label(1, 1), "农历正月初一");
    assert_eq!(lunar_label(10, 15), "农历十月十五");
    assert_eq!(lunar_label(11, 20), "农历十一月二十");
    assert_eq!(lunar_label(12, 30), "农历十二月三十");
}

#[test]
fn due_reminder_inside_and_outside_the_window() {
    let title = "清明节".to_string();
    let lunar = "公历 4 月 5 日".to_string();
    let r = due_reminder(ReminderType::Festival, &title, 2024, 4, 5, &lunar, &None, &None, ymd(2024, 1, 1), 365)
        .unwrap();
    assert_eq!(r.date, "2024-04-05");
    assert_eq!(r.days_until, 95);
    assert_eq!(r.title, "清明节");
    assert!(!r.id.is_empty());
    assert!(due_reminder(ReminderType::Festival, &title, 2024, 4, 5, &lunar, &None, &None, ymd(2024, 1, 1), 90)
        .is_none());
    assert!(due_reminder(ReminderType::Festival, &title, 2023, 2, 29, &lunar, &None, &None, ymd(2023, 1, 1), 365)
        .is_none());
}

#[test]
fn reminders_of_a_year_in_date_order() {
    let mut db = ClanTrailDb::in_memory();
    let t = db.create_grave(grave_input("测试墓", None)).unwrap();
    // 2023-01-22 is the first day of the first lunar month.
    let p = db.create_member(member_input("测试人", Some(t.id.clone()), None, Some("2023-01-22"))).unwrap();
    let all = db.list_reminders_on(ymd(2024, 1, 1), 365).unwrap();
    let dates: Vec<&str> = all.iter().map(|r| r.date.as_str()).collect();
    assert_eq!(dates, vec!["2024-02-10", "2024-02-10", "2024-04-05", "2024-08-18", "2024-10-11", "2024-11-01"]);
    assert_eq!(all[0].reminder_type, ReminderType::DeathAnniversary);
    assert_eq!(all[0].member_id.as_deref(), Some(p.id.as_str()));
    assert_eq!(all[0].grave_id.as_deref(), Some(t.id.as_str()));
    assert_eq!(all[0].title, "测试人 忌日");
    assert_eq!(all[0].lunar_date, "农历正月初一");
    assert_eq!(all[0].days_until, 40);
    assert_eq!(all[1].title, "春节");
    assert_eq!(all[1].lunar_date, "农历正月初一");
    assert_eq!(all[2].title, "清明节");
    assert_eq!(all[2].days_until, 95);
    assert_eq!(all[3].title, "中元节");
    assert_eq!(all[4].title, "重阳节");
    assert_eq!(all[5].title, "寒衣节");
    for r in &all {
        assert!(r.days_until >= 0 && r.days_until <= 365);
    }
}

#[test]
fn reminders_skip_unreadable_death_dates() {
    let mut db = ClanTrailDb::in_memory();
    let t = db.create_grave(grave_input("测试墓", None)).unwrap();
    db.create_member(member_input("无日期", Some(t.id.clone()), None, Some("not a date"))).unwrap();
    let all = db.list_reminders_on(ymd(2024, 1, 1), 30).unwrap();
    assert!(all.iter().all(|r| r.reminder_type == ReminderType::Festival));
}

#[test]
fn reminders_fail_for_a_dead_member_without_grave() {
    let mut db = ClanTrailDb::in_memory();
    let t = db.create_grave(grave_input("测试墓", None)).unwrap();
    db.create_member(member_input("有墓", Some(t.id.clone()), None, Some("2023-01-22"))).unwrap();
    db.create_member(member_input("无墓", None, None, Some("2023-01-22"))).unwrap();
    match db.list_reminders_on(ymd(2024, 1, 1), 60) {
        Err(AppError::Database(m)) => assert_eq!(m, "Invalid column type Null at index: 1, name: grave_id"),
        other => panic!("expected a storage error, got {:?}", other.map(|v| v.len())),
    }
    // a member without a death date needs no grave
    let mut db = ClanTrailDb::in_memory();
    db.create_member(member_input("在世", None, None, None)).unwrap();
    assert!(db.list_reminders_on(ymd(2024, 1, 1), 60).is_ok());
}

#[test]
fn lunar_anniversaries_are_appended() {
    let mut db = ClanTrailDb::in_memory();
    let t = db.create_grave(grave_input("测试墓", None)).unwrap();
    let mut input = member_input("测试人", Some(t.id.clone()), None, Some("2023-01-22"));
    input.title = Some("祖父".into());
    let p = db.create_member(input).unwrap();
    let earlier = due_reminder(ReminderType::Festival, &"清明节".to_string(), 2024, 4, 5,
        &"公历 4 月 5 日".to_string(), &None, &None, ymd(2024, 1, 1), 700).unwrap();
    let mut out = vec![earlier.clone()];
    let l = LunarDay { year: 2023, month: 1, day: 1, leap: false };
    add_lunar_anniversaries(&mut out, &p, l, ymd(2024, 1, 1), 700);
    assert_eq!(out[0].id, earlier.id);
    assert_eq!(out[0].title, "清明节");
    let dates: Vec<&str> = out[1..].iter().map(|r| r.date.as_str()).collect();
    assert_eq!(dates, vec!["2024-02-10", "2025-01-29"]);
    for r in &out[1..] {
        assert_eq!(r.title, "祖父测试人 忌日");
        assert_eq!(r.lunar_date, "农历正月初一");
        assert_eq!(r.grave_id.as_deref(), Some(t.id.as_str()));
        assert_eq!(r.reminder_type, ReminderType::DeathAnniversary);
    }
    assert_eq!(out[1].days_until, 40);
}

#[test]
fn reminders_window_past_the_calendar_fails() {
    let db = ClanTrailDb::in_memory();
    match db.list_reminders(u32::MAX) {
        Err(AppError::General(_)) => {}
        other => panic!("expected a general error, got {:?}", other.map(|v| v.len())),
    }
    assert!(db.list_reminders(90).is_ok());
}

#[test]
fn reminders_page_defaults_to_ninety_days() {
    let db = ClanTrailDb::in_memory();
    let page = db.reminders_page(None, Some(2), None).unwrap();
    assert!(page.len() <= 2);
    for r in &page {
        assert!(r.days_until >= 0 && r.days_until <= 90);
    }
}

// ---------------------------------------------------------------------------
// Store laws on concrete values
// ---------------------------------------------------------------------------

#[test]
fn created_rows_read_back_and_deleted_rows_are_gone() {
    let mut db = ClanTrailDb::in_memory();
    let a = db.create_clan(NewClan { name: "甲".into(), description: None, origin: None }).unwrap();
    let b = db.create_clan(NewClan { name: "乙".into(), description: None, origin: None }).unwrap();
    assert_ne!(a.id, b.id);
    assert_eq!(db.get_clan(&a.id).unwrap().name, "甲");
    assert_eq!(db.get_clan(&b.id).unwrap().name, "乙");
    db.keys_are_unique();
    db.delete_clan(&a.id).unwrap();
    match db.get_clan(&a.id) {
        Err(AppError::NotFound(m)) => assert_eq!(m, format!("clan {}", a.id)),
        _ => panic!("expected NotFound"),
    }
    assert_eq!(db.get_clan(&b.id).unwrap().name, "乙");
}

#[test]
fn spouse_relation_both_ways_and_deleted_both_ways() {
    let mut db = ClanTrailDb::in_memory();
    let c = db.create_clan(NewClan { name: "周氏".into(), description: None, origin: None }).unwrap();
    let a = db.create_member(member_input("周甲", None, Some(c.id.clone()), None)).unwrap();
    let b = db.create_member(member_input("吴乙", None, Some(c.id.clone()), None)).unwrap();
    let edges = db
        .create_edge(NewEdge {
            member_id: a.id.clone(),
            related_member_id: b.id.clone(),
            relation_type: EdgeType::Spouse,
            side: None,
        })
        .unwrap();
    assert_eq!(edges.len(), 1);
    assert_eq!(edges[0].member_id, a.id);
    assert_eq!(edges[0].related_member_id, b.id);
    assert_eq!(edges[0].related_member_name.as_deref(), Some("吴乙"));
    assert_eq!(db.list_edges_by_member(&b.id).unwrap().len(), 1);
    let (_, graph) = db.list_graph_by_clan(&c.id).unwrap();
    assert_eq!(graph.len(), 1);
    db.delete_edge(&edges[0].id).unwrap();
    assert_eq!(db.list_edges_by_member(&a.id).unwrap().len(), 0);
    assert_eq!(db.list_edges_by_member(&b.id).unwrap().len(), 0);
}

#[test]
fn relation_refusals() {
    let mut db = ClanTrailDb::in_memory();
    let a = db.create_member(member_input("甲", None, None, None)).unwrap();
    let b = db.create_member(member_input("乙", None, None, None)).unwrap();
    let son = NewEdge { member_id: a.id.clone(), related_member_id: b.id.clone(), relation_type: EdgeType::Son, side: None };
    db.create_edge(son.clone()).unwrap();
    match db.create_edge(son) {
        Err(AppError::InvalidInput(m)) => assert_eq!(m, "relation already exists"),
        _ => panic!("expected a refusal"),
    }
    let own = NewEdge { member_id: a.id.clone(), related_member_id: a.id.clone(), relation_type: EdgeType::Son, side: None };
    match db.create_edge(own) {
        Err(AppError::InvalidInput(m)) => assert_eq!(m, "cannot create self-relation"),
        _ => panic!("expected a refusal"),
    }
    // the child sees the son edge too
    assert_eq!(db.list_edges_by_member(&b.id).unwrap().len(), 1);
    // a son edge back from child to parent would close a cycle
    let back = NewEdge { member_id: b.id.clone(), related_member_id: a.id.clone(), relation_type: EdgeType::Daughter, side: None };
    match db.create_edge(back) {
        Err(AppError::InvalidInput(m)) => assert_eq!(m, "cannot create parent-child cycle"),
        _ => panic!("expected a refusal"),
    }
    assert_eq!(db.list_edges_by_member(&a.id).unwrap().len(), 1);
}

#[test]
fn no_cycle_across_generations() {
    let mut db = ClanTrailDb::in_memory();
    let a = db.create_member(member_input("祖", None, None, None)).unwrap();
    let b = db.create_member(member_input("父", None, None, None)).unwrap();
    let c = db.create_member(member_input("子", None, None, None)).unwrap();
    let d = db.create_member(member_input("孙女", None, None, None)).unwrap();
    let child = |p: &str, q: &str, t: EdgeType| NewEdge {
        member_id: p.to_string(),
        related_member_id: q.to_string(),
        relation_type: t,
        side: None,
    };
    db.create_edge(child(&a.id, &b.id, EdgeType::Son)).unwrap();
    db.create_edge(child(&b.id, &c.id, EdgeType::Son)).unwrap();
    db.create_edge(child(&c.id, &d.id, EdgeType::Daughter)).unwrap();
    for (p, q) in [(&d.id, &a.id), (&c.id, &a.id), (&d.id, &b.id)] {
        match db.create_edge(child(p, q, EdgeType::Son)) {
            Err(AppError::InvalidInput(m)) => assert_eq!(m, "cannot create parent-child cycle"),
            _ => panic!("expected a refusal"),
        }
    }
    // an edge down the line closes no cycle
    db.create_edge(child(&a.id, &d.id, EdgeType::Daughter)).unwrap();
    assert_eq!(db.list_edges_by_member(&d.id).unwrap().len(), 2);
}

#[test]
fn one_spouse_per_member() {
    let mut db = ClanTrailDb::in_memory();
    let a = db.create_member(member_input("甲", None, None, None)).unwrap();
    let b = db.create_member(member_input("乙", None, None, None)).unwrap();
    let c = db.create_member(member_input("丙", None, None, None)).unwrap();
    let spouse = |x: &str, y: &str| NewEdge {
        member_id: x.to_string(),
        related_member_id: y.to_string(),
        relation_type: EdgeType::Spouse,
        side: None,
    };
    db.create_edge(spouse(&a.id, &b.id)).unwrap();
    for (x, y) in [(&a.id, &c.id), (&c.id, &b.id), (&c.id, &a.id)] {
        match db.create_edge(spouse(x, y)) {
            Err(AppError::InvalidInput(m)) => assert_eq!(m, "member already has a spouse"),
            _ => panic!("expected a refusal"),
        }
    }
    assert_eq!(db.list_edges_by_member(&c.id).unwrap().len(), 0);
    // deleting the relation frees both members again
    let e = db.list_edges_by_member(&a.id).unwrap();
    db.delete_edge(&e[0].id).unwrap();
    db.create_edge(spouse(&a.id, &c.id)).unwrap();
    assert_eq!(db.list_edges_by_member(&c.id).unwrap().len(), 1);
}

#[test]
fn ego_graph_holds_its_centre() {
    let mut db = ClanTrailDb::in_memory();
    let a = db.create_member(member_input("甲", None, None, None)).unwrap();
    let b = db.create_member(member_input("乙", None, None, None)).unwrap();
    let c = db.create_member(member_input("丙", None, None, None)).unwrap();
    let d = db.create_member(member_input("丁", None, None, None)).unwrap();
    for (x, y) in [(&a, &b), (&b, &c), (&c, &d)] {
        db.create_edge(NewEdge { member_id: x.id.clone(), related_member_id: y.id.clone(), relation_type: EdgeType::Son, side: None })
            .unwrap();
    }
    let (alone, _) = db.list_egograph(&a.id, 0).unwrap();
    assert_eq!(alone.len(), 1);
    let (near, _) = db.list_egograph(&a.id, 2).unwrap();
    assert_eq!(near.len(), 3);
    let (all, _) = db.list_egograph(&a.id, 5).unwrap();
    assert_eq!(all.len(), 4);
}

#[test]
fn one_cover_per_entity() {
    let mut db = ClanTrailDb::in_memory();
    let t = db.create_grave(grave_input("封面墓", None)).unwrap();
    let mut ids = Vec::new();
    for k in 0..3 {
        let i = db
            .add_image(NewImage {
                entity_type: EntityType::Grave,
                entity_id: t.id.clone(),
                file_path: format!("images/{k}.jpg"),
                caption: None,
                is_cover: true,
            })
            .unwrap();
        ids.push(i.id);
    }
    let chosen = db.set_image_cover(&ids[1], true).unwrap();
    assert!(chosen.is_cover);
    let images = db.list_images_by_entity(EntityType::Grave, &t.id).unwrap();
    let covers: Vec<&str> = images.iter().filter(|i| i.is_cover).map(|i| i.id.as_str()).collect();
    assert_eq!(covers, vec![ids[1].as_str()]);
}

#[test]
fn grave_refusals_name_the_reason() {
    let mut db = ClanTrailDb::in_memory();
    let mut g = grave_input("远墓", None);
    g.longitude = 181.0f64.to_bits();
    match db.create_grave(g) {
        Err(AppError::InvalidInput(m)) => assert_eq!(m, "longitude out of range"),
        _ => panic!("expected a refusal"),
    }
    let mut g = grave_input("远墓", None);
    g.latitude = (-90.5f64).to_bits();
    match db.create_grave(g) {
        Err(AppError::InvalidInput(m)) => assert_eq!(m, "latitude out of range"),
        _ => panic!("expected a refusal"),
    }
    let g = grave_input("无族墓", Some("nobody".into()));
    match db.create_grave(g) {
        Err(AppError::NotFound(m)) => assert_eq!(m, "clan nobody"),
        _ => panic!("expected NotFound"),
    }
}

#[test]
fn seed_only_into_a_store_without_clans() {
    let mut db = ClanTrailDb::in_memory();
    let first = db.seed_dev_data().unwrap();
    assert!(first.seeded);
    assert_eq!(first.graves, 2);
    assert_eq!(first.members, 5);
    let clan_id = first.clan_id.unwrap();
    assert_eq!(db.get_clan(&clan_id).unwrap().name, "张氏家族");
    assert_eq!(db.list_graves_by_clan(&clan_id).unwrap().len(), 2);
    assert_eq!(db.list_groups_by_clan(&clan_id).unwrap().len(), 2);
    let second = db.seed_dev_data().unwrap();
    assert!(!second.seeded);
    assert!(second.clan_id.is_none());
    assert_eq!(db.list_clans().unwrap().len(), 1);
}

#[test]
fn seed_under_given_ids_and_time() {
    let ids: Vec<String> = (0..10).map(|k| format!("id-{k}")).collect();
    let now = "2024-05-01T08:00:00+00:00".to_string();
    let mut db = ClanTrailDb::in_memory();
    let out = db.seed_with(&ids, &now).unwrap();
    assert!(out.seeded);
    assert_eq!(out.clan_id.as_deref(), Some("id-0"));
    let c = db.get_clan("id-0").unwrap();
    assert_eq!(c.origin.as_deref(), Some("山西洪洞"));
    assert_eq!(c.created_at, now);
    assert_eq!(db.get_burial_group("id-2").unwrap().name, "新区");
    assert_eq!(db.get_grave("id-3").unwrap().name, "张氏祖坟");
    let m = db.get_member("id-9").unwrap();
    assert_eq!(m.name, "张志强");
    assert_eq!(m.grave_id.as_deref(), Some("id-4"));
    assert_eq!(m.updated_at, now);
    assert_eq!(db.list_members_by_clan("id-0", Some(false)).unwrap().len(), 5);
}

#[test]
fn seed_with_a_taken_or_repeated_id_stores_nothing() {
    let now = "2024-05-01T08:00:00+00:00".to_string();
    let mut db = ClanTrailDb::in_memory();
    let t = db.create_grave(grave_input("旧墓", None)).unwrap();
    let mut ids: Vec<String> = (0..10).map(|k| format!("id-{k}")).collect();
    ids[4] = t.id.clone();
    match db.seed_with(&ids, &now) {
        Err(AppError::Database(_)) => {}
        _ => panic!("expected a database error"),
    }
    assert!(db.list_clans().unwrap().is_empty());
    ids[4] = "id-4".to_string();
    ids[8] = "id-6".to_string();
    match db.seed_with(&ids, &now) {
        Err(AppError::Database(_)) => {}
        _ => panic!("expected a database error"),
    }
    assert!(db.list_clans().unwrap().is_empty());
    assert!(db.get_member("id-5").is_err());
    ids[8] = "id-8".to_string();
    assert!(db.seed_with(&ids, &now).unwrap().seeded);
}

#[test]
fn clan_listing_without_filter_shows_the_living() {
    let mut db = ClanTrailDb::in_memory();
    let c = db.create_clan(NewClan { name: "陈氏".into(), description: None, origin: None }).unwrap();
    let dead = db.create_member(member_input("陈故", None, Some(c.id.clone()), None)).unwrap();
    let mut living = member_input("陈生", None, Some(c.id.clone()), None);
    living.is_alive = true;
    let alive = db.create_member(living).unwrap();
    let default: Vec<String> = db.list_members_by_clan(&c.id, None).unwrap().into_iter().map(|m| m.id).collect();
    assert_eq!(default, vec![alive.id.clone()]);
    let deceased: Vec<String> =
        db.list_members_by_clan(&c.id, Some(false)).unwrap().into_iter().map(|m| m.id).collect();
    assert_eq!(deceased, vec![dead.id.clone()]);
    let living: Vec<String> =
        db.list_members_by_clan(&c.id, Some(true)).unwrap().into_iter().map(|m| m.id).collect();
    assert_eq!(living, vec![alive.id]);
}

#[test]
fn clan_graph_holds_those_buried_in_its_graves() {
    let mut db = ClanTrailDb::in_memory();
    let c = db.create_clan(NewClan { name: "赵氏".into(), description: None, origin: None }).unwrap();
    let t = db.create_grave(grave_input("赵公墓", Some(c.id.clone()))).unwrap();
    let buried = db.create_member(member_input("赵公", Some(t.id.clone()), None, None)).unwrap();
    let other = db.create_member(member_input("外人", None, None, None)).unwrap();
    let (ms, _) = db.list_graph_by_clan(&c.id).unwrap();
    let ids: Vec<&str> = ms.iter().map(|m| m.id.as_str()).collect();
    assert!(ids.contains(&buried.id.as_str()));
    assert!(!ids.contains(&other.id.as_str()));
}

#[test]
fn search_all_pages_each_listing() {
    let mut db = ClanTrailDb::in_memory();
    for k in 0..4 {
        db.create_grave(grave_input(&format!("林公墓{k}"), None)).unwrap();
    }
    let res = db.search_all("林公", Some(2), Some(1)).unwrap();
    let names: Vec<&str> = res.graves.iter().map(|g| g.name.as_str()).collect();
    assert_eq!(names, vec!["林公墓1", "林公墓2"]);
    assert!(res.members.is_empty());
    assert!(res.clans.is_empty());
    let upper = db.search_all("林公墓3", None, None).unwrap();
    assert_eq!(upper.graves.len(), 1);
}

#[test]
fn search_ignores_ascii_case() {
    let mut db = ClanTrailDb::in_memory();
    db.create_clan(NewClan { name: "Lin Family".into(), description: None, origin: None }).unwrap();
    assert_eq!(db.search_clans("lin fam").unwrap().len(), 1);
    assert_eq!(db.search_clans("LIN").unwrap().len(), 1);
    assert_eq!(db.search_clans("Wang").unwrap().len(), 0);
}

// ---------------------------------------------------------------------------
// Uploads
// ---------------------------------------------------------------------------

#[test]
fn image_kinds_by_signature() {
    assert_eq!(detect_image_kind(&[0xFF, 0xD8, 0xFF, 0xE0, 0, 0, 0, 0, 0, 0, 0, 0]), Some("jpg"));
    assert_eq!(detect_image_kind(&PNG_HEAD), Some("png"));
    assert_eq!(detect_image_kind(b"GIF89a......"), Some("gif"));
    assert_eq!(detect_image_kind(b"RIFF\0\0\0\0WEBP"), Some("webp"));
    assert_eq!(detect_image_kind(b"\0\0\0\x18ftypheic"), Some("heic"));
    assert_eq!(detect_image_kind(b"\0\0\0\x18ftypmif1"), Some("heic"));
    assert_eq!(detect_image_kind(b"\0\0\0\x18ftypisom"), None);
    assert_eq!(detect_image_kind(&[0xFF, 0xD8, 0xFF]), None);
    assert_eq!(detect_image_kind(b"plain text!!"), None);
}

#[test]
fn extensions_of_paths() {
    assert_eq!(file_extension("photo.JPG").as_deref(), Some("JPG"));
    assert_eq!(file_extension("a/b/c.tar.gz").as_deref(), Some("gz"));
    assert_eq!(file_extension(".bashrc"), None);
    assert_eq!(file_extension("noext"), None);
    assert_eq!(file_extension("foo.").as_deref(), Some(""));
    assert_eq!(file_extension("dir.d/"), Some("d".to_string()));
    assert_eq!(file_extension("x/.."), None);
    assert_eq!(file_extension(""), None);
    assert_eq!(upload_extension(&Some("Photo.JPEG".into())), "jpeg");
    assert_eq!(upload_extension(&None), "bin");
    assert!(is_allowed_ext("heif"));
    assert!(!is_allowed_ext("bmp"));
}

#[test]
fn content_types_by_extension() {
    assert_eq!(mime_type("images/a.JPG"), "image/jpeg");
    assert_eq!(mime_type("images/a.jpeg"), "image/jpeg");
    assert_eq!(mime_type("b.png"), "image/png");
    assert_eq!(mime_type("b.heif"), "image/heif");
    assert_eq!(mime_type("b.txt"), "application/octet-stream");
    assert_eq!(mime_type("noext"), "application/octet-stream");
}

#[test]
fn byte_lengths_of_texts() {
    assert!(!utf8_longer_than("abc", 3));
    assert!(utf8_longer_than("abcd", 3));
    assert!(!utf8_longer_than("中文", 6));
    assert!(utf8_longer_than("中文", 5));
}

#[test]
fn form_upload_checks_in_order() {
    let ok = check_upload(
        Some(PNG_HEAD.to_vec()),
        Some("Grave.PNG".into()),
        Some("grave".into()),
        Some("g1".into()),
        Some("墓碑".into()),
    )
    .unwrap();
    assert_eq!(ok.entity_type, EntityType::Grave);
    assert_eq!(ok.ext, "png");
    assert_eq!(ok.entity_id, "g1");

    let refused = |r: Result<clantrail::upload::UploadPlan, AppError>| match r {
        Err(AppError::InvalidInput(m)) => m,
        _ => panic!("expected a refusal"),
    };
    assert_eq!(refused(check_upload(None, None, Some("grave".into()), Some("g".into()), None)), "缺少上传文件");
    assert_eq!(refused(check_upload(Some(vec![]), None, None, Some("g".into()), None)), "缺少 entity_type");
    assert_eq!(refused(check_upload(Some(vec![]), None, Some("grave".into()), None, None)), "缺少 entity_id");
    assert_eq!(
        refused(check_upload(Some(vec![]), None, Some("grave".into()), Some("中".repeat(43)), None)),
        "entity_id 过长（上限 128）"
    );
    assert_eq!(
        refused(check_upload(Some(vec![]), None, Some("grave".into()), Some("g".into()), Some("x".repeat(1025)))),
        "caption 过长（上限 1024）"
    );
    assert_eq!(
        refused(check_upload(Some(vec![]), None, Some("tomb".into()), Some("g".into()), None)),
        "未知 entity_type: tomb"
    );
    assert_eq!(
        refused(check_upload(Some(PNG_HEAD.to_vec()), Some("a.exe".into()), Some("grave".into()), Some("g".into()), None)),
        "不支持的图片类型: .exe"
    );
    assert_eq!(
        refused(check_upload(Some(PNG_HEAD.to_vec()), None, Some("grave".into()), Some("g".into()), None)),
        "不支持的图片类型: .bin"
    );
    assert_eq!(
        refused(check_upload(Some(b"not an image".to_vec()), Some("a.jpg".into()), Some("grave".into()), Some("g".into()), None)),
        "文件内容不是受支持的图片格式"
    );
}

#[test]
fn base64_upload_checks() {
    // the PNG head above, in base64
    let data = "iVBORw0KGgoAAAAN";
    let ok = check_base64_upload("member".into(), "m1".into(), None, "a.png".into(), data).unwrap();
    assert_eq!(ok.bytes, PNG_HEAD.to_vec());
    assert_eq!(ok.entity_type, EntityType::Member);
    match check_base64_upload("member".into(), "m1".into(), None, "a.png".into(), "!!!") {
        Err(AppError::InvalidInput(m)) => assert!(m.starts_with("base64 解码失败: ")),
        _ => panic!("expected a refusal"),
    }
    match check_decoded_upload(Ok(PNG_HEAD.to_vec()), "clan".into(), "c".into(), None, "a.gif.txt".into()) {
        Err(AppError::InvalidInput(m)) => assert_eq!(m, "不支持的图片类型: .txt"),
        _ => panic!("expected a refusal"),
    }
    match check_decoded_upload(Err("bad".into()), "clan".into(), "c".into(), None, "a.png".into()) {
        Err(AppError::InvalidInput(m)) => assert_eq!(m, "base64 解码失败: bad"),
        _ => panic!("expected a refusal"),
    }
}

#[test]
fn photo_subjects_must_exist() {
    let mut db = ClanTrailDb::in_memory();
    let t = db.create_grave(grave_input("照片墓", None)).unwrap();
    assert!(db.check_photo_subject(EntityType::Grave, &t.id).is_ok());
    match db.check_photo_subject(EntityType::Member, &t.id) {
        Err(AppError::NotFound(m)) => assert_eq!(m, format!("member {}", t.id)),
        _ => panic!("expected NotFound"),
    }
    assert_eq!(image_path("abc", "png"), "images/abc.png");
}

// ---------------------------------------------------------------------------
// Service rules
// ---------------------------------------------------------------------------

#[test]
fn pages_of_listings() {
    let v: Vec<u32> = (1..=5).collect();
    assert_eq!(paginate(v.clone(), Some(2), Some(1)), vec![2, 3]);
    assert_eq!(paginate(v.clone(), None, Some(3)), vec![4, 5]);
    assert_eq!(paginate(v.clone(), Some(10), None), vec![1, 2, 3, 4, 5]);
    assert_eq!(paginate(v.clone(), None, Some(10)), Vec::<u32>::new());
    assert_eq!(paginate(v.clone(), None, None), v);
    assert_eq!(paginate(v, Some(0), None), Vec::<u32>::new());
}

#[test]
fn errors_answered_by_status() {
    assert_eq!(error_response(&AppError::NotFound("grave x".into())), (404, "not found: grave x".to_string()));
    assert_eq!(error_response(&AppError::InvalidInput("bad".into())), (400, "bad".to_string()));
    assert_eq!(error_response(&AppError::General("oops".into())), (500, "oops".to_string()));
    assert_eq!(
        error_response(&AppError::Database("UNIQUE constraint failed".into())),
        (500, "internal server error".to_string())
    );
    assert_eq!(error_response(&AppError::Serde("eof".into())), (500, "internal server error".to_string()));
    assert_eq!(AppError::NotFound("x".into()).message(), "entity not found: x");
    assert_eq!(AppError::General("y".into()).message(), "y");
}

#[test]
fn local_origins_only() {
    assert!(is_local_origin("tauri://localhost"));
    assert!(is_local_origin("http://tauri.localhost"));
    assert!(is_local_origin("https://tauri.localhost"));
    assert!(is_local_origin("http://localhost:5173"));
    assert!(is_local_origin("http://127.0.0.1:8080"));
    assert!(is_local_origin("http://localhost"));
    assert!(!is_local_origin("tauri://localhost:1"));
    assert!(!is_local_origin("http://localhost.evil.example"));
    assert!(!is_local_origin("http://127.0.0.1.evil.example:80"));
    assert!(!is_local_origin("http://localhost:"));
    assert!(!is_local_origin("http://localhost:80x"));
    assert!(!is_local_origin("https://tauri.localhost.example.com"));
    assert!(!is_local_origin("https://example.com"));
    assert!(!is_local_origin(""));
}

#[test]
fn edge_path_must_match_body() {
    let e = NewEdge { member_id: "a".into(), related_member_id: "b".into(), relation_type: EdgeType::Daughter, side: None };
    assert!(check_edge_path("a", &e).is_ok());
    match check_edge_path("b", &e) {
        Err(AppError::InvalidInput(m)) => assert_eq!(m, "member_id in path does not match body"),
        _ => panic!("expected a refusal"),
    }
}

// ---------------------------------------------------------------------------
// Backups
// ---------------------------------------------------------------------------

#[test]
fn manifest_versions() {
    assert!(check_manifest_version(4).is_ok());
    assert!(check_manifest_version(1).is_ok());
    match check_manifest_version(5) {
        Err(AppError::InvalidInput(m)) => assert_eq!(m, "备份 schema 版本 5 高于当前支持 4"),
        _ => panic!("expected a refusal"),
    }
}

#[test]
fn backup_names() {
    assert_eq!(backup_file_name("20240101-120000"), "clantrail-backup-20240101-120000.zip");
    assert_eq!(restore_copy_name("20240101-120000"), ".clantrail-backup-20240101-120000");
    assert_eq!(zip_entry_name("uploads//", "images\\a.jpg"), "uploads/images/a.jpg");
    assert_eq!(zip_entry_name("uploads", "b.png"), "uploads/b.png");
}

#[test]
fn old_restore_copies_are_removed_newest_kept() {
    let names: Vec<String> = vec![
        ".clantrail-backup-20240103-000000",
        "uploads",
        ".clantrail-backup-20240101-000000",
        ".clantrail-backup-20240107-000000",
        ".clantrail-backup-20240102-000000",
        ".clantrail-backup-20240105-000000",
        ".clantrail-backup-20240104-000000",
        ".clantrail-backup-20240106-000000",
        "clantrail-backup-20240108-000000.zip",
    ]
    .into_iter()
    .map(String::from)
    .collect();
    let gone = restore_copies_to_remove(names.clone(), 5);
    assert_eq!(gone, vec![".clantrail-backup-20240102-000000", ".clantrail-backup-20240101-000000"]);
    assert!(restore_copies_to_remove(names, 10).is_empty());
}

#[test]
fn backup_listing_newest_first() {
    let e = |f: &str, t: &str| BackupEntry { filename: f.into(), size_bytes: 1, modified_at: t.into() };
    let sorted = newest_backups_first(vec![
        e("a", "2024-01-01T00:00:00+08:00"),
        e("b", "2024-03-01T00:00:00+08:00"),
        e("c", "2024-02-01T00:00:00+08:00"),
    ]);
    let names: Vec<&str> = sorted.iter().map(|x| x.filename.as_str()).collect();
    assert_eq!(names, vec!["b", "c", "a"]);
}

#[test]
fn updated_rows_read_back() {
    let mut db = ClanTrailDb::in_memory();
    let c = db.create_clan(NewClan { name: "旧名".into(), description: None, origin: Some("江西".into()) }).unwrap();
    let n = db.update_clan(&c.id, Some("新名".into()), None, None).unwrap();
    assert_eq!(n.version, c.version + 1);
    let back = db.get_clan(&c.id).unwrap();
    assert_eq!(back.name, "新名");
    assert_eq!(back.origin.as_deref(), Some("江西"));
    assert_eq!(back.version, n.version);
}

#[test]
fn keywords_with_pattern_characters_still_find_their_text() {
    let mut db = ClanTrailDb::in_memory();
    db.create_grave(grave_input("修缮50%_墓", None)).unwrap();
    db.create_grave(grave_input("另一墓", None)).unwrap();
    assert_eq!(db.search_graves("50%_").unwrap().len(), 1);
    // `_` stands for any one character
    assert_eq!(db.search_graves("另_墓").unwrap().len(), 1);
}

#[test]
fn burial_group_read_back() {
    let mut db = ClanTrailDb::in_memory();
    let c = db.create_clan(NewClan { name: "何氏".into(), description: None, origin: None }).unwrap();
    let g = db
        .create_burial_group(clantrail::models::NewBurialGroup { clan_id: c.id.clone(), name: "南山".into(), description: None })
        .unwrap();
    assert_eq!(db.get_burial_group(&g.id).unwrap().name, "南山");
    assert!(db.get_burial_group("missing").is_err());
    match db.create_burial_group(clantrail::models::NewBurialGroup { clan_id: "nobody".into(), name: "x".into(), description: None }) {
        Err(AppError::NotFound(m)) => assert_eq!(m, "clan nobody"),
        _ => panic!("expected NotFound"),
    }
}

#[test]
fn type_names_round_trip() {
    for t in [EntityType::Grave, EntityType::Member, EntityType::Clan] {
        assert_eq!(EntityType::from_str(t.as_str()), Some(t));
    }
    for t in [EdgeType::Spouse, EdgeType::Son, EdgeType::Daughter] {
        assert_eq!(EdgeType::from_str(t.as_str()), Some(t));
        assert_eq!(t.reverse(), t);
    }
    assert_eq!(EntityType::from_str("tomb"), None);
    assert_eq!(EdgeType::from_str("parent"), None);
    assert_eq!(EdgeType::Spouse.as_str(), "spouse");
}

#[test]
fn member_delete_removes_its_edges_and_photos() {
    let mut db = ClanTrailDb::in_memory();
    let a = db.create_member(member_input("甲", None, None, None)).unwrap();
    let b = db.create_member(member_input("乙", None, None, None)).unwrap();
    db.create_edge(NewEdge { member_id: a.id.clone(), related_member_id: b.id.clone(), relation_type: EdgeType::Spouse, side: None })
        .unwrap();
    db.add_image(NewImage { entity_type: EntityType::Member, entity_id: a.id.clone(), file_path: "images/a.jpg".into(), caption: None, is_cover: false })
        .unwrap();
    db.delete_member(&a.id).unwrap();
    assert!(db.get_member(&a.id).is_err());
    assert!(db.list_edges_by_member(&b.id).unwrap().is_empty());
    assert!(db.list_images_by_entity(EntityType::Member, &a.id).unwrap().is_empty());
    assert!(db.delete_member(&a.id).is_err());
}

#[test]
fn grave_delete_removes_its_members() {
    let mut db = ClanTrailDb::in_memory();
    let t = db.create_grave(grave_input("将删墓", None)).unwrap();
    let p = db.create_member(member_input("墓主", Some(t.id.clone()), None, None)).unwrap();
    let q = db.create_member(member_input("在世", None, None, None)).unwrap();
    db.create_edge(NewEdge { member_id: q.id.clone(), related_member_id: p.id.clone(), relation_type: EdgeType::Son, side: None })
        .unwrap();
    db.add_image(NewImage { entity_type: EntityType::Grave, entity_id: t.id.clone(), file_path: "images/t.jpg".into(), caption: None, is_cover: true })
        .unwrap();
    db.delete_grave(&t.id).unwrap();
    assert!(db.get_grave(&t.id).is_err());
    assert!(db.get_member(&p.id).is_err());
    assert!(db.get_member(&q.id).is_ok());
    assert!(db.list_edges_by_member(&q.id).unwrap().is_empty());
    assert!(db.list_images_by_entity(EntityType::Grave, &t.id).unwrap().is_empty());
}
