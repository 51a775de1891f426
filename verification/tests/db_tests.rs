use clantrail::db::ClanTrailDb;
use clantrail::models::{EntityType, NewBurialGroup, NewClan, NewGrave, NewImage, NewMember};
use lunar_lite::{lunar_to_solar, solar_to_lunar, LunarDate, SolarDate};

fn setup() -> ClanTrailDb {
    ClanTrailDb::in_memory()
}

#[test]
fn clan_crud() {
    let mut db = setup();
    let f = db
        .create_clan(NewClan {
            name: "王氏家族".into(),
            description: Some("宗族档案".into()),
            origin: Some("山西洪洞".into()),
        })
        .unwrap();
    assert_eq!(db.get_clan(&f.id).unwrap().name, "王氏家族");
    assert_eq!(db.list_clans().unwrap().len(), 1);

    let updated = db
        .update_clan(&f.id, Some("王氏族谱".into()), None, None)
        .unwrap();
    assert_eq!(updated.name, "王氏族谱");
    assert_eq!(updated.origin.as_deref(), Some("山西洪洞"));

    db.delete_clan(&f.id).unwrap();
    assert!(db.get_clan(&f.id).is_err());
}

#[test]
fn burial_group_belongs_to_clan() {
    let mut db = setup();
    let f = db
        .create_clan(NewClan { name: "李氏".into(), description: None, origin: None })
        .unwrap();
    let g = db
        .create_burial_group(NewBurialGroup {
            clan_id: f.id.clone(),
            name: "祖坟区".into(),
            description: Some("山腰老坟".into()),
        })
        .unwrap();
    assert_eq!(db.list_groups_by_clan(&f.id).unwrap().len(), 1);
    assert_eq!(db.list_groups_by_clan(&g.id).unwrap().len(), 0);

    db.delete_clan(&f.id).unwrap();
    assert!(db.list_groups_by_clan(&f.id).unwrap().is_empty());
}

#[test]
fn clan_delete_cascades_graves_members_and_images() {
    let mut db = setup();
    let f = db
        .create_clan(NewClan {
            name: "陈氏".into(),
            description: None,
            origin: None,
        })
        .unwrap();
    let t = db
        .create_grave(NewGrave {
            name: "陈氏祖墓".into(),
            latitude: 23.1f64.to_bits(),
            longitude: 113.2f64.to_bits(),
            address: None,
            description: None,
            burial_group_id: None,
            clan_id: Some(f.id.clone()),
        })
        .unwrap();
    let p = db
        .create_member(NewMember {
            grave_id: Some(t.id.clone()),
            clan_id: None,
            is_alive: false,
            name: "陈公".into(),
            title: None,
            birth_date: None,
            death_date: None,
            biography: None,
            epitaph: None,
            spouse: None,
            is_joint_burial: false,
            children: None,
            order_index: 1,
        })
        .unwrap();
    db.add_image(NewImage {
        entity_type: EntityType::Member,
        entity_id: p.id.clone(),
        file_path: "photos/chen.jpg".into(),
        caption: None,
        is_cover: false,
    })
    .unwrap();

    assert_eq!(db.list_graves_by_clan(&f.id).unwrap().len(), 1);
    assert_eq!(db.list_members_by_grave(&t.id).unwrap().len(), 1);
    assert_eq!(db.list_images_by_entity(EntityType::Member, &p.id).unwrap().len(), 1);

    db.delete_clan(&f.id).unwrap();
    assert!(db.get_clan(&f.id).is_err());
    assert!(db.get_grave(&t.id).is_err());
    assert!(db.get_member(&p.id).is_err());
    assert!(db.list_images_by_entity(EntityType::Member, &p.id).unwrap().is_empty());
}

#[test]
fn grave_crud_with_edges() {
    let mut db = setup();
    let f = db
        .create_clan(NewClan { name: "赵氏".into(), description: None, origin: None })
        .unwrap();
    let g = db
        .create_burial_group(NewBurialGroup {
            clan_id: f.id.clone(),
            name: "东区".into(),
            description: None,
        })
        .unwrap();

    let t = db
        .create_grave(NewGrave {
            name: "赵公明墓".into(),
            latitude: 34.21f64.to_bits(),
            longitude: 108.94f64.to_bits(),
            address: Some("西安东郊".into()),
            description: Some("明代墓".into()),
            burial_group_id: Some(g.id.clone()),
            clan_id: Some(f.id.clone()),
        })
        .unwrap();
    assert_eq!(db.list_graves_by_clan(&f.id).unwrap().len(), 1);
    assert_eq!(db.list_graves_by_group(&g.id).unwrap().len(), 1);

    let bad = db.create_grave(NewGrave {
        name: "bad".into(),
        latitude: 100.0f64.to_bits(),
        longitude: 0.0f64.to_bits(),
        address: None,
        description: None,
        burial_group_id: None,
        clan_id: None,
    });
    assert!(bad.is_err());

    let bad_clan = db.create_grave(NewGrave {
        name: "bad2".into(),
        latitude: 0.0f64.to_bits(),
        longitude: 0.0f64.to_bits(),
        address: None,
        description: None,
        burial_group_id: None,
        clan_id: Some("not-exist".into()),
    });
    assert!(bad_clan.is_err());
    drop(t);
}

#[test]
fn member_and_images() {
    let mut db = setup();
    let t = db
        .create_grave(NewGrave {
            name: "合葬墓".into(),
            latitude: 30.5f64.to_bits(),
            longitude: 114.3f64.to_bits(),
            address: None,
            description: None,
            burial_group_id: None,
            clan_id: None,
        })
        .unwrap();

    let p1 = db
        .create_member(NewMember {
            grave_id: Some(t.id.clone()),
            clan_id: None,
            is_alive: false,
            name: "张爷爷".into(),
            title: Some("祖父".into()),
            birth_date: Some("1900-01-01".into()),
            death_date: Some("1978-05-20".into()),
            biography: Some("一生务农".into()),
            epitaph: None,
            spouse: Some("张奶奶".into()),
            is_joint_burial: true,
            children: Some("张大、张二、张三".into()),
            order_index: 1,
        })
        .unwrap();
    assert_eq!(p1.spouse.as_deref(), Some("张奶奶"));
    assert!(p1.is_joint_burial);
    assert_eq!(p1.children.as_deref(), Some("张大、张二、张三"));

    db.create_member(NewMember {
        grave_id: Some(t.id.clone()),
        clan_id: None,
        is_alive: false,
        name: "张奶奶".into(),
        title: Some("祖母".into()),
        birth_date: None,
        death_date: None,
        biography: None,
        epitaph: None,
        spouse: None,
        is_joint_burial: true,
        children: None,
        order_index: 2,
    })
    .unwrap();

    let members = db.list_members_by_grave(&t.id).unwrap();
    assert_eq!(members.len(), 2);
    assert_eq!(members[0].order_index, 1);
    assert_eq!(members[1].order_index, 2);

    let updated = db
        .update_member(
            &p1.id,
            None,
            None,
            None,
            None,
            None,
            None,
            Some("张氏".into()),
            Some(false),
            None,
            Some(5),
            None,
            None,
        )
        .unwrap();
    assert_eq!(updated.spouse.as_deref(), Some("张氏"));
    assert!(!updated.is_joint_burial);
    assert_eq!(updated.order_index, 5);

    db.add_image(NewImage {
        entity_type: EntityType::Grave,
        entity_id: t.id.clone(),
        file_path: "/images/grave1.jpg".into(),
        caption: Some("墓碑".into()),
        is_cover: true,
    })
    .unwrap();
    let images = db.list_images_by_entity(EntityType::Grave, &t.id).unwrap();
    assert_eq!(images.len(), 1);
    assert!(images[0].is_cover);
}

#[test]
fn search_works() {
    let mut db = setup();
    let f = db
        .create_clan(NewClan {
            name: "陈家".into(),
            description: None,
            origin: Some("福建".into()),
        })
        .unwrap();
    let t = db
        .create_grave(NewGrave {
            name: "陈公墓".into(),
            latitude: 24.5f64.to_bits(),
            longitude: 118.1f64.to_bits(),
            address: Some("厦门集美".into()),
            description: Some("清代墓".into()),
            burial_group_id: None,
            clan_id: Some(f.id.clone()),
        })
        .unwrap();
    db.create_member(NewMember {
        grave_id: Some(t.id.clone()),
        clan_id: None,
        is_alive: false,
        name: "陈永福".into(),
        title: None,
        birth_date: None,
        death_date: None,
        biography: Some("晚清举人".into()),
        epitaph: None,
        spouse: None,
        is_joint_burial: false,
        children: None,
        order_index: 1,
    })
    .unwrap();

    assert_eq!(db.search_graves("陈公").unwrap().len(), 1);
    assert_eq!(db.search_graves("集美").unwrap().len(), 1);
    assert_eq!(db.search_members("永福").unwrap().len(), 1);
    assert_eq!(db.search_members("举人").unwrap().len(), 1);
    assert_eq!(db.search_clans("福建").unwrap().len(), 1);
    assert_eq!(db.search_graves("不存在").unwrap().len(), 0);
}

#[test]
fn lunar_solar_roundtrip() {
    let l = solar_to_lunar(SolarDate {
        year: 2023,
        month: 1,
        day: 22,
    })
    .expect("solar_to_lunar 失败");
    assert_eq!((l.month, l.day, l.is_leap_month), (1, 1, false));
    let s = lunar_to_solar(LunarDate {
        year: 2023,
        month: 1,
        day: 1,
        is_leap_month: false,
    })
    .expect("lunar_to_solar 失败");
    assert_eq!((s.year, s.month, s.day), (2023, 1, 22));

    let orig = SolarDate {
        year: 1995,
        month: 8,
        day: 15,
    };
    let lunar = solar_to_lunar(orig).expect("solar_to_lunar 失败");
    let back = lunar_to_solar(LunarDate {
        year: lunar.year,
        month: lunar.month,
        day: lunar.day,
        is_leap_month: lunar.is_leap_month,
    })
    .expect("lunar_to_solar 失败");
    assert_eq!(
        (back.year, back.month, back.day),
        (orig.year, orig.month, orig.day)
    );
}

#[test]
fn list_reminders_includes_death_anniversary() {
    let mut db = setup();
    let t = db
        .create_grave(NewGrave {
            name: "忌日测试墓".into(),
            latitude: 30.0f64.to_bits(),
            longitude: 114.0f64.to_bits(),
            address: None,
            description: None,
            burial_group_id: None,
            clan_id: None,
        })
        .unwrap();
    let p = db
        .create_member(NewMember {
            grave_id: Some(t.id.clone()),
            clan_id: None,
            is_alive: false,
            name: "忌日测试人".into(),
            title: Some("考".into()),
            birth_date: None,
            death_date: Some("1980-06-15".into()),
            biography: None,
            epitaph: None,
            spouse: None,
            is_joint_burial: false,
            children: None,
            order_index: 1,
        })
        .unwrap();

    let reminders = db.list_reminders(365 * 3).unwrap();
    let hit = reminders
        .iter()
        .find(|r| r.member_id.as_deref() == Some(p.id.as_str()));
    assert!(hit.is_some(), "应为该逝者生成忌日提醒");
    let hit = hit.unwrap();
    assert!(hit.title.contains("忌日测试人"), "标题应包含逝者名");
    assert!(
        hit.lunar_date.contains("农历"),
        "lunar_date 应为农历表述，实际: {}",
        hit.lunar_date
    );
    assert!(hit.days_until >= 0);
}
