use orexis::models::{
    LightCone, RPG_GameCore_FixPoint, Relic, RelicMainStat, RelicRolls, RelicSubstat,
    ReliquaryLightCone, ReliquaryRelic, StatValue,
};
use orexis::relic_sync::{build_relic, is_recordable, sync_relic, RelicReading, SubAffixReading};
use orexis::live::LiveImportEvent;
use orexis::store::{get_relics_snapshot, RelicStore};

fn fixed(raw: i64) -> RPG_GameCore_FixPoint {
    RPG_GameCore_FixPoint { m_rawValue: raw }
}

fn sample_relic(uid: u32) -> Relic {
    Relic {
        part: "Body".to_string(),
        set_id: "101".to_string(),
        set: "Passerby".to_string(),
        enhance: 15,
        grade: 5,
        main: RelicMainStat { stat: "CRIT Rate%".to_string(), value: StatValue { fixed: fixed(1 << 30), percent: true } },
        substats: vec![
            RelicSubstat {
                stat: "ATK%".to_string(),
                value: StatValue { fixed: fixed(5), percent: true },
                rolls: RelicRolls { high: 2, mid: 1, low: 3 },
                added_rolls: 5,
            },
            RelicSubstat {
                stat: "SPD".to_string(),
                value: StatValue { fixed: fixed(3 << 32), percent: false },
                rolls: RelicRolls { high: 0, mid: 0, low: 1 },
                added_rolls: 0,
            },
        ],
        equipped_by: "1205".to_string(),
        verified: true,
        id: uid.to_string(),
        age_index: uid,
        initial_rolls: 3,
        lock: true,
        discard: false,
    }
}

#[test]
fn fixpoint_below_one() {
    assert!(fixed(0).is_below_one());
    assert!(fixed(0xffff_ffff).is_below_one());
    assert!(!fixed(0x1_0000_0000).is_below_one());
    assert!(!fixed(-1).is_below_one());
    assert!(StatValue::from_reading(fixed(10)).percent);
    assert!(!StatValue::from_reading(fixed(1 << 33)).percent);
}

#[test]
fn relic_export_maps_fields() {
    let r = ReliquaryRelic::from(&sample_relic(77));
    assert_eq!(r.set_id, "101");
    assert_eq!(r.name, "Passerby");
    assert_eq!(r.slot, "Body");
    assert_eq!(r.rarity, 5);
    assert_eq!(r.level, 15);
    assert_eq!(r.mainstat, "CRIT Rate");
    assert_eq!(r.location, "1205");
    assert!(r.lock && !r.discard);
    assert_eq!(r._uid, "77");
    assert_eq!(r.substats.len(), 2);
    assert_eq!(r.substats[0].key, "ATK_");
    assert_eq!(r.substats[0].count, 6);
    assert_eq!(r.substats[0].step, 5);
    assert_eq!(r.substats[0].value, StatValue { fixed: fixed(5), percent: true });
    assert_eq!(r.substats[1].key, "SPD");
    assert_eq!(r.substats[1].count, 1);
    assert_eq!(r.substats[1].step, 0);
}

#[test]
fn relic_export_keeps_plain_main_stat() {
    let mut relic = sample_relic(1);
    relic.main.stat = "SPD".to_string();
    assert_eq!(ReliquaryRelic::from(&relic).mainstat, "SPD");
}

#[test]
fn light_cone_export_maps_fields() {
    let lc = LightCone {
        id: "23001".to_string(),
        name: "In the Night".to_string(),
        level: 80,
        promotion: 6,
        rank: 2,
        equipped_by: "1212".to_string(),
        lock: true,
        uid: "9".to_string(),
    };
    let out = ReliquaryLightCone::from(&lc);
    assert_eq!(out.id, "23001");
    assert_eq!(out.name, "In the Night");
    assert_eq!(out.level, 80);
    assert_eq!(out.ascension, 6);
    assert_eq!(out.superimposition, 2);
    assert_eq!(out.location, "1212");
    assert!(out.lock);
    assert_eq!(out._uid, "9");
}

fn sample_reading(uid: u32) -> RelicReading {
    RelicReading {
        set_id: 104,
        location: 1205,
        lock: false,
        discard: true,
        uid,
        rarity: 4,
        level: 12,
        set_name: "Hunter".to_string(),
        main_stat_name: "HP".to_string(),
        main_value: fixed(1 << 31),
        slot_name: "Head".to_string(),
        sub_affixes: vec![
            SubAffixReading { property_name: "CRIT DMG".to_string(), count: 3, step: 4, value: fixed(1 << 30) },
            SubAffixReading { property_name: "SPD".to_string(), count: 2, step: 1, value: fixed(5 << 32) },
            SubAffixReading { property_name: "ATK".to_string(), count: 1, step: 0, value: fixed(20 << 32) },
        ],
    }
}

#[test]
fn build_relic_from_reading() {
    let relic = build_relic(&sample_reading(500));
    assert_eq!(relic.part, "Head");
    assert_eq!(relic.set_id, "104");
    assert_eq!(relic.set, "Hunter");
    assert_eq!(relic.enhance, 12);
    assert_eq!(relic.grade, 4);
    assert_eq!(relic.main.stat, "HP");
    assert_eq!(relic.main.value, StatValue { fixed: fixed(1 << 31), percent: true });
    assert_eq!(relic.equipped_by, "1205");
    assert!(relic.verified);
    assert_eq!(relic.id, "500");
    assert_eq!(relic.age_index, 500);
    // 3 + 2 + 1 = 6 rolls, minus 12 / 3 = 4 levels' worth
    assert_eq!(relic.initial_rolls, 2);
    assert!(!relic.lock && relic.discard);
    assert_eq!(relic.substats[0].stat, "CRIT DMG%");
    assert!(relic.substats[0].value.percent);
    assert_eq!(relic.substats[0].rolls, RelicRolls { high: 2, mid: 0, low: 1 });
    assert_eq!(relic.substats[0].added_rolls, 2);
    assert_eq!(relic.substats[1].stat, "SPD");
    assert!(!relic.substats[1].value.percent);
    assert_eq!(relic.substats[1].rolls, RelicRolls { high: 0, mid: 1, low: 1 });
    assert_eq!(relic.substats[1].added_rolls, 1);
    assert_eq!(relic.substats[2].added_rolls, 0);
}

#[test]
fn build_relic_without_rolls_or_wearer() {
    let mut reading = sample_reading(3);
    reading.location = 0;
    reading.level = 15;
    reading.sub_affixes = vec![SubAffixReading {
        property_name: "DEF".to_string(),
        count: 0,
        step: 0,
        value: fixed(1),
    }];
    let relic = build_relic(&reading);
    assert_eq!(relic.equipped_by, "");
    assert_eq!(relic.initial_rolls, 0);
    assert_eq!(relic.substats[0].added_rolls, 0);
    assert_eq!(relic.substats[0].rolls, RelicRolls { high: 0, mid: 0, low: 0 });
}

#[test]
fn store_ignores_updates_before_initialization() {
    let mut store = RelicStore::new();
    assert!(sync_relic(&mut store, &sample_reading(1)).is_none());
    assert_eq!(store.len(), 0);
}

#[test]
fn store_records_and_announces_updates() {
    let mut store = RelicStore::new();
    store.mark_initialized();
    let event = sync_relic(&mut store, &sample_reading(8)).unwrap();
    match event {
        LiveImportEvent::UpdateRelics(v) => {
            assert_eq!(v.len(), 1);
            assert_eq!(v[0]._uid, "8");
            assert_eq!(v[0].substats[0].key, "CRIT DMG_");
        }
        _ => panic!("expected a relic update"),
    }
    assert_eq!(store.get(8).unwrap().id, "8");
}

#[test]
fn store_insert_then_get() {
    let mut store = RelicStore::new();
    store.insert(1, sample_relic(1));
    store.insert(2, sample_relic(2));
    let mut changed = sample_relic(1);
    changed.enhance = 3;
    store.insert(1, changed);
    assert_eq!(store.len(), 2);
    assert_eq!(store.get(1).unwrap().enhance, 3);
    assert_eq!(store.get(2).unwrap().enhance, 15);
    assert!(store.get(3).is_none());
    let snap = get_relics_snapshot(&store);
    let mut ids: Vec<(String, u32)> = snap.iter().map(|r| (r.id.clone(), r.enhance)).collect();
    ids.sort();
    assert_eq!(ids, vec![("1".to_string(), 3), ("2".to_string(), 15)]);
    let exported = store.export();
    let mut levels: Vec<(String, u32)> = exported.iter().map(|r| (r._uid.clone(), r.level)).collect();
    levels.sort();
    assert_eq!(levels, vec![("1".to_string(), 3), ("2".to_string(), 15)]);
}

#[test]
fn unrecordable_reading_is_ignored_before_initialization() {
    // level 60 asks for 20 rolls lost to levels, more than the 6 the sub-stats hold
    let mut reading = sample_reading(9);
    reading.level = 60;
    assert!(!is_recordable(&reading));
    let mut store = RelicStore::new();
    store.insert(1, build_relic(&sample_reading(1)));
    assert!(sync_relic(&mut store, &reading).is_none());
    assert_eq!(store.len(), 1);
    assert!(store.get(9).is_none());
    assert_eq!(store.get(1).unwrap().id, "1");
}
