use orexis::live::{
    build_characters_from_equipment, build_initial_scan_event, character_ids,
    send_live_light_cone_update, send_live_relic_update, LiveImportEvent,
};
use orexis::loadouts::{set_loadouts, CharacterLoadout, LoadoutStore};
use orexis::models::{LightCone, ReliquaryLightCone, ReliquaryRelic};

fn exported_relic(location: &str) -> ReliquaryRelic {
    ReliquaryRelic {
        set_id: "1".to_string(),
        name: "Set".to_string(),
        slot: "Head".to_string(),
        rarity: 5,
        level: 0,
        mainstat: "HP".to_string(),
        substats: Vec::new(),
        location: location.to_string(),
        lock: false,
        discard: false,
        _uid: "1".to_string(),
    }
}

fn exported_cone(location: &str) -> ReliquaryLightCone {
    ReliquaryLightCone {
        id: "1".to_string(),
        name: "Cone".to_string(),
        level: 1,
        ascension: 0,
        superimposition: 1,
        location: location.to_string(),
        lock: false,
        _uid: "2".to_string(),
    }
}

#[test]
fn empty_updates_send_nothing() {
    assert!(send_live_relic_update(Vec::new()).is_none());
    assert!(send_live_light_cone_update(Vec::new()).is_none());
}

#[test]
fn updates_carry_their_items() {
    match send_live_light_cone_update(vec![exported_cone("1")]) {
        Some(LiveImportEvent::UpdateLightCones(v)) => assert_eq!(v.len(), 1),
        other => panic!("unexpected {other:?}"),
    }
    match send_live_relic_update(vec![exported_relic(""), exported_relic("2")]) {
        Some(LiveImportEvent::UpdateRelics(v)) => assert_eq!(v.len(), 2),
        other => panic!("unexpected {other:?}"),
    }
}

#[test]
fn character_ids_sorted_and_unique() {
    let relics = vec![exported_relic("1205"), exported_relic(""), exported_relic("1006"), exported_relic("1205")];
    let cones = vec![exported_cone("1006"), exported_cone("8001")];
    let mut store = LoadoutStore::new();
    set_loadouts(
        &mut store,
        vec![CharacterLoadout { avatar_id: 1102, name: "x".to_string(), relic_uids: vec![] }],
    );
    assert_eq!(character_ids(&relics, &cones, &store), vec!["1006", "1102", "1205", "8001"]);
}

#[test]
fn character_ids_use_text_order() {
    let relics = vec![exported_relic("9"), exported_relic("10")];
    let store = LoadoutStore::new();
    assert_eq!(character_ids(&relics, &Vec::new(), &store), vec!["10", "9"]);
}

#[test]
fn characters_get_placeholder_details() {
    let store = LoadoutStore::new();
    let chars = build_characters_from_equipment(&vec![exported_relic("1205")], &Vec::new(), &store);
    assert_eq!(chars.len(), 1);
    assert_eq!(chars[0].id, "1205");
    assert_eq!(chars[0].name, "Unknown");
    assert_eq!(chars[0].path, "Unknown");
    assert_eq!(chars[0].level, 80);
    assert_eq!(chars[0].ascension, 6);
    assert_eq!(chars[0].eidolon, 0);
    assert_eq!(chars[0].ability_version, 0);
}

#[test]
fn initial_scan_has_fixed_header() {
    let cone = LightCone {
        id: "20000".to_string(),
        name: "Arrows".to_string(),
        level: 1,
        promotion: 0,
        rank: 1,
        equipped_by: "1001".to_string(),
        lock: false,
        uid: "5".to_string(),
    };
    let store = LoadoutStore::new();
    match build_initial_scan_event(&Vec::new(), &vec![cone], &store) {
        LiveImportEvent::InitialScan(x) => {
            assert_eq!(x.source, "reliquary_archiver");
            assert_eq!(x.build, "v0.8.0");
            assert_eq!(x.version, 4);
            assert!(x.metadata.uid.is_none() && x.metadata.trailblazer.is_none());
            assert_eq!(x.gacha.stellar_jade, 0);
            assert_eq!(x.gacha.oneric_shards, 0);
            assert!(x.relics.is_empty());
            assert_eq!(x.light_cones.len(), 1);
            assert_eq!(x.light_cones[0].location, "1001");
            assert_eq!(x.characters.len(), 1);
            assert_eq!(x.characters[0].id, "1001");
        }
        other => panic!("unexpected {other:?}"),
    }
}
