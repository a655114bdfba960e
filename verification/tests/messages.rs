use orexis::loadouts::{CharacterLoadout, OutgoingMessage};
use orexis::messages::{
    parse_u32_from_value, relic_uids_from_values, resolve_many_loadouts, resolve_single_loadout,
    route_message, select_relics_to_equip, IncomingMessage, JsonScalar, LoadoutCandidates,
    LoadoutListCandidates, RelicLookup, Route,
};

fn loadout(avatar_id: u32, name: &str) -> CharacterLoadout {
    CharacterLoadout { avatar_id, name: name.to_string(), relic_uids: vec![avatar_id] }
}

#[test]
fn u32_from_numbers_and_strings() {
    assert_eq!(parse_u32_from_value(&JsonScalar::Number(Some(42))), Some(42));
    assert_eq!(parse_u32_from_value(&JsonScalar::Number(Some(1 << 32))), None);
    assert_eq!(parse_u32_from_value(&JsonScalar::Number(None)), None);
    assert_eq!(parse_u32_from_value(&JsonScalar::Text(" 1205 ".to_string())), Some(1205));
    assert_eq!(parse_u32_from_value(&JsonScalar::Text("12a".to_string())), None);
    assert_eq!(parse_u32_from_value(&JsonScalar::Other), None);
}

#[test]
fn uid_list_skips_unreadable_values() {
    let values = vec![
        JsonScalar::Number(Some(3)),
        JsonScalar::Text("x".to_string()),
        JsonScalar::Text("4".to_string()),
        JsonScalar::Other,
        JsonScalar::Number(Some(5)),
    ];
    assert_eq!(relic_uids_from_values(&values), vec![3, 4, 5]);
}

#[test]
fn single_loadout_prefers_field_then_data() {
    let direct = resolve_single_loadout(
        Some(loadout(1, "a")),
        Some(LoadoutCandidates { whole: Some(loadout(2, "b")), nested: None, legacy: None }),
    );
    assert_eq!(direct.unwrap().avatar_id, 1);
    let nested = resolve_single_loadout(
        None,
        Some(LoadoutCandidates { whole: None, nested: Some(loadout(3, "c")), legacy: Some(loadout(4, "d")) }),
    );
    assert_eq!(nested.unwrap().avatar_id, 3);
    let legacy = resolve_single_loadout(
        None,
        Some(LoadoutCandidates { whole: None, nested: None, legacy: Some(loadout(4, "d")) }),
    );
    assert_eq!(legacy.unwrap().avatar_id, 4);
    assert!(resolve_single_loadout(None, None).is_none());
}

#[test]
fn many_loadouts_prefers_field_then_data() {
    let got = resolve_many_loadouts(
        None,
        Some(LoadoutListCandidates { whole: Some(vec![loadout(5, "e")]), nested: None, legacy: None }),
    );
    assert_eq!(got.unwrap()[0].avatar_id, 5);
    assert!(resolve_many_loadouts(None, Some(LoadoutListCandidates { whole: None, nested: None, legacy: None })).is_none());
    let field = resolve_many_loadouts(Some(vec![]), None);
    assert!(field.unwrap().is_empty());
}

fn error_text(route: Route) -> String {
    match route {
        Route::Reply(OutgoingMessage::Error { message }) => message,
        other => panic!("unexpected {other:?}"),
    }
}

fn tagged(kind: &str) -> IncomingMessage {
    IncomingMessage::Tagged {
        msg_type: kind.to_string(),
        loadouts: None,
        loadout: None,
        single_data: None,
        list_data: None,
    }
}

#[test]
fn routes_untagged_requests() {
    match route_message(Ok(IncomingMessage::SetLoadout { set_loadout: loadout(1, "a") })) {
        Route::ApplyOne(l) => assert_eq!(l.avatar_id, 1),
        other => panic!("unexpected {other:?}"),
    }
    match route_message(Ok(IncomingMessage::SetLoadouts { set_loadouts: vec![loadout(2, "b")] })) {
        Route::ApplyMany(ls) => assert_eq!(ls.len(), 1),
        other => panic!("unexpected {other:?}"),
    }
}

#[test]
fn routes_tagged_requests() {
    let msg = IncomingMessage::Tagged {
        msg_type: "set_loadout".to_string(),
        loadouts: None,
        loadout: None,
        single_data: Some(LoadoutCandidates { whole: Some(loadout(9, "z")), nested: None, legacy: None }),
        list_data: None,
    };
    match route_message(Ok(msg)) {
        Route::ApplyOne(l) => assert_eq!(l.avatar_id, 9),
        other => panic!("unexpected {other:?}"),
    }
    assert_eq!(error_text(route_message(Ok(tagged("set_loadouts")))), "Missing loadouts");
    assert_eq!(error_text(route_message(Ok(tagged("set_loadout")))), "Missing loadout");
    assert_eq!(error_text(route_message(Ok(tagged("ping")))), "Unsupported message type: ping");
}

#[test]
fn routes_unreadable_requests() {
    assert_eq!(
        error_text(route_message(Err("expected value at line 1".to_string()))),
        "Invalid message: expected value at line 1"
    );
}

#[test]
fn equip_selection_skips_empty_and_worn() {
    let lookups = vec![
        RelicLookup { is_null: false, belong_avatar: Some(0) },
        RelicLookup { is_null: true, belong_avatar: Some(0) },
        RelicLookup { is_null: false, belong_avatar: Some(1205) },
        RelicLookup { is_null: false, belong_avatar: Some(1006) },
        RelicLookup { is_null: false, belong_avatar: None },
    ];
    assert_eq!(select_relics_to_equip(1205, &lookups), vec![0, 3, 4]);
    assert!(select_relics_to_equip(1, &Vec::new()).is_empty());
}
