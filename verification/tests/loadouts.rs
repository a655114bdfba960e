use orexis::loadouts::{
    handle_apply_loadout, handle_apply_loadouts, set_loadouts, CharacterLoadout, LoadoutStore,
    OutgoingMessage,
};

fn loadout(avatar_id: u32, name: &str, uids: &[u32]) -> CharacterLoadout {
    CharacterLoadout { avatar_id, name: name.to_string(), relic_uids: uids.to_vec() }
}

fn summary(store: &LoadoutStore) -> Vec<(u32, String, Vec<u32>)> {
    store
        .loadouts()
        .unwrap()
        .iter()
        .map(|l| (l.avatar_id, l.name.clone(), l.relic_uids.clone()))
        .collect()
}

#[test]
fn store_starts_empty() {
    assert!(LoadoutStore::new().loadouts().is_none());
}

#[test]
fn first_batch_is_stored_as_is() {
    let mut store = LoadoutStore::new();
    set_loadouts(&mut store, vec![loadout(1, "a", &[1]), loadout(1, "a", &[2])]);
    assert_eq!(summary(&store), vec![(1, "a".to_string(), vec![1]), (1, "a".to_string(), vec![2])]);
}

#[test]
fn later_batches_replace_same_character_and_name() {
    let mut store = LoadoutStore::new();
    set_loadouts(&mut store, vec![loadout(1, "a", &[1]), loadout(2, "b", &[2]), loadout(1, "c", &[3])]);
    set_loadouts(&mut store, vec![loadout(1, "a", &[9]), loadout(3, "a", &[4])]);
    assert_eq!(
        summary(&store),
        vec![
            (2, "b".to_string(), vec![2]),
            (1, "c".to_string(), vec![3]),
            (1, "a".to_string(), vec![9]),
            (3, "a".to_string(), vec![4]),
        ]
    );
    // a later batch with a repeated key keeps only its last loadout
    set_loadouts(&mut store, vec![loadout(2, "b", &[5]), loadout(2, "b", &[6])]);
    let entries = summary(&store);
    assert_eq!(entries.iter().filter(|e| e.0 == 2 && e.1 == "b").count(), 1);
    assert_eq!(entries.last().unwrap(), &(2, "b".to_string(), vec![6]));
}

#[test]
fn apply_one_reports_count_or_error() {
    let mut store = LoadoutStore::new();
    match handle_apply_loadout(&mut store, loadout(1, "x", &[7, 8]), Ok(2)) {
        OutgoingMessage::LoadoutsUpdated { count } => assert_eq!(count, 2),
        other => panic!("unexpected {other:?}"),
    }
    match handle_apply_loadout(&mut store, loadout(1, "x", &[9]), Err("no avatar".to_string())) {
        OutgoingMessage::Error { message } => assert_eq!(message, "no avatar"),
        other => panic!("unexpected {other:?}"),
    }
    assert_eq!(summary(&store), vec![(1, "x".to_string(), vec![9])]);
}

#[test]
fn apply_many_sums_counts() {
    let mut store = LoadoutStore::new();
    let reply = handle_apply_loadouts(
        &mut store,
        vec![loadout(1, "a", &[1]), loadout(2, "b", &[2, 3])],
        vec![Ok(1), Ok(2)],
    );
    match reply {
        OutgoingMessage::LoadoutsUpdated { count } => assert_eq!(count, 3),
        other => panic!("unexpected {other:?}"),
    }
    assert_eq!(summary(&store).len(), 2);
}

#[test]
fn apply_many_joins_errors() {
    let mut store = LoadoutStore::new();
    let reply = handle_apply_loadouts(
        &mut store,
        vec![loadout(1, "a", &[1]), loadout(2, "b", &[2]), loadout(3, "c", &[3])],
        vec![Err("bad uid".to_string()), Ok(1), Err("offline".to_string())],
    );
    match reply {
        OutgoingMessage::Error { message } => assert_eq!(message, "a: bad uid; c: offline"),
        other => panic!("unexpected {other:?}"),
    }
}

#[test]
fn apply_many_empty_batch() {
    let mut store = LoadoutStore::new();
    match handle_apply_loadouts(&mut store, Vec::new(), Vec::new()) {
        OutgoingMessage::LoadoutsUpdated { count } => assert_eq!(count, 0),
        other => panic!("unexpected {other:?}"),
    }
    assert!(store.loadouts().unwrap().is_empty());
}

#[test]
fn storing_a_batch_twice_is_storing_it_once() {
    let batch = || vec![loadout(1, "a", &[9]), loadout(4, "d", &[1, 2]), loadout(4, "d", &[3])];
    let mut once = LoadoutStore::new();
    set_loadouts(&mut once, vec![loadout(1, "a", &[1]), loadout(2, "b", &[2])]);
    let mut twice = LoadoutStore::new();
    set_loadouts(&mut twice, vec![loadout(1, "a", &[1]), loadout(2, "b", &[2])]);
    set_loadouts(&mut once, batch());
    set_loadouts(&mut twice, batch());
    set_loadouts(&mut twice, batch());
    assert_eq!(summary(&once), summary(&twice));
    assert_eq!(
        summary(&once),
        vec![
            (2, "b".to_string(), vec![2]),
            (1, "a".to_string(), vec![9]),
            (4, "d".to_string(), vec![3]),
        ]
    );
}
