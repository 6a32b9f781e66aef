use fas_rs::config::Config;
use fas_rs::game_list::GameList;
use fas_rs::updater::{apply, next_step, source_unchanged, SourceEvent, UpdaterAction, UpdaterState};

fn list_of(pairs: &[(&str, u32)]) -> GameList {
    let mut list = GameList::new();
    for (k, v) in pairs {
        list.insert(k.to_string(), *v);
    }
    list
}

fn contents(list: &GameList) -> Vec<(String, u32)> {
    let mut v: Vec<(String, u32)> = (0..list.len()).map(|i| list.entry(i)).collect();
    v.sort();
    v
}

#[test]
fn new_list_is_empty() {
    let list = GameList::new();
    assert!(list.is_empty());
    assert_eq!(list.len(), 0);
    assert_eq!(list.get(&"a".to_string()), None);
}

#[test]
fn insert_overrides_same_key() {
    let list = list_of(&[("a", 30), ("b", 60), ("a", 90)]);
    assert_eq!(list.len(), 2);
    assert_eq!(list.get(&"a".to_string()), Some(90));
    assert_eq!(list.get(&"b".to_string()), Some(60));
    assert!(list.contains_key(&"b".to_string()));
    assert!(!list.contains_key(&"c".to_string()));
}

#[test]
fn publish_then_snapshot_round_trips() {
    let m = list_of(&[("com.a", 60), ("com.b", 120)]);
    let mut store = list_of(&[("com.old", 30)]);
    store.replace_all(m.snapshot());
    assert_eq!(contents(&store.snapshot()), contents(&m));

    let mut config = Config::new();
    config.replace_all(m.snapshot());
    assert_eq!(contents(&config.read_snapshot()), contents(&m));
}

#[test]
fn config_starts_empty_and_unpaused() {
    let config = Config::new();
    assert!(config.read_snapshot().is_empty());
    assert!(!config.is_paused());
}

#[test]
fn pause_can_be_set_repeatedly_and_cleared() {
    let mut config = Config::new();
    config.replace_all(list_of(&[("g", 60)]));
    config.set_paused(true);
    config.set_paused(true);
    assert!(config.is_paused());
    config.set_paused(false);
    assert!(!config.is_paused());
    config.shutdown();
    assert!(config.is_paused());
    assert_eq!(contents(&config.read_snapshot()), vec![("g".to_string(), 60)]);
}

#[test]
fn perform_publishes_whole_mapping() {
    let mut config = Config::new();
    config.perform(UpdaterAction::Publish(list_of(&[("g", 45)])));
    assert_eq!(contents(&config.read_snapshot()), vec![("g".to_string(), 45)]);
    config.perform(UpdaterAction::Sleep);
    assert_eq!(contents(&config.read_snapshot()), vec![("g".to_string(), 45)]);
}

#[test]
fn advance_keeps_last_good_and_idles_when_paused() {
    let mut config = Config::new();
    let (state, read) = config.advance(UpdaterState::WaitingForSource, SourceEvent::Tick);
    assert!(read);
    let (state, read) = config.advance(state, SourceEvent::Parsed(list_of(&[("g", 60)])));
    assert!(!read);
    assert_eq!(state, UpdaterState::Watching);
    let (state, _) = config.advance(state, SourceEvent::Malformed);
    assert_eq!(state, UpdaterState::WaitingForSource);
    assert_eq!(contents(&config.read_snapshot()), vec![("g".to_string(), 60)]);
    config.shutdown();
    let (state, read) = config.advance(state, SourceEvent::Parsed(list_of(&[("h", 30)])));
    assert_eq!(state, UpdaterState::Paused);
    assert!(!read);
    let (state, read) = config.advance(state, SourceEvent::Tick);
    assert_eq!(state, UpdaterState::Paused);
    assert!(!read);
    assert_eq!(contents(&config.read_snapshot()), vec![("g".to_string(), 60)]);
}

#[test]
fn unchanged_only_with_equal_known_stamps() {
    assert!(source_unchanged(Some(5), Some(5)));
    assert!(!source_unchanged(Some(5), Some(6)));
    assert!(!source_unchanged(None, None));
    assert!(!source_unchanged(Some(5), None));
}

#[test]
fn parse_failure_keeps_last_good() {
    let mut store = GameList::new();
    let (state, action) = next_step(
        UpdaterState::WaitingForSource,
        false,
        SourceEvent::Parsed(list_of(&[("g", 60)])),
    );
    assert_eq!(state, UpdaterState::Watching);
    apply(&mut store, action);
    let (state, action) = next_step(state, false, SourceEvent::Malformed);
    assert_eq!(state, UpdaterState::WaitingForSource);
    assert!(matches!(action, UpdaterAction::Sleep));
    apply(&mut store, action);
    let (_, action) = next_step(state, false, SourceEvent::Unavailable);
    apply(&mut store, action);
    assert_eq!(contents(&store), vec![("g".to_string(), 60)]);
}

#[test]
fn paused_updater_stays_idle() {
    let mut store = list_of(&[("g", 60)]);
    let mut state = UpdaterState::Watching;
    for event in [
        SourceEvent::Parsed(list_of(&[("h", 30)])),
        SourceEvent::Tick,
        SourceEvent::Parsed(list_of(&[("i", 90)])),
    ] {
        let (next, action) = next_step(state, true, event);
        assert_eq!(next, UpdaterState::Paused);
        assert!(matches!(action, UpdaterAction::Sleep));
        apply(&mut store, action);
        state = next;
    }
    assert_eq!(contents(&store), vec![("g".to_string(), 60)]);
    let (next, action) = next_step(state, false, SourceEvent::Tick);
    assert_eq!(next, UpdaterState::WaitingForSource);
    assert!(matches!(action, UpdaterAction::ReadSource));
}

#[test]
fn successive_publishes_replace_whole_mapping() {
    let mut store = GameList::new();
    let (state, action) = next_step(
        UpdaterState::WaitingForSource,
        false,
        SourceEvent::Parsed(list_of(&[("a", 1), ("b", 2)])),
    );
    apply(&mut store, action);
    assert_eq!(contents(&store), vec![("a".to_string(), 1), ("b".to_string(), 2)]);
    let (state, action) = next_step(state, false, SourceEvent::Parsed(list_of(&[("c", 3)])));
    apply(&mut store, action);
    assert_eq!(state, UpdaterState::Watching);
    assert_eq!(contents(&store), vec![("c".to_string(), 3)]);
}

#[test]
fn tick_asks_for_a_read_and_unchanged_sleeps() {
    let (state, action) = next_step(UpdaterState::Watching, false, SourceEvent::Tick);
    assert_eq!(state, UpdaterState::Watching);
    assert!(matches!(action, UpdaterAction::ReadSource));
    let (state, action) = next_step(state, false, SourceEvent::Unchanged);
    assert_eq!(state, UpdaterState::Watching);
    assert!(matches!(action, UpdaterAction::Sleep));
}
