use grey_engine::assets::{AssetHandle, AssetManager, AssetState, LoadTicket};
use grey_engine::time::Time;

#[test]
fn new_manager_knows_nothing() {
    let assets = AssetManager::new();
    assert!(assets.state(AssetHandle(0)).is_none());
    assert!(!assets.is_loaded(AssetHandle(0)));
    assert!(assets.get_bytes(AssetHandle(0)).is_none());
    assert_eq!(assets.find(&"a.png".to_string()), None);
    assert!(assets.can_register());
}

#[test]
fn a_new_path_gets_the_next_handle_and_is_loading() {
    let mut assets = AssetManager::new();
    let first = assets.begin_load("a.png".to_string());
    assert_eq!(first, LoadTicket { handle: AssetHandle(0), needs_read: true });
    assert!(matches!(assets.state(first.handle), Some(AssetState::Loading)));
    assert!(!assets.is_loaded(first.handle));
    assert!(assets.get_bytes(first.handle).is_none());
    let second = assets.begin_load("b.png".to_string());
    assert_eq!(second, LoadTicket { handle: AssetHandle(1), needs_read: true });
    assert_eq!(assets.find(&"b.png".to_string()), Some(AssetHandle(1)));
}

#[test]
fn a_known_path_keeps_its_handle() {
    let mut assets = AssetManager::new();
    let first = assets.begin_load("a.png".to_string());
    assets.finish_load(first.handle, Ok(vec![1, 2, 3]));
    let again = assets.begin_load("a.png".to_string());
    assert_eq!(again, LoadTicket { handle: first.handle, needs_read: false });
    assert!(assets.is_loaded(first.handle));
    assert_eq!(assets.get_bytes(first.handle), Some(&[1u8, 2, 3][..]));
}

#[test]
fn a_finished_load_is_loaded_with_its_bytes() {
    let mut assets = AssetManager::new();
    let ticket = assets.begin_load("a.bin".to_string());
    assets.finish_load(ticket.handle, Ok(vec![9, 8]));
    assert!(matches!(assets.state(ticket.handle), Some(AssetState::Loaded)));
    assert!(assets.is_loaded(ticket.handle));
    assert_eq!(assets.get_bytes(ticket.handle), Some(&[9u8, 8][..]));
}

#[test]
fn a_failed_load_keeps_the_reason() {
    let mut assets = AssetManager::new();
    let ticket = assets.begin_load("missing.bin".to_string());
    assets.finish_load(ticket.handle, Err("not found".to_string()));
    match assets.state(ticket.handle) {
        Some(AssetState::Failed(reason)) => assert_eq!(reason, "not found"),
        _ => panic!("the load should have failed"),
    }
    assert!(!assets.is_loaded(ticket.handle));
    assert!(assets.get_bytes(ticket.handle).is_none());
}

#[test]
fn finish_load_of_an_unknown_handle_changes_nothing() {
    let mut assets = AssetManager::new();
    assets.finish_load(AssetHandle(3), Ok(vec![1]));
    assert!(assets.state(AssetHandle(3)).is_none());
    assert!(assets.get_bytes(AssetHandle(3)).is_none());
}

#[test]
fn unload_forgets_one_asset() {
    let mut assets = AssetManager::new();
    let a = assets.begin_load("a".to_string()).handle;
    let b = assets.begin_load("b".to_string()).handle;
    assets.finish_load(a, Ok(vec![1]));
    assets.finish_load(b, Ok(vec![2]));
    assets.unload(a);
    assert!(assets.state(a).is_none());
    assert!(assets.get_bytes(a).is_none());
    assert_eq!(assets.get_bytes(b), Some(&[2u8][..]));
    assert_eq!(assets.find(&"a".to_string()), None);
    let again = assets.begin_load("a".to_string());
    assert_eq!(again, LoadTicket { handle: AssetHandle(2), needs_read: true });
}

#[test]
fn clear_forgets_every_asset() {
    let mut assets = AssetManager::new();
    let a = assets.begin_load("a".to_string()).handle;
    assets.finish_load(a, Ok(vec![1]));
    assets.clear();
    assert!(assets.state(a).is_none());
    assert!(!assets.is_loaded(a));
    assert_eq!(assets.begin_load("a".to_string()).handle, AssetHandle(1));
}

#[test]
fn time_starts_at_zero() {
    let time = Time::new();
    assert_eq!(time.frame_count(), 0);
    assert_eq!(time.delta_duration(), 0);
    assert_eq!(time.total_duration(), 0);
}

#[test]
fn time_update_measures_the_frame() {
    let mut time = Time::new();
    time.update(16_000_000);
    assert_eq!(time.frame_count(), 1);
    assert_eq!(time.delta_duration(), 16_000_000);
    assert_eq!(time.total_duration(), 16_000_000);
    time.update(40_000_000);
    assert_eq!(time.frame_count(), 2);
    assert_eq!(time.delta_duration(), 24_000_000);
    assert_eq!(time.total_duration(), 40_000_000);
    time.update(40_000_000);
    assert_eq!(time.delta_duration(), 0);
    time.update(30_000_000);
    assert_eq!(time.delta_duration(), 0);
    assert_eq!(time.total_duration(), 30_000_000);
    assert_eq!(time.frame_count(), 4);
}
