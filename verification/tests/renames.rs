use fs_debounce::cache::FileIdCache;
use fs_debounce::debouncer::{identity_matches, is_counterpart, route, DebounceDataInner};
use fs_debounce::event::{
    CreateKind, DataChange, DebouncedEvent, Event, EventKind, Flag, ModifyKind, RenameMode,
};
use fs_debounce::file_id::FileId;
use fs_debounce::model::Route;
use fs_debounce::path_map::PathMap;
use fs_debounce::testing::TestCache;

fn ids(pairs: &[(&str, u64)]) -> PathMap<FileId> {
    let mut map = PathMap::new();
    for (path, id) in pairs {
        map.insert(path.to_string(), FileId::new_inode(*id, *id));
    }
    map
}

fn debouncer(
    cache: &[(&str, u64)],
    disk: &[(&str, u64)],
    merge_renames: bool,
) -> DebounceDataInner<TestCache> {
    DebounceDataInner::new(TestCache::new(ids(cache), ids(disk)), 50, merge_renames)
}

fn rename(mode: RenameMode, path: &str) -> Event {
    Event::new(EventKind::Modify(ModifyKind::Name(mode))).add_path(path.to_string())
}

fn modify(path: &str) -> Event {
    Event::new(EventKind::Modify(ModifyKind::Data(DataChange::Content))).add_path(path.to_string())
}

fn id(n: u64) -> FileId {
    FileId::new_inode(n, n)
}

#[test]
fn routes() {
    assert_eq!(route(&rename(RenameMode::From, "/a"), true), Route::RenameFrom);
    assert_eq!(route(&rename(RenameMode::To, "/a"), true), Route::RenameTo);
    assert_eq!(route(&rename(RenameMode::Both, "/a"), true), Route::RenameBoth);
    assert_eq!(route(&rename(RenameMode::Any, "/a"), true), Route::Plain);
    assert_eq!(route(&rename(RenameMode::Other, "/a"), true), Route::Plain);
    assert_eq!(route(&rename(RenameMode::From, "/a"), false), Route::Plain);
    assert_eq!(route(&modify("/a"), true), Route::Plain);
    assert_eq!(route(&rename(RenameMode::From, "/a").set_flag(Flag::Rescan), true), Route::Rescan);
    assert_eq!(route(&modify("/a").set_flag(Flag::Rescan), false), Route::Rescan);
}

#[test]
fn counterparts_and_identities() {
    let from = EventKind::Modify(ModifyKind::Name(RenameMode::From));
    let to = EventKind::Modify(ModifyKind::Name(RenameMode::To));
    let both = EventKind::Modify(ModifyKind::Name(RenameMode::Both));
    assert!(is_counterpart(from, to));
    assert!(is_counterpart(to, from));
    assert!(!is_counterpart(from, from));
    assert!(!is_counterpart(to, to));
    assert!(!is_counterpart(from, both));
    assert!(!is_counterpart(EventKind::Create(CreateKind::Any), to));
    assert!(identity_matches(None, None));
    assert!(identity_matches(None, Some(id(1))));
    assert!(identity_matches(Some(id(1)), Some(id(1))));
    assert!(!identity_matches(Some(id(1)), Some(id(2))));
    assert!(!identity_matches(Some(id(1)), None));
}

#[test]
fn from_waits_with_the_cached_identity() {
    let mut data = debouncer(&[("/x", 7)], &[], true);
    data.enqueue(rename(RenameMode::From, "/x"), 3);
    let (half, stored) = data.rename_event.clone().unwrap();
    assert_eq!(half, DebouncedEvent::new(rename(RenameMode::From, "/x"), 53));
    assert_eq!(stored, Some(id(7)));
    assert!(data.queues.is_empty());
    assert_eq!(data.cache.cached_file_id("/x"), Some(&id(7)));
}

#[test]
fn to_waits_with_the_identity_on_disk() {
    let mut data = debouncer(&[], &[("/y", 9)], true);
    data.enqueue(rename(RenameMode::To, "/y"), 3);
    let (half, stored) = data.rename_event.clone().unwrap();
    assert_eq!(half, DebouncedEvent::new(rename(RenameMode::To, "/y"), 53));
    assert_eq!(stored, Some(id(9)));
    assert_eq!(data.cache.cached_file_id("/y"), Some(&id(9)));
}

#[test]
fn from_without_identity_matches_any_to() {
    let mut data = debouncer(&[], &[("/y", 9)], true);
    data.enqueue(rename(RenameMode::From, "/x"), 0);
    data.enqueue(rename(RenameMode::To, "/y"), 5);
    assert!(data.rename_event.is_none());
    let (events, _) = data.flush(55);
    let both = rename(RenameMode::Both, "/x").add_path("/y".to_string());
    assert_eq!(events, vec![DebouncedEvent::new(both, 55)]);
    assert_eq!(data.cache.cached_file_id("/y"), Some(&id(9)));
}

#[test]
fn mismatched_to_flushes_from_and_waits_itself() {
    let mut data = debouncer(&[("/x", 7)], &[("/y", 8)], true);
    data.enqueue(rename(RenameMode::From, "/x"), 0);
    data.enqueue(rename(RenameMode::To, "/y"), 5);
    let (half, stored) = data.rename_event.clone().unwrap();
    assert_eq!(half, DebouncedEvent::new(rename(RenameMode::To, "/y"), 55));
    assert_eq!(stored, Some(id(8)));
    assert_eq!(data.cache.cached_file_id("/x"), Some(&id(7)));
    let (events, _) = data.flush(50);
    assert_eq!(events, vec![DebouncedEvent::new(rename(RenameMode::From, "/x"), 50)]);
    let (events, _) = data.flush(55);
    assert_eq!(events, vec![DebouncedEvent::new(rename(RenameMode::To, "/y"), 55)]);
}

#[test]
fn to_then_from_pair_up() {
    let mut data = debouncer(&[("/x", 7)], &[("/y", 7)], true);
    data.enqueue(rename(RenameMode::To, "/y"), 0);
    data.enqueue(rename(RenameMode::From, "/x").set_tracker(4), 5);
    assert!(data.rename_event.is_none());
    let (events, _) = data.flush(55);
    let both = rename(RenameMode::Both, "/x").add_path("/y".to_string()).set_tracker(4);
    assert_eq!(events, vec![DebouncedEvent::new(both, 55)]);
    assert_eq!(data.cache.cached_file_id("/x"), None);
    assert_eq!(data.cache.cached_file_id("/y"), Some(&id(7)));
}

#[test]
fn another_event_flushes_the_waiting_half() {
    let mut data = debouncer(&[], &[], true);
    data.enqueue(rename(RenameMode::From, "/x"), 0);
    data.enqueue(modify("/other"), 10);
    assert!(data.rename_event.is_none());
    assert_eq!(data.queues.len(), 2);
    let (events, _) = data.flush(60);
    assert_eq!(
        events,
        vec![
            DebouncedEvent::new(rename(RenameMode::From, "/x"), 50),
            DebouncedEvent::new(modify("/other"), 60)
        ]
    );
}

#[test]
fn second_from_flushes_the_first() {
    let mut data = debouncer(&[], &[], true);
    data.enqueue(rename(RenameMode::From, "/x"), 0);
    data.enqueue(rename(RenameMode::From, "/z"), 10);
    let (half, _) = data.rename_event.clone().unwrap();
    assert_eq!(half, DebouncedEvent::new(rename(RenameMode::From, "/z"), 60));
    assert_eq!(data.flush(50).0, vec![DebouncedEvent::new(rename(RenameMode::From, "/x"), 50)]);
}

#[test]
fn waiting_to_is_flushed_at_its_deadline() {
    let mut data = debouncer(&[], &[], true);
    data.enqueue(rename(RenameMode::To, "/y"), 0);
    assert_eq!(data.flush(49).0, Vec::<DebouncedEvent>::new());
    assert!(data.rename_event.is_some());
    assert_eq!(data.flush(50).0, vec![DebouncedEvent::new(rename(RenameMode::To, "/y"), 50)]);
    assert!(data.rename_event.is_none());
}

#[test]
fn both_is_queued_under_the_source_and_moves_the_entry() {
    let mut data = debouncer(&[("/x", 7), ("/x/child", 8)], &[("/y", 7)], true);
    let both = rename(RenameMode::Both, "/x").add_path("/y".to_string());
    data.enqueue(both.clone(), 0);
    assert!(data.queues.get("/x").is_some());
    assert!(data.queues.get("/y").is_none());
    assert_eq!(data.cache.cached_file_id("/x"), None);
    assert_eq!(data.cache.cached_file_id("/x/child"), Some(&id(8)));
    assert_eq!(data.cache.cached_file_id("/y"), Some(&id(7)));
    assert_eq!(data.flush(50).0, vec![DebouncedEvent::new(both, 50)]);
}

#[test]
fn without_merging_halves_are_delivered_as_they_are() {
    let mut data = debouncer(&[("/x", 7)], &[("/y", 7)], false);
    data.enqueue(rename(RenameMode::From, "/x"), 0);
    data.enqueue(rename(RenameMode::To, "/y"), 5);
    assert!(data.rename_event.is_none());
    assert_eq!(data.cache.cached_file_id("/x"), Some(&id(7)));
    assert_eq!(data.cache.cached_file_id("/y"), None);
    let (events, _) = data.flush(55);
    assert_eq!(
        events,
        vec![
            DebouncedEvent::new(rename(RenameMode::From, "/x"), 50),
            DebouncedEvent::new(rename(RenameMode::To, "/y"), 55)
        ]
    );
}

#[test]
fn rename_comes_before_later_events_of_either_path() {
    let mut data = debouncer(&[("/x", 7)], &[("/y", 7)], true);
    data.enqueue(rename(RenameMode::From, "/x"), 0);
    data.enqueue(rename(RenameMode::To, "/y"), 5);
    data.enqueue(modify("/y"), 5);
    data.enqueue(modify("/x"), 6);
    let (events, _) = data.flush(100);
    let both = rename(RenameMode::Both, "/x").add_path("/y".to_string());
    assert_eq!(
        events,
        vec![
            DebouncedEvent::new(both, 55),
            DebouncedEvent::new(modify("/y"), 55),
            DebouncedEvent::new(modify("/x"), 56)
        ]
    );
}
