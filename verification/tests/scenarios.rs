use fs_debounce::cache::FileIdCache;
use fs_debounce::debouncer::DebounceDataInner;
use fs_debounce::event::{
    CreateKind, DataChange, DebouncedEvent, Event, EventKind, Flag, ModifyKind, RemoveKind,
    RenameMode,
};
use fs_debounce::file_id::FileId;
use fs_debounce::path_map::PathMap;
use fs_debounce::testing::TestCache;

fn ids(pairs: &[(&str, u64)]) -> PathMap<FileId> {
    let mut map = PathMap::new();
    for (path, id) in pairs {
        map.insert(path.to_string(), FileId::new_inode(*id, *id));
    }
    map
}

fn debouncer(cache: &[(&str, u64)], disk: &[(&str, u64)]) -> DebounceDataInner<TestCache> {
    DebounceDataInner::new(TestCache::new(ids(cache), ids(disk)), 50, true)
}

fn event(kind: EventKind, path: &str) -> Event {
    Event::new(kind).add_path(path.to_string())
}

fn modify_size(path: &str) -> Event {
    event(EventKind::Modify(ModifyKind::Data(DataChange::Size)), path)
}

fn modify_content(path: &str) -> Event {
    event(EventKind::Modify(ModifyKind::Data(DataChange::Content)), path)
}

fn rename(mode: RenameMode, path: &str) -> Event {
    event(EventKind::Modify(ModifyKind::Name(mode)), path)
}

#[test]
fn create_then_remove_cancel() {
    let mut data = debouncer(&[], &[("/a", 1)]);
    data.enqueue(event(EventKind::Create(CreateKind::File), "/a"), 0);
    assert_eq!(data.cache.cached_file_id("/a"), Some(&FileId::new_inode(1, 1)));
    data.enqueue(event(EventKind::Remove(RemoveKind::File), "/a"), 10);
    let (events, errors) = data.flush(60);
    assert_eq!(events, Vec::<DebouncedEvent>::new());
    assert!(errors.is_empty());
    assert_eq!(data.cache.cached_file_id("/a"), None);
    assert!(data.queues.is_empty());
}

#[test]
fn modify_coalesce() {
    let mut data = debouncer(&[], &[]);
    data.enqueue(modify_size("/b"), 0);
    data.enqueue(modify_size("/b"), 10);
    data.enqueue(modify_size("/b"), 20);
    assert_eq!(data.flush(69).0, Vec::<DebouncedEvent>::new());
    let (events, _) = data.flush(70);
    assert_eq!(events, vec![DebouncedEvent::new(modify_size("/b"), 70)]);
    assert!(data.queues.is_empty());
}

#[test]
fn rename_pair_matched() {
    let mut data = debouncer(&[("/x", 7)], &[("/y", 7)]);
    data.enqueue(rename(RenameMode::From, "/x"), 0);
    assert!(data.rename_event.is_some());
    data.enqueue(rename(RenameMode::To, "/y"), 5);
    assert!(data.rename_event.is_none());
    let (events, _) = data.flush(55);
    let both = rename(RenameMode::Both, "/x").add_path("/y".to_string());
    assert_eq!(events, vec![DebouncedEvent::new(both, 55)]);
    assert_eq!(data.cache.cached_file_id("/x"), None);
    assert_eq!(data.cache.cached_file_id("/y"), Some(&FileId::new_inode(7, 7)));
    assert_eq!(data.cache.paths.len(), 1);
}

#[test]
fn rename_half_orphaned() {
    let mut data = debouncer(&[], &[]);
    data.enqueue(rename(RenameMode::From, "/x"), 0);
    assert_eq!(data.flush(49).0, Vec::<DebouncedEvent>::new());
    let (events, _) = data.flush(60);
    assert_eq!(events, vec![DebouncedEvent::new(rename(RenameMode::From, "/x"), 50)]);
    assert!(data.rename_event.is_none());
}

#[test]
fn rescan_dominance() {
    let mut data = debouncer(&[("/gone", 3)], &[("/a", 1), ("/dir/b", 2)]);
    data.enqueue(modify_size("/a"), 0);
    let rescan = event(EventKind::Other, "/").set_flag(Flag::Rescan);
    data.enqueue(rescan.clone(), 10);
    assert_eq!(data.cache.cached_file_id("/a"), Some(&FileId::new_inode(1, 1)));
    assert_eq!(data.cache.cached_file_id("/dir/b"), Some(&FileId::new_inode(2, 2)));
    assert_eq!(data.flush(55).0, Vec::<DebouncedEvent>::new());
    let (events, _) = data.flush(70);
    assert_eq!(
        events,
        vec![DebouncedEvent::new(rescan, 60), DebouncedEvent::new(modify_size("/a"), 50)]
    );
    assert!(data.rescan_event.is_none());
    assert_eq!(data.cache.cached_file_id("/a"), Some(&FileId::new_inode(1, 1)));
    assert_eq!(data.cache.cached_file_id("/dir/b"), Some(&FileId::new_inode(2, 2)));
    assert_eq!(data.cache.cached_file_id("/gone"), None);
    assert_eq!(data.cache.paths.len(), 2);
}

#[test]
fn cross_path_ordering() {
    let mut data = debouncer(&[], &[]);
    data.enqueue(modify_content("/a"), 0);
    data.enqueue(modify_content("/b"), 20);
    let (events, _) = data.flush(80);
    assert_eq!(
        events,
        vec![
            DebouncedEvent::new(modify_content("/a"), 50),
            DebouncedEvent::new(modify_content("/b"), 70)
        ]
    );
}
