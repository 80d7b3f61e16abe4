use fs_debounce::cache::FileIdCache;
use fs_debounce::debouncer::{Config, DebounceDataInner, DEFAULT_TIMEOUT};
use fs_debounce::event::{
    AccessKind, CreateKind, DataChange, DebouncedEvent, Error, ErrorKind, Event, EventKind, Flag,
    MetadataKind, ModifyKind, RemoveKind, RenameMode,
};
use fs_debounce::file_id::FileId;
use fs_debounce::path_map::PathMap;
use fs_debounce::sort::{insert_by_deadline, sort_events};
use fs_debounce::testing::TestCache;

fn ids(pairs: &[(&str, u64)]) -> PathMap<FileId> {
    let mut map = PathMap::new();
    for (path, id) in pairs {
        map.insert(path.to_string(), FileId::new_inode(*id, *id));
    }
    map
}

fn debouncer(timeout: u64) -> DebounceDataInner<TestCache> {
    DebounceDataInner::new(TestCache::new(PathMap::new(), PathMap::new()), timeout, true)
}

fn event(kind: EventKind, path: &str) -> Event {
    Event::new(kind).add_path(path.to_string())
}

fn modify(path: &str) -> Event {
    event(EventKind::Modify(ModifyKind::Data(DataChange::Content)), path)
}

fn metadata(path: &str) -> Event {
    event(EventKind::Modify(ModifyKind::Metadata(MetadataKind::WriteTime)), path)
}

fn rescan() -> Event {
    event(EventKind::Other, "/").set_flag(Flag::Rescan)
}

#[test]
fn new_debouncer_is_empty() {
    let mut data = debouncer(DEFAULT_TIMEOUT);
    assert_eq!(DEFAULT_TIMEOUT, 50);
    assert_eq!(data.timeout, 50);
    assert!(data.merge_renames);
    assert!(data.queues.is_empty());
    assert!(data.rename_event.is_none());
    assert!(data.rescan_event.is_none());
    let (events, errors) = data.flush(1_000);
    assert!(events.is_empty());
    assert!(errors.is_empty());
}

#[test]
fn flush_twice_gives_nothing_the_second_time() {
    let mut data = debouncer(50);
    data.enqueue(modify("/a"), 0);
    data.enqueue(modify("/b"), 30);
    data.enqueue_error(Error::new(ErrorKind::WatchNotFound));
    let (events, errors) = data.flush(60);
    assert_eq!(events.len(), 1);
    assert_eq!(errors.len(), 1);
    let (events, errors) = data.flush(60);
    assert_eq!(events, Vec::<DebouncedEvent>::new());
    assert_eq!(errors, Vec::<Error>::new());
    assert_eq!(data.queues.len(), 1);
}

#[test]
fn zero_timeout_flushes_on_the_next_tick() {
    let mut data = debouncer(0);
    data.enqueue(modify("/a"), 7);
    data.enqueue(event(EventKind::Create(CreateKind::Folder), "/d"), 7);
    let (events, _) = data.flush(7);
    assert_eq!(
        events,
        vec![
            DebouncedEvent::new(modify("/a"), 7),
            DebouncedEvent::new(event(EventKind::Create(CreateKind::Folder), "/d"), 7)
        ]
    );
    assert!(data.queues.is_empty());
}

#[test]
fn deadline_is_reached_inclusively() {
    let mut data = debouncer(50);
    data.enqueue(modify("/a"), 10);
    assert!(data.flush(59).0.is_empty());
    assert_eq!(data.flush(60).0, vec![DebouncedEvent::new(modify("/a"), 60)]);
    assert!(data.queues.is_empty());
}

#[test]
fn queue_drains_its_due_front_and_keeps_the_rest() {
    let mut data = debouncer(50);
    data.enqueue(modify("/a"), 0);
    data.enqueue(metadata("/a"), 20);
    let (events, _) = data.flush(50);
    assert_eq!(events, vec![DebouncedEvent::new(modify("/a"), 50)]);
    assert_eq!(data.queues.len(), 1);
    let (events, _) = data.flush(70);
    assert_eq!(events, vec![DebouncedEvent::new(metadata("/a"), 70)]);
    assert!(data.queues.is_empty());
}

#[test]
fn set_timeout_applies_to_new_deadlines_only() {
    let mut data = debouncer(50);
    data.enqueue(modify("/a"), 0);
    data.set_timeout(10);
    assert_eq!(data.timeout, 10);
    data.enqueue(modify("/b"), 5);
    let (events, _) = data.flush(15);
    assert_eq!(events, vec![DebouncedEvent::new(modify("/b"), 15)]);
    let (events, _) = data.flush(50);
    assert_eq!(events, vec![DebouncedEvent::new(modify("/a"), 50)]);
}

#[test]
fn equal_deadlines_keep_the_order_of_the_queues() {
    let mut data = debouncer(50);
    data.enqueue(modify("/b"), 0);
    data.enqueue(modify("/a"), 0);
    data.enqueue(metadata("/b"), 0);
    data.enqueue(modify("/c"), 0);
    let (events, _) = data.flush(50);
    assert_eq!(
        events,
        vec![
            DebouncedEvent::new(modify("/b"), 50),
            DebouncedEvent::new(metadata("/b"), 50),
            DebouncedEvent::new(modify("/a"), 50),
            DebouncedEvent::new(modify("/c"), 50)
        ]
    );
}

#[test]
fn batch_is_sorted_across_paths() {
    let mut data = debouncer(50);
    data.enqueue(modify("/late"), 30);
    data.set_timeout(5);
    data.enqueue(modify("/early"), 31);
    let (events, _) = data.flush(100);
    assert_eq!(
        events,
        vec![DebouncedEvent::new(modify("/early"), 36), DebouncedEvent::new(modify("/late"), 80)]
    );
}

#[test]
fn errors_come_with_the_next_flush_in_order() {
    let mut data = debouncer(50);
    let first = Error::new(ErrorKind::PathNotFound).add_path("/gone".to_string());
    let second = Error::new(ErrorKind::MaxFilesWatch);
    let third = Error::new(ErrorKind::Other).add_path("/x".to_string()).add_path("/y".to_string());
    data.enqueue_error(first.clone());
    data.enqueue_error(second.clone());
    data.enqueue_error(third.clone());
    data.enqueue(rescan(), 0);
    let (events, errors) = data.flush(10);
    assert!(events.is_empty());
    assert_eq!(errors, vec![first, second, third]);
    assert!(data.flush(10).1.is_empty());
}

#[test]
fn rescan_holds_everything_back_until_its_deadline() {
    let mut data = debouncer(50);
    data.enqueue(modify("/a"), 0);
    data.enqueue(rescan(), 10);
    assert!(data.flush(50).0.is_empty());
    assert!(data.flush(59).0.is_empty());
    assert_eq!(data.queues.len(), 1);
    let (events, _) = data.flush(60);
    assert_eq!(
        events,
        vec![DebouncedEvent::new(rescan(), 60), DebouncedEvent::new(modify("/a"), 50)]
    );
    assert!(data.rescan_event.is_none());
    assert!(data.queues.is_empty());
}

#[test]
fn newer_rescan_overwrites_older_and_keeps_later_deadline() {
    let mut data = debouncer(50);
    data.enqueue(rescan().set_tracker(1), 10);
    data.set_timeout(5);
    data.enqueue(rescan().set_tracker(2), 20);
    assert_eq!(data.rescan_event, Some(DebouncedEvent::new(rescan().set_tracker(2), 60)));
    data.set_timeout(100);
    data.enqueue(rescan().set_tracker(3), 30);
    assert_eq!(data.rescan_event, Some(DebouncedEvent::new(rescan().set_tracker(3), 130)));
}

#[test]
fn rescan_without_path_is_taken() {
    let mut data = debouncer(50);
    let bare = Event::new(EventKind::Other).set_flag(Flag::Rescan);
    data.enqueue(bare.clone(), 0);
    assert_eq!(data.flush(50).0, vec![DebouncedEvent::new(bare, 50)]);
}

#[test]
fn rescan_rebuilds_the_cache_when_it_comes_and_when_it_leaves() {
    let disk = ids(&[("/a", 1)]);
    let mut data = DebounceDataInner::new(TestCache::new(PathMap::new(), disk), 50, true);
    data.enqueue(rescan(), 0);
    assert_eq!(data.cache.cached_file_id("/a"), Some(&FileId::new_inode(1, 1)));
    data.cache.file_system.insert("/b".to_string(), FileId::new_inode(2, 2));
    assert_eq!(data.cache.cached_file_id("/b"), None);
    let (events, _) = data.flush(50);
    assert_eq!(events.len(), 1);
    assert_eq!(data.cache.cached_file_id("/b"), Some(&FileId::new_inode(2, 2)));
}

#[test]
fn draining_rescan_flushes_a_waiting_rename_half() {
    let mut data = debouncer(50);
    data.enqueue(rescan(), 0);
    let half = event(EventKind::Modify(ModifyKind::Name(RenameMode::From)), "/x");
    data.enqueue(half.clone(), 20);
    assert!(data.rename_event.is_some());
    let (events, _) = data.flush(50);
    assert_eq!(events, vec![DebouncedEvent::new(rescan(), 50)]);
    assert!(data.rename_event.is_none());
    assert_eq!(data.flush(70).0, vec![DebouncedEvent::new(half, 70)]);
}

#[test]
fn all_pending_is_out_by_latest_arrival_plus_timeout() {
    let mut data = debouncer(50);
    data.enqueue(event(EventKind::Access(AccessKind::Read), "/a"), 0);
    data.enqueue(modify("/a"), 3);
    data.enqueue(event(EventKind::Remove(RemoveKind::Any), "/b"), 9);
    data.enqueue(rescan(), 12);
    data.enqueue(event(EventKind::Modify(ModifyKind::Name(RenameMode::To)), "/c"), 40);
    let (events, _) = data.flush(90);
    assert_eq!(events.len(), 5);
    assert!(data.queues.is_empty());
    assert!(data.rename_event.is_none());
    assert!(data.rescan_event.is_none());
}

#[test]
fn sort_is_stable() {
    let tagged = |n: usize, time: u64| DebouncedEvent::new(modify("/p").set_tracker(n), time);
    let sorted = sort_events(vec![tagged(0, 30), tagged(1, 10), tagged(2, 30), tagged(3, 10)]);
    assert_eq!(sorted, vec![tagged(1, 10), tagged(3, 10), tagged(0, 30), tagged(2, 30)]);
    assert_eq!(sort_events(Vec::new()), Vec::<DebouncedEvent>::new());
}

#[test]
fn insert_goes_behind_the_last_that_is_not_later() {
    let tagged = |n: usize, time: u64| DebouncedEvent::new(modify("/p").set_tracker(n), time);
    let mut sorted = vec![tagged(0, 10), tagged(1, 20), tagged(2, 20), tagged(3, 30)];
    insert_by_deadline(&mut sorted, tagged(9, 20));
    assert_eq!(
        sorted,
        vec![tagged(0, 10), tagged(1, 20), tagged(2, 20), tagged(9, 20), tagged(3, 30)]
    );
    insert_by_deadline(&mut sorted, tagged(8, 40));
    assert_eq!(sorted.last(), Some(&tagged(8, 40)));
    insert_by_deadline(&mut sorted, tagged(7, 5));
    assert_eq!(sorted.first(), Some(&tagged(7, 5)));
    let mut empty = Vec::new();
    insert_by_deadline(&mut empty, tagged(1, 1));
    assert_eq!(empty, vec![tagged(1, 1)]);
}

#[test]
fn default_settings() {
    let config = Config::default();
    assert_eq!(config, Config { timeout: 50, merge_renames: true });
    let data = DebounceDataInner::with_config(TestCache::new(ids(&[]), ids(&[])), config);
    assert_eq!(data.timeout, 50);
    assert!(data.merge_renames);
    let off = Config { timeout: 7, merge_renames: false };
    let data = DebounceDataInner::with_config(TestCache::new(ids(&[]), ids(&[])), off);
    assert_eq!(data.timeout, 7);
    assert!(!data.merge_renames);
}
