use fs_debounce::cache::FileIdCache;
use fs_debounce::event::{
    AccessKind, AccessMode, CreateKind, DataChange, DebouncedEvent, ErrorKind, EventKind, Flag,
    MetadataKind, ModifyKind, RemoveKind, RenameMode,
};
use fs_debounce::file_id::FileId;
use fs_debounce::path_map::PathMap;
use fs_debounce::schema::{
    parse_error_kind, parse_event_kind, parse_flag, to_file_ids, Error, Event, Queue, State,
    TestCase,
};

fn event(kind: &str, paths: &[&str]) -> Event {
    Event {
        time: 0,
        kind: kind.to_string(),
        paths: paths.iter().map(|p| p.to_string()).collect(),
        flags: Vec::new(),
        tracker: None,
        info: None,
        file_id: None,
    }
}

fn empty_state() -> State {
    State {
        timeout: None,
        queues: PathMap::new(),
        cache: PathMap::new(),
        file_system: PathMap::new(),
        rename_event: None,
        rescan_event: None,
        events: PathMap::new(),
        errors: Vec::new(),
    }
}

#[test]
fn every_event_tag_is_read() {
    let open = |m| EventKind::Access(AccessKind::Open(m));
    let close = |m| EventKind::Access(AccessKind::Close(m));
    let meta = |m| EventKind::Modify(ModifyKind::Metadata(m));
    let data = |d| EventKind::Modify(ModifyKind::Data(d));
    let name = |r| EventKind::Modify(ModifyKind::Name(r));
    let table = vec![
        ("any", EventKind::Any),
        ("other", EventKind::Other),
        ("access-any", EventKind::Access(AccessKind::Any)),
        ("access-read", EventKind::Access(AccessKind::Read)),
        ("access-open-any", open(AccessMode::Any)),
        ("access-open-execute", open(AccessMode::Execute)),
        ("access-open-read", open(AccessMode::Read)),
        ("access-open-write", open(AccessMode::Write)),
        ("access-open-other", open(AccessMode::Other)),
        ("access-close-any", close(AccessMode::Any)),
        ("access-close-execute", close(AccessMode::Execute)),
        ("access-close-read", close(AccessMode::Read)),
        ("access-close-write", close(AccessMode::Write)),
        ("access-close-other", close(AccessMode::Other)),
        ("access-other", EventKind::Access(AccessKind::Other)),
        ("create-any", EventKind::Create(CreateKind::Any)),
        ("create-file", EventKind::Create(CreateKind::File)),
        ("create-folder", EventKind::Create(CreateKind::Folder)),
        ("create-other", EventKind::Create(CreateKind::Other)),
        ("modify-any", EventKind::Modify(ModifyKind::Any)),
        ("modify-other", EventKind::Modify(ModifyKind::Other)),
        ("modify-data-any", data(DataChange::Any)),
        ("modify-data-size", data(DataChange::Size)),
        ("modify-data-content", data(DataChange::Content)),
        ("modify-data-other", data(DataChange::Other)),
        ("modify-metadata-any", meta(MetadataKind::Any)),
        ("modify-metadata-access-time", meta(MetadataKind::AccessTime)),
        ("modify-metadata-write-time", meta(MetadataKind::WriteTime)),
        ("modify-metadata-permissions", meta(MetadataKind::Permissions)),
        ("modify-metadata-ownership", meta(MetadataKind::Ownership)),
        ("modify-metadata-extended", meta(MetadataKind::Extended)),
        ("modify-metadata-other", meta(MetadataKind::Other)),
        ("rename-any", name(RenameMode::Any)),
        ("rename-from", name(RenameMode::From)),
        ("rename-to", name(RenameMode::To)),
        ("rename-both", name(RenameMode::Both)),
        ("rename-other", name(RenameMode::Other)),
        ("remove-any", EventKind::Remove(RemoveKind::Any)),
        ("remove-file", EventKind::Remove(RemoveKind::File)),
        ("remove-folder", EventKind::Remove(RemoveKind::Folder)),
        ("remove-other", EventKind::Remove(RemoveKind::Other)),
    ];
    assert_eq!(table.len(), 41);
    for (tag, kind) in table {
        assert_eq!(parse_event_kind(tag), Some(kind), "{tag}");
    }
}

#[test]
fn unknown_tags_are_not_read() {
    assert_eq!(parse_event_kind(""), None);
    assert_eq!(parse_event_kind("Create-File"), None);
    assert_eq!(parse_event_kind("create_file"), None);
    assert_eq!(parse_event_kind("create-file "), None);
    assert_eq!(parse_event_kind("rename"), None);
    assert_eq!(parse_flag("rescan"), Some(Flag::Rescan));
    assert_eq!(parse_flag("Rescan"), None);
    assert_eq!(parse_flag(""), None);
}

#[test]
fn error_tags() {
    assert_eq!(parse_error_kind("path-not-found"), Some(ErrorKind::PathNotFound));
    assert_eq!(parse_error_kind("watch-not-found"), Some(ErrorKind::WatchNotFound));
    assert_eq!(parse_error_kind("max-files-watch"), Some(ErrorKind::MaxFilesWatch));
    assert_eq!(parse_error_kind("other"), None);
    assert_eq!(parse_error_kind("io"), None);
}

#[test]
fn error_conversion_keeps_paths() {
    let error = Error {
        kind: "max-files-watch".to_string(),
        paths: vec!["/a".to_string(), "/b".to_string()],
    };
    assert!(error.is_convertible());
    let converted = error.into_notify_error();
    assert_eq!(converted.kind, ErrorKind::MaxFilesWatch);
    assert_eq!(converted.paths, vec!["/a".to_string(), "/b".to_string()]);
    assert!(!Error { kind: "generic".to_string(), paths: Vec::new() }.is_convertible());
}

#[test]
fn event_conversion_adds_the_offset_and_replaces_the_placeholder() {
    let mut source = event("rename-both", &["*", "/target"]);
    source.time = 20;
    source.tracker = Some(3);
    source.info = Some("note".to_string());
    assert!(source.is_convertible(1_000, Some("/queue")));
    assert!(!source.is_convertible(1_000, None));
    let converted = source.into_debounced_event(1_000, Some("/queue"));
    assert_eq!(converted.time, 1_020);
    assert_eq!(converted.event.kind, EventKind::Modify(ModifyKind::Name(RenameMode::Both)));
    assert_eq!(converted.event.paths, vec!["/queue".to_string(), "/target".to_string()]);
    assert_eq!(converted.event.tracker, Some(3));
    assert_eq!(converted.event.info, Some("note".to_string()));
    assert_eq!(converted.event.flag, None);
}

#[test]
fn event_without_paths_loses_tracker_and_info() {
    let mut source = event("other", &[]);
    source.tracker = Some(3);
    source.info = Some("note".to_string());
    source.flags = vec!["rescan".to_string()];
    let converted = source.into_debounced_event(5, None);
    assert_eq!(converted.event.tracker, None);
    assert_eq!(converted.event.info, None);
    assert_eq!(converted.event.flag, Some(Flag::Rescan));
    assert!(converted.event.need_rescan());
    assert_eq!(converted.time, 5);
}

#[test]
fn inconvertible_events_are_told_apart() {
    assert!(!event("created", &["/a"]).is_convertible(0, None));
    let mut flagged = event("create-file", &["/a"]);
    flagged.flags = vec!["rescan".to_string(), "urgent".to_string()];
    assert!(!flagged.is_convertible(0, None));
    let mut late = event("create-file", &["/a"]);
    late.time = 2;
    assert!(late.is_convertible(u64::MAX - 2, None));
    assert!(!late.is_convertible(u64::MAX - 1, None));
}

#[test]
fn test_ids_use_the_number_twice() {
    let mut ids = PathMap::new();
    ids.insert("/a".to_string(), 4u64);
    ids.insert("/b".to_string(), 5u64);
    let converted = to_file_ids(&ids);
    assert_eq!(converted.get("/a"), Some(&FileId::new_inode(4, 4)));
    assert_eq!(converted.get("/b"), Some(&FileId::new_inode(5, 5)));
    assert_eq!(converted.position("/b"), Some(1));
}

#[test]
fn state_conversion_builds_a_debouncer() {
    let mut state = empty_state();
    let mut first = event("create-file", &["*"]);
    first.time = 1;
    let mut second = event("modify-data-any", &["*"]);
    second.time = 2;
    state.queues.insert("/a".to_string(), Queue { events: vec![first, second] });
    state.queues.insert("/b".to_string(), Queue { events: Vec::new() });
    state.cache.insert("/a".to_string(), 1);
    state.file_system.insert("/c".to_string(), 3);
    let mut half = event("rename-from", &["/x"]);
    half.file_id = Some(7);
    half.time = 4;
    state.rename_event = Some(half);
    let mut rescan = event("other", &["/"]);
    rescan.flags = vec!["rescan".to_string()];
    state.rescan_event = Some(rescan);
    state.errors = vec![Error { kind: "path-not-found".to_string(), paths: Vec::new() }];
    assert!(state.is_convertible(100));
    let data = state.into_debounce_data_inner(100);
    assert_eq!(data.timeout, 50);
    assert!(data.merge_renames);
    assert!(data.errors.is_empty());
    assert_eq!(data.queues.len(), 2);
    let queue = data.queues.get("/a").unwrap();
    assert_eq!(queue.events[0].time, 101);
    assert_eq!(queue.events[0].event.paths, vec!["/a".to_string()]);
    assert_eq!(queue.events[1].time, 102);
    assert_eq!(queue.events[1].event.kind, EventKind::Modify(ModifyKind::Data(DataChange::Any)));
    assert!(data.queues.get("/b").unwrap().is_empty());
    assert_eq!(data.cache.cached_file_id("/a"), Some(&FileId::new_inode(1, 1)));
    assert_eq!(data.cache.file_system.get("/c"), Some(&FileId::new_inode(3, 3)));
    let (pending, stored) = data.rename_event.unwrap();
    assert_eq!(pending.time, 104);
    assert_eq!(stored, Some(FileId::new_inode(7, 7)));
    assert_eq!(data.rescan_event.unwrap().time, 100);
}

#[test]
fn state_timeout_overrides_the_default() {
    let mut state = empty_state();
    state.timeout = Some(10);
    assert_eq!(state.into_debounce_data_inner(0).timeout, 10);
}

#[test]
fn state_with_a_placeholder_outside_a_queue_is_not_convertible() {
    let mut state = empty_state();
    state.rename_event = Some(event("rename-from", &["*"]));
    assert!(!state.is_convertible(0));
    let mut state = empty_state();
    state.queues.insert("/a".to_string(), Queue { events: vec![event("nothing", &["*"])] });
    assert!(!state.is_convertible(0));
}

#[test]
fn applying_a_test_case_reaches_its_expected_state() {
    let mut state = empty_state();
    state.cache.insert("/x".to_string(), 7);
    state.file_system.insert("/y".to_string(), 7);
    let mut expected = empty_state();
    expected.cache.insert("/y".to_string(), 7);
    expected.file_system.insert("/y".to_string(), 7);
    let mut both = event("rename-both", &["/x", "/y"]);
    both.time = 55;
    expected.events.insert("/x".to_string(), vec![both]);
    let mut to = event("rename-to", &["/y"]);
    to.time = 5;
    let case = TestCase {
        state,
        events: vec![event("rename-from", &["/x"]), to],
        errors: vec![Error { kind: "watch-not-found".to_string(), paths: vec!["/w".to_string()] }],
        expected,
    };
    let mut data = case.state.clone().into_debounce_data_inner(0);
    for event in case.events.clone() {
        let at = event.time;
        data.enqueue(event.into_debounced_event(0, None).event, at);
    }
    for error in case.errors.clone() {
        data.enqueue_error(error.into_notify_error());
    }
    let (events, errors) = data.flush(55);
    let wanted: Vec<DebouncedEvent> = case.expected.events.get("/x").unwrap().iter()
        .map(|e| e.to_debounced_event(0, None)).collect();
    assert_eq!(events, wanted);
    assert_eq!(errors.len(), 1);
    assert_eq!(errors[0].kind, ErrorKind::WatchNotFound);
    assert_eq!(data.cache.paths, to_file_ids(&case.expected.cache));
    assert_eq!(data.cache.file_system, to_file_ids(&case.expected.file_system));
    assert!(data.queues.is_empty());
}

#[test]
fn written_events_are_read_back() {
    let event = fs_debounce::event::Event::new(EventKind::Modify(ModifyKind::Name(RenameMode::Both)))
        .add_path("/from".to_string())
        .add_path("/to".to_string())
        .set_tracker(9)
        .set_info("moved".to_string())
        .set_flag(Flag::Rescan);
    let debounced = DebouncedEvent::new(event, 1_050);
    let written = Event::from_debounced_event(&debounced, 1_000);
    assert_eq!(written.kind, "rename-both");
    assert_eq!(written.time, 50);
    assert_eq!(written.flags, vec!["rescan".to_string()]);
    assert_eq!(written.paths, vec!["/from".to_string(), "/to".to_string()]);
    assert_eq!(written.file_id, None);
    assert!(written.is_convertible(1_000, None));
    assert_eq!(written.into_debounced_event(1_000, None), debounced);
}

#[test]
fn written_event_without_flag_has_no_flags() {
    let event = fs_debounce::event::Event::new(EventKind::Create(CreateKind::File))
        .add_path("/a".to_string());
    let debounced = DebouncedEvent::new(event, 7);
    let written = Event::from_debounced_event(&debounced, 7);
    assert_eq!(written.time, 0);
    assert!(written.flags.is_empty());
    assert_eq!(written.tracker, None);
    assert_eq!(written.to_debounced_event(7, None), debounced);
}

#[test]
fn written_errors_are_read_back() {
    let error = fs_debounce::event::Error::new(ErrorKind::WatchNotFound).add_path("/w".to_string());
    let written = Error::from_notify_error(&error).unwrap();
    assert_eq!(written.kind, "watch-not-found");
    assert_eq!(written.paths, vec!["/w".to_string()]);
    assert_eq!(written.into_notify_error(), error);
    assert_eq!(Error::from_notify_error(&fs_debounce::event::Error::new(ErrorKind::Other)), None);
}

#[test]
fn every_path_that_holds_the_placeholder_is_replaced() {
    let source = event("create-file", &["/a/*", "*", "/plain", "pre*post"]);
    assert!(source.is_convertible(0, Some("/k")));
    assert!(!source.is_convertible(0, None));
    let converted = source.into_debounced_event(0, Some("/k"));
    assert_eq!(
        converted.event.paths,
        vec!["/k".to_string(), "/k".to_string(), "/plain".to_string(), "/k".to_string()]
    );
}

#[test]
fn written_state_is_read_back() {
    let mut state = empty_state();
    state.timeout = Some(30);
    let mut first = event("create-file", &["/a"]);
    first.time = 1;
    let mut second = event("modify-metadata-any", &["/a"]);
    second.time = 2;
    second.tracker = Some(4);
    state.queues.insert("/a".to_string(), Queue { events: vec![first, second] });
    state.cache.insert("/a".to_string(), 1);
    state.file_system.insert("/c".to_string(), 3);
    let mut half = event("rename-to", &["/x"]);
    half.file_id = Some(7);
    half.time = 4;
    state.rename_event = Some(half);
    let mut rescan = event("other", &["/"]);
    rescan.flags = vec!["rescan".to_string()];
    rescan.time = 9;
    state.rescan_event = Some(rescan);
    let data = state.clone().into_debounce_data_inner(100);
    let written = State::from_debounce_data_inner(&data, 100).unwrap();
    assert_eq!(written, state);
    let again = written.into_debounce_data_inner(100);
    assert_eq!(again.queues, data.queues);
    assert_eq!(again.rename_event, data.rename_event);
    assert_eq!(again.rescan_event, data.rescan_event);
    assert_eq!(again.cache.paths, data.cache.paths);
    assert_eq!(again.cache.file_system, data.cache.file_system);
    assert_eq!(again.timeout, 30);
}

#[test]
fn state_that_cannot_be_written() {
    let mut state = empty_state();
    state.queues.insert("/a".to_string(), Queue { events: vec![event("create-file", &["/a"])] });
    let mut data = state.into_debounce_data_inner(100);
    assert!(State::from_debounce_data_inner(&data, 100).is_some());
    assert!(State::from_debounce_data_inner(&data, 101).is_none());
    data.cache.paths.insert("/odd".to_string(), FileId::new_inode(1, 2));
    assert!(State::from_debounce_data_inner(&data, 100).is_none());
    assert_eq!(fs_debounce::schema::id_number(FileId::new_inode(5, 5)), Some(5));
    assert_eq!(fs_debounce::schema::id_number(FileId::new_low_res(5, 5)), None);
}

#[test]
fn written_test_case_is_read_back() {
    let mut state = empty_state();
    state.timeout = Some(50);
    state.cache.insert("/x".to_string(), 7);
    state.file_system.insert("/y".to_string(), 7);
    let start = state.clone().into_debounce_data_inner(0);
    let mut after = state.clone().into_debounce_data_inner(0);
    let from = fs_debounce::event::Event::new(EventKind::Modify(ModifyKind::Name(RenameMode::From)))
        .add_path("/x".to_string());
    let to = fs_debounce::event::Event::new(EventKind::Modify(ModifyKind::Name(RenameMode::To)))
        .add_path("/y".to_string());
    after.enqueue(from.clone(), 0);
    after.enqueue(to.clone(), 5);
    let events = vec![DebouncedEvent::new(from, 0), DebouncedEvent::new(to, 5)];
    let errors = vec![fs_debounce::event::Error::new(ErrorKind::PathNotFound)];
    let case = TestCase::from_parts(&start, &events, &errors, &after, 0).unwrap();
    assert_eq!(case.state, state);
    assert_eq!(case.events.len(), 2);
    assert_eq!(case.events[1].kind, "rename-to");
    assert_eq!(case.events[1].time, 5);
    assert_eq!(case.errors[0].kind, "path-not-found");
    let both = &case.expected.queues.get("/x").unwrap().events[0];
    assert_eq!(both.kind, "rename-both");
    assert_eq!(both.time, 55);
    assert_eq!(case.expected.cache.get("/y"), Some(&7));
    assert_eq!(case.expected.cache.get("/x"), None);
    let read = case.expected.clone().into_debounce_data_inner(0);
    assert_eq!(read.queues, after.queues);
    assert_eq!(read.cache.paths, after.cache.paths);
    for (written, event) in case.events.iter().zip(&events) {
        assert_eq!(&written.to_debounced_event(0, None), event);
    }
    let other = vec![fs_debounce::event::Error::new(ErrorKind::Other)];
    assert!(TestCase::from_parts(&start, &events, &other, &after, 0).is_none());
    assert!(TestCase::from_parts(&start, &events, &errors, &after, 1).is_none());
}
