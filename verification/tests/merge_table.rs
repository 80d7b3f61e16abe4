use fs_debounce::event::{
    AccessKind, AccessMode, CreateKind, DataChange, Event, EventKind, MetadataKind, ModifyKind,
    RemoveKind, RenameMode,
};
use fs_debounce::queue::MergeAction::{Append, Collapse, DropIncoming, MergeBroader, ReplaceBack};
use fs_debounce::queue::{broader, merge_action, MergeAction, Queue};

fn access() -> EventKind {
    EventKind::Access(AccessKind::Read)
}

fn create() -> EventKind {
    EventKind::Create(CreateKind::File)
}

fn data(change: DataChange) -> EventKind {
    EventKind::Modify(ModifyKind::Data(change))
}

fn metadata(kind: MetadataKind) -> EventKind {
    EventKind::Modify(ModifyKind::Metadata(kind))
}

fn name(mode: RenameMode) -> EventKind {
    EventKind::Modify(ModifyKind::Name(mode))
}

fn remove() -> EventKind {
    EventKind::Remove(RemoveKind::File)
}

fn queue_after(kinds: &[(EventKind, u64)]) -> Vec<(EventKind, u64)> {
    let mut queue = Queue::new();
    for (kind, time) in kinds {
        queue.push(Event::new(*kind).add_path("/p".to_string()), *time);
    }
    queue.events.iter().map(|e| (e.event.kind, e.time)).collect()
}

#[test]
fn merge_action_follows_the_table() {
    let size = data(DataChange::Size);
    let perms = metadata(MetadataKind::Permissions);
    let from = name(RenameMode::From);
    let rows = [access(), create(), size, perms, remove()];
    let columns = [access(), create(), size, perms, from, remove()];
    let expected = [
        [ReplaceBack, Append, Append, Append, Append, Append],
        [DropIncoming, DropIncoming, DropIncoming, DropIncoming, Append, Collapse],
        [DropIncoming, Append, MergeBroader, Append, Append, Append],
        [DropIncoming, Append, Append, MergeBroader, Append, Append],
        [Append, Append, Append, Append, Append, DropIncoming],
    ];
    for (r, back) in rows.iter().enumerate() {
        for (c, incoming) in columns.iter().enumerate() {
            assert_eq!(merge_action(*back, *incoming), expected[r][c], "row {r}, column {c}");
        }
    }
}

#[test]
fn pairs_outside_the_table_are_queued() {
    let kinds = [
        EventKind::Any,
        EventKind::Other,
        EventKind::Modify(ModifyKind::Any),
        EventKind::Modify(ModifyKind::Other),
        name(RenameMode::Both),
    ];
    for back in kinds {
        for incoming in [access(), create(), data(DataChange::Any), remove(), EventKind::Any] {
            assert_eq!(merge_action(back, incoming), MergeAction::Append);
        }
    }
    for incoming in kinds {
        for back in [access(), create(), data(DataChange::Any), remove()] {
            assert_eq!(merge_action(back, incoming), MergeAction::Append);
        }
    }
}

#[test]
fn access_replaces_access_and_refreshes_deadline() {
    let open = EventKind::Access(AccessKind::Open(AccessMode::Read));
    assert_eq!(queue_after(&[(access(), 50), (open, 60)]), vec![(open, 60)]);
}

#[test]
fn create_subsumes_what_follows_until_remove() {
    assert_eq!(
        queue_after(&[
            (create(), 50),
            (access(), 55),
            (create(), 56),
            (data(DataChange::Content), 60),
            (metadata(MetadataKind::Any), 70)
        ]),
        vec![(create(), 50)]
    );
}

#[test]
fn create_then_remove_collapse() {
    assert_eq!(queue_after(&[(create(), 50), (remove(), 60)]), vec![]);
    assert_eq!(
        queue_after(&[(remove(), 40), (create(), 50), (remove(), 60)]),
        vec![(remove(), 40)]
    );
}

#[test]
fn remove_is_idempotent_and_lets_a_file_come_back() {
    assert_eq!(
        queue_after(&[(remove(), 50), (remove(), 60), (create(), 70)]),
        vec![(remove(), 50), (create(), 70)]
    );
}

#[test]
fn data_changes_keep_the_broader_kind() {
    let size = data(DataChange::Size);
    let content = data(DataChange::Content);
    let any = data(DataChange::Any);
    assert_eq!(queue_after(&[(size, 50), (content, 60)]), vec![(size, 60)]);
    assert_eq!(queue_after(&[(size, 50), (any, 60)]), vec![(any, 60)]);
    assert_eq!(queue_after(&[(any, 50), (size, 60)]), vec![(any, 60)]);
    assert_eq!(broader(size, content), size);
    assert_eq!(broader(size, any), any);
}

#[test]
fn metadata_changes_keep_the_broader_kind() {
    let perms = metadata(MetadataKind::Permissions);
    let owner = metadata(MetadataKind::Ownership);
    let any = metadata(MetadataKind::Any);
    assert_eq!(queue_after(&[(perms, 50), (owner, 60)]), vec![(perms, 60)]);
    assert_eq!(queue_after(&[(perms, 50), (any, 60)]), vec![(any, 60)]);
    assert_eq!(broader(any, perms), any);
}

#[test]
fn data_and_metadata_do_not_merge_with_each_other() {
    let size = data(DataChange::Size);
    let perms = metadata(MetadataKind::Permissions);
    assert_eq!(
        queue_after(&[(size, 50), (perms, 60), (size, 70), (access(), 80)]),
        vec![(size, 50), (perms, 60), (size, 70)]
    );
}

#[test]
fn merged_event_keeps_what_the_first_carried() {
    let mut queue = Queue::new();
    let first = Event::new(data(DataChange::Size)).add_path("/p".to_string()).set_tracker(1);
    let second = Event::new(data(DataChange::Any)).add_path("/p".to_string()).set_tracker(2);
    queue.push(first, 50);
    queue.push(second, 60);
    assert_eq!(queue.len(), 1);
    let kept = &queue.events[0];
    assert_eq!(kept.event.tracker, Some(1));
    assert_eq!(kept.event.kind, data(DataChange::Any));
    assert_eq!(kept.time, 60);
}

#[test]
fn drain_due_takes_the_due_front_only() {
    let mut queue = Queue::new();
    queue.push(Event::new(remove()).add_path("/p".to_string()), 50);
    queue.push(Event::new(create()).add_path("/p".to_string()), 60);
    queue.push(Event::new(name(RenameMode::Any)).add_path("/p".to_string()), 40);
    let mut out = Vec::new();
    queue.drain_due(49, &mut out);
    assert!(out.is_empty());
    assert_eq!(queue.len(), 3);
    queue.drain_due(50, &mut out);
    assert_eq!(out.iter().map(|e| e.time).collect::<Vec<_>>(), vec![50]);
    queue.drain_due(60, &mut out);
    assert_eq!(out.iter().map(|e| e.time).collect::<Vec<_>>(), vec![50, 60, 40]);
    assert!(queue.is_empty());
}
