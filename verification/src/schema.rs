//! Test cases in their declarative form: a state to start from, what comes in, and the state
//! to expect. Kinds of events and errors are spelled as lowercase tags with hyphens.

use std::collections::VecDeque;
use vstd::prelude::*;

use crate::debouncer::{queues_view, DebounceDataInner, DEFAULT_TIMEOUT};
use crate::event::{
    paths_view, text_view, AccessKind, AccessMode, CreateKind, DataChange, DebouncedEvent,
    DebouncedEventView, ErrorKind, ErrorView, EventKind, EventView, Flag, MetadataKind,
    ModifyKind, RemoveKind, RenameMode,
};
use crate::file_id::FileId;
use crate::model::State as DebouncerState;
use crate::path::{has_substring, str_contains, str_eq};
use crate::path_map::{distinct_keys, has_key, PathMap};
use crate::queue::Queue as EventQueue;
use crate::testing::TestCache;

verus! {

/// The kind of error that `tag` spells.
pub open spec fn spec_error_kind(tag: Seq<char>) -> Option<ErrorKind> {
    if tag == "path-not-found"@ {
        Some(ErrorKind::PathNotFound)
    } else if tag == "watch-not-found"@ {
        Some(ErrorKind::WatchNotFound)
    } else if tag == "max-files-watch"@ {
        Some(ErrorKind::MaxFilesWatch)
    } else {
        None
    }
}

/// The kind of event that `tag` spells.
pub open spec fn spec_event_kind(tag: Seq<char>) -> Option<EventKind> {
    if tag == "any"@ {
        Some(EventKind::Any)
    } else if tag == "other"@ {
        Some(EventKind::Other)
    } else if tag == "access-any"@ {
        Some(EventKind::Access(AccessKind::Any))
    } else if tag == "access-read"@ {
        Some(EventKind::Access(AccessKind::Read))
    } else if tag == "access-open-any"@ {
        Some(EventKind::Access(AccessKind::Open(AccessMode::Any)))
    } else if tag == "access-open-execute"@ {
        Some(EventKind::Access(AccessKind::Open(AccessMode::Execute)))
    } else if tag == "access-open-read"@ {
        Some(EventKind::Access(AccessKind::Open(AccessMode::Read)))
    } else if tag == "access-open-write"@ {
        Some(EventKind::Access(AccessKind::Open(AccessMode::Write)))
    } else if tag == "access-open-other"@ {
        Some(EventKind::Access(AccessKind::Open(AccessMode::Other)))
    } else if tag == "access-close-any"@ {
        Some(EventKind::Access(AccessKind::Close(AccessMode::Any)))
    } else if tag == "access-close-execute"@ {
        Some(EventKind::Access(AccessKind::Close(AccessMode::Execute)))
    } else if tag == "access-close-read"@ {
        Some(EventKind::Access(AccessKind::Close(AccessMode::Read)))
    } else if tag == "access-close-write"@ {
        Some(EventKind::Access(AccessKind::Close(AccessMode::Write)))
    } else if tag == "access-close-other"@ {
        Some(EventKind::Access(AccessKind::Close(AccessMode::Other)))
    } else if tag == "access-other"@ {
        Some(EventKind::Access(AccessKind::Other))
    } else if tag == "create-any"@ {
        Some(EventKind::Create(CreateKind::Any))
    } else if tag == "create-file"@ {
        Some(EventKind::Create(CreateKind::File))
    } else if tag == "create-folder"@ {
        Some(EventKind::Create(CreateKind::Folder))
    } else if tag == "create-other"@ {
        Some(EventKind::Create(CreateKind::Other))
    } else if tag == "modify-any"@ {
        Some(EventKind::Modify(ModifyKind::Any))
    } else if tag == "modify-other"@ {
        Some(EventKind::Modify(ModifyKind::Other))
    } else if tag == "modify-data-any"@ {
        Some(EventKind::Modify(ModifyKind::Data(DataChange::Any)))
    } else if tag == "modify-data-size"@ {
        Some(EventKind::Modify(ModifyKind::Data(DataChange::Size)))
    } else if tag == "modify-data-content"@ {
        Some(EventKind::Modify(ModifyKind::Data(DataChange::Content)))
    } else if tag == "modify-data-other"@ {
        Some(EventKind::Modify(ModifyKind::Data(DataChange::Other)))
    } else if tag == "modify-metadata-any"@ {
        Some(EventKind::Modify(ModifyKind::Metadata(MetadataKind::Any)))
    } else if tag == "modify-metadata-access-time"@ {
        Some(EventKind::Modify(ModifyKind::Metadata(MetadataKind::AccessTime)))
    } else if tag == "modify-metadata-write-time"@ {
        Some(EventKind::Modify(ModifyKind::Metadata(MetadataKind::WriteTime)))
    } else if tag == "modify-metadata-permissions"@ {
        Some(EventKind::Modify(ModifyKind::Metadata(MetadataKind::Permissions)))
    } else if tag == "modify-metadata-ownership"@ {
        Some(EventKind::Modify(ModifyKind::Metadata(MetadataKind::Ownership)))
    } else if tag == "modify-metadata-extended"@ {
        Some(EventKind::Modify(ModifyKind::Metadata(MetadataKind::Extended)))
    } else if tag == "modify-metadata-other"@ {
        Some(EventKind::Modify(ModifyKind::Metadata(MetadataKind::Other)))
    } else if tag == "rename-any"@ {
        Some(EventKind::Modify(ModifyKind::Name(RenameMode::Any)))
    } else if tag == "rename-from"@ {
        Some(EventKind::Modify(ModifyKind::Name(RenameMode::From)))
    } else if tag == "rename-to"@ {
        Some(EventKind::Modify(ModifyKind::Name(RenameMode::To)))
    } else if tag == "rename-both"@ {
        Some(EventKind::Modify(ModifyKind::Name(RenameMode::Both)))
    } else if tag == "rename-other"@ {
        Some(EventKind::Modify(ModifyKind::Name(RenameMode::Other)))
    } else if tag == "remove-any"@ {
        Some(EventKind::Remove(RemoveKind::Any))
    } else if tag == "remove-file"@ {
        Some(EventKind::Remove(RemoveKind::File))
    } else if tag == "remove-folder"@ {
        Some(EventKind::Remove(RemoveKind::Folder))
    } else if tag == "remove-other"@ {
        Some(EventKind::Remove(RemoveKind::Other))
    } else {
        None
    }
}

/// The tag that spells `kind`.
pub open spec fn spec_event_kind_tag(kind: EventKind) -> Seq<char> {
    match kind {
        EventKind::Any => "any"@,
        EventKind::Other => "other"@,
        EventKind::Access(AccessKind::Any) => "access-any"@,
        EventKind::Access(AccessKind::Read) => "access-read"@,
        EventKind::Access(AccessKind::Open(AccessMode::Any)) => "access-open-any"@,
        EventKind::Access(AccessKind::Open(AccessMode::Execute)) => "access-open-execute"@,
        EventKind::Access(AccessKind::Open(AccessMode::Read)) => "access-open-read"@,
        EventKind::Access(AccessKind::Open(AccessMode::Write)) => "access-open-write"@,
        EventKind::Access(AccessKind::Open(AccessMode::Other)) => "access-open-other"@,
        EventKind::Access(AccessKind::Close(AccessMode::Any)) => "access-close-any"@,
        EventKind::Access(AccessKind::Close(AccessMode::Execute)) => "access-close-execute"@,
        EventKind::Access(AccessKind::Close(AccessMode::Read)) => "access-close-read"@,
        EventKind::Access(AccessKind::Close(AccessMode::Write)) => "access-close-write"@,
        EventKind::Access(AccessKind::Close(AccessMode::Other)) => "access-close-other"@,
        EventKind::Access(AccessKind::Other) => "access-other"@,
        EventKind::Create(CreateKind::Any) => "create-any"@,
        EventKind::Create(CreateKind::File) => "create-file"@,
        EventKind::Create(CreateKind::Folder) => "create-folder"@,
        EventKind::Create(CreateKind::Other) => "create-other"@,
        EventKind::Modify(ModifyKind::Any) => "modify-any"@,
        EventKind::Modify(ModifyKind::Other) => "modify-other"@,
        EventKind::Modify(ModifyKind::Data(DataChange::Any)) => "modify-data-any"@,
        EventKind::Modify(ModifyKind::Data(DataChange::Size)) => "modify-data-size"@,
        EventKind::Modify(ModifyKind::Data(DataChange::Content)) => "modify-data-content"@,
        EventKind::Modify(ModifyKind::Data(DataChange::Other)) => "modify-data-other"@,
        EventKind::Modify(ModifyKind::Metadata(MetadataKind::Any)) => "modify-metadata-any"@,
        EventKind::Modify(ModifyKind::Metadata(MetadataKind::AccessTime)) => "modify-metadata-access-time"@,
        EventKind::Modify(ModifyKind::Metadata(MetadataKind::WriteTime)) => "modify-metadata-write-time"@,
        EventKind::Modify(ModifyKind::Metadata(MetadataKind::Permissions)) => "modify-metadata-permissions"@,
        EventKind::Modify(ModifyKind::Metadata(MetadataKind::Ownership)) => "modify-metadata-ownership"@,
        EventKind::Modify(ModifyKind::Metadata(MetadataKind::Extended)) => "modify-metadata-extended"@,
        EventKind::Modify(ModifyKind::Metadata(MetadataKind::Other)) => "modify-metadata-other"@,
        EventKind::Modify(ModifyKind::Name(RenameMode::Any)) => "rename-any"@,
        EventKind::Modify(ModifyKind::Name(RenameMode::From)) => "rename-from"@,
        EventKind::Modify(ModifyKind::Name(RenameMode::To)) => "rename-to"@,
        EventKind::Modify(ModifyKind::Name(RenameMode::Both)) => "rename-both"@,
        EventKind::Modify(ModifyKind::Name(RenameMode::Other)) => "rename-other"@,
        EventKind::Remove(RemoveKind::Any) => "remove-any"@,
        EventKind::Remove(RemoveKind::File) => "remove-file"@,
        EventKind::Remove(RemoveKind::Folder) => "remove-folder"@,
        EventKind::Remove(RemoveKind::Other) => "remove-other"@,
    }
}

/// The tag that spells `kind`.
pub fn event_kind_tag(kind: EventKind) -> (tag: &'static str)
    ensures
        tag@ == spec_event_kind_tag(kind),
{
    match kind {
        EventKind::Any => "any",
        EventKind::Other => "other",
        EventKind::Access(AccessKind::Any) => "access-any",
        EventKind::Access(AccessKind::Read) => "access-read",
        EventKind::Access(AccessKind::Open(AccessMode::Any)) => "access-open-any",
        EventKind::Access(AccessKind::Open(AccessMode::Execute)) => "access-open-execute",
        EventKind::Access(AccessKind::Open(AccessMode::Read)) => "access-open-read",
        EventKind::Access(AccessKind::Open(AccessMode::Write)) => "access-open-write",
        EventKind::Access(AccessKind::Open(AccessMode::Other)) => "access-open-other",
        EventKind::Access(AccessKind::Close(AccessMode::Any)) => "access-close-any",
        EventKind::Access(AccessKind::Close(AccessMode::Execute)) => "access-close-execute",
        EventKind::Access(AccessKind::Close(AccessMode::Read)) => "access-close-read",
        EventKind::Access(AccessKind::Close(AccessMode::Write)) => "access-close-write",
        EventKind::Access(AccessKind::Close(AccessMode::Other)) => "access-close-other",
        EventKind::Access(AccessKind::Other) => "access-other",
        EventKind::Create(CreateKind::Any) => "create-any",
        EventKind::Create(CreateKind::File) => "create-file",
        EventKind::Create(CreateKind::Folder) => "create-folder",
        EventKind::Create(CreateKind::Other) => "create-other",
        EventKind::Modify(ModifyKind::Any) => "modify-any",
        EventKind::Modify(ModifyKind::Other) => "modify-other",
        EventKind::Modify(ModifyKind::Data(DataChange::Any)) => "modify-data-any",
        EventKind::Modify(ModifyKind::Data(DataChange::Size)) => "modify-data-size",
        EventKind::Modify(ModifyKind::Data(DataChange::Content)) => "modify-data-content",
        EventKind::Modify(ModifyKind::Data(DataChange::Other)) => "modify-data-other",
        EventKind::Modify(ModifyKind::Metadata(MetadataKind::Any)) => "modify-metadata-any",
        EventKind::Modify(ModifyKind::Metadata(MetadataKind::AccessTime)) => "modify-metadata-access-time",
        EventKind::Modify(ModifyKind::Metadata(MetadataKind::WriteTime)) => "modify-metadata-write-time",
        EventKind::Modify(ModifyKind::Metadata(MetadataKind::Permissions)) => "modify-metadata-permissions",
        EventKind::Modify(ModifyKind::Metadata(MetadataKind::Ownership)) => "modify-metadata-ownership",
        EventKind::Modify(ModifyKind::Metadata(MetadataKind::Extended)) => "modify-metadata-extended",
        EventKind::Modify(ModifyKind::Metadata(MetadataKind::Other)) => "modify-metadata-other",
        EventKind::Modify(ModifyKind::Name(RenameMode::Any)) => "rename-any",
        EventKind::Modify(ModifyKind::Name(RenameMode::From)) => "rename-from",
        EventKind::Modify(ModifyKind::Name(RenameMode::To)) => "rename-to",
        EventKind::Modify(ModifyKind::Name(RenameMode::Both)) => "rename-both",
        EventKind::Modify(ModifyKind::Name(RenameMode::Other)) => "rename-other",
        EventKind::Remove(RemoveKind::Any) => "remove-any",
        EventKind::Remove(RemoveKind::File) => "remove-file",
        EventKind::Remove(RemoveKind::Folder) => "remove-folder",
        EventKind::Remove(RemoveKind::Other) => "remove-other",
    }
}

/// Every kind of event is read back from the tag that spells it.
pub proof fn law_event_kind_round_trip(kind: EventKind)
    ensures
        spec_event_kind(spec_event_kind_tag(kind)) == Some(kind),
{
    reveal_strlit("any");
    reveal_strlit("other");
    reveal_strlit("access-any");
    reveal_strlit("access-read");
    reveal_strlit("access-open-any");
    reveal_strlit("access-open-execute");
    reveal_strlit("access-open-read");
    reveal_strlit("access-open-write");
    reveal_strlit("access-open-other");
    reveal_strlit("access-close-any");
    reveal_strlit("access-close-execute");
    reveal_strlit("access-close-read");
    reveal_strlit("access-close-write");
    reveal_strlit("access-close-other");
    reveal_strlit("access-other");
    reveal_strlit("create-any");
    reveal_strlit("create-file");
    reveal_strlit("create-folder");
    reveal_strlit("create-other");
    reveal_strlit("modify-any");
    reveal_strlit("modify-other");
    reveal_strlit("modify-data-any");
    reveal_strlit("modify-data-size");
    reveal_strlit("modify-data-content");
    reveal_strlit("modify-data-other");
    reveal_strlit("modify-metadata-any");
    reveal_strlit("modify-metadata-access-time");
    reveal_strlit("modify-metadata-write-time");
    reveal_strlit("modify-metadata-permissions");
    reveal_strlit("modify-metadata-ownership");
    reveal_strlit("modify-metadata-extended");
    reveal_strlit("modify-metadata-other");
    reveal_strlit("rename-any");
    reveal_strlit("rename-from");
    reveal_strlit("rename-to");
    reveal_strlit("rename-both");
    reveal_strlit("rename-other");
    reveal_strlit("remove-any");
    reveal_strlit("remove-file");
    reveal_strlit("remove-folder");
    reveal_strlit("remove-other");
    // Tags of one length differ in one of the places named for that length.
    assert("any"@.len() == 3);
    assert("other"@.len() == 5);
    assert("rename-to"@.len() == 9);
    assert("access-any"@.len() == 10 && "access-any"@[2] == 'c');
    assert("create-any"@.len() == 10 && "create-any"@[2] == 'e');
    assert("modify-any"@.len() == 10 && "modify-any"@[2] == 'd');
    assert("rename-any"@.len() == 10 && "rename-any"@[2] == 'n');
    assert("remove-any"@.len() == 10 && "remove-any"@[2] == 'm');
    assert("access-read"@.len() == 11 && "access-read"@[2] == 'c' && "access-read"@[7] == 'r');
    assert("create-file"@.len() == 11 && "create-file"@[2] == 'e' && "create-file"@[7] == 'f');
    assert("rename-from"@.len() == 11 && "rename-from"@[2] == 'n' && "rename-from"@[7] == 'f');
    assert("rename-both"@.len() == 11 && "rename-both"@[2] == 'n' && "rename-both"@[7] == 'b');
    assert("remove-file"@.len() == 11 && "remove-file"@[2] == 'm' && "remove-file"@[7] == 'f');
    assert("access-other"@.len() == 12 && "access-other"@[2] == 'c');
    assert("create-other"@.len() == 12 && "create-other"@[2] == 'e');
    assert("modify-other"@.len() == 12 && "modify-other"@[2] == 'd');
    assert("rename-other"@.len() == 12 && "rename-other"@[2] == 'n');
    assert("remove-other"@.len() == 12 && "remove-other"@[2] == 'm');
    assert("create-folder"@.len() == 13 && "create-folder"@[0] == 'c');
    assert("remove-folder"@.len() == 13 && "remove-folder"@[0] == 'r');
    assert("access-open-any"@.len() == 15 && "access-open-any"@[0] == 'a');
    assert("modify-data-any"@.len() == 15 && "modify-data-any"@[0] == 'm');
    assert("access-open-read"@.len() == 16 && "access-open-read"@[7] == 'o');
    assert("access-close-any"@.len() == 16 && "access-close-any"@[7] == 'c');
    assert("modify-data-size"@.len() == 16 && "modify-data-size"@[7] == 'd');
    assert("access-open-write"@.len() == 17 && "access-open-write"@[7] == 'o' && "access-open-write"@[12] == 'w');
    assert("access-open-other"@.len() == 17 && "access-open-other"@[7] == 'o' && "access-open-other"@[12] == 'o');
    assert("access-close-read"@.len() == 17 && "access-close-read"@[7] == 'c' && "access-close-read"@[12] == '-');
    assert("modify-data-other"@.len() == 17 && "modify-data-other"@[7] == 'd' && "modify-data-other"@[12] == 'o');
    assert("access-close-write"@.len() == 18 && "access-close-write"@[13] == 'w');
    assert("access-close-other"@.len() == 18 && "access-close-other"@[13] == 'o');
    assert("access-open-execute"@.len() == 19 && "access-open-execute"@[7] == 'o');
    assert("modify-data-content"@.len() == 19 && "modify-data-content"@[7] == 'd');
    assert("modify-metadata-any"@.len() == 19 && "modify-metadata-any"@[7] == 'm');
    assert("access-close-execute"@.len() == 20);
    assert("modify-metadata-other"@.len() == 21);
    assert("modify-metadata-extended"@.len() == 24);
    assert("modify-metadata-ownership"@.len() == 25);
    assert("modify-metadata-write-time"@.len() == 26);
    assert("modify-metadata-access-time"@.len() == 27 && "modify-metadata-access-time"@[16] == 'a');
    assert("modify-metadata-permissions"@.len() == 27 && "modify-metadata-permissions"@[16] == 'p');
}

/// The tag that spells `kind`, for the kinds of error that have one.
pub open spec fn spec_error_kind_tag(kind: ErrorKind) -> Option<Seq<char>> {
    match kind {
        ErrorKind::PathNotFound => Some("path-not-found"@),
        ErrorKind::WatchNotFound => Some("watch-not-found"@),
        ErrorKind::MaxFilesWatch => Some("max-files-watch"@),
        ErrorKind::Other => None,
    }
}

/// The tag that spells `kind`, for the kinds of error that have one.
pub fn error_kind_tag(kind: ErrorKind) -> (tag: Option<&'static str>)
    ensures
        match tag {
            Some(text) => spec_error_kind_tag(kind) == Some(text@),
            None => spec_error_kind_tag(kind) is None,
        },
{
    match kind {
        ErrorKind::PathNotFound => Some("path-not-found"),
        ErrorKind::WatchNotFound => Some("watch-not-found"),
        ErrorKind::MaxFilesWatch => Some("max-files-watch"),
        ErrorKind::Other => None,
    }
}

/// Every kind of error that has a tag is read back from it, and no tag spells another kind.
pub proof fn law_error_kind_round_trip(kind: ErrorKind)
    ensures
        match spec_error_kind_tag(kind) {
            Some(tag) => spec_error_kind(tag) == Some(kind),
            None => forall|tag: Seq<char>| spec_error_kind(tag) != Some(kind),
        },
{
    reveal_strlit("path-not-found");
    reveal_strlit("watch-not-found");
    reveal_strlit("max-files-watch");
    assert("path-not-found"@.len() == 14);
    assert("watch-not-found"@.len() == 15 && "watch-not-found"@[0] == 'w');
    assert("max-files-watch"@.len() == 15 && "max-files-watch"@[0] == 'm');
}

/// The flag that `tag` spells.
pub open spec fn spec_flag(tag: Seq<char>) -> Option<Flag> {
    if tag == "rescan"@ {
        Some(Flag::Rescan)
    } else {
        None
    }
}

/// The kind of error that `tag` spells, if it spells one.
pub fn parse_error_kind(tag: &str) -> (kind: Option<ErrorKind>)
    ensures
        kind == spec_error_kind(tag@),
{
    if str_eq(tag, "path-not-found") {
        Some(ErrorKind::PathNotFound)
    } else if str_eq(tag, "watch-not-found") {
        Some(ErrorKind::WatchNotFound)
    } else if str_eq(tag, "max-files-watch") {
        Some(ErrorKind::MaxFilesWatch)
    } else {
        None
    }
}

/// The flag that `tag` spells, if it spells one.
pub fn parse_flag(tag: &str) -> (flag: Option<Flag>)
    ensures
        flag == spec_flag(tag@),
{
    if str_eq(tag, "rescan") {
        Some(Flag::Rescan)
    } else {
        None
    }
}

/// The kind of event that `tag` spells, if it spells one.
pub fn parse_event_kind(tag: &str) -> (kind: Option<EventKind>)
    ensures
        kind == spec_event_kind(tag@),
{
    if str_eq(tag, "any") {
        Some(EventKind::Any)
    } else if str_eq(tag, "other") {
        Some(EventKind::Other)
    } else if str_eq(tag, "access-any") {
        Some(EventKind::Access(AccessKind::Any))
    } else if str_eq(tag, "access-read") {
        Some(EventKind::Access(AccessKind::Read))
    } else if str_eq(tag, "access-open-any") {
        Some(EventKind::Access(AccessKind::Open(AccessMode::Any)))
    } else if str_eq(tag, "access-open-execute") {
        Some(EventKind::Access(AccessKind::Open(AccessMode::Execute)))
    } else if str_eq(tag, "access-open-read") {
        Some(EventKind::Access(AccessKind::Open(AccessMode::Read)))
    } else if str_eq(tag, "access-open-write") {
        Some(EventKind::Access(AccessKind::Open(AccessMode::Write)))
    } else if str_eq(tag, "access-open-other") {
        Some(EventKind::Access(AccessKind::Open(AccessMode::Other)))
    } else if str_eq(tag, "access-close-any") {
        Some(EventKind::Access(AccessKind::Close(AccessMode::Any)))
    } else if str_eq(tag, "access-close-execute") {
        Some(EventKind::Access(AccessKind::Close(AccessMode::Execute)))
    } else if str_eq(tag, "access-close-read") {
        Some(EventKind::Access(AccessKind::Close(AccessMode::Read)))
    } else if str_eq(tag, "access-close-write") {
        Some(EventKind::Access(AccessKind::Close(AccessMode::Write)))
    } else if str_eq(tag, "access-close-other") {
        Some(EventKind::Access(AccessKind::Close(AccessMode::Other)))
    } else if str_eq(tag, "access-other") {
        Some(EventKind::Access(AccessKind::Other))
    } else if str_eq(tag, "create-any") {
        Some(EventKind::Create(CreateKind::Any))
    } else if str_eq(tag, "create-file") {
        Some(EventKind::Create(CreateKind::File))
    } else if str_eq(tag, "create-folder") {
        Some(EventKind::Create(CreateKind::Folder))
    } else if str_eq(tag, "create-other") {
        Some(EventKind::Create(CreateKind::Other))
    } else if str_eq(tag, "modify-any") {
        Some(EventKind::Modify(ModifyKind::Any))
    } else if str_eq(tag, "modify-other") {
        Some(EventKind::Modify(ModifyKind::Other))
    } else if str_eq(tag, "modify-data-any") {
        Some(EventKind::Modify(ModifyKind::Data(DataChange::Any)))
    } else if str_eq(tag, "modify-data-size") {
        Some(EventKind::Modify(ModifyKind::Data(DataChange::Size)))
    } else if str_eq(tag, "modify-data-content") {
        Some(EventKind::Modify(ModifyKind::Data(DataChange::Content)))
    } else if str_eq(tag, "modify-data-other") {
        Some(EventKind::Modify(ModifyKind::Data(DataChange::Other)))
    } else if str_eq(tag, "modify-metadata-any") {
        Some(EventKind::Modify(ModifyKind::Metadata(MetadataKind::Any)))
    } else if str_eq(tag, "modify-metadata-access-time") {
        Some(EventKind::Modify(ModifyKind::Metadata(MetadataKind::AccessTime)))
    } else if str_eq(tag, "modify-metadata-write-time") {
        Some(EventKind::Modify(ModifyKind::Metadata(MetadataKind::WriteTime)))
    } else if str_eq(tag, "modify-metadata-permissions") {
        Some(EventKind::Modify(ModifyKind::Metadata(MetadataKind::Permissions)))
    } else if str_eq(tag, "modify-metadata-ownership") {
        Some(EventKind::Modify(ModifyKind::Metadata(MetadataKind::Ownership)))
    } else if str_eq(tag, "modify-metadata-extended") {
        Some(EventKind::Modify(ModifyKind::Metadata(MetadataKind::Extended)))
    } else if str_eq(tag, "modify-metadata-other") {
        Some(EventKind::Modify(ModifyKind::Metadata(MetadataKind::Other)))
    } else if str_eq(tag, "rename-any") {
        Some(EventKind::Modify(ModifyKind::Name(RenameMode::Any)))
    } else if str_eq(tag, "rename-from") {
        Some(EventKind::Modify(ModifyKind::Name(RenameMode::From)))
    } else if str_eq(tag, "rename-to") {
        Some(EventKind::Modify(ModifyKind::Name(RenameMode::To)))
    } else if str_eq(tag, "rename-both") {
        Some(EventKind::Modify(ModifyKind::Name(RenameMode::Both)))
    } else if str_eq(tag, "rename-other") {
        Some(EventKind::Modify(ModifyKind::Name(RenameMode::Other)))
    } else if str_eq(tag, "remove-any") {
        Some(EventKind::Remove(RemoveKind::Any))
    } else if str_eq(tag, "remove-file") {
        Some(EventKind::Remove(RemoveKind::File))
    } else if str_eq(tag, "remove-folder") {
        Some(EventKind::Remove(RemoveKind::Folder))
    } else if str_eq(tag, "remove-other") {
        Some(EventKind::Remove(RemoveKind::Other))
    } else {
        None
    }
}

/// An error of the watcher, its kind spelled as a tag.
#[derive(Debug, Clone, PartialEq, Eq)]
pub struct Error {
    /// One of `path-not-found`, `watch-not-found`, `max-files-watch`.
    pub kind: String,
    /// The paths the error concerns.
    pub paths: Vec<String>,
}

impl Error {
    /// Whether the tag spells a kind of error.
    pub open spec fn convertible(&self) -> bool {
        spec_error_kind(self.kind@) is Some
    }

    /// Whether the tag spells a kind of error.
    pub fn is_convertible(&self) -> (ok: bool)
        ensures
            ok == self.convertible(),
    {
        parse_error_kind(self.kind.as_str()).is_some()
    }

    /// The error with its kind spelled as a tag, for the kinds that have one.
    pub fn from_notify_error(error: &crate::event::Error) -> (written: Option<Error>)
        ensures
            match written {
                Some(tagged) => spec_error_kind_tag(error.kind) == Some(tagged.kind@)
                    && paths_view(tagged.paths@) == paths_view(error.paths@),
                None => spec_error_kind_tag(error.kind) is None,
            },
    {
        match error_kind_tag(error.kind) {
            Some(tag) => {
                let paths = clone_paths(&error.paths);
                Some(Error { kind: tag.to_owned(), paths })
            },
            None => None,
        }
    }

    /// The error with its kind read from the tag. The tag must spell a kind of error.
    pub fn into_notify_error(self) -> (error: crate::event::Error)
        requires
            self.convertible(),
        ensures
            error@ == (ErrorView {
                kind: spec_error_kind(self.kind@)->0,
                paths: paths_view(self.paths@),
            }),
    {
        let kind = parse_error_kind(self.kind.as_str()).unwrap();
        crate::event::Error { kind, paths: self.paths }
    }
}

/// A copy of `paths`.
fn clone_paths(paths: &Vec<String>) -> (copy: Vec<String>)
    ensures
        paths_view(copy@) == paths_view(paths@),
{
    let mut copy: Vec<String> = Vec::new();
    let mut i: usize = 0;
    while i < paths.len()
        invariant
            i <= paths.len(),
            copy.len() == i,
            forall|j: int| 0 <= j < i ==> (#[trigger] copy@[j])@ == paths@[j]@,
        decreases paths.len() - i,
    {
        copy.push(paths[i].clone());
        i += 1;
    }
    assert(paths_view(copy@) =~= paths_view(paths@));
    copy
}

/// An error that is written with its tag and read again is the error it was.
pub proof fn law_error_round_trip(error: crate::event::Error, written: Error)
    requires
        spec_error_kind_tag(error.kind) == Some(written.kind@),
        paths_view(written.paths@) == paths_view(error.paths@),
    ensures
        written.convertible(),
        (ErrorView { kind: spec_error_kind(written.kind@)->0, paths: paths_view(written.paths@) })
            == error@,
{
    law_error_kind_round_trip(error.kind);
}

/// Whether a path holds the placeholder `*`, which stands for the path of the queue that
/// holds the event.
pub open spec fn has_placeholder(path: Seq<char>) -> bool {
    has_substring(path, "*"@)
}

/// The characters of a string that may be missing.
pub open spec fn str_view(text: Option<&str>) -> Option<Seq<char>> {
    match text {
        Some(s) => Some(s@),
        None => None,
    }
}

/// An event, its kind and flags spelled as tags.
#[derive(Debug, Clone, PartialEq, Eq)]
pub struct Event {
    /// When the event occurred, in milliseconds after the start of the test.
    pub time: u64,
    /// The kind, as a tag such as `create-file` or `rename-both`.
    pub kind: String,
    /// The paths. A path that holds `*` stands for the path of the queue that holds the
    /// event.
    pub paths: Vec<String>,
    /// The flags; `rescan` is the only one.
    pub flags: Vec<String>,
    pub tracker: Option<usize>,
    pub info: Option<String>,
    /// The identity stored beside the event, where it is the pending half of a rename.
    pub file_id: Option<u64>,
}

impl Event {
    /// Whether the event can be converted: the tags spell a kind and flags, a path that
    /// holds `*` has a path to stand for, and the instant fits.
    pub open spec fn convertible(&self, time: u64, path: Option<Seq<char>>) -> bool {
        &&& spec_event_kind(self.kind@) is Some
        &&& forall|i: int| 0 <= i < self.flags@.len() ==> spec_flag(#[trigger] self.flags@[i]@) is Some
        &&& path is None ==> forall|i: int|
            0 <= i < self.paths@.len() ==> !#[trigger] has_placeholder(self.paths@[i]@)
        &&& time + self.time <= u64::MAX
    }

    /// What the event converts to, relative to the instant `time`: each path that holds `*`
    /// becomes `path`; tracker and info are kept where the event has a path; any flag makes it ask
    /// for a rescan.
    pub open spec fn converted(&self, time: u64, path: Option<Seq<char>>) -> DebouncedEventView {
        DebouncedEventView {
            event: EventView {
                kind: spec_event_kind(self.kind@)->0,
                paths: Seq::new(
                    self.paths@.len(),
                    |i: int|
                        if has_placeholder(self.paths@[i]@) {
                            path->0
                        } else {
                            self.paths@[i]@
                        },
                ),
                tracker: if self.paths@.len() > 0 {
                    self.tracker
                } else {
                    None
                },
                flag: if self.flags@.len() > 0 {
                    Some(Flag::Rescan)
                } else {
                    None
                },
                info: if self.paths@.len() > 0 {
                    text_view(self.info)
                } else {
                    None
                },
            },
            time: (time + self.time) as u64,
        }
    }

    /// Whether the event is what `event` is written as, relative to the instant `time`: the
    /// kind as its tag, the flag as `rescan`, the deadline as the time since `time`, and
    /// the rest as it is.
    pub open spec fn writes(&self, event: DebouncedEventView, time: u64) -> bool {
        &&& self.kind@ == spec_event_kind_tag(event.event.kind)
        &&& paths_view(self.paths@) == event.event.paths
        &&& self.tracker == event.event.tracker
        &&& text_view(self.info) == event.event.info
        &&& self.flags@.len() == if event.event.flag is Some {
            1nat
        } else {
            0nat
        }
        &&& forall|i: int| 0 <= i < self.flags@.len() ==> (#[trigger] self.flags@[i])@ == "rescan"@
        &&& self.time + time == event.time
    }

    /// The event written with tags, relative to the instant `time`, which must not be after
    /// its deadline.
    pub fn from_debounced_event(event: &DebouncedEvent, time: u64) -> (written: Event)
        requires
            time <= event.time,
        ensures
            written.writes(event@, time),
            written.file_id is None,
    {
        let paths = clone_paths(&event.event.paths);
        let mut flags: Vec<String> = Vec::new();
        match event.event.flag {
            Some(Flag::Rescan) => {
                flags.push("rescan".to_owned());
            },
            None => {},
        }
        let info = match &event.event.info {
            Some(text) => Some(text.clone()),
            None => None,
        };
        Event {
            time: event.time - time,
            kind: event_kind_tag(event.event.kind).to_owned(),
            paths,
            flags,
            tracker: event.event.tracker,
            info,
            file_id: None,
        }
    }

    /// Whether the event can be converted.
    pub fn is_convertible(&self, time: u64, path: Option<&str>) -> (ok: bool)
        ensures
            ok == self.convertible(time, str_view(path)),
    {
        if parse_event_kind(self.kind.as_str()).is_none() {
            return false;
        }
        if self.time > u64::MAX - time {
            return false;
        }
        let mut i: usize = 0;
        while i < self.flags.len()
            invariant
                i <= self.flags.len(),
                forall|j: int| 0 <= j < i ==> spec_flag(#[trigger] self.flags@[j]@) is Some,
            decreases self.flags.len() - i,
        {
            if parse_flag(self.flags[i].as_str()).is_none() {
                return false;
            }
            i += 1;
        }
        if path.is_none() {
            let mut k: usize = 0;
            while k < self.paths.len()
                invariant
                    k <= self.paths.len(),
                    str_view(path) is None,
                    forall|j: int| 0 <= j < k ==> !#[trigger] has_placeholder(self.paths@[j]@),
                decreases self.paths.len() - k,
            {
                if str_contains(self.paths[k].as_str(), "*") {
                    assert(has_placeholder(self.paths@[k as int]@));
                    return false;
                }
                k += 1;
            }
        }
        true
    }

    /// The event this one converts to, relative to the instant `time`.
    pub fn to_debounced_event(&self, time: u64, path: Option<&str>) -> (event: DebouncedEvent)
        requires
            self.convertible(time, str_view(path)),
        ensures
            event@ == self.converted(time, str_view(path)),
    {
        let kind = parse_event_kind(self.kind.as_str()).unwrap();
        let mut paths: Vec<String> = Vec::new();
        let mut i: usize = 0;
        while i < self.paths.len()
            invariant
                i <= self.paths.len(),
                paths.len() == i,
                str_view(path) is None ==> forall|j: int|
                    0 <= j < self.paths@.len() ==> !#[trigger] has_placeholder(self.paths@[j]@),
                forall|j: int|
                    0 <= j < i ==> (#[trigger] paths@[j])@ == if has_placeholder(self.paths@[j]@) {
                        str_view(path)->0
                    } else {
                        self.paths@[j]@
                    },
            decreases self.paths.len() - i,
        {
            if str_contains(self.paths[i].as_str(), "*") {
                match path {
                    Some(replacement) => {
                        paths.push(replacement.to_owned());
                    },
                    None => {
                        assert(!has_placeholder(self.paths@[i as int]@));
                    },
                }
            } else {
                paths.push(self.paths[i].clone());
            }
            i += 1;
        }
        let tracker = if self.paths.len() > 0 {
            self.tracker
        } else {
            None
        };
        let info = if self.paths.len() > 0 {
            match &self.info {
                Some(text) => Some(text.clone()),
                None => None,
            }
        } else {
            None
        };
        let flag = if self.flags.len() > 0 {
            Some(Flag::Rescan)
        } else {
            None
        };
        let event = crate::event::Event { kind, paths, tracker, flag, info };
        assert(event@.paths =~= self.converted(time, str_view(path)).event.paths);
        DebouncedEvent { event, time: time + self.time }
    }

    /// The event this one converts to, relative to the instant `time`. The event must be
    /// convertible: see [`Self::is_convertible`].
    pub fn into_debounced_event(self, time: u64, path: Option<&str>) -> (event: DebouncedEvent)
        requires
            self.convertible(time, str_view(path)),
        ensures
            event@ == self.converted(time, str_view(path)),
    {
        self.to_debounced_event(time, path)
    }
}

/// An event that is written with tags and read again, whatever path stands for the
/// placeholder, is the event it was, provided that no
/// path of it holds the placeholder `*`, and that it names a path or carries neither tracker
/// nor info (which are read only for an event with a path).
pub proof fn law_event_round_trip(
    event: DebouncedEventView,
    written: Event,
    time: u64,
    path: Option<Seq<char>>,
)
    requires
        written.writes(event, time),
        forall|i: int|
            0 <= i < event.event.paths.len() ==> !#[trigger] has_placeholder(event.event.paths[i]),
        event.event.paths.len() > 0 || (event.event.tracker is None && event.event.info is None),
    ensures
        written.convertible(time, path),
        written.converted(time, path) == event,
{
    law_event_kind_round_trip(event.event.kind);
    reveal_strlit("rescan");
    lemma_paths_read_back(written, time, event.event.paths, path);
    let read = written.converted(time, path);
    assert(paths_view(written.paths@).len() == written.paths@.len());
    assert(read.event.kind == event.event.kind);
    assert(read.event.paths == event.event.paths);
    assert(read.event.tracker == event.event.tracker);
    assert(read.event.info == event.event.info);
    assert(read.time == event.time);
    match event.event.flag {
        Some(Flag::Rescan) => {
            assert(read.event.flag == event.event.flag);
        },
        None => {
            assert(read.event.flag == event.event.flag);
        },
    }
}

/// Paths without a placeholder are read as they are written.
proof fn lemma_paths_read_back(
    written: Event,
    time: u64,
    paths: Seq<Seq<char>>,
    path: Option<Seq<char>>,
)
    requires
        paths_view(written.paths@) == paths,
        forall|i: int| 0 <= i < paths.len() ==> !#[trigger] has_placeholder(paths[i]),
    ensures
        written.converted(time, path).event.paths == paths,
        forall|i: int|
            0 <= i < written.paths@.len() ==> !#[trigger] has_placeholder(written.paths@[i]@),
{
    let read = written.converted(time, path).event.paths;
    assert forall|i: int| 0 <= i < written.paths@.len() implies !#[trigger] has_placeholder(
        written.paths@[i]@,
    ) by {
        assert(paths_view(written.paths@)[i] == paths[i]);
    }
    assert(read =~= paths);
}

/// Whether no deadline in `queue` is before `time`.
pub open spec fn all_since(queue: Seq<DebouncedEventView>, time: u64) -> bool {
    forall|i: int| 0 <= i < queue.len() ==> time <= (#[trigger] queue[i]).time
}

/// Whether an event can be read back from what it is written as: none of its paths holds the
/// placeholder, and it names a path or carries neither tracker nor info.
pub open spec fn readable(event: DebouncedEventView) -> bool {
    &&& forall|i: int|
        0 <= i < event.event.paths.len() ==> !#[trigger] has_placeholder(event.event.paths[i])
    &&& event.event.paths.len() > 0 || (event.event.tracker is None && event.event.info is None)
}

/// The events pending for one path.
#[derive(Debug, Clone, PartialEq, Eq)]
pub struct Queue {
    pub events: Vec<Event>,
}

impl Queue {
    /// Whether every event of the queue can be converted, `path` being the path of the
    /// queue.
    pub open spec fn convertible(&self, time: u64, path: Seq<char>) -> bool {
        forall|i: int|
            0 <= i < self.events@.len() ==> (#[trigger] self.events@[i]).convertible(
                time,
                Some(path),
            )
    }

    /// What the queue converts to.
    pub open spec fn converted(&self, time: u64, path: Seq<char>) -> Seq<DebouncedEventView> {
        Seq::new(self.events@.len(), |i: int| self.events@[i].converted(time, Some(path)))
    }

    /// Whether the queue is what `queue` is written as, relative to the instant `time`.
    pub open spec fn writes(&self, queue: Seq<DebouncedEventView>, time: u64) -> bool {
        &&& self.events@.len() == queue.len()
        &&& forall|i: int|
            0 <= i < queue.len() ==> (#[trigger] self.events@[i]).writes(queue[i], time)
    }

    /// The queue written with tags, relative to the instant `time`, if no deadline in it is
    /// before that instant.
    pub fn from_event_queue(queue: &EventQueue, time: u64) -> (written: Option<Queue>)
        ensures
            written is Some == all_since(queue@, time),
            written matches Some(tagged) ==> tagged.writes(queue@, time),
    {
        let mut events: Vec<Event> = Vec::new();
        let mut i: usize = 0;
        while i < queue.events.len()
            invariant
                i <= queue.events.len(),
                events.len() == i,
                forall|j: int| 0 <= j < i ==> time <= (#[trigger] queue@[j]).time,
                forall|j: int| 0 <= j < i ==> (#[trigger] events@[j]).writes(queue@[j], time),
            decreases queue.events.len() - i,
        {
            if queue.events[i].time < time {
                assert(queue@[i as int].time < time);
                return None;
            }
            let event = Event::from_debounced_event(&queue.events[i], time);
            assert(event.writes(queue@[i as int], time));
            events.push(event);
            i += 1;
        }
        Some(Queue { events })
    }

    /// Whether every event of the queue can be converted.
    pub fn is_convertible(&self, time: u64, path: &str) -> (ok: bool)
        ensures
            ok == self.convertible(time, path@),
    {
        let mut i: usize = 0;
        while i < self.events.len()
            invariant
                i <= self.events.len(),
                forall|j: int|
                    0 <= j < i ==> (#[trigger] self.events@[j]).convertible(time, Some(path@)),
            decreases self.events.len() - i,
        {
            if !self.events[i].is_convertible(time, Some(path)) {
                return false;
            }
            i += 1;
        }
        true
    }

    /// The queue of the events that the events of this queue convert to.
    pub fn to_event_queue(&self, time: u64, path: &str) -> (queue: EventQueue)
        requires
            self.convertible(time, path@),
        ensures
            queue@ == self.converted(time, path@),
    {
        let mut events: VecDeque<DebouncedEvent> = VecDeque::new();
        let mut i: usize = 0;
        while i < self.events.len()
            invariant
                i <= self.events.len(),
                self.convertible(time, path@),
                events@.len() == i,
                forall|j: int|
                    0 <= j < i ==> (#[trigger] events@[j])@ == self.events@[j].converted(
                        time,
                        Some(path@),
                    ),
            decreases self.events.len() - i,
        {
            let event = self.events[i].to_debounced_event(time, Some(path));
            events.push_back(event);
            i += 1;
        }
        let queue = EventQueue { events };
        assert(queue@ =~= self.converted(time, path@));
        queue
    }
}

/// The identity that stands for the number `id` in a test case.
pub open spec fn spec_test_id(id: u64) -> FileId {
    FileId::Inode { device_id: id, inode_number: id }
}

/// The entries of `ids`, each number as the identity that stands for it.
pub open spec fn test_ids(ids: Seq<(Seq<char>, u64)>) -> Seq<(Seq<char>, FileId)> {
    Seq::new(ids.len(), |i: int| (ids[i].0, spec_test_id(ids[i].1)))
}

/// The map of `ids`, each number as the identity that stands for it.
pub fn to_file_ids(ids: &PathMap<u64>) -> (map: PathMap<FileId>)
    ensures
        map.entries() == test_ids(ids.entries()),
{
    let mut map: PathMap<FileId> = PathMap::new();
    let n = ids.len();
    let mut i: usize = 0;
    while i < n
        invariant
            i <= n,
            n == ids.entries().len(),
            distinct_keys(ids.entries()),
            map.entries() == test_ids(ids.entries().take(i as int)),
        decreases n - i,
    {
        let key = ids.key_at(i).clone();
        let id = *ids.value_at(i);
        proof {
            if has_key(map.entries(), key@) {
                let at = crate::path_map::index_of(map.entries(), key@);
                assert(ids.entries()[at].0 == ids.entries()[i as int].0);
            }
        }
        map.push_new(key, FileId::new_inode(id, id));
        assert(map.entries() =~= test_ids(ids.entries().take(i + 1)));
        i += 1;
    }
    assert(ids.entries().take(n as int) =~= ids.entries());
    map
}

/// The number that stands for an identity in a test case, for the identities that have one.
pub open spec fn spec_id_number(id: FileId) -> Option<u64> {
    match id {
        FileId::Inode { device_id, inode_number } => if device_id == inode_number {
            Some(device_id)
        } else {
            None
        },
        _ => None,
    }
}

/// Whether every identity of `entries` has a number that stands for it.
pub open spec fn all_test_ids(entries: Seq<(Seq<char>, FileId)>) -> bool {
    forall|i: int| 0 <= i < entries.len() ==> spec_id_number((#[trigger] entries[i]).1) is Some
}

/// The number that stands for an identity in a test case, if it has one.
pub fn id_number(id: FileId) -> (number: Option<u64>)
    ensures
        number == spec_id_number(id),
        number matches Some(n) ==> spec_test_id(n) == id,
{
    match id {
        FileId::Inode { device_id, inode_number } => if device_id == inode_number {
            Some(device_id)
        } else {
            None
        },
        _ => None,
    }
}

/// The map of `ids`, each identity as the number that stands for it, where each has one.
pub fn from_file_ids(ids: &PathMap<FileId>) -> (numbers: Option<PathMap<u64>>)
    ensures
        numbers is Some == all_test_ids(ids.entries()),
        numbers matches Some(map) ==> test_ids(map.entries()) == ids.entries(),
{
    let mut map: PathMap<u64> = PathMap::new();
    let n = ids.len();
    let mut i: usize = 0;
    assert(test_ids(map.entries()) =~= ids.entries().take(0));
    while i < n
        invariant
            i <= n,
            n == ids.entries().len(),
            distinct_keys(ids.entries()),
            map.entries().len() == i,
            test_ids(map.entries()) == ids.entries().take(i as int),
            forall|j: int| 0 <= j < i ==> spec_id_number((#[trigger] ids.entries()[j]).1) is Some,
        decreases n - i,
    {
        let number = match id_number(*ids.value_at(i)) {
            Some(number) => number,
            None => {
                assert(spec_id_number(ids.entries()[i as int].1) is None);
                return None;
            },
        };
        let key = ids.key_at(i).clone();
        let ghost built = map.entries();
        proof {
            if has_key(built, key@) {
                let at = crate::path_map::index_of(built, key@);
                assert(test_ids(built)[at] == ids.entries().take(i as int)[at]);
                assert(ids.entries()[at].0 == ids.entries()[i as int].0);
            }
        }
        map.push_new(key, number);
        assert(test_ids(map.entries()) =~= ids.entries().take(i + 1)) by {
            assert forall|j: int| 0 <= j < i + 1 implies #[trigger] test_ids(map.entries())[j]
                == ids.entries()[j] by {
                if j < i {
                    assert(map.entries()[j] == built[j]);
                    assert(test_ids(built)[j] == ids.entries().take(i as int)[j]);
                }
            }
        }
        i += 1;
    }
    assert(ids.entries().take(n as int) =~= ids.entries());
    Some(map)
}

/// A state of the debouncer in declarative form.
#[derive(Debug, Clone, PartialEq, Eq)]
pub struct State {
    /// The debounce window in milliseconds. Read from the state to start from only.
    pub timeout: Option<u64>,
    /// The queue of each path.
    pub queues: PathMap<Queue>,
    /// The cached identities.
    pub cache: PathMap<u64>,
    /// The identities that stand in for the file system.
    pub file_system: PathMap<u64>,
    /// The pending half of a rename.
    pub rename_event: Option<Event>,
    /// The pending request for a rescan.
    pub rescan_event: Option<Event>,
    /// The events handed out. Read from the state to expect only.
    pub events: PathMap<Vec<Event>>,
    /// The errors handed out.
    pub errors: Vec<Error>,
}

impl State {
    /// Whether every event of the state can be converted.
    pub open spec fn convertible(&self, time: u64) -> bool {
        &&& forall|i: int|
            0 <= i < self.queues.entries().len() ==> (#[trigger] self.queues.entries()[i]).1.convertible(
                time,
                self.queues.entries()[i].0,
            )
        &&& self.rename_event matches Some(half) ==> half.convertible(time, None)
        &&& self.rescan_event matches Some(rescan) ==> rescan.convertible(time, None)
    }

    /// What the queues convert to.
    pub open spec fn converted_queues(&self, time: u64) -> Seq<(Seq<char>, Seq<DebouncedEventView>)> {
        Seq::new(
            self.queues.entries().len(),
            |i: int|
                (
                    self.queues.entries()[i].0,
                    self.queues.entries()[i].1.converted(time, self.queues.entries()[i].0),
                ),
        )
    }

    /// What the state converts to: the queues, the two slots, no error, the debounce window
    /// of the state or the default, and renames put together.
    pub open spec fn converted(&self, time: u64) -> DebouncerState {
        DebouncerState {
            queues: self.converted_queues(time),
            rename_event: match self.rename_event {
                Some(half) => Some(
                    (
                        half.converted(time, None),
                        match half.file_id {
                            Some(id) => Some(spec_test_id(id)),
                            None => None,
                        },
                    ),
                ),
                None => None,
            },
            rescan_event: match self.rescan_event {
                Some(rescan) => Some(rescan.converted(time, None)),
                None => None,
            },
            errors: Seq::empty(),
            timeout: match self.timeout {
                Some(timeout) => timeout,
                None => DEFAULT_TIMEOUT,
            },
            merge_renames: true,
        }
    }

    /// Whether a debouncer can be written as a state, relative to the instant `time`: no
    /// deadline is before that instant, and every identity has a number that stands for it.
    pub open spec fn writable(data: DebounceDataInner<TestCache>, time: u64) -> bool {
        &&& forall|i: int|
            0 <= i < data.queues.entries().len() ==> all_since(
                (#[trigger] data.queues.entries()[i]).1@,
                time,
            )
        &&& data.rename_event matches Some((half, id)) ==> time <= half.time && (id matches Some(
            found,
        ) ==> spec_id_number(found) is Some)
        &&& data.rescan_event matches Some(rescan) ==> time <= rescan.time
        &&& all_test_ids(data.cache.paths.entries())
        &&& all_test_ids(data.cache.file_system.entries())
    }

    /// Whether the state is what `data` is written as, relative to the instant `time`.
    pub open spec fn writes(&self, data: DebounceDataInner<TestCache>, time: u64) -> bool {
        &&& self.timeout == Some(data.timeout)
        &&& self.queues.entries().len() == data.queues.entries().len()
        &&& forall|i: int|
            0 <= i < data.queues.entries().len() ==> (#[trigger] self.queues.entries()[i]).0
                == data.queues.entries()[i].0 && self.queues.entries()[i].1.writes(
                data.queues.entries()[i].1@,
                time,
            )
        &&& test_ids(self.cache.entries()) == data.cache.paths.entries()
        &&& test_ids(self.file_system.entries()) == data.cache.file_system.entries()
        &&& match data.rename_event {
            Some((half, id)) => self.rename_event matches Some(tagged) && tagged.writes(
                half@,
                time,
            ) && match id {
                Some(found) => tagged.file_id matches Some(number) && spec_test_id(number)
                    == found,
                None => tagged.file_id is None,
            },
            None => self.rename_event is None,
        }
        &&& match data.rescan_event {
            Some(rescan) => self.rescan_event matches Some(tagged) && tagged.writes(
                rescan@,
                time,
            ),
            None => self.rescan_event is None,
        }
        &&& self.events.entries().len() == 0
        &&& self.errors@.len() == 0
    }

    /// The debouncer written as a state, relative to the instant `time`, where it can be
    /// written so. The errors that wait in it are not written.
    pub fn from_debounce_data_inner(data: &DebounceDataInner<TestCache>, time: u64) -> (written:
        Option<State>)
        ensures
            written is Some == State::writable(*data, time),
            written matches Some(state) ==> state.writes(*data, time),
    {
        let cache = match from_file_ids(&data.cache.paths) {
            Some(cache) => cache,
            None => {
                return None;
            },
        };
        let file_system = match from_file_ids(&data.cache.file_system) {
            Some(file_system) => file_system,
            None => {
                return None;
            },
        };
        let rename_event = match &data.rename_event {
            Some((half, id)) => {
                if half.time < time {
                    return None;
                }
                let mut tagged = Event::from_debounced_event(half, time);
                match id {
                    Some(found) => match id_number(*found) {
                        Some(number) => {
                            tagged.file_id = Some(number);
                        },
                        None => {
                            return None;
                        },
                    },
                    None => {},
                }
                Some(tagged)
            },
            None => None,
        };
        let rescan_event = match &data.rescan_event {
            Some(rescan) => {
                if rescan.time < time {
                    return None;
                }
                Some(Event::from_debounced_event(rescan, time))
            },
            None => None,
        };
        let mut queues: PathMap<Queue> = PathMap::new();
        let n = data.queues.len();
        let mut i: usize = 0;
        while i < n
            invariant
                i <= n,
                n == data.queues.entries().len(),
                distinct_keys(data.queues.entries()),
                queues.entries().len() == i,
                forall|j: int|
                    0 <= j < i ==> all_since((#[trigger] data.queues.entries()[j]).1@, time),
                forall|j: int|
                    0 <= j < i ==> (#[trigger] queues.entries()[j]).0
                        == data.queues.entries()[j].0 && queues.entries()[j].1.writes(
                        data.queues.entries()[j].1@,
                        time,
                    ),
            decreases n - i,
        {
            let tagged = match Queue::from_event_queue(data.queues.value_at(i), time) {
                Some(tagged) => tagged,
                None => {
                    assert(!all_since(data.queues.entries()[i as int].1@, time));
                    return None;
                },
            };
            let key = data.queues.key_at(i).clone();
            let ghost built = queues.entries();
            proof {
                if has_key(built, key@) {
                    let at = crate::path_map::index_of(built, key@);
                    assert(built[at].0 == data.queues.entries()[at].0);
                    assert(data.queues.entries()[at].0 == data.queues.entries()[i as int].0);
                }
            }
            queues.push_new(key, tagged);
            assert forall|j: int| 0 <= j < i + 1 implies (#[trigger] queues.entries()[j]).0
                == data.queues.entries()[j].0 && queues.entries()[j].1.writes(
                data.queues.entries()[j].1@,
                time,
            ) by {
                if j < i {
                    assert(queues.entries()[j] == built[j]);
                }
            }
            i += 1;
        }
        Some(
            State {
                timeout: Some(data.timeout),
                queues,
                cache,
                file_system,
                rename_event,
                rescan_event,
                events: PathMap::new(),
                errors: Vec::new(),
            },
        )
    }

    /// Whether every event of the state can be converted.
    pub fn is_convertible(&self, time: u64) -> (ok: bool)
        ensures
            ok == self.convertible(time),
    {
        let n = self.queues.len();
        let mut i: usize = 0;
        while i < n
            invariant
                i <= n,
                n == self.queues.entries().len(),
                forall|j: int|
                    0 <= j < i ==> (#[trigger] self.queues.entries()[j]).1.convertible(
                        time,
                        self.queues.entries()[j].0,
                    ),
            decreases n - i,
        {
            if !self.queues.value_at(i).is_convertible(time, self.queues.key_at(i).as_str()) {
                return false;
            }
            i += 1;
        }
        let half_ok = match &self.rename_event {
            Some(half) => half.is_convertible(time, None),
            None => true,
        };
        let rescan_ok = match &self.rescan_event {
            Some(rescan) => rescan.is_convertible(time, None),
            None => true,
        };
        half_ok && rescan_ok
    }

    /// The debouncer in this state, with a cache for tests, relative to the instant `time`.
    /// Every event of the state must be convertible: see [`Self::is_convertible`].
    pub fn into_debounce_data_inner(self, time: u64) -> (data: DebounceDataInner<TestCache>)
        requires
            self.convertible(time),
        ensures
            data@ == self.converted(time),
            data.cache.paths.entries() == test_ids(self.cache.entries()),
            data.cache.file_system.entries() == test_ids(self.file_system.entries()),
    {
        let mut queues: PathMap<EventQueue> = PathMap::new();
        let n = self.queues.len();
        let mut i: usize = 0;
        assert(queues_view(queues.entries()) =~= self.converted_queues(time).take(0));
        while i < n
            invariant
                i <= n,
                n == self.queues.entries().len(),
                self.convertible(time),
                distinct_keys(self.queues.entries()),
                queues.entries().len() == i,
                queues_view(queues.entries()) == self.converted_queues(time).take(i as int),
            decreases n - i,
        {
            let key = self.queues.key_at(i).clone();
            let queue = self.queues.value_at(i).to_event_queue(time, key.as_str());
            proof {
                if has_key(queues.entries(), key@) {
                    let at = crate::path_map::index_of(queues.entries(), key@);
                    let built = queues_view(queues.entries());
                    assert(built.len() == queues.entries().len());
                    assert(built.len() == i);
                    assert(built[at].0 == key@);
                    assert(built[at] == self.converted_queues(time).take(i as int)[at]);
                    assert(self.queues.entries()[at].0 == self.queues.entries()[i as int].0);
                }
            }
            let ghost built = queues.entries();
            let ghost target = self.converted_queues(time);
            assert(queue@ == target[i as int].1);
            queues.push_new(key, queue);
            assert forall|j: int| 0 <= j < i + 1 implies #[trigger] queues_view(queues.entries())[j]
                == target[j] by {
                if j < i {
                    assert(queues.entries()[j] == built[j]);
                    assert(queues_view(built)[j] == target.take(i as int)[j]);
                }
            }
            assert(queues_view(queues.entries()) =~= target.take(i + 1));
            i += 1;
        }
        assert(self.converted_queues(time).take(n as int) =~= self.converted_queues(time));
        let cache = TestCache::new(to_file_ids(&self.cache), to_file_ids(&self.file_system));
        let rename_event = match &self.rename_event {
            Some(half) => {
                let id = match half.file_id {
                    Some(id) => Some(FileId::new_inode(id, id)),
                    None => None,
                };
                Some((half.to_debounced_event(time, None), id))
            },
            None => None,
        };
        let rescan_event = match &self.rescan_event {
            Some(rescan) => Some(rescan.to_debounced_event(time, None)),
            None => None,
        };
        let timeout = match self.timeout {
            Some(timeout) => timeout,
            None => DEFAULT_TIMEOUT,
        };
        let data = DebounceDataInner {
            queues,
            cache,
            rename_event,
            rescan_event,
            errors: Vec::new(),
            timeout,
            merge_renames: true,
        };
        assert(data@.errors =~= Seq::empty());
        data
    }
}

/// A debouncer that is written as a state and read again is the debouncer it was, queues,
/// slots, cache and disk, provided that it puts renames together, that no error waits in
/// it, and that every pending event can be read back: see [`readable`].
pub proof fn law_state_round_trip(data: DebounceDataInner<TestCache>, written: State, time: u64)
    requires
        written.writes(data, time),
        data.merge_renames,
        data.errors@.len() == 0,
        forall|i: int, j: int|
            0 <= i < data.queues.entries().len() && 0 <= j < data.queues.entries()[i].1@.len()
                ==> readable(#[trigger] data.queues.entries()[i].1@[j]),
        data.rename_event matches Some((half, _)) ==> readable(half@),
        data.rescan_event matches Some(rescan) ==> readable(rescan@),
    ensures
        written.convertible(time),
        written.converted(time) == data@,
        test_ids(written.cache.entries()) == data.cache.paths.entries(),
        test_ids(written.file_system.entries()) == data.cache.file_system.entries(),
{
    let entries = data.queues.entries();
    let tagged = written.queues.entries();
    assert forall|i: int| 0 <= i < tagged.len() implies (#[trigger] tagged[i]).1.convertible(
        time,
        tagged[i].0,
    ) && tagged[i].1.converted(time, tagged[i].0) == entries[i].1@ by {
        let queue = entries[i].1@;
        assert(tagged[i].1.writes(queue, time));
        assert forall|j: int| 0 <= j < tagged[i].1.events@.len() implies (
        #[trigger] tagged[i].1.events@[j]).convertible(time, Some(tagged[i].0))
            && tagged[i].1.events@[j].converted(time, Some(tagged[i].0)) == queue[j] by {
            assert(readable(entries[i].1@[j]));
            law_event_round_trip(queue[j], tagged[i].1.events@[j], time, Some(tagged[i].0));
        }
        assert(tagged[i].1.converted(time, tagged[i].0) =~= queue);
    }
    assert(written.converted_queues(time) =~= queues_view(entries));
    match data.rename_event {
        Some((half, id)) => {
            law_event_round_trip(half@, written.rename_event->0, time, None);
        },
        None => {},
    }
    match data.rescan_event {
        Some(rescan) => {
            law_event_round_trip(rescan@, written.rescan_event->0, time, None);
        },
        None => {},
    }
    assert(crate::event::errors_view(data.errors@) =~= Seq::empty());
}

/// A test case: the state to start from, what comes in, and the state to expect.
#[derive(Debug, Clone, PartialEq, Eq)]
pub struct TestCase {
    /// The state to start from.
    pub state: State,
    /// The events that come in.
    pub events: Vec<Event>,
    /// The errors that come in.
    pub errors: Vec<Error>,
    /// The state to expect afterwards.
    pub expected: State,
}

/// Whether every kind of `errors` has a tag.
pub open spec fn all_tagged(errors: Seq<crate::event::Error>) -> bool {
    forall|i: int| 0 <= i < errors.len() ==> spec_error_kind_tag((#[trigger] errors[i]).kind) is Some
}

impl TestCase {
    /// Whether the test case is what its parts are written as, relative to the instant
    /// `time`: the debouncer to start from, the events and errors that come in, and the
    /// debouncer to expect.
    pub open spec fn writes(
        &self,
        start: DebounceDataInner<TestCache>,
        events: Seq<DebouncedEvent>,
        errors: Seq<crate::event::Error>,
        expected: DebounceDataInner<TestCache>,
        time: u64,
    ) -> bool {
        &&& self.state.writes(start, time)
        &&& self.expected.writes(expected, time)
        &&& self.events@.len() == events.len()
        &&& forall|i: int|
            0 <= i < events.len() ==> (#[trigger] self.events@[i]).writes(events[i]@, time)
        &&& self.errors@.len() == errors.len()
        &&& forall|i: int|
            0 <= i < errors.len() ==> spec_error_kind_tag(errors[i].kind) == Some(
                (#[trigger] self.errors@[i]).kind@,
            ) && paths_view(self.errors@[i].paths@) == paths_view(errors[i].paths@)
    }

    /// The test case written from its parts, relative to the instant `time`, where each part
    /// can be written: the two debouncers as [`State::from_debounce_data_inner`] says, no
    /// event before that instant, and every error of a kind that has a tag.
    pub fn from_parts(
        start: &DebounceDataInner<TestCache>,
        events: &Vec<DebouncedEvent>,
        errors: &Vec<crate::event::Error>,
        expected: &DebounceDataInner<TestCache>,
        time: u64,
    ) -> (written: Option<TestCase>)
        ensures
            written is Some == (State::writable(*start, time) && State::writable(*expected, time)
                && all_since(crate::event::events_view(events@), time) && all_tagged(errors@)),
            written matches Some(case) ==> case.writes(*start, events@, errors@, *expected, time),
    {
        let state = match State::from_debounce_data_inner(start, time) {
            Some(state) => state,
            None => {
                return None;
            },
        };
        let wanted = match State::from_debounce_data_inner(expected, time) {
            Some(wanted) => wanted,
            None => {
                return None;
            },
        };
        let mut tagged: Vec<Event> = Vec::new();
        let mut i: usize = 0;
        while i < events.len()
            invariant
                i <= events.len(),
                tagged.len() == i,
                forall|j: int|
                    0 <= j < i ==> time <= (#[trigger] crate::event::events_view(events@)[j]).time,
                forall|j: int| 0 <= j < i ==> (#[trigger] tagged@[j]).writes(events@[j]@, time),
            decreases events.len() - i,
        {
            if events[i].time < time {
                assert(crate::event::events_view(events@)[i as int].time < time);
                return None;
            }
            tagged.push(Event::from_debounced_event(&events[i], time));
            i += 1;
        }
        let mut failures: Vec<Error> = Vec::new();
        let mut k: usize = 0;
        while k < errors.len()
            invariant
                k <= errors.len(),
                failures.len() == k,
                forall|j: int|
                    0 <= j < k ==> spec_error_kind_tag((#[trigger] errors@[j]).kind) is Some,
                forall|j: int|
                    0 <= j < k ==> spec_error_kind_tag(errors@[j].kind) == Some(
                        (#[trigger] failures@[j]).kind@,
                    ) && paths_view(failures@[j].paths@) == paths_view(errors@[j].paths@),
            decreases errors.len() - k,
        {
            match Error::from_notify_error(&errors[k]) {
                Some(failure) => {
                    failures.push(failure);
                },
                None => {
                    assert(spec_error_kind_tag(errors@[k as int].kind) is None);
                    return None;
                },
            }
            k += 1;
        }
        Some(TestCase { state, events: tagged, errors: failures, expected: wanted })
    }
}

/// A test case that is written from its parts and read again gives each part as it was: the
/// two debouncers, every event, and every error. The debouncers and the events have to be
/// readable as [`law_state_round_trip`] and [`law_event_round_trip`] ask.
pub proof fn law_test_case_round_trip(
    case: TestCase,
    start: DebounceDataInner<TestCache>,
    events: Seq<DebouncedEvent>,
    errors: Seq<crate::event::Error>,
    expected: DebounceDataInner<TestCache>,
    time: u64,
)
    requires
        case.writes(start, events, errors, expected, time),
        start.merge_renames && expected.merge_renames,
        start.errors@.len() == 0 && expected.errors@.len() == 0,
        forall|i: int, j: int|
            0 <= i < start.queues.entries().len() && 0 <= j < start.queues.entries()[i].1@.len()
                ==> readable(#[trigger] start.queues.entries()[i].1@[j]),
        start.rename_event matches Some((half, _)) ==> readable(half@),
        start.rescan_event matches Some(rescan) ==> readable(rescan@),
        forall|i: int, j: int|
            0 <= i < expected.queues.entries().len() && 0 <= j
                < expected.queues.entries()[i].1@.len() ==> readable(
                #[trigger] expected.queues.entries()[i].1@[j],
            ),
        expected.rename_event matches Some((half, _)) ==> readable(half@),
        expected.rescan_event matches Some(rescan) ==> readable(rescan@),
        forall|i: int| 0 <= i < events.len() ==> readable((#[trigger] events[i])@),
    ensures
        case.state.convertible(time) && case.state.converted(time) == start@,
        case.expected.convertible(time) && case.expected.converted(time) == expected@,
        forall|i: int|
            0 <= i < events.len() ==> (#[trigger] case.events@[i]).convertible(time, None)
                && case.events@[i].converted(time, None) == events[i]@,
        forall|i: int|
            0 <= i < errors.len() ==> (#[trigger] case.errors@[i]).convertible() && (ErrorView {
                kind: spec_error_kind(case.errors@[i].kind@)->0,
                paths: paths_view(case.errors@[i].paths@),
            }) == errors[i]@,
{
    law_state_round_trip(start, case.state, time);
    law_state_round_trip(expected, case.expected, time);
    assert forall|i: int| 0 <= i < events.len() implies (#[trigger] case.events@[i]).convertible(
        time,
        None,
    ) && case.events@[i].converted(time, None) == events[i]@ by {
        assert(readable(events[i]@));
        law_event_round_trip(events[i]@, case.events@[i], time, None);
    }
    assert forall|i: int| 0 <= i < errors.len() implies (#[trigger] case.errors@[i]).convertible()
        && (ErrorView {
        kind: spec_error_kind(case.errors@[i].kind@)->0,
        paths: paths_view(case.errors@[i].paths@),
    }) == errors[i]@ by {
        law_error_round_trip(errors[i], case.errors@[i]);
    }
}

} // verus!
