//! Raw filesystem events, their kinds, and the errors a watcher reports.

use vstd::prelude::*;

verus! {

/// How a file was opened or closed.
#[derive(Clone, Copy, Debug, PartialEq, Eq, Structural, Hash)]
pub enum AccessMode {
    Any,
    Execute,
    Read,
    Write,
    Other,
}

/// What kind of access happened.
#[derive(Clone, Copy, Debug, PartialEq, Eq, Structural, Hash)]
pub enum AccessKind {
    Any,
    Read,
    Open(AccessMode),
    Close(AccessMode),
    Other,
}

/// What was created.
#[derive(Clone, Copy, Debug, PartialEq, Eq, Structural, Hash)]
pub enum CreateKind {
    Any,
    File,
    Folder,
    Other,
}

/// Which part of a file's data changed.
#[derive(Clone, Copy, Debug, PartialEq, Eq, Structural, Hash)]
pub enum DataChange {
    Any,
    Size,
    Content,
    Other,
}

/// Which part of a file's metadata changed.
#[derive(Clone, Copy, Debug, PartialEq, Eq, Structural, Hash)]
pub enum MetadataKind {
    Any,
    AccessTime,
    WriteTime,
    Permissions,
    Ownership,
    Extended,
    Other,
}

/// Which half, or both halves, of a rename an event reports.
#[derive(Clone, Copy, Debug, PartialEq, Eq, Structural, Hash)]
pub enum RenameMode {
    Any,
    To,
    From,
    Both,
    Other,
}

/// What was modified.
#[derive(Clone, Copy, Debug, PartialEq, Eq, Structural, Hash)]
pub enum ModifyKind {
    Any,
    Data(DataChange),
    Metadata(MetadataKind),
    Name(RenameMode),
    Other,
}

/// What was removed.
#[derive(Clone, Copy, Debug, PartialEq, Eq, Structural, Hash)]
pub enum RemoveKind {
    Any,
    File,
    Folder,
    Other,
}

/// The kind of a raw event.
#[derive(Clone, Copy, Debug, PartialEq, Eq, Structural, Hash)]
pub enum EventKind {
    Any,
    Access(AccessKind),
    Create(CreateKind),
    Modify(ModifyKind),
    Remove(RemoveKind),
    Other,
}

/// A flag attached to an event.
#[derive(Clone, Copy, Debug, PartialEq, Eq, Structural, Hash)]
pub enum Flag {
    /// The watcher lost track of the tree; whoever listens has to look at it again.
    Rescan,
}

/// A raw event as the watcher reports it.
#[derive(Clone, Debug, PartialEq, Eq)]
pub struct Event {
    pub kind: EventKind,
    /// The paths the event is about. A rename of both halves has source, then target.
    pub paths: Vec<String>,
    /// Groups events that the platform reported as parts of one change.
    pub tracker: Option<usize>,
    pub flag: Option<Flag>,
    pub info: Option<String>,
}

/// What an [`Event`] holds, with its strings as sequences of characters.
pub struct EventView {
    pub kind: EventKind,
    pub paths: Seq<Seq<char>>,
    pub tracker: Option<usize>,
    pub flag: Option<Flag>,
    pub info: Option<Seq<char>>,
}

/// The sequences of characters that `paths` hold, in order.
pub open spec fn paths_view(paths: Seq<String>) -> Seq<Seq<char>> {
    Seq::new(paths.len(), |i: int| paths[i]@)
}

/// The characters that `text` holds, if it holds any string.
pub open spec fn text_view(text: Option<String>) -> Option<Seq<char>> {
    match text {
        Some(s) => Some(s@),
        None => None,
    }
}

impl View for Event {
    type V = EventView;

    open spec fn view(&self) -> EventView {
        EventView {
            kind: self.kind,
            paths: paths_view(self.paths@),
            tracker: self.tracker,
            flag: self.flag,
            info: text_view(self.info),
        }
    }
}

impl EventView {
    /// Whether the event asks for a rescan.
    pub open spec fn need_rescan(self) -> bool {
        match self.flag {
            Some(Flag::Rescan) => true,
            None => false,
        }
    }
}

impl Event {
    /// An event of the given kind about no path, with nothing else set.
    pub fn new(kind: EventKind) -> (event: Event)
        ensures
            event@ == (EventView {
                kind,
                paths: Seq::empty(),
                tracker: None,
                flag: None,
                info: None,
            }),
    {
        let event = Event { kind, paths: Vec::new(), tracker: None, flag: None, info: None };
        assert(event@.paths =~= Seq::empty());
        event
    }

    /// The same event, about one more path.
    pub fn add_path(self, path: String) -> (event: Event)
        ensures
            event@ == (EventView { paths: self@.paths.push(path@), ..self@ }),
    {
        let mut event = self;
        event.paths.push(path);
        assert(event@.paths =~= self@.paths.push(path@));
        event
    }

    /// The same event with its tracker set.
    pub fn set_tracker(self, tracker: usize) -> (event: Event)
        ensures
            event@ == (EventView { tracker: Some(tracker), ..self@ }),
    {
        let mut event = self;
        event.tracker = Some(tracker);
        event
    }

    /// The same event with its flag set.
    pub fn set_flag(self, flag: Flag) -> (event: Event)
        ensures
            event@ == (EventView { flag: Some(flag), ..self@ }),
    {
        let mut event = self;
        event.flag = Some(flag);
        event
    }

    /// The same event with its informational text set.
    pub fn set_info(self, info: String) -> (event: Event)
        ensures
            event@ == (EventView { info: Some(info@), ..self@ }),
    {
        let mut event = self;
        event.info = Some(info);
        event
    }

    /// Whether the event asks for a rescan.
    pub fn need_rescan(&self) -> (rescan: bool)
        ensures
            rescan == self@.need_rescan(),
    {
        match self.flag {
            Some(Flag::Rescan) => true,
            None => false,
        }
    }
}

/// An event together with the instant, in milliseconds, at which its debounce window ends.
#[derive(Clone, Debug, PartialEq, Eq)]
pub struct DebouncedEvent {
    pub event: Event,
    /// The deadline: the instant of arrival plus the timeout in force then.
    pub time: u64,
}

/// What a [`DebouncedEvent`] holds.
pub struct DebouncedEventView {
    pub event: EventView,
    pub time: u64,
}

impl View for DebouncedEvent {
    type V = DebouncedEventView;

    open spec fn view(&self) -> DebouncedEventView {
        DebouncedEventView { event: self.event@, time: self.time }
    }
}

/// The views of `events`, in order.
pub open spec fn events_view(events: Seq<DebouncedEvent>) -> Seq<DebouncedEventView> {
    Seq::new(events.len(), |i: int| events[i]@)
}

impl DebouncedEvent {
    /// Pairs an event with its deadline.
    pub fn new(event: Event, time: u64) -> (debounced: DebouncedEvent)
        ensures
            debounced@ == (DebouncedEventView { event: event@, time }),
    {
        DebouncedEvent { event, time }
    }
}

/// The kinds of error a watcher reports.
#[derive(Clone, Copy, Debug, PartialEq, Eq, Structural, Hash)]
pub enum ErrorKind {
    PathNotFound,
    WatchNotFound,
    MaxFilesWatch,
    Other,
}

/// An error of the watcher, with the paths it concerns.
#[derive(Clone, Debug, PartialEq, Eq)]
pub struct Error {
    pub kind: ErrorKind,
    pub paths: Vec<String>,
}

/// What an [`Error`] holds.
pub struct ErrorView {
    pub kind: ErrorKind,
    pub paths: Seq<Seq<char>>,
}

impl View for Error {
    type V = ErrorView;

    open spec fn view(&self) -> ErrorView {
        ErrorView { kind: self.kind, paths: paths_view(self.paths@) }
    }
}

/// The views of `errors`, in order.
pub open spec fn errors_view(errors: Seq<Error>) -> Seq<ErrorView> {
    Seq::new(errors.len(), |i: int| errors[i]@)
}

impl Error {
    /// An error of the given kind that concerns no path.
    pub fn new(kind: ErrorKind) -> (error: Error)
        ensures
            error@ == (ErrorView { kind, paths: Seq::empty() }),
    {
        let error = Error { kind, paths: Vec::new() };
        assert(error@.paths =~= Seq::empty());
        error
    }

    /// The same error, concerning one more path.
    pub fn add_path(self, path: String) -> (error: Error)
        ensures
            error@ == (ErrorView { paths: self@.paths.push(path@), ..self@ }),
    {
        let mut error = self;
        error.paths.push(path);
        assert(error@.paths =~= self@.paths.push(path@));
        error
    }
}

} // verus!
