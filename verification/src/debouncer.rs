//! The debouncer: it takes raw events in, merges them per path, puts the halves of renames
//! together, and hands out what has been quiet for the debounce window.

use vstd::prelude::*;

use crate::cache::{add_path_ok, remove_path_ok, FileIdCache};
use crate::event::{
    errors_view, events_view, DebouncedEvent, DebouncedEventView, Error, Event, EventKind,
    ModifyKind, RenameMode,
};
use crate::file_id::FileId;
use crate::path::{are_plain_paths, is_plain, is_plain_path};
use crate::model::{
    admissible, cache_enqueued, cache_flushed, completes, due_events, emitted, enqueued, flushed,
    lemma_remaining_keys, pushed, queue_of, remaining, rename_both, settled,
    spec_identity_matches, spec_is_counterpart, spec_route, well_formed, with_half_flushed, Route,
    State,
};
use crate::path_map::{
    distinct_keys, has_key, index_of, lemma_index_of, with_entry, without_key, PathMap,
};
use crate::queue::Queue;
use crate::sort::sort_events;

verus! {

/// The debounce window, in milliseconds, of a debouncer that was given none.
pub const DEFAULT_TIMEOUT: u64 = 50;

/// The settings of a debouncer.
#[derive(Clone, Copy, Debug, PartialEq, Eq, Structural)]
pub struct Config {
    /// The debounce window, in milliseconds.
    pub timeout: u64,
    /// Whether the two halves of a rename are put together.
    pub merge_renames: bool,
}

impl Default for Config {
    /// A window of [`DEFAULT_TIMEOUT`] milliseconds, with renames put together.
    fn default() -> (config: Config)
        ensures
            config == (Config { timeout: DEFAULT_TIMEOUT, merge_renames: true }),
    {
        Config { timeout: DEFAULT_TIMEOUT, merge_renames: true }
    }
}

/// The queues of `entries`, each as the sequence of events it holds.
pub open spec fn queues_view(entries: Seq<(Seq<char>, Queue)>) -> Seq<
    (Seq<char>, Seq<DebouncedEventView>),
> {
    Seq::new(entries.len(), |i: int| (entries[i].0, entries[i].1@))
}

/// A pending half of a rename with the identity stored beside it, as plain values.
pub open spec fn half_view(half: Option<(DebouncedEvent, Option<FileId>)>) -> Option<
    (DebouncedEventView, Option<FileId>),
> {
    match half {
        Some((event, id)) => Some((event@, id)),
        None => None,
    }
}

/// A pending event, as plain values.
pub open spec fn slot_view(slot: Option<DebouncedEvent>) -> Option<DebouncedEventView> {
    match slot {
        Some(event) => Some(event@),
        None => None,
    }
}

/// The state of the debouncer: the queues of the paths with pending events, the cache of
/// file identities, the two slots, and the errors not yet handed out.
#[derive(Debug)]
pub struct DebounceDataInner<T> {
    pub queues: PathMap<Queue>,
    pub cache: T,
    pub rename_event: Option<(DebouncedEvent, Option<FileId>)>,
    pub rescan_event: Option<DebouncedEvent>,
    pub errors: Vec<Error>,
    pub timeout: u64,
    pub merge_renames: bool,
}

impl<T> View for DebounceDataInner<T> {
    type V = State;

    open spec fn view(&self) -> State {
        State {
            queues: queues_view(self.queues.entries()),
            rename_event: half_view(self.rename_event),
            rescan_event: slot_view(self.rescan_event),
            errors: errors_view(self.errors@),
            timeout: self.timeout,
            merge_renames: self.merge_renames,
        }
    }
}

/// The queues as plain values have the keys of the queues, and hold for each key what its
/// queue holds.
proof fn lemma_queues_view(entries: Seq<(Seq<char>, Queue)>, key: Seq<char>)
    requires
        distinct_keys(entries),
    ensures
        distinct_keys(queues_view(entries)),
        has_key(queues_view(entries), key) == has_key(entries, key),
        has_key(entries, key) ==> index_of(queues_view(entries), key) == index_of(entries, key),
        has_key(entries, key) ==> queue_of(queues_view(entries), key) == entries[index_of(
            entries,
            key,
        )].1@,
        !has_key(entries, key) ==> queue_of(queues_view(entries), key) == Seq::<
            DebouncedEventView,
        >::empty(),
{
    let view = queues_view(entries);
    assert forall|i: int, j: int| 0 <= i < j < view.len() implies (#[trigger] view[i]).0 != (
    #[trigger] view[j]).0 by {
        assert(entries[i].0 != entries[j].0);
    }
    if has_key(entries, key) {
        let at = index_of(entries, key);
        assert(view[at].0 == key);
        lemma_index_of(view, at);
    } else if has_key(view, key) {
        let at = index_of(view, key);
        assert(entries[at].0 == key);
    }
}

/// Where an event goes.
pub fn route(event: &Event, merge_renames: bool) -> (route: Route)
    ensures
        route == spec_route(event@, merge_renames),
{
    if event.need_rescan() {
        Route::Rescan
    } else if merge_renames {
        match event.kind {
            EventKind::Modify(ModifyKind::Name(RenameMode::From)) => Route::RenameFrom,
            EventKind::Modify(ModifyKind::Name(RenameMode::To)) => Route::RenameTo,
            EventKind::Modify(ModifyKind::Name(RenameMode::Both)) => Route::RenameBoth,
            _ => Route::Plain,
        }
    } else {
        Route::Plain
    }
}

/// Whether each of `paths` is spelled in the one way.
pub fn are_plain(paths: &Vec<String>) -> (ok: bool)
    ensures
        ok == are_plain_paths(crate::event::paths_view(paths@)),
{
    let mut i: usize = 0;
    while i < paths.len()
        invariant
            i <= paths.len(),
            forall|j: int| 0 <= j < i ==> is_plain_path(#[trigger] crate::event::paths_view(paths@)[j]),
        decreases paths.len() - i,
    {
        if !is_plain(paths[i].as_str()) {
            assert(!is_plain_path(crate::event::paths_view(paths@)[i as int]));
            return false;
        }
        i += 1;
    }
    true
}

/// Whether an event can come in: it asks for a rescan, or it names a path and spells its
/// paths in the one way.
pub fn is_admissible(event: &Event) -> (ok: bool)
    ensures
        ok == admissible(event@),
{
    event.need_rescan() || (event.paths.len() >= 1 && are_plain(&event.paths))
}

/// Whether an event of kind `incoming` is the other half of a pending half of kind `pending`.
pub fn is_counterpart(pending: EventKind, incoming: EventKind) -> (counterpart: bool)
    ensures
        counterpart == spec_is_counterpart(pending, incoming),
{
    match (pending, incoming) {
        (
            EventKind::Modify(ModifyKind::Name(RenameMode::From)),
            EventKind::Modify(ModifyKind::Name(RenameMode::To)),
        ) => true,
        (
            EventKind::Modify(ModifyKind::Name(RenameMode::To)),
            EventKind::Modify(ModifyKind::Name(RenameMode::From)),
        ) => true,
        _ => false,
    }
}

/// Whether a stored identity lets an incoming half with identity `seen` pass.
pub fn identity_matches(stored: Option<FileId>, seen: Option<FileId>) -> (matches: bool)
    ensures
        matches == spec_identity_matches(stored, seen),
{
    match stored {
        None => true,
        Some(expected) => match seen {
            Some(found) => expected == found,
            None => false,
        },
    }
}

/// The one event for a rename whose source half `second` came last: from the first path of
/// `second` to `to`.
fn rename_event(second: Event, to: String) -> (both: Event)
    requires
        second@.paths.len() >= 1,
    ensures
        both@ == rename_both(second@.paths[0], to@, second@),
{
    let from = second.paths[0].clone();
    rename_event_to(second, from, to)
}

/// The one event for a rename from `from` to `to`; what else it carries comes from `second`.
fn rename_event_to(second: Event, from: String, to: String) -> (both: Event)
    ensures
        both@ == rename_both(from@, to@, second@),
{
    let mut paths: Vec<String> = Vec::new();
    paths.push(from);
    paths.push(to);
    let both = Event {
        kind: EventKind::Modify(ModifyKind::Name(RenameMode::Both)),
        paths,
        tracker: second.tracker,
        flag: second.flag,
        info: second.info,
    };
    assert(both@.paths =~= seq![from@, to@]);
    both
}

impl<T> DebounceDataInner<T> {
    /// A debouncer without pending events, with the given cache and debounce window.
    pub fn new(cache: T, timeout: u64, merge_renames: bool) -> (data: DebounceDataInner<T>)
        ensures
            data.cache == cache,
            data@ == (State {
                queues: Seq::empty(),
                rename_event: None,
                rescan_event: None,
                errors: Seq::empty(),
                timeout,
                merge_renames,
            }),
            well_formed(data@),
    {
        let data = DebounceDataInner {
            queues: PathMap::new(),
            cache,
            rename_event: None,
            rescan_event: None,
            errors: Vec::new(),
            timeout,
            merge_renames,
        };
        assert(data@.queues =~= Seq::empty());
        assert(data@.errors =~= Seq::empty());
        data
    }

    /// A debouncer without pending events, with the given cache and settings.
    pub fn with_config(cache: T, config: Config) -> (data: DebounceDataInner<T>)
        ensures
            data.cache == cache,
            data@ == (State {
                queues: Seq::empty(),
                rename_event: None,
                rescan_event: None,
                errors: Seq::empty(),
                timeout: config.timeout,
                merge_renames: config.merge_renames,
            }),
            well_formed(data@),
    {
        DebounceDataInner::new(cache, config.timeout, config.merge_renames)
    }

    /// Whether the state is well formed: a pending half of a rename names a path and spells
    /// its paths in the one way. (That no path has two queues, the map of the queues sees
    /// to.)
    pub fn is_well_formed(&self) -> (ok: bool)
        ensures
            ok == well_formed(self@),
    {
        let _ = self.queues.len();
        proof {
            lemma_queues_view(self.queues.entries(), Seq::empty());
        }
        match &self.rename_event {
            Some((half, _)) => half.event.paths.len() >= 1 && are_plain(&half.event.paths),
            None => true,
        }
    }

    /// Sets the debounce window for the events that come from now on. Deadlines that were
    /// computed before stay as they are.
    pub fn set_timeout(&mut self, timeout: u64)
        ensures
            final(self)@ == (State { timeout, ..old(self)@ }),
            final(self).cache == old(self).cache,
    {
        self.timeout = timeout;
    }

    /// Keeps an error of the watcher for the next flush.
    pub fn enqueue_error(&mut self, error: Error)
        ensures
            final(self)@ == (State { errors: old(self)@.errors.push(error@), ..old(self)@ }),
            final(self).cache == old(self).cache,
    {
        let ghost before = errors_view(self.errors@);
        self.errors.push(error);
        assert(errors_view(self.errors@) =~= before.push(error@));
    }

    /// Puts an event with its deadline into the queue of `path`, merged as the merge table
    /// says.
    fn push_event(&mut self, path: String, event: Event, time: u64)
        requires
            is_plain_path(path@),
        ensures
            final(self)@ == (State {
                queues: pushed(old(self)@.queues, path@, event@, time),
                ..old(self)@
            }),
            final(self).cache == old(self).cache,
            distinct_keys(old(self)@.queues),
            distinct_keys(final(self)@.queues),
    {
        let ghost entries = self.queues.entries();
        let ghost before = self@.queues;
        let place = self.queues.position(path.as_str());
        proof {
            lemma_queues_view(entries, path@);
        }
        match place {
            Some(at) => {
                let mut queue = self.queues.replace_at(at, Queue::new());
                assert(queue@ == queue_of(before, path@));
                queue.push(event, time);
                if queue.is_empty() {
                    let _ = self.queues.remove_at(at);
                    assert(self.queues.entries() =~= entries.remove(at as int));
                    assert(self@.queues =~= without_key(before, path@));
                } else {
                    let _ = self.queues.replace_at(at, queue);
                    assert(self.queues.entries() =~= entries.update(at as int, (path@, queue)));
                    assert(self@.queues =~= with_entry(before, path@, queue@));
                }
            },
            None => {
                let mut queue = Queue::new();
                queue.push(event, time);
                self.queues.push_new(path, queue);
                assert(self@.queues =~= with_entry(before, path@, queue@));
            },
        }
        proof {
            lemma_queues_view(self.queues.entries(), path@);
        }
    }

    /// Whether `event`, for whose path the identity `seen` was found, completes the pending
    /// half of a rename.
    pub fn completes_rename(&self, event: &Event, seen: Option<FileId>) -> (complete: bool)
        ensures
            complete == completes(self@, event@, seen),
    {
        match &self.rename_event {
            Some((half, stored)) => is_counterpart(half.event.kind, event.kind)
                && identity_matches(*stored, seen),
            None => false,
        }
    }

    /// Takes an event in at `now`, given the identity `seen` that was found for its first
    /// path. The cache is not touched: this is all of [`Self::enqueue`] but its dealings
    /// with the cache.
    pub fn accept(&mut self, event: Event, now: u64, seen: Option<FileId>)
        requires
            well_formed(old(self)@),
            admissible(event@),
            now + old(self).timeout <= u64::MAX,
        ensures
            final(self)@ == enqueued(old(self)@, event@, now, seen),
            final(self).cache == old(self).cache,
            well_formed(final(self)@),
    {
        let time = now + self.timeout;
        let ghost before = self@;
        match route(&event, self.merge_renames) {
            Route::Rescan => {
                let time = match &self.rescan_event {
                    Some(pending) => if pending.time > time {
                        pending.time
                    } else {
                        time
                    },
                    None => time,
                };
                self.rescan_event = Some(DebouncedEvent { event, time });
            },
            Route::RenameFrom => {
                if self.completes_rename(&event, seen) {
                    let pending = self.rename_event.take();
                    let (half, _) = pending.unwrap();
                    let from = event.paths[0].clone();
                    let to = half.event.paths[0].clone();
                    let both = rename_event(event, to);
                    let _ = self.queues.len();
                    self.push_event(from, both, time);
                } else {
                    self.flush_rename_event();
                    self.rename_event = Some((DebouncedEvent { event, time }, seen));
                }
            },
            Route::RenameTo => {
                if self.completes_rename(&event, seen) {
                    let pending = self.rename_event.take();
                    let (half, _) = pending.unwrap();
                    let from = half.event.paths[0].clone();
                    let key = half.event.paths[0].clone();
                    let to = event.paths[0].clone();
                    let both = rename_event_to(event, from, to);
                    self.push_event(key, both, time);
                } else {
                    self.flush_rename_event();
                    self.rename_event = Some((DebouncedEvent { event, time }, seen));
                }
            },
            Route::RenameBoth | Route::Plain => {
                self.flush_rename_event();
                let path = event.paths[0].clone();
                self.push_event(path, event, time);
            },
        }
    }

    /// Sends the pending half of a rename, if there is one, to the queue of its path.
    fn flush_rename_event(&mut self)
        requires
            well_formed(old(self)@),
        ensures
            final(self)@ == with_half_flushed(old(self)@),
            final(self).cache == old(self).cache,
            well_formed(final(self)@),
    {
        let pending = self.rename_event.take();
        match pending {
            Some((half, _)) => {
                let path = half.event.paths[0].clone();
                assert(path@ == half@.event.paths[0]);
                self.push_event(path, half.event, half.time);
            },
            None => {
                let _ = self.queues.len();
                proof {
                    lemma_queues_view(self.queues.entries(), Seq::empty());
                }
            },
        }
    }
}

/// The identity behind a reference, if there is one.
fn copied(id: Option<&FileId>) -> (copy: Option<FileId>)
    ensures
        match id {
            Some(found) => copy == Some(*found),
            None => copy is None,
        },
{
    match id {
        Some(found) => Some(*found),
        None => None,
    }
}

impl<T> DebounceDataInner<T> {
    /// Moves the events that are due at `now` out of the queues, in the order of the queues,
    /// and drops the queues that this leaves empty.
    fn drain_queues(&mut self, now: u64) -> (due: Vec<DebouncedEvent>)
        ensures
            events_view(due@) == due_events(old(self)@.queues, now),
            final(self)@ == (State { queues: remaining(old(self)@.queues, now), ..old(self)@ }),
            final(self).cache == old(self).cache,
            distinct_keys(final(self)@.queues),
    {
        let ghost before = self@.queues;
        let mut pending: PathMap<Queue> = PathMap::new();
        core::mem::swap(&mut self.queues, &mut pending);
        let ghost entries = pending.entries();
        let mut due: Vec<DebouncedEvent> = Vec::new();
        let n = pending.len();
        let mut i: usize = 0;
        assert(before.take(0) =~= Seq::empty());
        assert(events_view(due@) =~= Seq::empty());
        assert(queues_view(self.queues.entries()) =~= Seq::empty());
        while i < n
            invariant
                i <= n,
                n == entries.len(),
                before == queues_view(entries),
                distinct_keys(entries),
                pending.entries().len() == n,
                forall|j: int| 0 <= j < n ==> (#[trigger] pending.entries()[j]).0 == entries[j].0,
                forall|j: int| i <= j < n ==> (#[trigger] pending.entries()[j]) == entries[j],
                events_view(due@) == due_events(before.take(i as int), now),
                queues_view(self.queues.entries()) == remaining(before.take(i as int), now),
                self.cache == old(self).cache,
                half_view(self.rename_event) == old(self)@.rename_event,
                slot_view(self.rescan_event) == old(self)@.rescan_event,
                errors_view(self.errors@) == old(self)@.errors,
                self.timeout == old(self).timeout,
                self.merge_renames == old(self).merge_renames,
            decreases n - i,
        {
            let ghost kept = self.queues.entries();
            let ghost seen = before.take(i as int);
            let ghost next = before.take(i + 1);
            let mut queue = pending.replace_at(i, Queue::new());
            assert(queue@ == before[i as int].1);
            queue.drain_due(now, &mut due);
            proof {
                assert(next.drop_last() =~= seen);
                assert(next.last() == before[i as int]);
            }
            if !queue.is_empty() {
                let key = pending.key_at(i).clone();
                proof {
                    if has_key(kept, key@) {
                        let at = index_of(kept, key@);
                        assert(queues_view(kept)[at].0 == key@);
                        lemma_remaining_keys(seen, now, key@);
                        let found = index_of(seen, key@);
                        assert(entries[found].0 == entries[i as int].0);
                    }
                }
                self.queues.push_new(key, queue);
                assert(queues_view(self.queues.entries()) =~= remaining(seen, now).push(
                    (before[i as int].0, queue@),
                ));
            }
            i += 1;
        }
        assert(before.take(n as int) =~= before);
        let _ = self.queues.len();
        proof {
            lemma_queues_view(self.queues.entries(), Seq::empty());
        }
        due
    }
}

impl<T: FileIdCache> DebounceDataInner<T> {
    /// Hands out what is due at `now`: the events, then the errors that came since the last
    /// flush.
    ///
    /// A pending half of a rename whose deadline has come goes to the queue of its path as
    /// the half it is; so does one whose deadline has not come, where a rescan is about to
    /// be emitted. While a request for a rescan waits for its deadline, no event is handed
    /// out. Once it is due, the cache is rescanned and the request comes first. Then come,
    /// by deadline, the events at the front of each queue whose deadline is not after
    /// `now`; events with the same deadline come in the order of their queues, and within
    /// a queue in the order in which they came in. A queue that is left empty is dropped.
    pub fn flush(&mut self, now: u64) -> (batch: (Vec<DebouncedEvent>, Vec<Error>))
        requires
            well_formed(old(self)@),
        ensures
            events_view(batch.0@) == emitted(old(self)@, now),
            errors_view(batch.1@) == old(self)@.errors,
            final(self)@ == flushed(old(self)@, now),
            cache_flushed(old(self).cache, old(self)@, now, final(self).cache),
            well_formed(final(self)@),
    {
        let ghost before = self@;
        let mut errors: Vec<Error> = Vec::new();
        core::mem::swap(&mut self.errors, &mut errors);
        assert(errors_view(self.errors@) =~= Seq::empty());
        let rescan_is_due = match &self.rescan_event {
            Some(rescan) => rescan.time <= now,
            None => false,
        };
        let half_is_due = match &self.rename_event {
            Some((half, _)) => half.time <= now || rescan_is_due,
            None => false,
        };
        if half_is_due {
            self.flush_rename_event();
        }
        let _ = self.queues.len();
        assert(self@ == (State { errors: Seq::empty(), ..settled(before, now) }));
        if self.rescan_event.is_some() && !rescan_is_due {
            return (Vec::new(), errors);
        }
        let rescan = self.rescan_event.take();
        let due = self.drain_queues(now);
        let sorted = sort_events(due);
        match rescan {
            Some(request) => {
                self.cache.rescan();
                let mut events: Vec<DebouncedEvent> = Vec::new();
                events.push(request);
                let mut rest = sorted;
                let ghost tail = events_view(rest@);
                events.append(&mut rest);
                assert(events_view(events@) =~= seq![request@] + tail);
                (events, errors)
            },
            None => (sorted, errors),
        }
    }

    /// Takes a raw event in at `now`.
    ///
    /// An event that asks for a rescan has the cache rescanned and goes to the rescan slot,
    /// which keeps the later deadline. With `merge_renames`, the source half of a rename
    /// waits in the rename slot for the target half, and the other way round; the second
    /// half completes the pair if the identity stored with the first is the one found for
    /// the second, or if none was stored. The pair goes to the queue of the source path as
    /// one event. Any other event sends a waiting half to the queue of its path first. A
    /// created path is added to the cache, a removed one is taken out, and a rename moves
    /// the entry. Every other event is merged into the queue of its first path.
    pub fn enqueue(&mut self, event: Event, now: u64)
        requires
            well_formed(old(self)@),
            admissible(event@),
            now + old(self).timeout <= u64::MAX,
        ensures
            well_formed(final(self)@),
            exists|seen: Option<FileId>|
                {
                    &&& #[trigger] cache_enqueued(
                        old(self).cache,
                        old(self)@,
                        event@,
                        seen,
                        final(self).cache,
                    )
                    &&& final(self)@ == enqueued(old(self)@, event@, now, seen)
                },
    {
        let ghost before = self@;
        let ghost cache = self.cache;
        proof {
            if !event@.need_rescan() {
                assert(event@.paths[0] == event.paths@[0]@);
                assert(is_plain_path(event@.paths[0]));
                if event.paths@.len() >= 2 {
                    assert(event@.paths[1] == event.paths@[1]@);
                    assert(is_plain_path(event@.paths[1]));
                }
            }
        }
        match route(&event, self.merge_renames) {
            Route::Rescan => {
                self.cache.rescan();
                self.accept(event, now, None);
                assert(cache_enqueued(cache, before, event@, None, self.cache));
            },
            Route::RenameFrom => {
                let seen = copied(self.cache.cached_file_id(event.paths[0].as_str()));
                if self.completes_rename(&event, seen) {
                    self.cache.remove_path(event.paths[0].as_str());
                }
                self.accept(event, now, seen);
                assert(cache_enqueued(cache, before, event@, seen, self.cache));
            },
            Route::RenameTo => {
                self.cache.add_path(event.paths[0].as_str());
                let ghost mid = self.cache;
                let seen = copied(self.cache.cached_file_id(event.paths[0].as_str()));
                if self.completes_rename(&event, seen) {
                    match &self.rename_event {
                        Some((half, _)) => {
                            self.cache.remove_path(half.event.paths[0].as_str());
                        },
                        None => {},
                    }
                }
                self.accept(event, now, seen);
                assert(cache_enqueued(cache, before, event@, seen, self.cache)) by {
                    assert(add_path_ok(cache, event@.paths[0], mid));
                }
            },
            Route::RenameBoth => {
                if event.paths.len() >= 2 {
                    self.cache.remove_path(event.paths[0].as_str());
                    let ghost mid = self.cache;
                    self.cache.add_path(event.paths[1].as_str());
                    assert(remove_path_ok(cache, event@.paths[0], mid) && add_path_ok(
                        mid,
                        event@.paths[1],
                        self.cache,
                    ));
                }
                self.accept(event, now, None);
                assert(cache_enqueued(cache, before, event@, None, self.cache));
            },
            Route::Plain => {
                match event.kind {
                    EventKind::Create(_) => {
                        self.cache.add_path(event.paths[0].as_str());
                    },
                    EventKind::Remove(_) => {
                        self.cache.remove_path(event.paths[0].as_str());
                    },
                    _ => {},
                }
                self.accept(event, now, None);
                assert(cache_enqueued(cache, before, event@, None, self.cache));
            },
        }
    }
}

} // verus!
