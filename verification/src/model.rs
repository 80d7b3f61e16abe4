//! The debouncer as a state machine over plain values: what each operation makes of a state.

use vstd::prelude::*;

use crate::cache::{add_path_ok, lookup, remove_path_ok, FileIdCache};
use crate::event::{
    DebouncedEventView, ErrorView, EventKind, EventView, ModifyKind, RenameMode,
};
use crate::file_id::FileId;
use crate::path::are_plain_paths;
use crate::path_map::{has_key, index_of, value_of, with_entry, without_key};
use crate::queue::{due_prefix, merged, not_due};
use crate::sort::sort_by_deadline;

verus! {

/// The state of a debouncer, without its cache.
pub struct State {
    /// The pending events of each path, in the order in which the paths got their queues.
    pub queues: Seq<(Seq<char>, Seq<DebouncedEventView>)>,
    /// The half of a rename that waits for its counterpart, with the identity seen for its
    /// path when it came.
    pub rename_event: Option<(DebouncedEventView, Option<FileId>)>,
    /// The latest request for a rescan that has not been emitted.
    pub rescan_event: Option<DebouncedEventView>,
    /// The errors that came since the last flush.
    pub errors: Seq<ErrorView>,
    /// The debounce window, in milliseconds, for events that come from now on.
    pub timeout: u64,
    /// Whether the two halves of a rename are put together.
    pub merge_renames: bool,
}

/// Where an event goes when it comes in.
#[derive(Clone, Copy, Debug, PartialEq, Eq, Structural)]
pub enum Route {
    /// To the rescan slot.
    Rescan,
    /// To the rename slot, as the source half of a rename.
    RenameFrom,
    /// To the rename slot, as the target half of a rename.
    RenameTo,
    /// To the queue of its first path; the cache learns of the rename.
    RenameBoth,
    /// To the queue of its first path.
    Plain,
}

/// Where `event` goes.
pub open spec fn spec_route(event: EventView, merge_renames: bool) -> Route {
    if event.need_rescan() {
        Route::Rescan
    } else if merge_renames {
        match event.kind {
            EventKind::Modify(ModifyKind::Name(RenameMode::From)) => Route::RenameFrom,
            EventKind::Modify(ModifyKind::Name(RenameMode::To)) => Route::RenameTo,
            EventKind::Modify(ModifyKind::Name(RenameMode::Both)) => Route::RenameBoth,
            _ => Route::Plain,
        }
    } else {
        Route::Plain
    }
}

/// Whether an event can come in: it asks for a rescan, or it names a path and spells its
/// paths in the one way.
pub open spec fn admissible(event: EventView) -> bool {
    event.need_rescan() || (event.paths.len() >= 1 && are_plain_paths(event.paths))
}

/// Whether the state is well formed: no path has two queues, and a pending half of a rename
/// names a path and spells its paths in the one way.
pub open spec fn well_formed(s: State) -> bool {
    &&& crate::path_map::distinct_keys(s.queues)
    &&& s.rename_event matches Some((half, _)) ==> half.event.paths.len() >= 1
        && are_plain_paths(half.event.paths)
}

/// The events pending for `path`.
pub open spec fn queue_of(
    queues: Seq<(Seq<char>, Seq<DebouncedEventView>)>,
    path: Seq<char>,
) -> Seq<DebouncedEventView> {
    match value_of(queues, path) {
        Some(queue) => queue,
        None => Seq::empty(),
    }
}

/// The queues after `event` with deadline `time` has come for `path`. A queue that the event
/// leaves empty is taken out.
pub open spec fn pushed(
    queues: Seq<(Seq<char>, Seq<DebouncedEventView>)>,
    path: Seq<char>,
    event: EventView,
    time: u64,
) -> Seq<(Seq<char>, Seq<DebouncedEventView>)> {
    let queue = merged(queue_of(queues, path), event, time);
    if queue.len() == 0 {
        without_key(queues, path)
    } else {
        with_entry(queues, path, queue)
    }
}

/// The state after the pending half of a rename, if there is one, has gone to the queue of
/// its path as the half it is.
pub open spec fn with_half_flushed(s: State) -> State {
    match s.rename_event {
        Some((half, _)) => State {
            queues: pushed(s.queues, half.event.paths[0], half.event, half.time),
            rename_event: None,
            ..s
        },
        None => s,
    }
}

/// The path of the pending half of a rename.
pub open spec fn pending_path(s: State) -> Seq<char> {
    match s.rename_event {
        Some((half, _)) => half.event.paths[0],
        None => Seq::empty(),
    }
}

/// Whether an event of kind `incoming` is the other half of a pending half of kind `pending`.
pub open spec fn spec_is_counterpart(pending: EventKind, incoming: EventKind) -> bool {
    ||| (pending == EventKind::Modify(ModifyKind::Name(RenameMode::From)) && incoming
        == EventKind::Modify(ModifyKind::Name(RenameMode::To)))
    ||| (pending == EventKind::Modify(ModifyKind::Name(RenameMode::To)) && incoming
        == EventKind::Modify(ModifyKind::Name(RenameMode::From)))
}

/// Whether a stored identity lets an incoming half with identity `seen` pass: it is the same,
/// or none was stored.
pub open spec fn spec_identity_matches(stored: Option<FileId>, seen: Option<FileId>) -> bool {
    stored is None || stored == seen
}

/// Whether `event`, for whose path the identity `seen` was found, completes the pending
/// half of a rename.
pub open spec fn completes(s: State, event: EventView, seen: Option<FileId>) -> bool {
    match s.rename_event {
        Some((half, stored)) => spec_is_counterpart(half.event.kind, event.kind)
            && spec_identity_matches(stored, seen),
        None => false,
    }
}

/// The one event that stands for a rename from `from` to `to`; what else it carries comes
/// from `second`, the half that came last.
pub open spec fn rename_both(from: Seq<char>, to: Seq<char>, second: EventView) -> EventView {
    EventView {
        kind: EventKind::Modify(ModifyKind::Name(RenameMode::Both)),
        paths: seq![from, to],
        ..second
    }
}

/// The later of `time` and the deadline of `pending`.
pub open spec fn later(time: u64, pending: Option<DebouncedEventView>) -> u64 {
    match pending {
        Some(event) => if event.time > time {
            event.time
        } else {
            time
        },
        None => time,
    }
}

/// The state after `event` has come in at `now`, where `seen` is the identity found for the
/// first path of the event (it matters for the halves of a rename only).
pub open spec fn enqueued(s: State, event: EventView, now: u64, seen: Option<FileId>) -> State {
    let time = (now + s.timeout) as u64;
    match spec_route(event, s.merge_renames) {
        Route::Rescan => State {
            rescan_event: Some(DebouncedEventView { event, time: later(time, s.rescan_event) }),
            ..s
        },
        Route::RenameFrom => if completes(s, event, seen) {
            let from = event.paths[0];
            let to = pending_path(s);
            State {
                queues: pushed(s.queues, from, rename_both(from, to, event), time),
                rename_event: None,
                ..s
            }
        } else {
            State {
                rename_event: Some((DebouncedEventView { event, time }, seen)),
                ..with_half_flushed(s)
            }
        },
        Route::RenameTo => if completes(s, event, seen) {
            let from = pending_path(s);
            let to = event.paths[0];
            State {
                queues: pushed(s.queues, from, rename_both(from, to, event), time),
                rename_event: None,
                ..s
            }
        } else {
            State {
                rename_event: Some((DebouncedEventView { event, time }, seen)),
                ..with_half_flushed(s)
            }
        },
        Route::RenameBoth | Route::Plain => {
            let flushed = with_half_flushed(s);
            State { queues: pushed(flushed.queues, event.paths[0], event, time), ..flushed }
        },
    }
}

/// Whether `post` can be the cache after `event` has come in, where `pre` was the cache
/// before and `seen` the identity found for the event's first path.
pub open spec fn cache_enqueued<T: FileIdCache>(
    pre: T,
    s: State,
    event: EventView,
    seen: Option<FileId>,
    post: T,
) -> bool {
    match spec_route(event, s.merge_renames) {
        Route::Rescan => T::rescanned(pre, post),
        Route::RenameFrom => {
            &&& seen == lookup(pre.entries(), event.paths[0])
            &&& if completes(s, event, seen) {
                remove_path_ok(pre, event.paths[0], post)
            } else {
                post == pre
            }
        },
        Route::RenameTo => exists|mid: T|
            {
                &&& add_path_ok(pre, event.paths[0], mid)
                &&& seen == lookup(mid.entries(), event.paths[0])
                &&& if completes(s, event, seen) {
                    remove_path_ok(mid, pending_path(s), post)
                } else {
                    post == mid
                }
            },
        Route::RenameBoth => if event.paths.len() >= 2 {
            exists|mid: T|
                remove_path_ok(pre, event.paths[0], mid) && add_path_ok(mid, event.paths[1], post)
        } else {
            post == pre
        },
        Route::Plain => match event.kind {
            EventKind::Create(_) => add_path_ok(pre, event.paths[0], post),
            EventKind::Remove(_) => remove_path_ok(pre, event.paths[0], post),
            _ => post == pre,
        },
    }
}

/// Whether the request for a rescan has reached its deadline at `now`.
pub open spec fn rescan_due(s: State, now: u64) -> bool {
    s.rescan_event matches Some(rescan) && rescan.time <= now
}

/// The state at a flush at `now`, once a pending half of a rename has gone to its queue if
/// its deadline has come or the rescan is about to be emitted.
pub open spec fn settled(s: State, now: u64) -> State {
    match s.rename_event {
        Some((half, _)) => if half.time <= now || rescan_due(s, now) {
            with_half_flushed(s)
        } else {
            s
        },
        None => s,
    }
}

/// Whether a rescan that is not yet due holds back every event at `now`.
pub open spec fn held_back(s: State, now: u64) -> bool {
    s.rescan_event is Some && !rescan_due(s, now)
}

/// The events that leave the queues at `now`: of each queue, in the order of the queues, the
/// events at its front that are due.
pub open spec fn due_events(
    queues: Seq<(Seq<char>, Seq<DebouncedEventView>)>,
    now: u64,
) -> Seq<DebouncedEventView>
    decreases queues.len(),
{
    if queues.len() == 0 {
        Seq::empty()
    } else {
        due_events(queues.drop_last(), now) + due_prefix(queues.last().1, now)
    }
}

/// The queues that stay at `now`: each without the events that are due; a queue that this
/// leaves empty is gone.
pub open spec fn remaining(
    queues: Seq<(Seq<char>, Seq<DebouncedEventView>)>,
    now: u64,
) -> Seq<(Seq<char>, Seq<DebouncedEventView>)>
    decreases queues.len(),
{
    if queues.len() == 0 {
        Seq::empty()
    } else {
        let before = remaining(queues.drop_last(), now);
        let queue = not_due(queues.last().1, now);
        if queue.len() == 0 {
            before
        } else {
            before.push((queues.last().0, queue))
        }
    }
}

/// The keys of the queues that stay are keys of the queues before.
pub proof fn lemma_remaining_keys(
    queues: Seq<(Seq<char>, Seq<DebouncedEventView>)>,
    now: u64,
    key: Seq<char>,
)
    ensures
        has_key(remaining(queues, now), key) ==> has_key(queues, key),
    decreases queues.len(),
{
    if queues.len() > 0 && has_key(remaining(queues, now), key) {
        let shorter = queues.drop_last();
        let kept = remaining(queues, now);
        let at = index_of(kept, key);
        if at < remaining(shorter, now).len() {
            assert(remaining(shorter, now)[at].0 == key);
            lemma_remaining_keys(shorter, now, key);
            let found = index_of(shorter, key);
            assert(queues[found].0 == key);
        } else {
            assert(queues[queues.len() - 1].0 == key);
        }
    }
}

/// The events that a flush at `now` hands out: the rescan first, then the due events by
/// deadline. While a rescan waits for its deadline, nothing is handed out.
pub open spec fn emitted(s: State, now: u64) -> Seq<DebouncedEventView> {
    let t = settled(s, now);
    if held_back(t, now) {
        Seq::empty()
    } else {
        let sorted = sort_by_deadline(due_events(t.queues, now));
        match t.rescan_event {
            Some(rescan) => seq![rescan] + sorted,
            None => sorted,
        }
    }
}

/// The state after a flush at `now`.
pub open spec fn flushed(s: State, now: u64) -> State {
    let t = settled(s, now);
    if held_back(t, now) {
        State { errors: Seq::empty(), ..t }
    } else {
        State {
            queues: remaining(t.queues, now),
            rescan_event: None,
            errors: Seq::empty(),
            ..t
        }
    }
}

/// Whether `post` can be the cache after a flush at `now`: rescanned where the rescan is
/// emitted, else as before.
pub open spec fn cache_flushed<T: FileIdCache>(pre: T, s: State, now: u64, post: T) -> bool {
    if rescan_due(s, now) {
        T::rescanned(pre, post)
    } else {
        post == pre
    }
}

} // verus!
