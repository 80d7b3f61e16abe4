//! The steps on which the laws of the debouncer rest.

use vstd::prelude::*;

use crate::event::{DebouncedEventView, EventKind, EventView};
use crate::file_id::FileId;
use crate::laws::{
    deadlines_within, all_events, in_arrival_order, neighbours_apart, no_duplicates,
    queued_apart, queues_without_duplicates,
};
use crate::model::{
    admissible, completes, due_events, enqueued, flushed, lemma_remaining_keys, pending_path,
    pushed, queue_of, remaining, rename_both, settled, spec_route, well_formed,
    with_half_flushed, Route, State,
};
use crate::path_map::{distinct_keys, has_key, index_of, lemma_with_entry, lemma_without_key};
use crate::queue::{
    all_due_by, due_count, due_prefix, lemma_due_count, lemma_due_count_is, merged, not_due,
    spec_merge_action, MergeAction,
};
use crate::sort::is_sorted;

verus! {

/// A new event changes the queue of its path as the merge table says, and no other queue.
pub proof fn lemma_pushed(
    queues: Seq<(Seq<char>, Seq<DebouncedEventView>)>,
    path: Seq<char>,
    event: EventView,
    time: u64,
)
    requires
        distinct_keys(queues),
    ensures
        distinct_keys(pushed(queues, path, event, time)),
        queue_of(pushed(queues, path, event, time), path) == merged(
            queue_of(queues, path),
            event,
            time,
        ),
        forall|other: Seq<char>|
            other != path ==> queue_of(pushed(queues, path, event, time), other) == queue_of(
                queues,
                other,
            ),
{
    let queue = merged(queue_of(queues, path), event, time);
    lemma_with_entry(queues, path, queue);
    lemma_without_key(queues, path);
}

/// A merge keeps every deadline within a bound that the new deadline is within.
pub proof fn lemma_merged_within(
    queue: Seq<DebouncedEventView>,
    event: EventView,
    time: u64,
    bound: int,
)
    requires
        all_due_by(queue, bound),
        time <= bound,
    ensures
        all_due_by(merged(queue, event, time), bound),
{
    let after = merged(queue, event, time);
    assert forall|i: int| 0 <= i < after.len() implies (#[trigger] after[i]).time <= bound by {
        if queue.len() > 0 && i < queue.len() - 1 {
            assert(after[i] == queue[i]);
        } else if queue.len() > 0 && i == queue.len() - 1 {
            assert(queue[i].time <= bound);
        }
    }
}

/// A new event keeps every queue within a bound that its deadline is within.
pub proof fn lemma_pushed_within(
    queues: Seq<(Seq<char>, Seq<DebouncedEventView>)>,
    path: Seq<char>,
    event: EventView,
    time: u64,
    bound: int,
)
    requires
        forall|i: int| 0 <= i < queues.len() ==> all_due_by((#[trigger] queues[i]).1, bound),
        time <= bound,
    ensures
        forall|i: int|
            0 <= i < pushed(queues, path, event, time).len() ==> all_due_by(
                (#[trigger] pushed(queues, path, event, time)[i]).1,
                bound,
            ),
{
    let before = queue_of(queues, path);
    assert(all_due_by(before, bound)) by {
        if has_key(queues, path) {
            assert(all_due_by(queues[index_of(queues, path)].1, bound));
        }
    }
    lemma_merged_within(before, event, time, bound);
    let after = pushed(queues, path, event, time);
    assert forall|i: int| 0 <= i < after.len() implies all_due_by((#[trigger] after[i]).1, bound) by {
        if merged(before, event, time).len() == 0 {
            if has_key(queues, path) {
                let at = index_of(queues, path);
                assert(after[i] == queues[if i < at {
                    i
                } else {
                    i + 1
                }]);
            }
        } else if has_key(queues, path) {
            let at = index_of(queues, path);
            if i != at {
                assert(after[i] == queues[i]);
            }
        } else if i < queues.len() {
            assert(after[i] == queues[i]);
        }
    }
}

/// Sending a pending half of a rename to its queue keeps the state well formed.
pub proof fn lemma_half_flushed(s: State)
    requires
        well_formed(s),
    ensures
        well_formed(with_half_flushed(s)),
        with_half_flushed(s).rename_event is None,
{
    match s.rename_event {
        Some((half, _)) => {
            lemma_pushed(s.queues, half.event.paths[0], half.event, half.time);
        },
        None => {},
    }
}

/// What stays of a queue after the due events have left has no due event at its front.
pub proof fn lemma_not_due_settles(queue: Seq<DebouncedEventView>, now: u64)
    ensures
        due_count(not_due(queue, now), now) == 0,
        not_due(not_due(queue, now), now) == not_due(queue, now),
        due_prefix(not_due(queue, now), now) == Seq::<DebouncedEventView>::empty(),
{
    lemma_due_count(queue, now);
    let rest = not_due(queue, now);
    if rest.len() > 0 {
        assert(rest.first() == queue[due_count(queue, now) as int]);
    }
    assert(rest.skip(0) =~= rest);
    assert(rest.take(0) =~= Seq::<DebouncedEventView>::empty());
}

/// The queues that stay after a flush have no due event, and a second flush leaves them.
pub proof fn lemma_remaining_settles(queues: Seq<(Seq<char>, Seq<DebouncedEventView>)>, now: u64)
    ensures
        due_events(remaining(queues, now), now) == Seq::<DebouncedEventView>::empty(),
        remaining(remaining(queues, now), now) == remaining(queues, now),
    decreases queues.len(),
{
    if queues.len() > 0 {
        let shorter = queues.drop_last();
        lemma_remaining_settles(shorter, now);
        lemma_not_due_settles(queues.last().1, now);
        let queue = not_due(queues.last().1, now);
        if queue.len() > 0 {
            let kept = remaining(queues, now);
            assert(kept.drop_last() =~= remaining(shorter, now));
            assert(kept.last() == (queues.last().0, queue));
            assert(due_events(kept, now) =~= Seq::<DebouncedEventView>::empty());
        }
    }
}

/// The queues that stay after a flush are queues of distinct paths.
pub proof fn lemma_remaining_distinct(queues: Seq<(Seq<char>, Seq<DebouncedEventView>)>, now: u64)
    requires
        distinct_keys(queues),
    ensures
        distinct_keys(remaining(queues, now)),
    decreases queues.len(),
{
    if queues.len() > 0 {
        let shorter = queues.drop_last();
        assert(distinct_keys(shorter)) by {
            assert forall|i: int, j: int| 0 <= i < j < shorter.len() implies (
            #[trigger] shorter[i]).0 != (#[trigger] shorter[j]).0 by {
                assert(queues[i].0 != queues[j].0);
            }
        }
        lemma_remaining_distinct(shorter, now);
        let kept = remaining(queues, now);
        let before = remaining(shorter, now);
        if kept.len() > before.len() {
            assert forall|i: int, j: int| 0 <= i < j < kept.len() implies (#[trigger] kept[i]).0
                != (#[trigger] kept[j]).0 by {
                if j == before.len() {
                    assert(before[i].0 == kept[i].0);
                    if kept[i].0 == queues.last().0 {
                        lemma_remaining_keys(shorter, now, kept[i].0);
                        let found = index_of(shorter, kept[i].0);
                        assert(queues[found].0 == queues[queues.len() - 1].0);
                    }
                } else {
                    assert(kept[i] == before[i]);
                    assert(kept[j] == before[j]);
                }
            }
        }
    }
}

/// A flush keeps the state well formed.
pub proof fn lemma_flushed_well_formed(s: State, now: u64)
    requires
        well_formed(s),
    ensures
        well_formed(settled(s, now)),
        well_formed(flushed(s, now)),
{
    lemma_half_flushed(s);
    lemma_remaining_distinct(settled(s, now).queues, now);
}

/// What the merge table makes of `incoming` behind `back` keeps `back`, or what takes its
/// place, apart from the event before it.
pub proof fn lemma_apart(before: EventKind, back: EventKind, incoming: EventKind)
    ensures
        spec_merge_action(back, incoming) == MergeAction::Append ==> queued_apart(back, incoming),
        queued_apart(before, back) && spec_merge_action(back, incoming) == MergeAction::ReplaceBack
            ==> queued_apart(before, incoming),
        queued_apart(before, back) && spec_merge_action(back, incoming)
            == MergeAction::MergeBroader ==> queued_apart(
            before,
            crate::queue::spec_broader(back, incoming),
        ),
{
    reveal(queued_apart);
}

/// A merge leaves no neighbours that could have been merged.
pub proof fn lemma_merged_without_duplicates(
    queue: Seq<DebouncedEventView>,
    event: EventView,
    time: u64,
)
    requires
        no_duplicates(queue),
    ensures
        no_duplicates(merged(queue, event, time)),
{
    let after = merged(queue, event, time);
    if queue.len() > 0 {
        let back = queue.last().event.kind;
        let action = spec_merge_action(back, event.kind);
        assert forall|i: int| 0 <= i < after.len() - 1 implies #[trigger] neighbours_apart(
            after,
            i,
        ) by {
            if i < queue.len() - 2 {
                assert(after[i] == queue[i]);
                assert(after[i + 1] == queue[i + 1]);
                assert(neighbours_apart(queue, i));
            } else if i == queue.len() - 2 {
                assert(after[i] == queue[i]);
                assert(neighbours_apart(queue, i));
                lemma_apart(queue[i].event.kind, back, event.kind);
            } else {
                lemma_apart(back, back, event.kind);
            }
        }
    }
}

/// A new event leaves no queue with neighbours that could have been merged.
pub proof fn lemma_pushed_without_duplicates(
    queues: Seq<(Seq<char>, Seq<DebouncedEventView>)>,
    path: Seq<char>,
    event: EventView,
    time: u64,
)
    requires
        forall|i: int| 0 <= i < queues.len() ==> no_duplicates((#[trigger] queues[i]).1),
    ensures
        forall|i: int|
            0 <= i < pushed(queues, path, event, time).len() ==> no_duplicates(
                (#[trigger] pushed(queues, path, event, time)[i]).1,
            ),
{
    let before = queue_of(queues, path);
    assert(no_duplicates(before)) by {
        if has_key(queues, path) {
            assert(no_duplicates(queues[index_of(queues, path)].1));
        }
    }
    lemma_merged_without_duplicates(before, event, time);
    let after = pushed(queues, path, event, time);
    assert forall|i: int| 0 <= i < after.len() implies no_duplicates((#[trigger] after[i]).1) by {
        if merged(before, event, time).len() == 0 {
            if has_key(queues, path) {
                let at = index_of(queues, path);
                assert(after[i] == queues[if i < at {
                    i
                } else {
                    i + 1
                }]);
            }
        } else if has_key(queues, path) {
            let at = index_of(queues, path);
            if i != at {
                assert(after[i] == queues[i]);
            }
        } else if i < queues.len() {
            assert(after[i] == queues[i]);
        }
    }
}

/// The queues that stay after a flush hold no neighbours that could have been merged.
pub proof fn lemma_remaining_without_duplicates(
    queues: Seq<(Seq<char>, Seq<DebouncedEventView>)>,
    now: u64,
)
    requires
        forall|i: int| 0 <= i < queues.len() ==> no_duplicates((#[trigger] queues[i]).1),
    ensures
        forall|i: int|
            0 <= i < remaining(queues, now).len() ==> no_duplicates(
                (#[trigger] remaining(queues, now)[i]).1,
            ),
    decreases queues.len(),
{
    if queues.len() > 0 {
        let shorter = queues.drop_last();
        assert forall|i: int| 0 <= i < shorter.len() implies no_duplicates(
            (#[trigger] shorter[i]).1,
        ) by {
            assert(shorter[i] == queues[i]);
        }
        lemma_remaining_without_duplicates(shorter, now);
        let kept = remaining(queues, now);
        let before = remaining(shorter, now);
        let whole = queues.last().1;
        let queue = not_due(whole, now);
        lemma_due_count(whole, now);
        assert(no_duplicates(queue)) by {
            assert(no_duplicates(queues[queues.len() - 1].1));
            let gone = due_count(whole, now) as int;
            assert forall|i: int| 0 <= i < queue.len() - 1 implies #[trigger] neighbours_apart(
                queue,
                i,
            ) by {
                assert(queue[i] == whole[i + gone]);
                assert(queue[i + 1] == whole[i + gone + 1]);
                assert(neighbours_apart(whole, i + gone));
            }
        }
        assert forall|i: int| 0 <= i < kept.len() implies no_duplicates((#[trigger] kept[i]).1) by {
            if i < before.len() {
                assert(kept[i] == before[i]);
            }
        }
    }
}

/// Sending a pending half of a rename to its queue leaves no neighbours that could have
/// been merged.
pub proof fn lemma_half_flushed_without_duplicates(s: State)
    requires
        queues_without_duplicates(s),
    ensures
        queues_without_duplicates(with_half_flushed(s)),
{
    match s.rename_event {
        Some((half, _)) => {
            lemma_pushed_without_duplicates(s.queues, half.event.paths[0], half.event, half.time);
        },
        None => {},
    }
}

/// Every event that leaves the queues at `now` is due.
pub proof fn lemma_due_events_are_due(queues: Seq<(Seq<char>, Seq<DebouncedEventView>)>, now: u64)
    ensures
        all_due_by(due_events(queues, now), now as int),
    decreases queues.len(),
{
    if queues.len() > 0 {
        let shorter = queues.drop_last();
        lemma_due_events_are_due(shorter, now);
        let queue = queues.last().1;
        lemma_due_count(queue, now);
        let first = due_events(shorter, now);
        let all = due_events(queues, now);
        assert forall|i: int| 0 <= i < all.len() implies (#[trigger] all[i]).time <= now by {
            if i < first.len() {
                assert(all[i] == first[i]);
            } else {
                assert(all[i] == queue[i - first.len()]);
            }
        }
    }
}

/// A merge with a deadline that is not before any in the queue keeps the deadlines in
/// order.
pub proof fn lemma_merged_sorted(queue: Seq<DebouncedEventView>, event: EventView, time: u64)
    requires
        is_sorted(queue),
        all_due_by(queue, time as int),
    ensures
        is_sorted(merged(queue, event, time)),
        all_due_by(merged(queue, event, time), time as int),
{
    let after = merged(queue, event, time);
    lemma_merged_within(queue, event, time, time as int);
    assert forall|i: int, j: int| 0 <= i <= j < after.len() implies (#[trigger] after[i]).time <= (
    #[trigger] after[j]).time by {
        if queue.len() > 0 {
            if j < queue.len() - 1 {
                assert(after[i] == queue[i]);
                assert(after[j] == queue[j]);
            } else if i < queue.len() - 1 {
                assert(after[i] == queue[i]);
                assert(queue[i].time <= queue[queue.len() - 1].time);
                assert(queue[queue.len() - 1].time <= time);
            }
        }
    }
}

/// A new event with a deadline that is not before any in the queues keeps every queue in
/// the order of its deadlines.
pub proof fn lemma_pushed_sorted(
    queues: Seq<(Seq<char>, Seq<DebouncedEventView>)>,
    path: Seq<char>,
    event: EventView,
    time: u64,
)
    requires
        forall|i: int| 0 <= i < queues.len() ==> is_sorted((#[trigger] queues[i]).1),
        forall|i: int| 0 <= i < queues.len() ==> all_due_by((#[trigger] queues[i]).1, time as int),
    ensures
        forall|i: int|
            0 <= i < pushed(queues, path, event, time).len() ==> is_sorted(
                (#[trigger] pushed(queues, path, event, time)[i]).1,
            ),
        forall|i: int|
            0 <= i < pushed(queues, path, event, time).len() ==> all_due_by(
                (#[trigger] pushed(queues, path, event, time)[i]).1,
                time as int,
            ),
{
    let before = queue_of(queues, path);
    assert(is_sorted(before) && all_due_by(before, time as int)) by {
        if has_key(queues, path) {
            assert(is_sorted(queues[index_of(queues, path)].1));
            assert(all_due_by(queues[index_of(queues, path)].1, time as int));
        }
    }
    lemma_merged_sorted(before, event, time);
    lemma_pushed_within(queues, path, event, time, time as int);
    let after = pushed(queues, path, event, time);
    assert forall|i: int| 0 <= i < after.len() implies is_sorted((#[trigger] after[i]).1) by {
        if merged(before, event, time).len() == 0 {
            if has_key(queues, path) {
                let at = index_of(queues, path);
                assert(after[i] == queues[if i < at {
                    i
                } else {
                    i + 1
                }]);
            }
        } else if has_key(queues, path) {
            let at = index_of(queues, path);
            if i != at {
                assert(after[i] == queues[i]);
            }
        } else if i < queues.len() {
            assert(after[i] == queues[i]);
        }
    }
}

/// What stays of a sorted queue is sorted.
pub proof fn lemma_remaining_sorted(queues: Seq<(Seq<char>, Seq<DebouncedEventView>)>, now: u64)
    requires
        forall|i: int| 0 <= i < queues.len() ==> is_sorted((#[trigger] queues[i]).1),
    ensures
        forall|i: int|
            0 <= i < remaining(queues, now).len() ==> is_sorted(
                (#[trigger] remaining(queues, now)[i]).1,
            ),
    decreases queues.len(),
{
    if queues.len() > 0 {
        let shorter = queues.drop_last();
        assert forall|i: int| 0 <= i < shorter.len() implies is_sorted((#[trigger] shorter[i]).1) by {
            assert(shorter[i] == queues[i]);
        }
        lemma_remaining_sorted(shorter, now);
        let kept = remaining(queues, now);
        let before = remaining(shorter, now);
        let whole = queues.last().1;
        let queue = not_due(whole, now);
        lemma_due_count(whole, now);
        assert(is_sorted(queue)) by {
            assert(is_sorted(queues[queues.len() - 1].1));
            let gone = due_count(whole, now) as int;
            assert forall|i: int, j: int| 0 <= i <= j < queue.len() implies (
            #[trigger] queue[i]).time <= (#[trigger] queue[j]).time by {
                assert(queue[i] == whole[i + gone]);
                assert(queue[j] == whole[j + gone]);
            }
        }
        assert forall|i: int| 0 <= i < kept.len() implies is_sorted((#[trigger] kept[i]).1) by {
            if i < before.len() {
                assert(kept[i] == before[i]);
            }
        }
    }
}

/// Sending a pending half of a rename to its queue keeps the order of arrival.
pub proof fn lemma_half_flushed_in_order(s: State)
    requires
        in_arrival_order(s),
    ensures
        in_arrival_order(with_half_flushed(s)),
{
    match s.rename_event {
        Some((half, _)) => {
            lemma_pushed_sorted(s.queues, half.event.paths[0], half.event, half.time);
        },
        None => {},
    }
}

/// Deadlines within a bound are within every later bound.
pub proof fn lemma_within_later(s: State, bound: int, later_bound: int)
    requires
        deadlines_within(s, bound),
        bound <= later_bound,
    ensures
        deadlines_within(s, later_bound),
{
    assert forall|i: int| 0 <= i < s.queues.len() implies all_due_by(
        (#[trigger] s.queues[i]).1,
        later_bound,
    ) by {
        assert(all_due_by(s.queues[i].1, bound));
    }
}

/// Each queue that stays after a flush has events, the first with its deadline after the
/// flush.
pub proof fn lemma_remaining_fronts(
    queues: Seq<(Seq<char>, Seq<DebouncedEventView>)>,
    now: u64,
    place: int,
)
    requires
        0 <= place < remaining(queues, now).len(),
    ensures
        remaining(queues, now)[place].1.len() > 0,
        remaining(queues, now)[place].1.first().time > now,
    decreases queues.len(),
{
    if queues.len() > 0 {
        let shorter = queues.drop_last();
        let before = remaining(shorter, now);
        if place < before.len() {
            lemma_remaining_fronts(shorter, now, place);
        } else {
            let whole = queues.last().1;
            lemma_due_count(whole, now);
            assert(not_due(whole, now).first() == whole[due_count(whole, now) as int]);
        }
    }
}

/// An event that comes in keeps the state well formed and leaves the settings as they are.
pub proof fn lemma_enqueued_well_formed(s: State, event: EventView, now: u64, seen: Option<FileId>)
    requires
        well_formed(s),
        admissible(event),
    ensures
        well_formed(enqueued(s, event, now, seen)),
        enqueued(s, event, now, seen).timeout == s.timeout,
        enqueued(s, event, now, seen).merge_renames == s.merge_renames,
        enqueued(s, event, now, seen).errors == s.errors,
{
    lemma_half_flushed(s);
    let time = (now + s.timeout) as u64;
    let base = with_half_flushed(s);
    match spec_route(event, s.merge_renames) {
        Route::Rescan => {},
        Route::RenameFrom => {
            if completes(s, event, seen) {
                let from = event.paths[0];
                lemma_pushed(s.queues, from, rename_both(from, pending_path(s), event), time);
            }
        },
        Route::RenameTo => {
            if completes(s, event, seen) {
                let from = pending_path(s);
                lemma_pushed(s.queues, from, rename_both(from, event.paths[0], event), time);
            }
        },
        Route::RenameBoth | Route::Plain => {
            lemma_pushed(base.queues, event.paths[0], event, time);
        },
    }
}

/// Sending a pending half of a rename to its queue keeps every deadline within a bound.
pub proof fn lemma_half_flushed_within(s: State, bound: int)
    requires
        deadlines_within(s, bound),
    ensures
        deadlines_within(with_half_flushed(s), bound),
{
    match s.rename_event {
        Some((half, _)) => {
            lemma_pushed_within(s.queues, half.event.paths[0], half.event, half.time, bound);
        },
        None => {},
    }
}

/// An event that comes in no later than its deadline allows keeps every deadline within
/// the bound.
pub proof fn lemma_enqueued_within(
    s: State,
    event: EventView,
    now: u64,
    seen: Option<FileId>,
    bound: int,
)
    requires
        deadlines_within(s, bound),
        now + s.timeout <= bound <= u64::MAX,
    ensures
        deadlines_within(enqueued(s, event, now, seen), bound),
{
    let time = (now + s.timeout) as u64;
    let base = with_half_flushed(s);
    lemma_half_flushed_within(s, bound);
    match spec_route(event, s.merge_renames) {
        Route::Rescan => {},
        Route::RenameFrom => {
            if completes(s, event, seen) {
                let from = event.paths[0];
                lemma_pushed_within(
                    s.queues,
                    from,
                    rename_both(from, pending_path(s), event),
                    time,
                    bound,
                );
            }
        },
        Route::RenameTo => {
            if completes(s, event, seen) {
                let from = pending_path(s);
                lemma_pushed_within(
                    s.queues,
                    from,
                    rename_both(from, event.paths[0], event),
                    time,
                    bound,
                );
            }
        },
        Route::RenameBoth | Route::Plain => {
            lemma_pushed_within(base.queues, event.paths[0], event, time, bound);
        },
    }
}

/// Every queue that stays after a flush holds events of a queue before it.
pub proof fn lemma_remaining_within(
    queues: Seq<(Seq<char>, Seq<DebouncedEventView>)>,
    now: u64,
    bound: int,
)
    requires
        forall|i: int| 0 <= i < queues.len() ==> all_due_by((#[trigger] queues[i]).1, bound),
    ensures
        forall|i: int|
            0 <= i < remaining(queues, now).len() ==> all_due_by(
                (#[trigger] remaining(queues, now)[i]).1,
                bound,
            ),
    decreases queues.len(),
{
    if queues.len() > 0 {
        let shorter = queues.drop_last();
        assert forall|i: int| 0 <= i < shorter.len() implies all_due_by(
            (#[trigger] shorter[i]).1,
            bound,
        ) by {
            assert(shorter[i] == queues[i]);
        }
        lemma_remaining_within(shorter, now, bound);
        let kept = remaining(queues, now);
        let before = remaining(shorter, now);
        let queue = not_due(queues.last().1, now);
        lemma_due_count(queues.last().1, now);
        assert(all_due_by(queue, bound)) by {
            assert(all_due_by(queues[queues.len() - 1].1, bound));
            assert forall|i: int| 0 <= i < queue.len() implies (#[trigger] queue[i]).time
                <= bound by {
                assert(queue[i] == queues.last().1[i + due_count(queues.last().1, now)]);
            }
        }
        assert forall|i: int| 0 <= i < kept.len() implies all_due_by((#[trigger] kept[i]).1, bound) by {
            if i < before.len() {
                assert(kept[i] == before[i]);
            }
        }
    }
}

/// A flush keeps every deadline within a bound.
pub proof fn lemma_flushed_within(s: State, now: u64, bound: int)
    requires
        deadlines_within(s, bound),
    ensures
        deadlines_within(flushed(s, now), bound),
        flushed(s, now).timeout == s.timeout,
{
    lemma_half_flushed_within(s, bound);
    lemma_remaining_within(settled(s, now).queues, now, bound);
}

/// Where every event of every queue is due, all of them leave and no queue stays.
pub proof fn lemma_all_due(queues: Seq<(Seq<char>, Seq<DebouncedEventView>)>, now: u64)
    requires
        forall|i: int| 0 <= i < queues.len() ==> all_due_by((#[trigger] queues[i]).1, now as int),
    ensures
        due_events(queues, now) == all_events(queues),
        remaining(queues, now).len() == 0,
    decreases queues.len(),
{
    if queues.len() > 0 {
        let shorter = queues.drop_last();
        assert forall|i: int| 0 <= i < shorter.len() implies all_due_by(
            (#[trigger] shorter[i]).1,
            now as int,
        ) by {
            assert(shorter[i] == queues[i]);
        }
        lemma_all_due(shorter, now);
        let queue = queues.last().1;
        assert(all_due_by(queues[queues.len() - 1].1, now as int));
        lemma_due_count_is(queue, now, queue.len() as int);
        assert(due_prefix(queue, now) =~= queue);
        assert(not_due(queue, now).len() == 0);
    }
}

} // verus!
