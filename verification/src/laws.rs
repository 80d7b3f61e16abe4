//! What holds of the debouncer whatever comes in.

use vstd::prelude::*;

use crate::cache::{add_path_ok, lookup, remove_path_ok, FileIdCache};
use crate::event::{
    DataChange, DebouncedEventView, EventKind, EventView, ModifyKind, RenameMode,
};
use crate::file_id::FileId;
use crate::lemmas::{
    lemma_all_due, lemma_due_events_are_due, lemma_enqueued_well_formed, lemma_enqueued_within,
    lemma_flushed_well_formed, lemma_flushed_within, lemma_half_flushed,
    lemma_half_flushed_in_order, lemma_half_flushed_within,
    lemma_half_flushed_without_duplicates, lemma_pushed, lemma_pushed_sorted,
    lemma_pushed_without_duplicates, lemma_remaining_fronts, lemma_remaining_settles,
    lemma_remaining_sorted, lemma_remaining_within, lemma_remaining_without_duplicates,
    lemma_within_later,
};
use crate::model::{
    admissible, cache_enqueued, cache_flushed, completes, due_events, emitted, enqueued, flushed,
    held_back, later, pending_path, queue_of, rename_both, rescan_due, settled,
    spec_identity_matches, spec_route, well_formed, with_half_flushed, Route, State,
};
use crate::queue::{all_due_by, merged, spec_merge_action, MergeAction};
use crate::sort::{is_sorted, lemma_sort_by_deadline, lemma_sorted_stays, sort_by_deadline};

verus! {

/// One thing that happens to a debouncer: an event comes in, or the events are flushed.
pub enum Step {
    Enqueue { event: EventView, now: u64, seen: Option<FileId> },
    Flush { now: u64 },
}

/// The state after `step`.
pub open spec fn after_step(s: State, step: Step) -> State {
    match step {
        Step::Enqueue { event, now, seen } => enqueued(s, event, now, seen),
        Step::Flush { now } => flushed(s, now),
    }
}

/// The state after all of `steps`, one after the other.
pub open spec fn after_steps(s: State, steps: Seq<Step>) -> State
    decreases steps.len(),
{
    if steps.len() == 0 {
        s
    } else {
        after_step(after_steps(s, steps.drop_last()), steps.last())
    }
}

/// Whether `step` can happen, and nothing comes in after `latest`.
pub open spec fn step_by(step: Step, latest: u64) -> bool {
    match step {
        Step::Enqueue { event, now, seen } => admissible(event) && now <= latest,
        Step::Flush { now } => true,
    }
}

/// Whether nothing is pending: no queue, no half of a rename, no request for a rescan.
pub open spec fn is_idle(s: State) -> bool {
    &&& s.queues.len() == 0
    &&& s.rename_event is None
    &&& s.rescan_event is None
}

/// Whether every pending event has a deadline of at most `bound`.
pub open spec fn deadlines_within(s: State, bound: int) -> bool {
    &&& forall|i: int| 0 <= i < s.queues.len() ==> all_due_by((#[trigger] s.queues[i]).1, bound)
    &&& s.rename_event matches Some((half, _)) ==> half.time <= bound
    &&& s.rescan_event matches Some(rescan) ==> rescan.time <= bound
}

/// The events of all queues, in the order of the queues.
pub open spec fn all_events(queues: Seq<(Seq<char>, Seq<DebouncedEventView>)>) -> Seq<
    DebouncedEventView,
>
    decreases queues.len(),
{
    if queues.len() == 0 {
        Seq::empty()
    } else {
        all_events(queues.drop_last()) + queues.last().1
    }
}

/// The events pending in `s`: the request for a rescan, the events of the queues, and the
/// half of a rename that waits for its counterpart, placed as the half it is.
pub open spec fn pending(s: State) -> Seq<DebouncedEventView> {
    let queued = all_events(with_half_flushed(s).queues);
    match s.rescan_event {
        Some(rescan) => seq![rescan] + queued,
        None => queued,
    }
}

/// Whether the merge table says to queue an event of kind `second` behind one of kind
/// `first`.
#[verifier::opaque]
pub open spec fn queued_apart(first: EventKind, second: EventKind) -> bool {
    spec_merge_action(first, second) == MergeAction::Append
}

/// Whether the merge table says to queue the event behind the one at `place` in `queue`.
pub open spec fn neighbours_apart(queue: Seq<DebouncedEventView>, place: int) -> bool {
    queued_apart(queue[place].event.kind, queue[place + 1].event.kind)
}

/// Whether no two neighbours in `queue` could have been merged: for each event and the one
/// behind it, the merge table says to queue the second.
pub open spec fn no_duplicates(queue: Seq<DebouncedEventView>) -> bool {
    forall|i: int| 0 <= i < queue.len() - 1 ==> #[trigger] neighbours_apart(queue, i)
}

/// Whether no queue holds neighbours that could have been merged.
pub open spec fn queues_without_duplicates(s: State) -> bool {
    forall|i: int| 0 <= i < s.queues.len() ==> no_duplicates((#[trigger] s.queues[i]).1)
}

/// Whether the queues stand in the order of arrival: in each queue the deadlines never
/// decrease from front to back, and a half of a rename that waits for its counterpart has
/// a deadline that is not before any in the queues.
pub open spec fn in_arrival_order(s: State) -> bool {
    &&& forall|i: int| 0 <= i < s.queues.len() ==> is_sorted((#[trigger] s.queues[i]).1)
    &&& s.rename_event matches Some((half, _)) ==> forall|i: int|
        0 <= i < s.queues.len() ==> all_due_by((#[trigger] s.queues[i]).1, half.time as int)
}

/// A debouncer to which nothing has come hands out nothing.
pub proof fn law_nothing_in_nothing_out(timeout: u64, merge_renames: bool, now: u64)
    ensures
        ({
            let start = State {
                queues: Seq::empty(),
                rename_event: None,
                rescan_event: None,
                errors: Seq::empty(),
                timeout,
                merge_renames,
            };
            &&& emitted(start, now) == Seq::<DebouncedEventView>::empty()
            &&& flushed(start, now) == start
        }),
{
    let none = Seq::<(Seq<char>, Seq<DebouncedEventView>)>::empty();
    assert(due_events(none, now) =~= Seq::<DebouncedEventView>::empty());
    assert(sort_by_deadline(Seq::<DebouncedEventView>::empty()) =~= Seq::<
        DebouncedEventView,
    >::empty());
}

/// Whatever comes in, in whatever order and with flushes in between: if nothing comes in
/// after `latest` and the debounce window stays as it is, a flush at `latest` plus the
/// window hands out all that is still pending and leaves nothing behind.
pub proof fn law_all_emitted_by_deadline(start: State, steps: Seq<Step>, latest: u64)
    requires
        well_formed(start),
        latest + start.timeout <= u64::MAX,
        deadlines_within(start, latest + start.timeout),
        forall|i: int| 0 <= i < steps.len() ==> step_by(#[trigger] steps[i], latest),
    ensures
        ({
            let s = after_steps(start, steps);
            let end = (latest + start.timeout) as u64;
            &&& well_formed(s)
            &&& s.timeout == start.timeout
            &&& deadlines_within(s, latest + start.timeout)
            &&& is_idle(flushed(s, end))
            &&& emitted(s, end).to_multiset() == pending(s).to_multiset()
        }),
    decreases steps.len(),
{
    let bound = latest + start.timeout;
    if steps.len() > 0 {
        let earlier = steps.drop_last();
        assert forall|i: int| 0 <= i < earlier.len() implies step_by(
            #[trigger] earlier[i],
            latest,
        ) by {
            assert(earlier[i] == steps[i]);
        }
        law_all_emitted_by_deadline(start, earlier, latest);
        let s = after_steps(start, earlier);
        assert(step_by(steps[steps.len() - 1], latest));
        match steps.last() {
            Step::Enqueue { event, now, seen } => {
                lemma_enqueued_well_formed(s, event, now, seen);
                lemma_enqueued_within(s, event, now, seen, bound);
            },
            Step::Flush { now } => {
                lemma_flushed_well_formed(s, now);
                lemma_flushed_within(s, now, bound);
            },
        }
    }
    law_flush_emits_all_due(after_steps(start, steps), bound as u64);
}

/// A flush at an instant by which every pending event is due hands all of them out, each
/// once, and leaves nothing pending.
pub proof fn law_flush_emits_all_due(s: State, now: u64)
    requires
        well_formed(s),
        deadlines_within(s, now as int),
    ensures
        is_idle(flushed(s, now)),
        emitted(s, now).to_multiset() == pending(s).to_multiset(),
        emitted(s, now).len() == pending(s).len(),
{
    let t = settled(s, now);
    lemma_half_flushed_within(s, now as int);
    assert(t == with_half_flushed(s));
    lemma_all_due(t.queues, now);
    let queued = all_events(t.queues);
    lemma_sort_by_deadline(queued);
    match s.rescan_event {
        Some(rescan) => {
            vstd::seq_lib::lemma_multiset_commutative(seq![rescan], sort_by_deadline(queued));
            vstd::seq_lib::lemma_multiset_commutative(seq![rescan], queued);
        },
        None => {},
    }
}

/// With a debounce window of zero, an event that has come in is handed out by the next
/// flush, with nothing held back by a rescan: nothing is left pending after it.
pub proof fn law_zero_timeout_flushes_at_once(
    s: State,
    event: EventView,
    now: u64,
    seen: Option<FileId>,
    tick: u64,
)
    requires
        well_formed(s),
        admissible(event),
        s.timeout == 0,
        deadlines_within(s, now as int),
        now <= tick,
    ensures
        is_idle(flushed(enqueued(s, event, now, seen), tick)),
        emitted(enqueued(s, event, now, seen), tick).len() == pending(
            enqueued(s, event, now, seen),
        ).len(),
{
    let after = enqueued(s, event, now, seen);
    lemma_enqueued_well_formed(s, event, now, seen);
    lemma_enqueued_within(s, event, now, seen, now as int);
    lemma_within_later(after, now as int, tick as int);
    law_flush_emits_all_due(after, tick);
}

/// A path that is created and then removed, with nothing for it in between, leaves no trace
/// of the two events: every queue is as it was before them, but that a creation which was
/// pending last for the path is cancelled with them.
pub proof fn law_create_then_remove_cancels(
    s: State,
    create: EventView,
    remove: EventView,
    t1: u64,
    t2: u64,
    seen1: Option<FileId>,
    seen2: Option<FileId>,
)
    requires
        well_formed(s),
        create.kind is Create,
        remove.kind is Remove,
        !create.need_rescan(),
        !remove.need_rescan(),
        create.paths.len() >= 1,
        remove.paths.len() >= 1,
        create.paths[0] == remove.paths[0],
    ensures
        ({
            let before = with_half_flushed(s).queues;
            let after = enqueued(enqueued(s, create, t1, seen1), remove, t2, seen2).queues;
            let path = create.paths[0];
            let pending = queue_of(before, path);
            &&& forall|other: Seq<char>|
                other != path ==> queue_of(after, other) == queue_of(before, other)
            &&& queue_of(after, path) == if pending.len() > 0 && pending.last().event.kind
                is Create {
                pending.drop_last()
            } else {
                pending
            }
            &&& pending.len() == 0 ==> queue_of(after, path).len() == 0
        }),
{
    let path = create.paths[0];
    let base = with_half_flushed(s);
    lemma_half_flushed(s);
    let one = enqueued(s, create, t1, seen1);
    lemma_pushed(base.queues, path, create, (t1 + s.timeout) as u64);
    lemma_pushed(one.queues, path, remove, (t2 + s.timeout) as u64);
    let pending = queue_of(base.queues, path);
    let two = enqueued(one, remove, t2, seen2);
    if pending.len() > 0 && pending.last().event.kind is Create {
        assert(queue_of(two.queues, path) =~= pending.drop_last());
    } else {
        assert(queue_of(two.queues, path) =~= pending);
    }
}

/// Two changes of the size of a file's data, one after the other for one path, leave one
/// such event pending where none was pending for the path: the first, with the deadline
/// of the second.
pub proof fn law_modify_coalesces(
    s: State,
    first: EventView,
    second: EventView,
    t1: u64,
    t2: u64,
    seen1: Option<FileId>,
    seen2: Option<FileId>,
)
    requires
        well_formed(s),
        first.kind == EventKind::Modify(ModifyKind::Data(DataChange::Size)),
        second.kind == EventKind::Modify(ModifyKind::Data(DataChange::Size)),
        !first.need_rescan(),
        !second.need_rescan(),
        first.paths.len() >= 1,
        second.paths.len() >= 1,
        first.paths[0] == second.paths[0],
        queue_of(with_half_flushed(s).queues, first.paths[0]).len() == 0,
    ensures
        queue_of(enqueued(enqueued(s, first, t1, seen1), second, t2, seen2).queues, first.paths[0])
            == seq![
            DebouncedEventView { event: first, time: (t2 + s.timeout) as u64 },
        ],
{
    let path = first.paths[0];
    let base = with_half_flushed(s);
    lemma_half_flushed(s);
    let one = enqueued(s, first, t1, seen1);
    lemma_pushed(base.queues, path, first, (t1 + s.timeout) as u64);
    assert(one.rename_event is None);
    lemma_pushed(one.queues, path, second, (t2 + s.timeout) as u64);
    let two = enqueued(one, second, t2, seen2);
    assert(queue_of(one.queues, path) =~= seq![
        DebouncedEventView { event: first, time: (t1 + s.timeout) as u64 },
    ]);
    assert(queue_of(two.queues, path) =~= seq![
        DebouncedEventView { event: first, time: (t2 + s.timeout) as u64 },
    ]);
}

/// Whatever is pending: of two changes of the size of a file's data that come one after the
/// other for one path, the second adds no event to the queue of the path.
pub proof fn law_second_modify_adds_nothing(
    s: State,
    first: EventView,
    second: EventView,
    t1: u64,
    t2: u64,
    seen1: Option<FileId>,
    seen2: Option<FileId>,
)
    requires
        well_formed(s),
        first.kind == EventKind::Modify(ModifyKind::Data(DataChange::Size)),
        second.kind == EventKind::Modify(ModifyKind::Data(DataChange::Size)),
        !first.need_rescan(),
        !second.need_rescan(),
        first.paths.len() >= 1,
        second.paths.len() >= 1,
        first.paths[0] == second.paths[0],
    ensures
        queue_of(enqueued(enqueued(s, first, t1, seen1), second, t2, seen2).queues, first.paths[0]).len()
            == queue_of(enqueued(s, first, t1, seen1).queues, first.paths[0]).len(),
        queue_of(enqueued(s, first, t1, seen1).queues, first.paths[0]).len() > 0,
{
    let path = first.paths[0];
    let base = with_half_flushed(s);
    lemma_half_flushed(s);
    let one = enqueued(s, first, t1, seen1);
    lemma_pushed(base.queues, path, first, (t1 + s.timeout) as u64);
    lemma_pushed(one.queues, path, second, (t2 + s.timeout) as u64);
}

/// The source half of a rename followed by the target half, where the identity found for the
/// target is the one cached for the source or none was cached: the two leave one event for
/// the rename behind the events pending for the source path, no half waits any longer, and
/// the cache has the entry of the source path under the target path.
///
/// The source half must not complete a target half that was waiting before it.
pub proof fn law_rename_pair<T: FileIdCache>(
    s: State,
    from_half: EventView,
    to_half: EventView,
    t1: u64,
    t2: u64,
    seen1: Option<FileId>,
    seen2: Option<FileId>,
    pre: T,
    between: T,
    post: T,
)
    requires
        well_formed(s),
        s.merge_renames,
        from_half.kind == EventKind::Modify(ModifyKind::Name(RenameMode::From)),
        to_half.kind == EventKind::Modify(ModifyKind::Name(RenameMode::To)),
        !from_half.need_rescan(),
        !to_half.need_rescan(),
        from_half.paths.len() >= 1,
        to_half.paths.len() >= 1,
        !completes(s, from_half, seen1),
        cache_enqueued(pre, s, from_half, seen1, between),
        cache_enqueued(between, enqueued(s, from_half, t1, seen1), to_half, seen2, post),
        spec_identity_matches(seen1, seen2),
    ensures
        ({
            let from = from_half.paths[0];
            let to = to_half.paths[0];
            let before = with_half_flushed(s).queues;
            let after = enqueued(enqueued(s, from_half, t1, seen1), to_half, t2, seen2);
            &&& after.rename_event is None
            &&& queue_of(after.queues, from) == queue_of(before, from).push(
                DebouncedEventView {
                    event: rename_both(from, to, to_half),
                    time: (t2 + s.timeout) as u64,
                },
            )
            &&& forall|other: Seq<char>|
                other != from ==> queue_of(after.queues, other) == queue_of(before, other)
            &&& seen1 == lookup(pre.entries(), from)
            &&& lookup(post.entries(), from) is None
            &&& to != from ==> lookup(post.entries(), to) == seen2
            &&& seen1 is Some && to != from ==> lookup(post.entries(), to) == lookup(
                pre.entries(),
                from,
            )
        }),
{
    let from = from_half.paths[0];
    let to = to_half.paths[0];
    let base = with_half_flushed(s);
    lemma_half_flushed(s);
    let one = enqueued(s, from_half, t1, seen1);
    assert(one.queues == base.queues);
    assert(completes(one, to_half, seen2));
    assert(pending_path(one) == from);
    let time = (t2 + s.timeout) as u64;
    let both = rename_both(from, to, to_half);
    lemma_pushed(one.queues, from, both, time);
    let pending = queue_of(base.queues, from);
    assert(merged(pending, both, time) =~= pending.push(
        DebouncedEventView { event: both, time },
    ));
    assert(between == pre);
    let mid = choose|mid: T|
        {
            &&& add_path_ok(between, to, mid)
            &&& seen2 == lookup(mid.entries(), to)
            &&& remove_path_ok(mid, from, post)
        };
}

/// A request for a rescan has the cache rescanned when it comes in and again when it is
/// handed out. While it waits for its deadline, no event is handed out; at its deadline it
/// is handed out before every other event of the batch, and the slot is free again.
pub proof fn law_rescan_comes_first<T: FileIdCache>(
    s: State,
    request: EventView,
    arrival: u64,
    seen: Option<FileId>,
    now: u64,
    pre: T,
    post: T,
)
    requires
        well_formed(s),
        request.need_rescan(),
    ensures
        cache_enqueued(pre, s, request, seen, post) ==> T::rescanned(pre, post),
        enqueued(s, request, arrival, seen).rescan_event == Some(
            DebouncedEventView {
                event: request,
                time: later((arrival + s.timeout) as u64, s.rescan_event),
            },
        ),
        enqueued(s, request, arrival, seen).queues == s.queues,
        enqueued(s, request, arrival, seen).rename_event == s.rename_event,
        s.rescan_event is Some && !rescan_due(s, now) ==> emitted(s, now) == Seq::<
            DebouncedEventView,
        >::empty(),
        rescan_due(s, now) ==> {
            &&& emitted(s, now).len() >= 1
            &&& Some(emitted(s, now)[0]) == s.rescan_event
            &&& flushed(s, now).rescan_event is None
            &&& (cache_flushed(pre, s, now, post) ==> T::rescanned(pre, post))
        },
{
}

/// Where time does not run backwards and the debounce window stays, so that nothing pending
/// has a deadline after the one that a new event gets, a request for a rescan that comes
/// in has the latest deadline of all that is pending.
pub proof fn law_rescan_has_latest_deadline(
    s: State,
    request: EventView,
    now: u64,
    seen: Option<FileId>,
)
    requires
        request.need_rescan(),
        now + s.timeout <= u64::MAX,
        deadlines_within(s, now + s.timeout),
    ensures
        enqueued(s, request, now, seen).rescan_event matches Some(rescan) && rescan.time == now
            + s.timeout && deadlines_within(enqueued(s, request, now, seen), rescan.time as int),
{
}

/// A second flush at the same instant, with nothing having come in between, hands out no
/// event and no error, and leaves the state as the first flush left it.
pub proof fn law_flush_twice(s: State, now: u64)
    requires
        well_formed(s),
    ensures
        emitted(flushed(s, now), now) == Seq::<DebouncedEventView>::empty(),
        flushed(s, now).errors == Seq::<crate::event::ErrorView>::empty(),
        flushed(flushed(s, now), now) == flushed(s, now),
{
    let t = settled(s, now);
    let once = flushed(s, now);
    lemma_remaining_settles(t.queues, now);
    assert(settled(once, now) == once);
    if held_back(t, now) {
    } else {
        assert(sort_by_deadline(Seq::<DebouncedEventView>::empty()) =~= Seq::<
            DebouncedEventView,
        >::empty());
    }
}

/// A flush that is not held back takes from every queue all that is due at its front: of
/// each queue that stays, the first event has its deadline after the flush.
pub proof fn law_due_front_is_drained(s: State, now: u64, place: int)
    requires
        well_formed(s),
        !held_back(settled(s, now), now),
        0 <= place < flushed(s, now).queues.len(),
    ensures
        flushed(s, now).queues[place].1.len() > 0,
        flushed(s, now).queues[place].1.first().time > now,
{
    lemma_remaining_fronts(settled(s, now).queues, now, place);
}

/// A batch holds only events whose deadline has come, and after the request for a rescan,
/// if it starts with one, its deadlines never decrease.
pub proof fn law_batch_in_deadline_order(s: State, now: u64)
    requires
        well_formed(s),
    ensures
        all_due_by(emitted(s, now), now as int),
        is_sorted(
            if rescan_due(s, now) {
                emitted(s, now).skip(1)
            } else {
                emitted(s, now)
            },
        ),
{
    broadcast use vstd::seq_lib::group_to_multiset_ensures;

    let t = settled(s, now);
    if !held_back(t, now) {
        let due = due_events(t.queues, now);
        let sorted = sort_by_deadline(due);
        lemma_sort_by_deadline(due);
        lemma_due_events_are_due(t.queues, now);
        assert forall|i: int| 0 <= i < sorted.len() implies (#[trigger] sorted[i]).time <= now by {
            assert(sorted.contains(sorted[i]));
            assert(sorted.to_multiset().count(sorted[i]) > 0);
            assert(due.to_multiset().count(sorted[i]) > 0);
            assert(due.contains(sorted[i]));
            let j = choose|j: int| 0 <= j < due.len() && due[j] == sorted[i];
            assert(due[j].time <= now);
        }
        let batch = emitted(s, now);
        match t.rescan_event {
            Some(rescan) => {
                assert(batch.skip(1) =~= sorted);
                assert forall|i: int| 0 <= i < batch.len() implies (#[trigger] batch[i]).time
                    <= now by {
                    if i > 0 {
                        assert(batch[i] == sorted[i - 1]);
                    }
                }
            },
            None => {},
        }
    }
}

/// Where the events that leave the queues are in the order of their deadlines as they stand
/// in the queues, as they are where deadlines grow with time and one path is flushed, the
/// batch hands them out in that order: the order in which they came in.
pub proof fn law_batch_keeps_arrival_order(s: State, now: u64)
    requires
        well_formed(s),
        !held_back(settled(s, now), now),
        is_sorted(due_events(settled(s, now).queues, now)),
    ensures
        emitted(s, now) == match settled(s, now).rescan_event {
            Some(rescan) => seq![rescan] + due_events(settled(s, now).queues, now),
            None => due_events(settled(s, now).queues, now),
        },
{
    lemma_sorted_stays(due_events(settled(s, now).queues, now));
}

/// No queue ever holds two neighbours that the merge table would have merged: where that
/// holds of a state, it holds after an event has come in and after a flush.
pub proof fn law_no_duplicates_kept(s: State, step: Step)
    requires
        queues_without_duplicates(s),
    ensures
        queues_without_duplicates(after_step(s, step)),
{
    lemma_half_flushed_without_duplicates(s);
    match step {
        Step::Enqueue { event, now, seen } => {
            let time = (now + s.timeout) as u64;
            let base = with_half_flushed(s);
            match spec_route(event, s.merge_renames) {
                Route::Rescan => {},
                Route::RenameFrom => {
                    if completes(s, event, seen) {
                        let from = event.paths[0];
                        lemma_pushed_without_duplicates(
                            s.queues,
                            from,
                            rename_both(from, pending_path(s), event),
                            time,
                        );
                    }
                },
                Route::RenameTo => {
                    if completes(s, event, seen) {
                        let from = pending_path(s);
                        lemma_pushed_without_duplicates(
                            s.queues,
                            from,
                            rename_both(from, event.paths[0], event),
                            time,
                        );
                    }
                },
                Route::RenameBoth | Route::Plain => {
                    lemma_pushed_without_duplicates(base.queues, event.paths[0], event, time);
                },
            }
        },
        Step::Flush { now } => {
            lemma_remaining_without_duplicates(settled(s, now).queues, now);
        },
    }
}

/// The queues stay in the order of arrival, front oldest and back most recent, as long as
/// no event gets a deadline that is before one that is pending, as it is where time does
/// not run backwards and the debounce window does not shrink.
pub proof fn law_queues_stay_in_arrival_order(s: State, step: Step)
    requires
        in_arrival_order(s),
        step matches Step::Enqueue { now, .. } ==> now + s.timeout <= u64::MAX && deadlines_within(
            s,
            now + s.timeout,
        ),
    ensures
        in_arrival_order(after_step(s, step)),
{
    lemma_half_flushed_in_order(s);
    match step {
        Step::Enqueue { event, now, seen } => {
            let time = (now + s.timeout) as u64;
            let base = with_half_flushed(s);
            lemma_half_flushed_within(s, time as int);
            match spec_route(event, s.merge_renames) {
                Route::Rescan => {},
                Route::RenameFrom => {
                    if completes(s, event, seen) {
                        let from = event.paths[0];
                        lemma_pushed_sorted(
                            s.queues,
                            from,
                            rename_both(from, pending_path(s), event),
                            time,
                        );
                    }
                },
                Route::RenameTo => {
                    if completes(s, event, seen) {
                        let from = pending_path(s);
                        lemma_pushed_sorted(
                            s.queues,
                            from,
                            rename_both(from, event.paths[0], event),
                            time,
                        );
                    }
                },
                Route::RenameBoth | Route::Plain => {
                    lemma_pushed_sorted(base.queues, event.paths[0], event, time);
                },
            }
        },
        Step::Flush { now } => {
            let t = settled(s, now);
            lemma_remaining_sorted(t.queues, now);
            match t.rename_event {
                Some((half, _)) => {
                    lemma_remaining_within(t.queues, now, half.time as int);
                },
                None => {},
            }
        },
    }
}

} // verus!
