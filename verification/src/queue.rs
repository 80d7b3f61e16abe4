//! The events pending for one path, and how a new event merges with them.

use std::collections::VecDeque;
use vstd::prelude::*;

use crate::event::{
    events_view, DataChange, DebouncedEvent, DebouncedEventView, Event, EventKind, EventView,
    MetadataKind, ModifyKind,
};

verus! {

/// What becomes of a new event, given the kind of the last event pending for its path.
#[derive(Clone, Copy, Debug, PartialEq, Eq, Structural)]
pub enum MergeAction {
    /// The new event is queued behind the last.
    Append,
    /// The new event is dropped; the queue stays as it is.
    DropIncoming,
    /// The new event takes the place of the last.
    ReplaceBack,
    /// The last event stays, with the broader of the two kinds and the new deadline.
    MergeBroader,
    /// The last event and the new one cancel; both are dropped.
    Collapse,
}

/// The merge table: what to do with an event of kind `incoming` when the last event pending
/// for its path has kind `back`. Pairs that the table does not list are queued.
pub open spec fn spec_merge_action(back: EventKind, incoming: EventKind) -> MergeAction {
    match (back, incoming) {
        (EventKind::Access(_), EventKind::Access(_)) => MergeAction::ReplaceBack,
        (EventKind::Create(_), EventKind::Access(_)) => MergeAction::DropIncoming,
        (EventKind::Create(_), EventKind::Create(_)) => MergeAction::DropIncoming,
        (EventKind::Create(_), EventKind::Modify(ModifyKind::Data(_))) => MergeAction::DropIncoming,
        (EventKind::Create(_), EventKind::Modify(ModifyKind::Metadata(_))) => {
            MergeAction::DropIncoming
        },
        (EventKind::Create(_), EventKind::Remove(_)) => MergeAction::Collapse,
        (EventKind::Modify(ModifyKind::Data(_)), EventKind::Access(_)) => MergeAction::DropIncoming,
        (EventKind::Modify(ModifyKind::Data(_)), EventKind::Modify(ModifyKind::Data(_))) => {
            MergeAction::MergeBroader
        },
        (EventKind::Modify(ModifyKind::Metadata(_)), EventKind::Access(_)) => {
            MergeAction::DropIncoming
        },
        (
            EventKind::Modify(ModifyKind::Metadata(_)),
            EventKind::Modify(ModifyKind::Metadata(_)),
        ) => MergeAction::MergeBroader,
        (EventKind::Remove(_), EventKind::Remove(_)) => MergeAction::DropIncoming,
        _ => MergeAction::Append,
    }
}

/// The broader of two kinds of one family: `Any` wins over a specific kind, and of two
/// specific kinds the first stays.
pub open spec fn spec_broader(first: EventKind, second: EventKind) -> EventKind {
    match (first, second) {
        (
            EventKind::Modify(ModifyKind::Data(_)),
            EventKind::Modify(ModifyKind::Data(DataChange::Any)),
        ) => second,
        (
            EventKind::Modify(ModifyKind::Metadata(_)),
            EventKind::Modify(ModifyKind::Metadata(MetadataKind::Any)),
        ) => second,
        _ => first,
    }
}

/// The queue `queue` after an event `event` with deadline `time` has come for its path.
pub open spec fn merged(queue: Seq<DebouncedEventView>, event: EventView, time: u64) -> Seq<
    DebouncedEventView,
> {
    let incoming = DebouncedEventView { event, time };
    if queue.len() == 0 {
        seq![incoming]
    } else {
        let back = queue.last();
        match spec_merge_action(back.event.kind, event.kind) {
            MergeAction::Append => queue.push(incoming),
            MergeAction::DropIncoming => queue,
            MergeAction::ReplaceBack => queue.drop_last().push(incoming),
            MergeAction::MergeBroader => queue.drop_last().push(
                DebouncedEventView {
                    event: EventView {
                        kind: spec_broader(back.event.kind, event.kind),
                        ..back.event
                    },
                    time,
                },
            ),
            MergeAction::Collapse => queue.drop_last(),
        }
    }
}

/// How many events at the front of `queue` have reached their deadline at `now`.
pub open spec fn due_count(queue: Seq<DebouncedEventView>, now: u64) -> nat
    decreases queue.len(),
{
    if queue.len() == 0 || queue.first().time > now {
        0
    } else {
        1 + due_count(queue.drop_first(), now)
    }
}

/// The events at the front of `queue` that have reached their deadline at `now`.
pub open spec fn due_prefix(queue: Seq<DebouncedEventView>, now: u64) -> Seq<DebouncedEventView> {
    queue.take(due_count(queue, now) as int)
}

/// What stays of `queue` when the events due at `now` have left it.
pub open spec fn not_due(queue: Seq<DebouncedEventView>, now: u64) -> Seq<DebouncedEventView> {
    queue.skip(due_count(queue, now) as int)
}

/// Whether every event of `queue` has a deadline of at most `bound`.
pub open spec fn all_due_by(queue: Seq<DebouncedEventView>, bound: int) -> bool {
    forall|i: int| 0 <= i < queue.len() ==> (#[trigger] queue[i]).time <= bound
}

/// The due events are a prefix of the queue, each of them due, and the next event is not.
pub proof fn lemma_due_count(queue: Seq<DebouncedEventView>, now: u64)
    ensures
        due_count(queue, now) <= queue.len(),
        forall|i: int| 0 <= i < due_count(queue, now) ==> (#[trigger] queue[i]).time <= now,
        due_count(queue, now) < queue.len() ==> queue[due_count(queue, now) as int].time > now,
    decreases queue.len(),
{
    if queue.len() == 0 || queue.first().time > now {
    } else {
        let rest = queue.drop_first();
        lemma_due_count(rest, now);
        assert forall|i: int| 0 <= i < due_count(queue, now) implies (#[trigger] queue[i]).time
            <= now by {
            if i > 0 {
                assert(queue[i] == rest[i - 1]);
            }
        }
        if due_count(queue, now) < queue.len() {
            assert(queue[due_count(queue, now) as int] == rest[due_count(rest, now) as int]);
        }
    }
}

/// A queue whose first `n` events are due, and whose next is not, has exactly `n` due events.
pub proof fn lemma_due_count_is(queue: Seq<DebouncedEventView>, now: u64, n: int)
    requires
        0 <= n <= queue.len(),
        forall|i: int| 0 <= i < n ==> (#[trigger] queue[i]).time <= now,
        n < queue.len() ==> queue[n].time > now,
    ensures
        due_count(queue, now) == n,
    decreases queue.len(),
{
    if n == 0 {
    } else {
        let rest = queue.drop_first();
        assert(queue[0].time <= now);
        assert forall|i: int| 0 <= i < n - 1 implies (#[trigger] rest[i]).time <= now by {
            assert(rest[i] == queue[i + 1]);
        }
        lemma_due_count_is(rest, now, n - 1);
    }
}

/// The events pending for one path, oldest first.
#[derive(Clone, Debug, PartialEq, Eq)]
pub struct Queue {
    pub events: VecDeque<DebouncedEvent>,
}

impl View for Queue {
    type V = Seq<DebouncedEventView>;

    open spec fn view(&self) -> Seq<DebouncedEventView> {
        events_view(self.events@)
    }
}

/// What to do with an event of kind `incoming` when the last pending event has kind `back`.
pub fn merge_action(back: EventKind, incoming: EventKind) -> (action: MergeAction)
    ensures
        action == spec_merge_action(back, incoming),
{
    match (back, incoming) {
        (EventKind::Access(_), EventKind::Access(_)) => MergeAction::ReplaceBack,
        (EventKind::Create(_), EventKind::Access(_)) => MergeAction::DropIncoming,
        (EventKind::Create(_), EventKind::Create(_)) => MergeAction::DropIncoming,
        (EventKind::Create(_), EventKind::Modify(ModifyKind::Data(_))) => MergeAction::DropIncoming,
        (EventKind::Create(_), EventKind::Modify(ModifyKind::Metadata(_))) => {
            MergeAction::DropIncoming
        },
        (EventKind::Create(_), EventKind::Remove(_)) => MergeAction::Collapse,
        (EventKind::Modify(ModifyKind::Data(_)), EventKind::Access(_)) => MergeAction::DropIncoming,
        (EventKind::Modify(ModifyKind::Data(_)), EventKind::Modify(ModifyKind::Data(_))) => {
            MergeAction::MergeBroader
        },
        (EventKind::Modify(ModifyKind::Metadata(_)), EventKind::Access(_)) => {
            MergeAction::DropIncoming
        },
        (
            EventKind::Modify(ModifyKind::Metadata(_)),
            EventKind::Modify(ModifyKind::Metadata(_)),
        ) => MergeAction::MergeBroader,
        (EventKind::Remove(_), EventKind::Remove(_)) => MergeAction::DropIncoming,
        _ => MergeAction::Append,
    }
}

/// The broader of two kinds of one family.
pub fn broader(first: EventKind, second: EventKind) -> (kind: EventKind)
    ensures
        kind == spec_broader(first, second),
{
    match (first, second) {
        (
            EventKind::Modify(ModifyKind::Data(_)),
            EventKind::Modify(ModifyKind::Data(DataChange::Any)),
        ) => second,
        (
            EventKind::Modify(ModifyKind::Metadata(_)),
            EventKind::Modify(ModifyKind::Metadata(MetadataKind::Any)),
        ) => second,
        _ => first,
    }
}

impl Queue {
    /// The queue without events.
    pub fn new() -> (queue: Queue)
        ensures
            queue@ == Seq::<DebouncedEventView>::empty(),
    {
        let queue = Queue { events: VecDeque::new() };
        assert(queue@ =~= Seq::<DebouncedEventView>::empty());
        queue
    }

    /// The number of pending events.
    pub fn len(&self) -> (len: usize)
        ensures
            len == self@.len(),
    {
        self.events.len()
    }

    /// Whether no event is pending.
    pub fn is_empty(&self) -> (empty: bool)
        ensures
            empty == (self@.len() == 0),
    {
        self.events.len() == 0
    }

    /// Whether the deadlines never decrease from front to back, and none is after `limit`.
    pub fn is_in_order_within(&self, limit: u64) -> (ok: bool)
        ensures
            ok == (crate::sort::is_sorted(self@) && all_due_by(self@, limit as int)),
    {
        let mut i: usize = 0;
        while i < self.events.len()
            invariant
                i <= self.events.len(),
                forall|a: int, b: int|
                    0 <= a <= b < i ==> (#[trigger] self@[a]).time <= (#[trigger] self@[b]).time,
                forall|a: int| 0 <= a < i ==> (#[trigger] self@[a]).time <= limit,
            decreases self.events.len() - i,
        {
            if self.events[i].time > limit {
                assert(self@[i as int].time > limit);
                return false;
            }
            if i > 0 && self.events[i - 1].time > self.events[i].time {
                assert(self@[i - 1].time > self@[i as int].time);
                return false;
            }
            assert forall|a: int, b: int| 0 <= a <= b < i + 1 implies (#[trigger] self@[a]).time <= (
            #[trigger] self@[b]).time by {
                if b == i && a < i {
                    assert(self@[a].time <= self@[i - 1].time);
                    assert(self@[i - 1].time <= self@[i as int].time);
                }
            }
            i += 1;
        }
        true
    }

    /// Takes in an event with its deadline, merging it with the last pending event as the
    /// merge table says.
    pub fn push(&mut self, event: Event, time: u64)
        ensures
            final(self)@ == merged(old(self)@, event@, time),
    {
        let ghost before = self@;
        let n = self.events.len();
        if n == 0 {
            self.events.push_back(DebouncedEvent { event, time });
            assert(self@ =~= merged(before, event@, time));
            return ;
        }
        let back_kind = self.events[n - 1].event.kind;
        assert(back_kind == before.last().event.kind);
        match merge_action(back_kind, event.kind) {
            MergeAction::Append => {
                self.events.push_back(DebouncedEvent { event, time });
                assert(self@ =~= merged(before, event@, time));
            },
            MergeAction::DropIncoming => {},
            MergeAction::ReplaceBack => {
                let _ = self.events.pop_back();
                self.events.push_back(DebouncedEvent { event, time });
                assert(self@ =~= merged(before, event@, time));
            },
            MergeAction::MergeBroader => {
                let last = self.events.pop_back();
                let mut kept = last.unwrap();
                assert(kept@ == before.last());
                kept.event.kind = broader(kept.event.kind, event.kind);
                kept.time = time;
                self.events.push_back(kept);
                assert(self@ =~= merged(before, event@, time));
            },
            MergeAction::Collapse => {
                let _ = self.events.pop_back();
                assert(self@ =~= merged(before, event@, time));
            },
        }
    }

    /// Moves the events at the front that have reached their deadline at `now` to the end
    /// of `out`, oldest first.
    pub fn drain_due(&mut self, now: u64, out: &mut Vec<DebouncedEvent>)
        ensures
            events_view(final(out)@) == events_view(old(out)@) + due_prefix(old(self)@, now),
            final(self)@ == not_due(old(self)@, now),
    {
        let ghost before = self@;
        let ghost out_before = events_view(out@);
        let ghost mut taken: int = 0;
        assert(events_view(out@) =~= out_before + before.take(0));
        assert(self@ =~= before.skip(0));
        loop
            invariant
                0 <= taken <= before.len(),
                forall|i: int| 0 <= i < taken ==> (#[trigger] before[i]).time <= now,
                events_view(out@) == out_before + before.take(taken),
                self@ == before.skip(taken),
                self@.len() == before.len() - taken,
            ensures
                events_view(out@) == out_before + due_prefix(before, now),
                self@ == not_due(before, now),
            decreases before.len() - taken,
        {
            if self.events.len() == 0 {
                proof {
                    lemma_due_count_is(before, now, taken);
                }
                break ;
            }
            assert(self@[0] == before[taken]);
            if self.events[0].time > now {
                proof {
                    lemma_due_count_is(before, now, taken);
                }
                break ;
            }
            let ghost pending = self@;
            let ghost emitted = events_view(out@);
            let first = self.events.pop_front();
            let first = first.unwrap();
            assert(first@ == pending[0]);
            out.push(first);
            assert(events_view(out@) =~= emitted.push(first@));
            assert(self@ =~= pending.skip(1));
            proof {
                taken = taken + 1;
            }
            assert(events_view(out@) =~= out_before + before.take(taken));
            assert(self@ =~= before.skip(taken));
        }
    }
}

} // verus!
