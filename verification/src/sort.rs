//! Ordering a batch of events by deadline.

use vstd::prelude::*;

use crate::event::{events_view, DebouncedEvent, DebouncedEventView};

verus! {

/// `sorted` with `event` put behind the last event whose deadline is not later.
pub open spec fn inserted(sorted: Seq<DebouncedEventView>, event: DebouncedEventView) -> Seq<
    DebouncedEventView,
>
    decreases sorted.len(),
{
    if sorted.len() == 0 || sorted.last().time <= event.time {
        sorted.push(event)
    } else {
        inserted(sorted.drop_last(), event).push(sorted.last())
    }
}

/// The events of `events` by deadline, earliest first; events with the same deadline keep
/// the order they have in `events`.
pub open spec fn sort_by_deadline(events: Seq<DebouncedEventView>) -> Seq<DebouncedEventView>
    decreases events.len(),
{
    if events.len() == 0 {
        Seq::empty()
    } else {
        inserted(sort_by_deadline(events.drop_last()), events.last())
    }
}

/// Whether the deadlines of `events` never decrease.
pub open spec fn is_sorted(events: Seq<DebouncedEventView>) -> bool {
    forall|i: int, j: int|
        0 <= i <= j < events.len() ==> (#[trigger] events[i]).time <= (#[trigger] events[j]).time
}

/// Putting an event into a sequence adds that event and nothing else.
pub proof fn lemma_inserted_multiset(sorted: Seq<DebouncedEventView>, event: DebouncedEventView)
    ensures
        inserted(sorted, event).to_multiset() == sorted.to_multiset().insert(event),
        inserted(sorted, event).len() == sorted.len() + 1,
    decreases sorted.len(),
{
    broadcast use vstd::seq_lib::group_to_multiset_ensures;

    if sorted.len() == 0 || sorted.last().time <= event.time {
    } else {
        let rest = sorted.drop_last();
        lemma_inserted_multiset(rest, event);
        assert(rest.push(sorted.last()) =~= sorted);
        assert(inserted(sorted, event).to_multiset() =~= sorted.to_multiset().insert(event));
    }
}

/// Putting an event into a sorted sequence leaves it sorted, and no deadline in it is later
/// than the later of the event's and the last one's.
pub proof fn lemma_inserted_sorted(sorted: Seq<DebouncedEventView>, event: DebouncedEventView)
    requires
        is_sorted(sorted),
    ensures
        is_sorted(inserted(sorted, event)),
        inserted(sorted, event).len() == sorted.len() + 1,
        inserted(sorted, event).last().time == if sorted.len() == 0 || sorted.last().time
            <= event.time {
            event.time
        } else {
            sorted.last().time
        },
    decreases sorted.len(),
{
    if sorted.len() == 0 || sorted.last().time <= event.time {
        let after = sorted.push(event);
        assert forall|i: int, j: int| 0 <= i <= j < after.len() implies (#[trigger] after[i]).time
            <= (#[trigger] after[j]).time by {
            if j == sorted.len() && i < sorted.len() {
                assert(after[i] == sorted[i]);
                assert(sorted[i].time <= sorted[sorted.len() - 1].time);
            } else if j < sorted.len() {
                assert(after[i] == sorted[i]);
                assert(after[j] == sorted[j]);
            }
        }
    } else {
        let rest = sorted.drop_last();
        assert(is_sorted(rest)) by {
            assert forall|i: int, j: int| 0 <= i <= j < rest.len() implies (#[trigger] rest[i]).time
                <= (#[trigger] rest[j]).time by {
                assert(rest[i] == sorted[i]);
                assert(rest[j] == sorted[j]);
            }
        }
        lemma_inserted_sorted(rest, event);
        let front = inserted(rest, event);
        let after = front.push(sorted.last());
        assert(front.last().time <= sorted.last().time) by {
            if rest.len() > 0 {
                assert(rest.last() == sorted[sorted.len() - 2]);
                assert(sorted[sorted.len() - 2].time <= sorted[sorted.len() - 1].time);
            }
        }
        assert forall|i: int, j: int| 0 <= i <= j < after.len() implies (#[trigger] after[i]).time
            <= (#[trigger] after[j]).time by {
            if j == front.len() && i < front.len() {
                assert(after[i] == front[i]);
                assert(front[i].time <= front[front.len() - 1].time);
            } else if j < front.len() {
                assert(after[i] == front[i]);
                assert(after[j] == front[j]);
            }
        }
    }
}

/// Sorting gives a sorted sequence with the same events, each as often as before.
pub proof fn lemma_sort_by_deadline(events: Seq<DebouncedEventView>)
    ensures
        is_sorted(sort_by_deadline(events)),
        sort_by_deadline(events).to_multiset() == events.to_multiset(),
        sort_by_deadline(events).len() == events.len(),
    decreases events.len(),
{
    broadcast use vstd::seq_lib::group_to_multiset_ensures;

    if events.len() == 0 {
        assert(sort_by_deadline(events) =~= events);
    } else {
        let rest = events.drop_last();
        lemma_sort_by_deadline(rest);
        lemma_inserted_sorted(sort_by_deadline(rest), events.last());
        lemma_inserted_multiset(sort_by_deadline(rest), events.last());
        assert(rest.push(events.last()) =~= events);
        assert(sort_by_deadline(events).to_multiset() =~= events.to_multiset());
    }
}

/// Events that are in the order of their deadlines already stay as they are.
pub proof fn lemma_sorted_stays(events: Seq<DebouncedEventView>)
    requires
        is_sorted(events),
    ensures
        sort_by_deadline(events) == events,
    decreases events.len(),
{
    if events.len() == 0 {
        assert(sort_by_deadline(events) =~= events);
    } else {
        let rest = events.drop_last();
        assert(is_sorted(rest)) by {
            assert forall|i: int, j: int| 0 <= i <= j < rest.len() implies (#[trigger] rest[i]).time
                <= (#[trigger] rest[j]).time by {
                assert(rest[i] == events[i]);
                assert(rest[j] == events[j]);
            }
        }
        lemma_sorted_stays(rest);
        if rest.len() > 0 {
            assert(rest.last() == events[events.len() - 2]);
            assert(events[events.len() - 2].time <= events[events.len() - 1].time);
        }
        assert(rest.push(events.last()) =~= events);
    }
}

/// Where every event from `place` on is later than `event` and the one before `place` is
/// not, `event` goes to `place`.
proof fn lemma_inserted_at(sorted: Seq<DebouncedEventView>, event: DebouncedEventView, place: int)
    requires
        0 <= place <= sorted.len(),
        forall|j: int| place <= j < sorted.len() ==> (#[trigger] sorted[j]).time > event.time,
        place > 0 ==> sorted[place - 1].time <= event.time,
    ensures
        inserted(sorted, event) == sorted.insert(place, event),
    decreases sorted.len(),
{
    if place == sorted.len() {
        assert(sorted.push(event) =~= sorted.insert(place, event));
    } else {
        let rest = sorted.drop_last();
        assert(sorted[sorted.len() - 1].time > event.time);
        assert forall|j: int| place <= j < rest.len() implies (#[trigger] rest[j]).time
            > event.time by {
            assert(rest[j] == sorted[j]);
        }
        lemma_inserted_at(rest, event, place);
        assert(rest.insert(place, event).push(sorted.last()) =~= sorted.insert(place, event));
    }
}

/// Puts `event` into `sorted`, behind the last event whose deadline is not later. Where the
/// event is the latest, this takes one step.
pub fn insert_by_deadline(sorted: &mut Vec<DebouncedEvent>, event: DebouncedEvent)
    ensures
        events_view(final(sorted)@) == inserted(events_view(old(sorted)@), event@),
{
    let ghost before = events_view(sorted@);
    let mut place: usize = sorted.len();
    while place > 0 && sorted[place - 1].time > event.time
        invariant
            place <= sorted.len(),
            before == events_view(sorted@),
            forall|j: int| place <= j < before.len() ==> (#[trigger] before[j]).time > event.time,
        decreases place,
    {
        assert(before[place - 1].time > event.time);
        place -= 1;
    }
    proof {
        if place > 0 {
            assert(before[place - 1].time == sorted@[place - 1].time);
        }
        lemma_inserted_at(before, event@, place as int);
    }
    sorted.insert(place, event);
    assert(events_view(sorted@) =~= before.insert(place as int, event@));
}

/// The events of `events`, last first.
fn reversed(events: Vec<DebouncedEvent>) -> (backwards: Vec<DebouncedEvent>)
    ensures
        events_view(backwards@) == events_view(events@).reverse(),
        backwards.len() == events.len(),
{
    let ghost all = events_view(events@);
    let mut input = events;
    let mut backwards: Vec<DebouncedEvent> = Vec::new();
    while input.len() > 0
        invariant
            input.len() <= all.len(),
            events_view(input@) == all.take(input.len() as int),
            backwards.len() == all.len() - input.len(),
            forall|k: int|
                0 <= k < backwards.len() ==> (#[trigger] backwards@[k])@ == all[all.len() - 1 - k],
        decreases input.len(),
    {
        let ghost n = input.len() as int;
        let ghost pending = events_view(input@);
        let last = input.pop().unwrap();
        assert(last@ == all[n - 1]) by {
            assert(last@ == pending[n - 1]);
            assert(all.take(n)[n - 1] == all[n - 1]);
        }
        backwards.push(last);
        assert(events_view(input@) =~= all.take(n - 1));
    }
    assert(events_view(backwards@) =~= all.reverse());
    backwards
}

/// The events of `events` by deadline, earliest first; events with the same deadline keep
/// their order. Events that are in order already are sorted in one pass.
pub fn sort_events(events: Vec<DebouncedEvent>) -> (sorted: Vec<DebouncedEvent>)
    ensures
        events_view(sorted@) == sort_by_deadline(events_view(events@)),
{
    let ghost all = events_view(events@);
    let mut input = reversed(events);
    let mut sorted: Vec<DebouncedEvent> = Vec::new();
    let ghost mut done: int = 0;
    assert(all.take(0) =~= Seq::empty());
    assert(events_view(sorted@) =~= Seq::empty());
    assert(all.reverse().take(all.len() as int) =~= all.reverse());
    while input.len() > 0
        invariant
            0 <= done <= all.len(),
            input.len() == all.len() - done,
            events_view(input@) == all.reverse().take(input.len() as int),
            events_view(sorted@) == sort_by_deadline(all.take(done)),
        decreases input.len(),
    {
        let ghost n = input.len() as int;
        let ghost pending = events_view(input@);
        let next = input.pop().unwrap();
        assert(next@ == all[done]) by {
            assert(next@ == pending[n - 1]);
            assert(all.reverse().take(n)[n - 1] == all.reverse()[n - 1]);
        }
        insert_by_deadline(&mut sorted, next);
        proof {
            let longer = all.take(done + 1);
            assert(longer.last() == all[done]);
            assert(longer.drop_last() =~= all.take(done));
            assert(events_view(input@) =~= all.reverse().take(n - 1));
            done = done + 1;
        }
    }
    assert(all.take(all.len() as int) =~= all);
    sorted
}

} // verus!
