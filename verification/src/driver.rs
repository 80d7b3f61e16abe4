//! The debouncer with a clock of its own: events come in at the instant the clock shows,
//! and a poll hands out what is due at that instant.

use vstd::prelude::*;

use crate::cache::{FileIdCache, FileIdMap};
use crate::path_map::PathMap;
use crate::debouncer::{is_admissible, Config, DebounceDataInner};
use crate::event::{errors_view, events_view, DebouncedEvent, Error, Event};
use crate::file_id::FileId;
use crate::laws::{
    deadlines_within, in_arrival_order, is_idle, law_batch_in_deadline_order,
    law_flush_emits_all_due, law_queues_stay_in_arrival_order, Step,
};
use crate::lemmas::{lemma_enqueued_within, lemma_flushed_within, lemma_within_later};
use crate::model::{
    admissible, cache_enqueued, cache_flushed, emitted, enqueued, flushed, rescan_due,
    well_formed, State,
};
use crate::queue::all_due_by;
use crate::sort::is_sorted;

verus! {

/// A debouncer together with the instant at which it stands. The clock never runs
/// backwards and the debounce window stays as it was set, so that the queues are always in
/// the order of arrival and nothing pending is due later than one window from now.
pub struct Driver<T> {
    data: DebounceDataInner<T>,
    now: u64,
}

impl<T: FileIdCache> Driver<T> {
    /// The state of the debouncer.
    pub closed spec fn state(&self) -> State {
        self.data@
    }

    /// The cache of the debouncer.
    pub closed spec fn cache(&self) -> T {
        self.data.cache
    }

    /// The instant at which the driver stands, in milliseconds.
    pub closed spec fn clock(&self) -> u64 {
        self.now
    }

    /// What holds of a driver at all times.
    pub open spec fn inv(&self) -> bool {
        &&& well_formed(self.state())
        &&& in_arrival_order(self.state())
        &&& self.clock() + self.state().timeout <= u64::MAX
        &&& deadlines_within(self.state(), self.clock() + self.state().timeout)
    }

    /// A driver at the instant zero, with nothing pending.
    pub fn new(cache: T, config: Config) -> (driver: Driver<T>)
        ensures
            driver.inv(),
            driver.clock() == 0,
            driver.cache() == cache,
            driver.state() == (State {
                queues: Seq::empty(),
                rename_event: None,
                rescan_event: None,
                errors: Seq::empty(),
                timeout: config.timeout,
                merge_renames: config.merge_renames,
            }),
    {
        Driver { data: DebounceDataInner::with_config(cache, config), now: 0 }
    }

    /// The instant at which the driver stands.
    pub fn now(&self) -> (now: u64)
        ensures
            now == self.clock(),
    {
        self.now
    }

    /// The debounce window, in milliseconds.
    pub fn timeout(&self) -> (timeout: u64)
        ensures
            timeout == self.state().timeout,
    {
        self.data.timeout
    }

    /// The cache of the debouncer.
    pub fn file_ids(&self) -> (cache: &T)
        ensures
            *cache == self.cache(),
    {
        &self.data.cache
    }

    /// Whether nothing is pending.
    pub fn is_idle(&self) -> (idle: bool)
        ensures
            idle == is_idle(self.state()),
    {
        self.data.queues.is_empty() && self.data.rename_event.is_none()
            && self.data.rescan_event.is_none()
    }

    /// Whether a request for a rescan waits to be handed out.
    pub fn awaits_rescan(&self) -> (waiting: bool)
        ensures
            waiting == self.state().rescan_event is Some,
    {
        self.data.rescan_event.is_some()
    }

    /// Whether the driver is as [`Self::inv`] says. A driver that [`Self::new`] made is,
    /// whatever was done with it since.
    pub fn is_consistent(&self) -> (ok: bool)
        ensures
            ok == self.inv(),
    {
        if !self.data.is_well_formed() {
            return false;
        }
        if self.now > u64::MAX - self.data.timeout {
            return false;
        }
        let bound = self.now + self.data.timeout;
        match &self.data.rescan_event {
            Some(rescan) => {
                if rescan.time > bound {
                    return false;
                }
            },
            None => {},
        }
        let limit = match &self.data.rename_event {
            Some((half, _)) => {
                if half.time > bound {
                    return false;
                }
                half.time
            },
            None => bound,
        };
        let n = self.data.queues.len();
        let mut i: usize = 0;
        while i < n
            invariant
                i <= n,
                n == self.state().queues.len(),
                n == self.data.queues.entries().len(),
                limit <= bound,
                bound == self.clock() + self.state().timeout,
                self.state().rename_event matches Some((half, _)) ==> limit == half.time,
                self.state().rename_event is None ==> limit == bound,
                forall|j: int| 0 <= j < i ==> is_sorted((#[trigger] self.state().queues[j]).1),
                forall|j: int|
                    0 <= j < i ==> all_due_by((#[trigger] self.state().queues[j]).1, limit as int),
            decreases n - i,
        {
            let queue = self.data.queues.value_at(i);
            assert(queue@ == self.state().queues[i as int].1);
            if !queue.is_in_order_within(limit) {
                proof {
                    let pending = self.state().queues[i as int];
                    if self.inv() {
                        assert(is_sorted(pending.1));
                        assert(all_due_by(pending.1, bound as int));
                        assert(all_due_by(pending.1, limit as int));
                    }
                }
                return false;
            }
            i += 1;
        }
        proof {
            assert forall|j: int| 0 <= j < n implies all_due_by(
                (#[trigger] self.state().queues[j]).1,
                bound as int,
            ) by {
                assert(all_due_by(self.state().queues[j].1, limit as int));
            }
        }
        true
    }

    /// Moves the clock forward to `now`. A clock does not move backwards, nor so far that a
    /// deadline would not fit: then it stays, and the answer is no.
    pub fn advance_to(&mut self, now: u64) -> (moved: bool)
        requires
            old(self).inv(),
        ensures
            final(self).inv(),
            moved == (old(self).clock() <= now && now + old(self).state().timeout <= u64::MAX),
            final(self).clock() == if moved {
                now
            } else {
                old(self).clock()
            },
            final(self).state() == old(self).state(),
            final(self).cache() == old(self).cache(),
    {
        if self.now <= now && now <= u64::MAX - self.data.timeout {
            proof {
                lemma_within_later(
                    self.data@,
                    self.now + self.data.timeout,
                    now + self.data.timeout,
                );
            }
            self.now = now;
            true
        } else {
            false
        }
    }

    /// Takes a raw event in at the instant of the clock, as
    /// [`DebounceDataInner::enqueue`] does. An event that names no path and asks for no
    /// rescan is not taken, and the answer is no.
    pub fn enqueue_event(&mut self, event: Event) -> (taken: bool)
        requires
            old(self).inv(),
        ensures
            final(self).inv(),
            final(self).clock() == old(self).clock(),
            taken == admissible(event@),
            taken ==> exists|seen: Option<FileId>|
                {
                    &&& #[trigger] cache_enqueued(
                        old(self).cache(),
                        old(self).state(),
                        event@,
                        seen,
                        final(self).cache(),
                    )
                    &&& final(self).state() == enqueued(
                        old(self).state(),
                        event@,
                        old(self).clock(),
                        seen,
                    )
                },
            !taken ==> final(self).state() == old(self).state() && final(self).cache() == old(
                self,
            ).cache(),
    {
        if !is_admissible(&event) {
            return false;
        }
        let ghost before = self.data@;
        let ghost cache = self.data.cache;
        let ghost bound = self.now + self.data.timeout;
        self.data.enqueue(event, self.now);
        proof {
            let seen = choose|seen: Option<FileId>|
                {
                    &&& #[trigger] cache_enqueued(cache, before, event@, seen, self.data.cache)
                    &&& self.data@ == enqueued(before, event@, self.now, seen)
                };
            lemma_enqueued_within(before, event@, self.now, seen, bound);
            law_queues_stay_in_arrival_order(
                before,
                Step::Enqueue { event: event@, now: self.now, seen },
            );
            assert(cache_enqueued(old(self).cache(), old(self).state(), event@, seen, self.cache()));
            assert(self.state() == enqueued(old(self).state(), event@, old(self).clock(), seen));
        }
        true
    }

    /// Keeps an error of the watcher for the next poll.
    pub fn enqueue_error(&mut self, error: Error)
        requires
            old(self).inv(),
        ensures
            final(self).inv(),
            final(self).clock() == old(self).clock(),
            final(self).cache() == old(self).cache(),
            final(self).state() == (State {
                errors: old(self).state().errors.push(error@),
                ..old(self).state()
            }),
    {
        self.data.enqueue_error(error);
    }

    /// Hands out what is due at the instant of the clock, as [`DebounceDataInner::flush`]
    /// does: the events, then the errors.
    ///
    /// Every event of the batch has reached its deadline. After the request for a rescan,
    /// if the batch starts with one, the deadlines never decrease. Where the clock has
    /// reached every pending deadline, nothing is left pending.
    pub fn poll(&mut self) -> (batch: (Vec<DebouncedEvent>, Vec<Error>))
        requires
            old(self).inv(),
        ensures
            final(self).inv(),
            final(self).clock() == old(self).clock(),
            events_view(batch.0@) == emitted(old(self).state(), old(self).clock()),
            errors_view(batch.1@) == old(self).state().errors,
            final(self).state() == flushed(old(self).state(), old(self).clock()),
            cache_flushed(
                old(self).cache(),
                old(self).state(),
                old(self).clock(),
                final(self).cache(),
            ),
            all_due_by(events_view(batch.0@), old(self).clock() as int),
            is_sorted(
                if rescan_due(old(self).state(), old(self).clock()) {
                    events_view(batch.0@).skip(1)
                } else {
                    events_view(batch.0@)
                },
            ),
            deadlines_within(old(self).state(), old(self).clock() as int) ==> is_idle(
                final(self).state(),
            ),
    {
        let ghost before = self.data@;
        let ghost bound = self.now + self.data.timeout;
        let batch = self.data.flush(self.now);
        proof {
            lemma_flushed_within(before, self.now, bound);
            law_queues_stay_in_arrival_order(before, Step::Flush { now: self.now });
            law_batch_in_deadline_order(before, self.now);
            if deadlines_within(before, self.now as int) {
                law_flush_emits_all_due(before, self.now);
            }
        }
        batch
    }
}

impl Driver<FileIdMap> {
    /// Tells the cache what the file system holds now. It is from this that the next event
    /// or poll has identities cached.
    pub fn observe(&mut self, observed: PathMap<FileId>)
        requires
            old(self).inv(),
        ensures
            final(self).inv(),
            final(self).clock() == old(self).clock(),
            final(self).state() == old(self).state(),
            final(self).cache().observed == observed,
            final(self).cache().paths == old(self).cache().paths,
    {
        self.data.cache.observe(observed);
    }
}

} // verus!
