//! The frame scheduler: turns a flood of per-window redraw requests into a
//! bounded-rate stream of dispatch decisions, at most one dispatch per window
//! per [`FRAME_INTERVAL_NANOS`](crate::FRAME_INTERVAL_NANOS) nanoseconds.
//!
//! The scheduler itself performs no waiting and no notification: callers hand
//! it the current time and a request or a timeout, and it answers with the
//! window identifiers whose redraw is now due. A host loop owns the channel
//! receive and forwards each answer to its event system.

use vstd::prelude::*;
use std::collections::HashMap;

use crate::FRAME_INTERVAL_NANOS;
use crate::MAX_TIME;

verus! {

broadcast use vstd::std_specs::hash::group_hash_axioms;

/// What the scheduler remembers about one window: either the time of the
/// window's most recent dispatch, or the deadline of a dispatch that is
/// scheduled but has not fired yet. All times are nanosecond counts on the
/// host's clock.
#[derive(Clone, Copy, Debug)]
pub enum LastDispatch {
    /// The window's latest dispatch happened at this time; nothing is pending.
    Done(u64),
    /// A dispatch for this window is pending with this deadline.
    Scheduled(u64),
}

/// The scheduler's state as mathematics: the per-window record, the pending
/// queue as a deadline-sorted sequence of (deadline, window) pairs, and the
/// full sequence of dispatches emitted so far, each as (time, window).
pub struct ScheduleModel {
    pub last: Map<u64, LastDispatch>,
    pub queue: Seq<(u64, u64)>,
    pub history: Seq<(u64, u64)>,
}

/// The pending queue is sorted by deadline, earliest first.
pub open spec fn sorted_by_deadline(q: Seq<(u64, u64)>) -> bool {
    forall|i: int, j: int|
        #![trigger q[i], q[j]]
        0 <= i < j < q.len() ==> q[i].0 <= q[j].0
}

/// No window owns more than one entry of the pending queue.
pub open spec fn distinct_windows(q: Seq<(u64, u64)>) -> bool {
    forall|i: int, j: int|
        #![trigger q[i], q[j]]
        0 <= i < j < q.len() ==> q[i].1 != q[j].1
}

/// Dispatches for one window are never closer together than the frame
/// interval: whenever two history entries name the same window, the later
/// one is at least `FRAME_INTERVAL_NANOS` after the earlier one.
pub open spec fn spaced(h: Seq<(u64, u64)>) -> bool {
    forall|i: int, j: int|
        #![trigger h[i], h[j]]
        0 <= i < j < h.len() && h[i].1 == h[j].1
            ==> h[i].0 + FRAME_INTERVAL_NANOS <= h[j].0
}

impl ScheduleModel {
    /// The queue and the per-window record agree: each queue entry is the
    /// pending dispatch that its window's record announces, and vice versa.
    /// A settled record stays within the accepted time range, which is what
    /// keeps every deadline computation inside `u64`.
    pub open spec fn queue_linked(self) -> bool {
        &&& forall|i: int|
            #![trigger self.queue[i]]
            0 <= i < self.queue.len() ==> self.last.contains_key(self.queue[i].1)
                && self.last[self.queue[i].1] == LastDispatch::Scheduled(self.queue[i].0)
        &&& forall|w: u64|
            #![trigger self.last.contains_key(w)]
            self.last.contains_key(w) ==> match self.last[w] {
                LastDispatch::Scheduled(d) => exists|i: int|
                    0 <= i < self.queue.len() && #[trigger] self.queue[i] == (d, w),
                LastDispatch::Done(t) => t <= MAX_TIME,
            }
    }

    /// The history and the per-window record agree: every dispatched window
    /// is on record, a `Done` time is no older than any of the window's
    /// dispatches, and a `Scheduled` deadline clears all of them by a full
    /// frame interval.
    pub open spec fn history_linked(self) -> bool {
        forall|i: int|
            #![trigger self.history[i]]
            0 <= i < self.history.len() ==> self.last.contains_key(self.history[i].1)
                && match self.last[self.history[i].1] {
                    LastDispatch::Done(t) => self.history[i].0 <= t,
                    LastDispatch::Scheduled(d) => self.history[i].0 + FRAME_INTERVAL_NANOS <= d,
                }
    }

    /// The scheduler's invariant, preserved by every operation.
    pub open spec fn inv(self) -> bool {
        &&& sorted_by_deadline(self.queue)
        &&& distinct_windows(self.queue)
        &&& self.queue_linked()
        &&& self.history_linked()
        &&& spaced(self.history)
    }
}

/// Index at which a new entry with deadline `d` enters the queue: right
/// after every entry whose deadline is at most `d`, so that entries with
/// equal deadlines keep their arrival order.
pub open spec fn insert_pos(q: Seq<(u64, u64)>, d: u64) -> int
    decreases q.len(),
{
    if q.len() == 0 {
        0int
    } else if q[0].0 <= d {
        1 + insert_pos(q.drop_first(), d)
    } else {
        0int
    }
}

/// The queue with a new entry `(d, w)` placed at its insertion index.
pub open spec fn queue_insert(q: Seq<(u64, u64)>, d: u64, w: u64) -> Seq<(u64, u64)> {
    q.insert(insert_pos(q, d), (d, w))
}

/// In a sorted queue, the insertion index for `d` is the boundary: every
/// earlier entry's deadline is at most `d`, and the entry at the index, if
/// any, has a later deadline.
pub proof fn lemma_insert_pos_boundary(q: Seq<(u64, u64)>, d: u64)
    requires
        sorted_by_deadline(q),
    ensures
        0 <= insert_pos(q, d) <= q.len(),
        forall|k: int| 0 <= k < insert_pos(q, d) ==> (#[trigger] q[k]).0 <= d,
        insert_pos(q, d) < q.len() ==> q[insert_pos(q, d)].0 > d,
    decreases q.len(),
{
    if q.len() == 0 {
    } else if q[0].0 <= d {
        let rest = q.drop_first();
        assert forall|i: int, j: int|
            #![trigger rest[i], rest[j]]
            0 <= i < j < rest.len() implies rest[i].0 <= rest[j].0 by {
            assert(rest[i] == q[i + 1]);
            assert(rest[j] == q[j + 1]);
        }
        lemma_insert_pos_boundary(rest, d);
        assert forall|k: int| 0 <= k < insert_pos(q, d) implies (#[trigger] q[k]).0 <= d by {
            if k > 0 {
                assert(rest[k - 1] == q[k]);
            }
        }
        if insert_pos(q, d) < q.len() {
            assert(rest[insert_pos(q, d) - 1] == q[insert_pos(q, d)]);
        }
    }
}

/// The state after an immediate dispatch of window `w` at time `now`: the
/// window's record becomes `Done(now)`, the queue is untouched, and the
/// dispatch joins the history.
pub open spec fn dispatch_now(m: ScheduleModel, w: u64, now: u64) -> ScheduleModel {
    ScheduleModel {
        last: m.last.insert(w, LastDispatch::Done(now)),
        queue: m.queue,
        history: m.history.push((now, w)),
    }
}

/// The state after deferring window `w` to deadline `d`: the window's record
/// becomes `Scheduled(d)`, the pair `(d, w)` enters the queue at its sorted
/// position, and nothing is dispatched.
pub open spec fn schedule_at(m: ScheduleModel, w: u64, d: u64) -> ScheduleModel {
    ScheduleModel {
        last: m.last.insert(w, LastDispatch::Scheduled(d)),
        queue: queue_insert(m.queue, d, w),
        history: m.history,
    }
}

/// The decision a request for window `w` at time `now` leads to, and what
/// the state becomes.
///
/// A window with no record, or whose latest dispatch is at least a frame
/// interval old, is dispatched at once. A window with a pending dispatch is
/// coalesced into it: the state does not change at all. A window dispatched
/// less than a frame interval ago is deferred to exactly its latest dispatch
/// time plus the frame interval, never re-derived from `now`, so that the
/// spacing stays exact instead of drifting.
pub open spec fn insert_model(m: ScheduleModel, w: u64, now: u64) -> (ScheduleModel, Option<
    u64,
>) {
    if m.last.contains_key(w) {
        match m.last[w] {
            LastDispatch::Scheduled(_) => (m, None),
            LastDispatch::Done(t) => if t + FRAME_INTERVAL_NANOS <= now {
                (dispatch_now(m, w, now), Some(w))
            } else {
                (schedule_at(m, w, (t + FRAME_INTERVAL_NANOS) as u64), None)
            },
        }
    } else {
        (dispatch_now(m, w, now), Some(w))
    }
}

/// How many queue entries are due at `now`: the length of the longest
/// prefix whose deadlines are at most `now`. In a sorted queue these are
/// exactly the due entries.
pub open spec fn due_count(q: Seq<(u64, u64)>, now: u64) -> int {
    insert_pos(q, now)
}

/// What the queue becomes if nothing is due: `None` asks the host to wait
/// without bound; `Some(n)` asks it to wait at most `n` nanoseconds, clamped
/// to zero once the earliest deadline has passed.
pub open spec fn time_to_next_frame_model(m: ScheduleModel, now: u64) -> Option<u64> {
    if m.queue.len() == 0 {
        None
    } else if m.queue[0].0 <= now {
        Some(0u64)
    } else {
        Some((m.queue[0].0 - now) as u64)
    }
}

/// What one round of the host's waiting loop observed: a request arriving
/// on the channel, the bounded wait running out, or the channel closing
/// because every request sender is gone.
#[derive(Clone, Copy, Debug)]
pub enum SchedulerEvent {
    /// A redraw request for this window arrived.
    Request(u64),
    /// The bounded wait ran out: the earliest pending deadline has passed.
    TimedOut,
    /// All request senders are gone; the scheduler is to shut down.
    Closed,
}

/// An immediate-dispatch decision as a sequence of dispatched windows.
pub open spec fn as_dispatch_seq(o: Option<u64>) -> Seq<u64> {
    match o {
        Some(w) => seq![w],
        None => Seq::<u64>::empty(),
    }
}

/// The scheduler's private data: the per-window record, the pending queue
/// kept sorted by deadline, and (as specification-only state) the dispatches
/// emitted so far.
pub struct FrameSchedule {
    last_scheduled_frametime: HashMap<u64, LastDispatch>,
    schedule_queue: Vec<(u64, u64)>,
    history: Ghost<Seq<(u64, u64)>>,
}

impl View for FrameSchedule {
    type V = ScheduleModel;

    closed spec fn view(&self) -> ScheduleModel {
        ScheduleModel {
            last: self.last_scheduled_frametime@,
            queue: self.schedule_queue@,
            history: self.history@,
        }
    }
}

impl FrameSchedule {
    /// The invariant of the executable state.
    pub open spec fn wf(self) -> bool {
        self@.inv()
    }

    /// A scheduler that has never seen a request: no records, no pending
    /// dispatches, no history.
    pub fn new() -> (s: FrameSchedule)
        ensures
            s.wf(),
            s@.last == Map::<u64, LastDispatch>::empty(),
            s@.queue == Seq::<(u64, u64)>::empty(),
            s@.history == Seq::<(u64, u64)>::empty(),
    {
        FrameSchedule {
            last_scheduled_frametime: HashMap::new(),
            schedule_queue: Vec::new(),
            history: Ghost(Seq::empty()),
        }
    }

    /// How long the host may wait before something becomes due: `None` when
    /// no dispatch is pending (wait for the next request without bound),
    /// otherwise the time until the earliest pending deadline, clamped to
    /// zero when that deadline has already passed.
    pub fn time_to_next_frame(&self, now: u64) -> (r: Option<u64>)
        ensures
            r == time_to_next_frame_model(self@, now),
    {
        if self.schedule_queue.len() == 0 {
            None
        } else {
            let (d, _w) = self.schedule_queue[0];
            if d <= now {
                Some(0)
            } else {
                Some(d - now)
            }
        }
    }

    /// Dispatch window `wid` right now: record `Done(now)` for it and add the
    /// dispatch to the history.
    fn record_immediate(&mut self, wid: u64, now: u64)
        requires
            old(self).wf(),
            now <= MAX_TIME,
            old(self)@.last.contains_key(wid) ==> (old(self)@.last[wid] matches
                LastDispatch::Done(t) && t + FRAME_INTERVAL_NANOS <= now),
        ensures
            final(self).wf(),
            final(self)@ == dispatch_now(old(self)@, wid, now),
    {
        let ghost m0 = self@;
        self.last_scheduled_frametime.insert(wid, LastDispatch::Done(now));
        proof {
            self.history@ = m0.history.push((now, wid));
        }
        proof {
            let m1 = self@;
            assert(m1.queue == m0.queue);
            assert forall|i: int|
                #![trigger m1.queue[i]]
                0 <= i < m1.queue.len() implies m1.last.contains_key(m1.queue[i].1)
                && m1.last[m1.queue[i].1] == LastDispatch::Scheduled(m1.queue[i].0) by {
                assert(m0.last.contains_key(m0.queue[i].1));
                assert(m0.queue[i].1 != wid);
            }
            assert forall|i: int|
                #![trigger m1.history[i]]
                0 <= i < m1.history.len() implies m1.last.contains_key(m1.history[i].1)
                && match m1.last[m1.history[i].1] {
                    LastDispatch::Done(t) => m1.history[i].0 <= t,
                    LastDispatch::Scheduled(d) => m1.history[i].0 + FRAME_INTERVAL_NANOS <= d,
                } by {
                if i < m0.history.len() {
                    assert(m1.history[i] == m0.history[i]);
                    if m0.history[i].1 == wid {
                        assert(m0.last.contains_key(wid));
                    }
                }
            }
            assert forall|i: int, j: int|
                #![trigger m1.history[i], m1.history[j]]
                0 <= i < j < m1.history.len() && m1.history[i].1 == m1.history[j].1
                implies m1.history[i].0 + FRAME_INTERVAL_NANOS <= m1.history[j].0 by {
                if j == m1.history.len() - 1 && m1.history[j].1 == wid {
                    assert(m1.history[i] == m0.history[i]);
                    assert(m0.last.contains_key(wid));
                }
            }
            assert(m1.inv());
        }
    }

    /// Defer window `wid` to deadline `next`: record `Scheduled(next)` and
    /// file `(next, wid)` into the queue at its sorted position.
    fn record_deferred(&mut self, wid: u64, next: u64)
        requires
            old(self).wf(),
            old(self)@.last.contains_key(wid),
            old(self)@.last[wid] matches LastDispatch::Done(t) && next == t
                + FRAME_INTERVAL_NANOS,
        ensures
            final(self).wf(),
            final(self)@ == schedule_at(old(self)@, wid, next),
    {
        let ghost m0 = self@;
        let ghost pos = insert_pos(m0.queue, next);
        proof {
            lemma_insert_pos_boundary(m0.queue, next);
        }
        let mut i: usize = 0;
        while i < self.schedule_queue.len() && self.schedule_queue[i].0 <= next
            invariant
                self == old(self),
                i <= self.schedule_queue.len(),
                forall|k: int| 0 <= k < i ==> (#[trigger] self.schedule_queue@[k]).0 <= next,
            decreases self.schedule_queue.len() - i,
        {
            i = i + 1;
        }
        proof {
            assert(i as int == pos);
        }
        self.schedule_queue.insert(i, (next, wid));
        self.last_scheduled_frametime.insert(wid, LastDispatch::Scheduled(next));
        proof {
            let m1 = self@;
            m0.queue.insert_ensures(pos, (next, wid));
            assert(m1.queue == queue_insert(m0.queue, next, wid));
            assert(m1.history == m0.history);
            // The deferred window holds no queue entry: its record was `Done`.
            assert forall|k: int| 0 <= k < m0.queue.len() implies (#[trigger] m0.queue[k]).1
                != wid by {
                assert(m0.last.contains_key(m0.queue[k].1));
            }
            assert forall|a: int, b: int|
                #![trigger m1.queue[a], m1.queue[b]]
                0 <= a < b < m1.queue.len() implies m1.queue[a].0 <= m1.queue[b].0
                && m1.queue[a].1 != m1.queue[b].1 by {
                if a < pos && b < pos {
                    assert(m1.queue[a] == m0.queue[a]);
                    assert(m1.queue[b] == m0.queue[b]);
                } else if a < pos && b == pos {
                    assert(m1.queue[a] == m0.queue[a]);
                    assert(m0.queue[a].0 <= next);
                } else if a < pos && b > pos {
                    assert(m1.queue[a] == m0.queue[a]);
                    assert(m1.queue[b] == m0.queue[b - 1]);
                } else if a == pos && b > pos {
                    assert(m1.queue[b] == m0.queue[b - 1]);
                    assert(m0.queue[pos].0 <= m0.queue[b - 1].0);
                    assert(m0.queue[b - 1].0 > next);
                } else {
                    assert(m1.queue[a] == m0.queue[a - 1]);
                    assert(m1.queue[b] == m0.queue[b - 1]);
                }
            }
            assert forall|k: int|
                #![trigger m1.queue[k]]
                0 <= k < m1.queue.len() implies m1.last.contains_key(m1.queue[k].1)
                && m1.last[m1.queue[k].1] == LastDispatch::Scheduled(m1.queue[k].0) by {
                if k < pos {
                    assert(m1.queue[k] == m0.queue[k]);
                } else if k > pos {
                    assert(m1.queue[k] == m0.queue[k - 1]);
                } else {
                    assert(m1.queue[k] == (next, wid));
                }
            }
            assert forall|w: u64|
                #![trigger m1.last.contains_key(w)]
                m1.last.contains_key(w) implies match m1.last[w] {
                LastDispatch::Scheduled(d) => exists|k: int|
                    0 <= k < m1.queue.len() && #[trigger] m1.queue[k] == (d, w),
                LastDispatch::Done(t) => t <= MAX_TIME,
            } by {
                if w == wid {
                    assert(m1.queue[pos] == (next, wid));
                } else if m1.last.contains_key(w) {
                    match m0.last[w] {
                        LastDispatch::Scheduled(d) => {
                            let k = choose|k: int|
                                0 <= k < m0.queue.len() && #[trigger] m0.queue[k] == (d, w);
                            if k < pos {
                                assert(m1.queue[k] == (d, w));
                            } else {
                                assert(m1.queue[k + 1] == (d, w));
                            }
                        },
                        LastDispatch::Done(_) => {},
                    }
                }
            }
            assert forall|k: int|
                #![trigger m1.history[k]]
                0 <= k < m1.history.len() implies m1.last.contains_key(m1.history[k].1)
                && match m1.last[m1.history[k].1] {
                    LastDispatch::Done(t) => m1.history[k].0 <= t,
                    LastDispatch::Scheduled(d) => m1.history[k].0 + FRAME_INTERVAL_NANOS <= d,
                } by {
                assert(m1.history[k] == m0.history[k]);
                if m0.history[k].1 == wid {
                    assert(m0.last.contains_key(wid));
                }
            }
            assert(m1.inv());
        }
    }

    /// Take in one redraw request for window `wid` at time `now` and decide
    /// what to do with it, as [`insert_model`] describes: the result is the
    /// window to dispatch right now, if any. A window never seen before is
    /// always dispatched at once.
    pub fn insert(&mut self, wid: u64, now: u64) -> (dispatch: Option<u64>)
        requires
            old(self).wf(),
            now <= MAX_TIME,
        ensures
            final(self).wf(),
            (final(self)@, dispatch) == insert_model(old(self)@, wid, now),
            !old(self)@.last.contains_key(wid) ==> dispatch == Some(wid),
            old(self)@.last.contains_key(wid) ==> match old(self)@.last[wid] {
                LastDispatch::Scheduled(_) => final(self)@ == old(self)@ && dispatch is None,
                LastDispatch::Done(t) => if t + FRAME_INTERVAL_NANOS <= now {
                    dispatch == Some(wid)
                } else {
                    dispatch is None && final(self)@.last[wid] == LastDispatch::Scheduled(
                        (t + FRAME_INTERVAL_NANOS) as u64,
                    )
                },
            },
    {
        let current = match self.last_scheduled_frametime.get(&wid) {
            Some(entry) => Some(*entry),
            None => None,
        };
        match current {
            Some(LastDispatch::Scheduled(_)) => None,
            Some(LastDispatch::Done(t)) => {
                assert(t <= MAX_TIME);
                if t + FRAME_INTERVAL_NANOS <= now {
                    self.record_immediate(wid, now);
                    Some(wid)
                } else {
                    self.record_deferred(wid, t + FRAME_INTERVAL_NANOS);
                    None
                }
            },
            None => {
                self.record_immediate(wid, now);
                Some(wid)
            },
        }
    }

    /// Pop and dispatch every queue entry whose deadline has passed, in
    /// ascending deadline order, stopping at the first entry still in the
    /// future. The result lists the dispatched windows in that order; each
    /// popped window's record turns from `Scheduled` into `Done` at its
    /// deadline, and every other window's record is untouched.
    pub fn process_due_frames(&mut self, now: u64) -> (redraws: Vec<u64>)
        requires
            old(self).wf(),
            now <= MAX_TIME,
        ensures
            final(self).wf(),
            ({
                let q0 = old(self)@.queue;
                let k = due_count(q0, now);
                &&& redraws@ == q0.take(k).map_values(|e: (u64, u64)| e.1)
                &&& final(self)@.queue == q0.skip(k)
                &&& final(self)@.history == old(self)@.history + q0.take(k)
                &&& forall|i: int|
                    0 <= i < k ==> (#[trigger] q0[i]).0 <= now
                &&& k < q0.len() ==> q0[k].0 > now
                &&& forall|i: int|
                    0 <= i < k ==> final(self)@.last.contains_key((#[trigger] q0[i]).1)
                        && final(self)@.last[q0[i].1] == LastDispatch::Done(q0[i].0)
                &&& forall|w: u64|
                    #![trigger final(self)@.last.contains_key(w)]
                    final(self)@.last.contains_key(w) <==> old(self)@.last.contains_key(w)
                &&& forall|w: u64|
                    #![trigger old(self)@.last.contains_key(w)]
                    old(self)@.last.contains_key(w) && !redraws@.contains(w)
                        ==> final(self)@.last[w] == old(self)@.last[w]
            }),
    {
        let ghost m0 = self@;
        let ghost f = |e: (u64, u64)| e.1;
        let mut redraws: Vec<u64> = Vec::new();
        proof {
            assert(m0.queue.take(0) =~= Seq::<(u64, u64)>::empty());
            assert(redraws@ =~= m0.queue.take(0).map_values(f));
            assert(self@.history =~= m0.history + m0.queue.take(0));
        }
        while self.schedule_queue.len() > 0 && self.schedule_queue[0].0 <= now
            invariant
                self.wf(),
                now <= MAX_TIME,
                m0.inv(),
                redraws@.len() <= m0.queue.len(),
                self@.queue == m0.queue.skip(redraws@.len() as int),
                redraws@ == m0.queue.take(redraws@.len() as int).map_values(f),
                f == (|e: (u64, u64)| e.1),
                self@.history == m0.history + m0.queue.take(redraws@.len() as int),
                forall|i: int|
                    0 <= i < redraws@.len() ==> (#[trigger] m0.queue[i]).0 <= now,
                forall|i: int|
                    0 <= i < redraws@.len() ==> self@.last.contains_key(
                        (#[trigger] m0.queue[i]).1,
                    ) && self@.last[m0.queue[i].1] == LastDispatch::Done(m0.queue[i].0),
                forall|w: u64|
                    #![trigger self@.last.contains_key(w)]
                    self@.last.contains_key(w) <==> m0.last.contains_key(w),
                forall|w: u64|
                    #![trigger m0.last.contains_key(w)]
                    m0.last.contains_key(w) && !redraws@.contains(w) ==> self@.last[w]
                        == m0.last[w],
            decreases self.schedule_queue.len(),
        {
            let ghost j = redraws@.len() as int;
            let ghost mc = self@;
            let (d, w) = self.schedule_queue.remove(0);
            proof {
                assert(mc.queue[0] == (d, w));
                assert(mc.queue[0] == m0.queue.skip(j)[0]);
                assert(m0.queue[j] == (d, w));
                assert(mc.last.contains_key(w) && mc.last[w] == LastDispatch::Scheduled(d));
            }
            self.last_scheduled_frametime.insert(w, LastDispatch::Done(d));
            proof {
                self.history@ = self.history@.push((d, w));
            }
            redraws.push(w);
            proof {
                let m1 = self@;
                // Relate the new state to the loop's frame of reference.
                assert(m1.queue =~= m0.queue.skip(j + 1));
                assert(m0.queue.take(j + 1) =~= m0.queue.take(j).push((d, w)));
                assert(redraws@ =~= m0.queue.take(j + 1).map_values(f));
                assert(m1.history =~= m0.history + m0.queue.take(j + 1));
                assert forall|i: int| 0 <= i < redraws@.len() implies m1.last.contains_key(
                    (#[trigger] m0.queue[i]).1,
                ) && m1.last[m0.queue[i].1] == LastDispatch::Done(m0.queue[i].0) by {
                    if i < j {
                        assert(m0.queue[i].1 != w);
                    }
                }
                assert forall|w2: u64|
                    #![trigger m0.last.contains_key(w2)]
                    m0.last.contains_key(w2) && !redraws@.contains(w2) implies m1.last[w2]
                    == m0.last[w2] by {
                    let old_redraws = m0.queue.take(j).map_values(f);
                    if old_redraws.contains(w2) {
                        let i = choose|i: int|
                            0 <= i < old_redraws.len() && old_redraws[i] == w2;
                        assert(redraws@[i] == w2);
                    }
                    assert(redraws@[j] == w);
                }
                // The scheduler's own invariant, for the popped-and-recorded state.
                assert forall|a: int, b: int|
                    #![trigger m1.queue[a], m1.queue[b]]
                    0 <= a < b < m1.queue.len() implies m1.queue[a].0 <= m1.queue[b].0
                    && m1.queue[a].1 != m1.queue[b].1 by {
                    assert(m1.queue[a] == mc.queue[a + 1]);
                    assert(m1.queue[b] == mc.queue[b + 1]);
                }
                assert forall|i: int|
                    #![trigger m1.queue[i]]
                    0 <= i < m1.queue.len() implies m1.last.contains_key(m1.queue[i].1)
                    && m1.last[m1.queue[i].1] == LastDispatch::Scheduled(m1.queue[i].0) by {
                    assert(m1.queue[i] == mc.queue[i + 1]);
                    assert(mc.queue[i + 1].1 != w);
                }
                assert forall|w2: u64|
                    #![trigger m1.last.contains_key(w2)]
                    m1.last.contains_key(w2) implies match m1.last[w2] {
                    LastDispatch::Scheduled(d2) => exists|i: int|
                        0 <= i < m1.queue.len() && #[trigger] m1.queue[i] == (d2, w2),
                    LastDispatch::Done(t) => t <= MAX_TIME,
                } by {
                    if w2 != w {
                        match mc.last[w2] {
                            LastDispatch::Scheduled(d2) => {
                                let i = choose|i: int|
                                    0 <= i < mc.queue.len() && #[trigger] mc.queue[i] == (
                                        d2,
                                        w2,
                                    );
                                assert(i != 0);
                                assert(m1.queue[i - 1] == (d2, w2));
                            },
                            LastDispatch::Done(_) => {},
                        }
                    }
                }
                assert forall|i: int|
                    #![trigger m1.history[i]]
                    0 <= i < m1.history.len() implies m1.last.contains_key(m1.history[i].1)
                    && match m1.last[m1.history[i].1] {
                        LastDispatch::Done(t) => m1.history[i].0 <= t,
                        LastDispatch::Scheduled(d2) => m1.history[i].0 + FRAME_INTERVAL_NANOS
                            <= d2,
                    } by {
                    if i < mc.history.len() {
                        assert(m1.history[i] == mc.history[i]);
                        if mc.history[i].1 == w {
                            assert(mc.history[i].0 + FRAME_INTERVAL_NANOS <= d);
                        }
                    } else {
                        assert(m1.history[i] == (d, w));
                    }
                }
                assert forall|a: int, b: int|
                    #![trigger m1.history[a], m1.history[b]]
                    0 <= a < b < m1.history.len() && m1.history[a].1 == m1.history[b].1
                    implies m1.history[a].0 + FRAME_INTERVAL_NANOS <= m1.history[b].0 by {
                    if b == m1.history.len() - 1 && m1.history[b].1 == w {
                        assert(m1.history[a] == mc.history[a]);
                        assert(mc.history[a].0 + FRAME_INTERVAL_NANOS <= d);
                    }
                }
                assert(m1.inv());
            }
        }
        proof {
            let j = redraws@.len() as int;
            lemma_insert_pos_boundary(m0.queue, now);
            let pos = insert_pos(m0.queue, now);
            if j < m0.queue.len() {
                assert(self@.queue[0] == m0.queue[j]);
                assert(m0.queue[j].0 > now);
            }
            if pos < j {
                assert(m0.queue[pos].0 <= now);
            }
            if j < pos {
                assert(m0.queue[j].0 <= now);
            }
            assert(j == due_count(m0.queue, now));
        }
        redraws
    }

    /// One turn of the scheduler's loop: feed in what the host observed
    /// while waiting, get back the windows to dispatch now and whether the
    /// loop is over. A request is filed with [`Self::insert`], a timeout
    /// drains the due entries with [`Self::process_due_frames`], and a
    /// closed channel ends the loop at once, changing nothing and
    /// dispatching nothing further.
    pub fn step(&mut self, event: SchedulerEvent, now: u64) -> (r: (Vec<u64>, bool))
        requires
            old(self).wf(),
            now <= MAX_TIME,
        ensures
            final(self).wf(),
            r.1 == (event matches SchedulerEvent::Closed),
            event matches SchedulerEvent::Closed ==> final(self)@ == old(self)@ && r.0@
                == Seq::<u64>::empty(),
            event matches SchedulerEvent::Request(w) ==> ({
                let (m2, disp) = insert_model(old(self)@, w, now);
                &&& final(self)@ == m2
                &&& r.0@ == as_dispatch_seq(disp)
            }),
            event matches SchedulerEvent::TimedOut ==> ({
                let q0 = old(self)@.queue;
                let k = due_count(q0, now);
                &&& r.0@ == q0.take(k).map_values(|e: (u64, u64)| e.1)
                &&& final(self)@.queue == q0.skip(k)
                &&& final(self)@.history == old(self)@.history + q0.take(k)
                &&& forall|i: int|
                    0 <= i < k ==> (#[trigger] q0[i]).0 <= now
                &&& k < q0.len() ==> q0[k].0 > now
                &&& forall|i: int|
                    0 <= i < k ==> final(self)@.last.contains_key((#[trigger] q0[i]).1)
                        && final(self)@.last[q0[i].1] == LastDispatch::Done(q0[i].0)
                &&& forall|w: u64|
                    #![trigger final(self)@.last.contains_key(w)]
                    final(self)@.last.contains_key(w) <==> old(self)@.last.contains_key(w)
                &&& forall|w: u64|
                    #![trigger old(self)@.last.contains_key(w)]
                    old(self)@.last.contains_key(w) && !r.0@.contains(w)
                        ==> final(self)@.last[w] == old(self)@.last[w]
            }),
    {
        match event {
            SchedulerEvent::Request(wid) => {
                let dispatch = self.insert(wid, now);
                let mut redraws: Vec<u64> = Vec::new();
                if let Some(w) = dispatch {
                    redraws.push(w);
                }
                proof {
                    assert(redraws@ =~= as_dispatch_seq(dispatch));
                }
                (redraws, false)
            },
            SchedulerEvent::TimedOut => (self.process_due_frames(now), false),
            SchedulerEvent::Closed => (Vec::new(), true),
        }
    }
}

/// The host's clock, read as nanoseconds since the UNIX epoch.
///
/// Relies on `std::time::SystemTime::now` and `SystemTime::duration_since`:
/// the result is the time elapsed since the epoch; a clock standing before
/// the epoch reads as zero. Nothing further can be promised of a clock, so
/// this carries no contract; callers guard the scheduler's time bound
/// themselves.
#[verifier::external_body]
pub fn now() -> (t: u64) {
    match std::time::SystemTime::now().duration_since(std::time::SystemTime::UNIX_EPOCH) {
        Ok(d) => d.as_nanos() as u64,
        Err(_) => 0,
    }
}

/// Law: dispatches for one window are never closer together than the frame
/// interval. Any two history entries naming the same window are at least
/// `FRAME_INTERVAL_NANOS` apart, whatever requests produced them.
pub proof fn lemma_dispatch_spacing(m: ScheduleModel, i: int, j: int)
    requires
        m.inv(),
        0 <= i < j < m.history.len(),
        m.history[i].1 == m.history[j].1,
    ensures
        m.history[i].0 + FRAME_INTERVAL_NANOS <= m.history[j].0,
{
}

/// Law: a window with no prior dispatch record is dispatched immediately —
/// the request returns the window itself and the history gains a dispatch
/// at exactly `now`, with no artificial delay.
pub proof fn lemma_first_request_immediate(m: ScheduleModel, w: u64, now: u64)
    requires
        !m.last.contains_key(w),
    ensures
        insert_model(m, w, now).1 == Some(w),
        insert_model(m, w, now).0.history == m.history.push((now, w)),
{
}

/// The state after a whole burst of requests for window `w`, arriving at
/// the given times in order.
pub open spec fn insert_burst(m: ScheduleModel, w: u64, times: Seq<u64>) -> ScheduleModel
    decreases times.len(),
{
    if times.len() == 0 {
        m
    } else {
        insert_burst(insert_model(m, w, times[0]).0, w, times.drop_first())
    }
}

/// Law: a request for a window whose dispatch is already pending coalesces
/// into it — the state does not change and nothing is dispatched.
pub proof fn lemma_coalesce(m: ScheduleModel, w: u64, now: u64)
    requires
        m.last.contains_key(w),
        m.last[w] matches LastDispatch::Scheduled(_),
    ensures
        insert_model(m, w, now) == (m, Option::<u64>::None),
{
}

/// Law: however many requests arrive for a window whose dispatch is
/// pending, they all coalesce — the whole burst leaves the state untouched.
pub proof fn lemma_coalesce_burst(m: ScheduleModel, w: u64, times: Seq<u64>)
    requires
        m.last.contains_key(w),
        m.last[w] matches LastDispatch::Scheduled(_),
    ensures
        insert_burst(m, w, times) == m,
    decreases times.len(),
{
    if times.len() > 0 {
        lemma_coalesce(m, w, times[0]);
        lemma_coalesce_burst(m, w, times.drop_first());
    }
}

/// Law: after a dispatch at time `t`, any number of further requests for
/// the same window within the following frame interval cause exactly one
/// deferred dispatch, with deadline exactly `t + FRAME_INTERVAL_NANOS` —
/// not one per request, and not a deadline re-derived from any request's
/// arrival time.
pub proof fn lemma_coalescing_window(
    m: ScheduleModel,
    w: u64,
    t: u64,
    first: u64,
    rest: Seq<u64>,
)
    requires
        m.last.contains_key(w),
        m.last[w] == LastDispatch::Done(t),
        first < t + FRAME_INTERVAL_NANOS,
    ensures
        ({
            let stepped = insert_model(m, w, first);
            let settled = insert_burst(stepped.0, w, rest);
            &&& stepped.1 is None
            &&& settled == stepped.0
            &&& settled.last[w] == LastDispatch::Scheduled((t + FRAME_INTERVAL_NANOS) as u64)
            &&& settled.queue == queue_insert(m.queue, (t + FRAME_INTERVAL_NANOS) as u64, w)
            &&& settled.history == m.history
        }),
{
    let stepped = insert_model(m, w, first);
    lemma_coalesce_burst(stepped.0, w, rest);
}

/// Law: windows are independent — a request for one window never touches
/// another window's record, never dispatches the other window, appends
/// nothing to the other window's dispatch history, and leaves the other
/// window's pending queue entry in place.
pub proof fn lemma_cross_window_independence(m: ScheduleModel, w: u64, other: u64, now: u64)
    requires
        m.inv(),
        w != other,
    ensures
        ({
            let (m2, disp) = insert_model(m, other, now);
            &&& m2.last.contains_key(w) == m.last.contains_key(w)
            &&& m.last.contains_key(w) ==> m2.last[w] == m.last[w]
            &&& disp != Some(w)
            &&& m.history.is_prefix_of(m2.history)
            &&& forall|k: int|
                m.history.len() <= k < m2.history.len() ==> (#[trigger] m2.history[k]).1 != w
            &&& forall|i: int|
                0 <= i < m.queue.len() && (#[trigger] m.queue[i]).1 == w ==> m2.queue.contains(
                    m.queue[i],
                )
        }),
{
    let (m2, _disp) = insert_model(m, other, now);
    assert(m2.history.take(m.history.len() as int) =~= m.history);
    assert forall|i: int|
        0 <= i < m.queue.len() && (#[trigger] m.queue[i]).1 == w implies m2.queue.contains(
        m.queue[i],
    ) by {
        if m.last.contains_key(other) {
            match m.last[other] {
                LastDispatch::Done(t) => {
                    if t + FRAME_INTERVAL_NANOS > now {
                        let next = (t + FRAME_INTERVAL_NANOS) as u64;
                        let pos = insert_pos(m.queue, next);
                        lemma_insert_pos_boundary(m.queue, next);
                        m.queue.insert_ensures(pos, (next, other));
                        if i < pos {
                            assert(m2.queue[i] == m.queue[i]);
                        } else {
                            assert(m2.queue[i + 1] == m.queue[i]);
                        }
                    }
                },
                LastDispatch::Scheduled(_) => {},
            }
        }
    }
}

/// Law: due entries leave the queue earliest deadline first — within the
/// prefix that `process_due_frames` drains in one wake cycle, deadlines are
/// ascending, so of two windows both due at once the one with the earlier
/// deadline is dispatched first.
pub proof fn lemma_earliest_deadline_first(m: ScheduleModel, now: u64, i: int, j: int)
    requires
        m.inv(),
        0 <= i < j < due_count(m.queue, now),
    ensures
        m.queue[i].0 <= m.queue[j].0,
{
    lemma_insert_pos_boundary(m.queue, now);
}

} // verus!

