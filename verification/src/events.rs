//! Deterministic timer/microtask event loop over a virtual clock.
//!
//! Callbacks are opaque tokens handed back to the host in the order they must
//! run. The ordering invariant: all pending microtasks drain before any timer
//! whose due time has been reached.

use vstd::prelude::*;

verus! {

/// One scheduled timer: a registration id, an absolute due time on the
/// virtual clock, the repeat period for intervals, and the callback token.
#[derive(Debug, Clone, Copy, PartialEq, Eq, Structural)]
pub struct Timer {
    pub id: u64,
    pub due: u64,
    pub interval: Option<u64>,
    pub cb: u64,
}

/// Timers ordered by due time, ties broken by registration id.
pub open spec fn timer_lt(a: Timer, b: Timer) -> bool {
    a.due < b.due || (a.due == b.due && a.id < b.id)
}

pub open spec fn timers_sorted(ts: Seq<Timer>) -> bool {
    forall|a: int, b: int| 0 <= a < b < ts.len() ==> timer_lt(ts[a], ts[b])
}

/// Some timer in the list carries this registration id.
pub open spec fn has_id(ts: Seq<Timer>, id: u64) -> bool {
    exists|m: int| 0 <= m < ts.len() && ts[m].id == id
}

/// The timer/microtask queues of one execution context, driven by a virtual
/// clock that only advances on demand.
#[derive(Debug)]
pub struct EventLoop {
    pub now: u64,
    pub next_id: u64,
    pub timers: Vec<Timer>,
    pub microtasks: Vec<u64>,
}

/// No two timers carry the same registration id.
pub open spec fn ids_unique(ts: Seq<Timer>) -> bool {
    forall|a: int, b: int| 0 <= a < b < ts.len() ==> (#[trigger] ts[a]).id != (#[trigger] ts[b]).id
}

impl EventLoop {
    /// Timers sorted, registration ids unique and below `next_id`.
    pub open spec fn wf(&self) -> bool {
        &&& timers_sorted(self.timers@)
        &&& ids_unique(self.timers@)
        &&& forall|m: int| 0 <= m < self.timers@.len() ==> (#[trigger] self.timers@[m]).id
            < self.next_id
    }

    /// A fresh event loop: clock at zero, no work pending, no registration
    /// id handed out yet.
    pub fn new() -> (el: EventLoop)
        ensures
            el.wf(),
            el.now == 0,
            el.next_id == 0,
            el.timers@.len() == 0,
            el.microtasks@.len() == 0,
    {
        EventLoop { now: 0, next_id: 0, timers: Vec::new(), microtasks: Vec::new() }
    }
}

/// Where a timer belongs in a sorted list.
pub open spec fn insert_pos(ts: Seq<Timer>, t: Timer) -> int
    decreases ts.len(),
{
    if ts.len() == 0 {
        0
    } else if timer_lt(t, ts[0]) {
        0
    } else {
        1 + insert_pos(ts.subrange(1, ts.len() as int), t)
    }
}

proof fn lemma_insert_pos_bounds(ts: Seq<Timer>, t: Timer)
    ensures
        0 <= insert_pos(ts, t) <= ts.len(),
    decreases ts.len(),
{
    if ts.len() > 0 && !timer_lt(t, ts[0]) {
        lemma_insert_pos_bounds(ts.subrange(1, ts.len() as int), t);
    }
}

proof fn lemma_insert_pos_split(ts: Seq<Timer>, t: Timer)
    requires
        timers_sorted(ts),
    ensures
        forall|m: int| 0 <= m < insert_pos(ts, t) ==> !timer_lt(t, #[trigger] ts[m]),
        forall|m: int| insert_pos(ts, t) <= m < ts.len() ==> timer_lt(t, #[trigger] ts[m]),
    decreases ts.len(),
{
    if ts.len() > 0 {
        let tail = ts.subrange(1, ts.len() as int);
        assert(forall|m: int| 0 <= m < tail.len() ==> #[trigger] tail[m] == ts[m + 1]);
        assert(timers_sorted(tail));
        lemma_insert_pos_split(tail, t);
        lemma_insert_pos_bounds(tail, t);
        if !timer_lt(t, ts[0]) {
            let ip = insert_pos(ts, t);
            assert(ip == 1 + insert_pos(tail, t));
            assert forall|m: int| 0 <= m < ip implies !timer_lt(t, #[trigger] ts[m]) by {
                if m > 0 {
                    assert(ts[m] == tail[m - 1]);
                    assert(!timer_lt(t, tail[m - 1]));
                }
            }
            assert forall|m: int| ip <= m < ts.len() implies timer_lt(t, #[trigger] ts[m]) by {
                assert(ts[m] == tail[m - 1]);
                assert(timer_lt(t, tail[m - 1]));
            }
        } else {
            assert forall|m: int| 0 <= m < ts.len() implies timer_lt(t, #[trigger] ts[m]) by {
                if m > 0 {
                    assert(timer_lt(ts[0], ts[m]));
                }
            }
        }
    }
}

/// Insert a timer with a fresh registration id into a sorted list, keeping
/// it sorted and the ids unique.
fn insert_sorted(timers: &mut Vec<Timer>, t: Timer)
    requires
        timers_sorted(old(timers)@),
        forall|m: int| 0 <= m < old(timers)@.len() ==> (#[trigger] old(timers)@[m]).id != t.id,
    ensures
        final(timers)@ == old(timers)@.insert(insert_pos(old(timers)@, t), t),
        timers_sorted(final(timers)@),
        ids_unique(old(timers)@) ==> ids_unique(final(timers)@),
{
    let n = timers.len();
    proof {
        assert(timers@.subrange(0, n as int) =~= timers@);
    }
    let mut pos: usize = 0;
    while pos < n && !(t.due < timers[pos].due || (t.due == timers[pos].due && t.id
        < timers[pos].id))
        invariant
            pos <= n,
            n == timers@.len(),
            timers@ == old(timers)@,
            timers_sorted(timers@),
            insert_pos(timers@, t) == insert_pos(timers@.subrange(pos as int, n as int), t)
                + pos,
        decreases n - pos,
    {
        proof {
            let rest = timers@.subrange(pos as int, n as int);
            assert(rest[0] == timers@[pos as int]);
            assert(!timer_lt(t, rest[0]));
            assert(rest.subrange(1, rest.len() as int) =~= timers@.subrange(
                pos + 1,
                n as int,
            ));
        }
        pos = pos + 1;
    }
    proof {
        let rest = timers@.subrange(pos as int, n as int);
        if pos < n {
            assert(rest[0] == timers@[pos as int]);
            assert(timer_lt(t, rest[0]));
            assert(insert_pos(rest, t) == 0);
        } else {
            assert(rest =~= Seq::<Timer>::empty());
        }
        lemma_insert_pos_split(timers@, t);
        lemma_insert_pos_bounds(timers@, t);
    }
    let ghost before = timers@;
    timers.insert(pos, t);
    proof {
        let p = pos as int;
        assert forall|a: int, b: int| 0 <= a < b < timers@.len() implies timer_lt(
            timers@[a],
            timers@[b],
        ) by {
            if a < p && b < p {
                assert(timers@[a] == before[a] && timers@[b] == before[b]);
            } else if a < p && b == p {
                assert(timers@[a] == before[a]);
                assert(!timer_lt(t, before[a]));
                assert(before[a].id != t.id);
                assert(timer_lt(before[a], t));
            } else if a < p && b > p {
                assert(timers@[a] == before[a] && timers@[b] == before[b - 1]);
            } else if a == p {
                assert(timers@[b] == before[b - 1]);
                assert(timer_lt(t, before[b - 1]));
            } else {
                assert(timers@[a] == before[a - 1] && timers@[b] == before[b - 1]);
            }
        }
        if ids_unique(before) {
            assert forall|a: int, b: int| 0 <= a < b < timers@.len() implies (
            #[trigger] timers@[a]).id != (#[trigger] timers@[b]).id by {
                if a < p && b < p {
                    assert(timers@[a] == before[a] && timers@[b] == before[b]);
                } else if a < p && b == p {
                    assert(timers@[a] == before[a]);
                } else if a < p && b > p {
                    assert(timers@[a] == before[a] && timers@[b] == before[b - 1]);
                } else if a == p {
                    assert(timers@[b] == before[b - 1]);
                } else {
                    assert(timers@[a] == before[a - 1] && timers@[b] == before[b - 1]);
                }
            }
        }
    }
}

impl EventLoop {
    /// Register a one-shot timer due `delay` ms from the current virtual
    /// time. Returns the registration id.
    pub fn set_timeout(&mut self, cb: u64, delay: u64) -> (id: u64)
        requires
            old(self).wf(),
            old(self).next_id < u64::MAX,
        ensures
            final(self).wf(),
            id == old(self).next_id,
            final(self).next_id == old(self).next_id + 1,
            final(self).now == old(self).now,
            final(self).microtasks@ == old(self).microtasks@,
            final(self).timers@ == old(self).timers@.insert(
                insert_pos(
                    old(self).timers@,
                    Timer {
                        id,
                        due: sat_add64(old(self).now, delay),
                        interval: None,
                        cb,
                    },
                ),
                Timer { id, due: sat_add64(old(self).now, delay), interval: None, cb },
            ),
    {
        let id = self.next_id;
        self.next_id = self.next_id + 1;
        let t = Timer { id, due: self.now.saturating_add(delay), interval: None, cb };
        insert_sorted(&mut self.timers, t);
        proof {
            lemma_insert_pos_bounds(old(self).timers@, t);
            assert forall|m: int| 0 <= m < self.timers@.len() implies (
            #[trigger] self.timers@[m]).id < self.next_id by {
                let p = insert_pos(old(self).timers@, t);
                if m < p {
                    assert(self.timers@[m] == old(self).timers@[m]);
                } else if m > p {
                    assert(self.timers@[m] == old(self).timers@[m - 1]);
                }
            }
        }
        id
    }

    /// Register a repeating timer with the given period. Returns the
    /// registration id.
    pub fn set_interval(&mut self, cb: u64, period: u64) -> (id: u64)
        requires
            old(self).wf(),
            old(self).next_id < u64::MAX,
        ensures
            final(self).wf(),
            id == old(self).next_id,
            final(self).next_id == old(self).next_id + 1,
            final(self).now == old(self).now,
            final(self).microtasks@ == old(self).microtasks@,
            final(self).timers@ == old(self).timers@.insert(
                insert_pos(
                    old(self).timers@,
                    Timer {
                        id,
                        due: sat_add64(old(self).now, period),
                        interval: Some(period),
                        cb,
                    },
                ),
                Timer {
                    id,
                    due: sat_add64(old(self).now, period),
                    interval: Some(period),
                    cb,
                },
            ),
    {
        let id = self.next_id;
        self.next_id = self.next_id + 1;
        let t = Timer { id, due: self.now.saturating_add(period), interval: Some(period), cb };
        insert_sorted(&mut self.timers, t);
        proof {
            lemma_insert_pos_bounds(old(self).timers@, t);
            assert forall|m: int| 0 <= m < self.timers@.len() implies (
            #[trigger] self.timers@[m]).id < self.next_id by {
                let p = insert_pos(old(self).timers@, t);
                if m < p {
                    assert(self.timers@[m] == old(self).timers@[m]);
                } else if m > p {
                    assert(self.timers@[m] == old(self).timers@[m - 1]);
                }
            }
        }
        id
    }

    /// Cancel the timer or interval with the given registration id. Removes
    /// it if present; unknown ids are ignored.
    pub fn clear_timer(&mut self, id: u64)
        requires
            old(self).wf(),
        ensures
            final(self).wf(),
            final(self).now == old(self).now,
            final(self).next_id == old(self).next_id,
            final(self).microtasks@ == old(self).microtasks@,
            !has_id(final(self).timers@, id),
            forall|m: int|
                0 <= m < final(self).timers@.len() ==> has_id(
                    old(self).timers@,
                    (#[trigger] final(self).timers@[m]).id,
                ) && final(self).timers@[m].id != id,
            forall|m: int|
                0 <= m < old(self).timers@.len() && (#[trigger] old(self).timers@[m]).id != id
                    ==> has_id(final(self).timers@, old(self).timers@[m].id),
    {
        let mut kept: Vec<Timer> = Vec::new();
        let n = self.timers.len();
        let mut i: usize = 0;
        while i < n
            invariant
                i <= n,
                n == self.timers@.len(),
                self.wf(),
                forall|m: int|
                    0 <= m < kept@.len() ==> exists|q: int|
                        0 <= q < i && #[trigger] kept@[m] == self.timers@[q],
                forall|m: int| 0 <= m < kept@.len() ==> (#[trigger] kept@[m]).id != id,
                forall|m: int| 0 <= m < kept@.len() ==> (#[trigger] kept@[m]).id < self.next_id,
                forall|q: int|
                    0 <= q < i && (#[trigger] self.timers@[q]).id != id ==> exists|m: int|
                        0 <= m < kept@.len() && kept@[m] == self.timers@[q],
                forall|a: int, b: int| 0 <= a < b < kept@.len() ==> timer_lt(kept@[a], kept@[b]),
                ids_unique(kept@),
            decreases n - i,
        {
            let t = self.timers[i];
            let ghost prev = kept@;
            if t.id != id {
                kept.push(t);
                proof {
                    assert(kept@[kept@.len() - 1] == self.timers@[i as int]);
                    assert forall|a: int, b: int| 0 <= a < b < kept@.len() implies timer_lt(
                        kept@[a],
                        kept@[b],
                    ) && (#[trigger] kept@[a]).id != (#[trigger] kept@[b]).id by {
                        if b == kept@.len() - 1 {
                            let q = choose|q: int|
                                0 <= q < i && #[trigger] prev[a] == self.timers@[q];
                            assert(timer_lt(self.timers@[q], self.timers@[i as int]));
                            assert(self.timers@[q].id != self.timers@[i as int].id);
                        }
                    }
                }
            }
            proof {
                assert forall|q: int|
                    0 <= q < i + 1 && (#[trigger] self.timers@[q]).id != id implies exists|m: int|
                    0 <= m < kept@.len() && kept@[m] == self.timers@[q] by {
                    if q == i {
                        assert(kept@[kept@.len() - 1] == self.timers@[q]);
                    } else {
                        let m = choose|m: int|
                            0 <= m < prev.len() && prev[m] == self.timers@[q];
                        assert(kept@[m] == self.timers@[q]);
                    }
                }
            }
            i = i + 1;
        }
        self.timers = kept;
    }

    /// Queue a microtask callback.
    pub fn queue_microtask(&mut self, cb: u64)
        requires
            old(self).wf(),
        ensures
            final(self).wf(),
            final(self).now == old(self).now,
            final(self).next_id == old(self).next_id,
            final(self).timers@ == old(self).timers@,
            final(self).microtasks@ == old(self).microtasks@.push(cb),
    {
        self.microtasks.push(cb);
    }

    /// Advance the virtual clock by `ms` without any wall-clock wait.
    pub fn tick(&mut self, ms: u64)
        requires
            old(self).wf(),
        ensures
            final(self).wf(),
            final(self).now == sat_add64(old(self).now, ms),
            final(self).next_id == old(self).next_id,
            final(self).timers@ == old(self).timers@,
            final(self).microtasks@ == old(self).microtasks@,
    {
        self.now = self.now.saturating_add(ms);
    }
}

/// Saturating 64-bit addition.
pub open spec fn sat_add64(a: u64, b: u64) -> u64 {
    if a + b > u64::MAX {
        u64::MAX
    } else {
        (a + b) as u64
    }
}

/// How many timers at the front of a sorted list are due at time `now`.
pub open spec fn due_prefix_len(ts: Seq<Timer>, now: u64) -> int
    decreases ts.len(),
{
    if ts.len() == 0 {
        0
    } else if ts[0].due <= now {
        1 + due_prefix_len(ts.subrange(1, ts.len() as int), now)
    } else {
        0
    }
}

proof fn lemma_due_prefix(ts: Seq<Timer>, now: u64)
    ensures
        0 <= due_prefix_len(ts, now) <= ts.len(),
        forall|m: int| 0 <= m < due_prefix_len(ts, now) ==> (#[trigger] ts[m]).due <= now,
        due_prefix_len(ts, now) < ts.len() ==> ts[due_prefix_len(ts, now)].due > now,
    decreases ts.len(),
{
    if ts.len() > 0 && ts[0].due <= now {
        let tail = ts.subrange(1, ts.len() as int);
        assert(forall|m: int| 0 <= m < tail.len() ==> #[trigger] tail[m] == ts[m + 1]);
        lemma_due_prefix(tail, now);
        let dp = due_prefix_len(ts, now);
        assert forall|m: int| 0 <= m < dp implies (#[trigger] ts[m]).due <= now by {
            if m > 0 {
                assert(ts[m] == tail[m - 1]);
                assert(tail[m - 1].due <= now);
            }
        }
        if dp < ts.len() {
            assert(ts[dp] == tail[dp - 1]);
        }
    }
}

/// The callback tokens of the due prefix, in firing order.
pub open spec fn due_cbs(ts: Seq<Timer>, now: u64) -> Seq<u64> {
    Seq::new(due_prefix_len(ts, now) as nat, |m: int| ts[m].cb)
}

/// What one drain hands the host to run: all pending microtasks, then every
/// timer due at the current virtual time, in (due, registration) order.
pub open spec fn drain_result(micro: Seq<u64>, ts: Seq<Timer>, now: u64) -> Seq<u64> {
    micro + due_cbs(ts, now)
}

impl EventLoop {
    /// Drain all pending work that is ready: every queued microtask, then
    /// every timer whose due time has been reached, in (due, registration)
    /// order. One-shot timers are removed; intervals are rescheduled one
    /// period ahead of the current time (never earlier than the next tick).
    /// The returned tokens are to be run by the host in order.
    pub fn run_until_idle(&mut self) -> (r: Vec<u64>)
        requires
            old(self).wf(),
        ensures
            final(self).wf(),
            final(self).now == old(self).now,
            final(self).next_id == old(self).next_id,
            final(self).microtasks@.len() == 0,
            r@ == drain_result(old(self).microtasks@, old(self).timers@, old(self).now),
            // Nothing that remains is due: a second drain without new work or
            // a further tick returns nothing.
            forall|m: int|
                0 <= m < final(self).timers@.len() ==> (#[trigger] final(self).timers@[m]).due
                    > old(self).now || old(self).now == u64::MAX,
            // A fired one-shot timer is gone for good.
            forall|j: int|
                0 <= j < due_prefix_len(old(self).timers@, old(self).now) && (
                #[trigger] old(self).timers@[j]).interval is None ==> !has_id(
                    final(self).timers@,
                    old(self).timers@[j].id,
                ),
            // Timers that were not yet due survive untouched.
            forall|j: int|
                due_prefix_len(old(self).timers@, old(self).now) <= j < old(
                    self,
                ).timers@.len() ==> has_id(final(self).timers@, (#[trigger] old(
                    self,
                ).timers@[j]).id),
    {
        let ghost old_timers = self.timers@;
        let ghost now0 = self.now;
        proof {
            lemma_due_prefix(old_timers, now0);
        }
        // Microtasks first.
        let mut r: Vec<u64> = Vec::new();
        let nm = self.microtasks.len();
        let mut i: usize = 0;
        while i < nm
            invariant
                i <= nm,
                nm == self.microtasks@.len(),
                r@ == self.microtasks@.subrange(0, i as int),
            decreases nm - i,
        {
            r.push(self.microtasks[i]);
            proof {
                assert(r@ =~= self.microtasks@.subrange(0, i + 1));
            }
            i = i + 1;
        }
        proof {
            assert(self.microtasks@.subrange(0, nm as int) =~= self.microtasks@);
        }
        self.microtasks = Vec::new();
        // Work out how many timers are due: they sit at the front.
        let nt = self.timers.len();
        proof {
            assert(old_timers.subrange(0, nt as int) =~= old_timers);
        }
        let mut k: usize = 0;
        while k < nt && self.timers[k].due <= self.now
            invariant
                k <= nt,
                nt == self.timers@.len(),
                self.timers@ == old_timers,
                self.now == now0,
                forall|m: int| 0 <= m < k ==> (#[trigger] old_timers[m]).due <= now0,
                due_prefix_len(old_timers, now0) == k + due_prefix_len(
                    old_timers.subrange(k as int, nt as int),
                    now0,
                ),
            decreases nt - k,
        {
            proof {
                let rest = old_timers.subrange(k as int, nt as int);
                assert(rest[0] == old_timers[k as int]);
                assert(rest.subrange(1, rest.len() as int) =~= old_timers.subrange(
                    k + 1,
                    nt as int,
                ));
            }
            k = k + 1;
        }
        proof {
            let rest = old_timers.subrange(k as int, nt as int);
            if k < nt {
                assert(rest[0] == old_timers[k as int]);
                assert(due_prefix_len(rest, now0) == 0);
            } else {
                assert(rest =~= Seq::<Timer>::empty());
            }
            assert(due_prefix_len(old_timers, now0) == k as int);
        }
        // Fire the due prefix in order.
        proof {
            assert(r@ =~= old(self).microtasks@ + Seq::new(0 as nat, |m: int| old_timers[m].cb));
        }
        let mut j: usize = 0;
        while j < k
            invariant
                j <= k <= nt,
                nt == self.timers@.len(),
                self.timers@ == old_timers,
                self.now == now0,
                due_prefix_len(old_timers, now0) == k as int,
                r@ == old(self).microtasks@ + Seq::new(j as nat, |m: int| old_timers[m].cb),
            decreases k - j,
        {
            r.push(self.timers[j].cb);
            proof {
                assert(r@ =~= old(self).microtasks@ + Seq::new(
                    (j + 1) as nat,
                    |m: int| old_timers[m].cb,
                ));
            }
            j = j + 1;
        }
        proof {
            assert(Seq::new(k as nat, |m: int| old_timers[m].cb) =~= due_cbs(old_timers, now0));
        }
        // Keep the not-yet-due suffix.
        let mut remaining: Vec<Timer> = Vec::new();
        let mut q: usize = k;
        while q < nt
            invariant
                k <= q <= nt,
                nt == self.timers@.len(),
                self.timers@ == old_timers,
                self.now == now0,
                remaining@ == old_timers.subrange(k as int, q as int),
            decreases nt - q,
        {
            remaining.push(self.timers[q]);
            proof {
                assert(remaining@ =~= old_timers.subrange(k as int, q + 1));
            }
            q = q + 1;
        }
        proof {
            assert(remaining@ =~= old_timers.subrange(k as int, nt as int));
            lemma_due_prefix(old_timers, now0);
            assert forall|a: int, b: int| 0 <= a < b < remaining@.len() implies timer_lt(
                remaining@[a],
                remaining@[b],
            ) && (#[trigger] remaining@[a]).id != (#[trigger] remaining@[b]).id by {
                assert(remaining@[a] == old_timers[k + a] && remaining@[b] == old_timers[k + b]);
            }
            assert forall|m: int|
                0 <= m < remaining@.len() implies ((#[trigger] remaining@[m]).id
                < old(self).next_id && (remaining@[m].due > now0 || now0 == u64::MAX)) by {
                assert(remaining@[m] == old_timers[k + m]);
                if (k as int) < k + m {
                    assert(timer_lt(old_timers[k as int], old_timers[k + m]));
                }
                if (k as int) < old_timers.len() {
                    assert(old_timers[k as int].due > now0);
                }
            }
            assert forall|m: int|
                0 <= m < remaining@.len() implies exists|j2: int|
                0 <= j2 < old_timers.len() && (#[trigger] remaining@[m]).id == old_timers[j2].id
                    && (j2 >= k || (j2 < 0 && old_timers[j2].interval is Some)) by {
                assert(remaining@[m] == old_timers[k + m]);
                assert(old_timers[k + m].id == old_timers[k + m].id && k + m >= k);
            }
            assert forall|j2: int| k <= j2 < old_timers.len() implies has_id(
                remaining@,
                (#[trigger] old_timers[j2]).id,
            ) by {
                assert(remaining@[j2 - k] == old_timers[j2]);
            }
        }
        // Reschedule intervals from the fired prefix.
        let mut f: usize = 0;
        while f < k
            invariant
                f <= k <= nt,
                nt == self.timers@.len(),
                self.timers@ == old_timers,
                self.now == now0,
                old_timers == old(self).timers@,
                now0 == old(self).now,
                due_prefix_len(old_timers, now0) == k as int,
                old(self).wf(),
                self.next_id == old(self).next_id,
                forall|m: int| 0 <= m < k ==> (#[trigger] old_timers[m]).due <= now0,
                timers_sorted(remaining@),
                ids_unique(remaining@),
                forall|m: int|
                    0 <= m < remaining@.len() ==> (#[trigger] remaining@[m]).id
                        < old(self).next_id,
                forall|m: int|
                    0 <= m < remaining@.len() ==> (#[trigger] remaining@[m]).due > now0 || now0
                        == u64::MAX,
                forall|m: int|
                    0 <= m < remaining@.len() ==> exists|j2: int|
                        0 <= j2 < old_timers.len() && (#[trigger] remaining@[m]).id
                            == old_timers[j2].id && (j2 >= k || (j2 < f
                            && old_timers[j2].interval is Some)),
                forall|j2: int|
                    k <= j2 < old_timers.len() ==> has_id(
                        remaining@,
                        (#[trigger] old_timers[j2]).id,
                    ),
            decreases k - f,
        {
            let t = self.timers[f];
            proof {
                assert(old_timers[f as int].due <= now0);
            }
            let ghost before = remaining@;
            match t.interval {
                Some(p) => {
                    if self.now < u64::MAX {
                        let step: u64 = if p == 0 {
                            1
                        } else {
                            p
                        };
                        let nt2 = Timer {
                            id: t.id,
                            due: self.now.saturating_add(step),
                            interval: Some(p),
                            cb: t.cb,
                        };
                        proof {
                            assert forall|m: int|
                                0 <= m < remaining@.len() implies (
                            #[trigger] remaining@[m]).id != nt2.id by {
                                let j2 = choose|j2: int|
                                    0 <= j2 < old_timers.len() && remaining@[m].id
                                        == old_timers[j2].id && (j2 >= k || (j2 < f
                                        && old_timers[j2].interval is Some));
                                if j2 < f as int {
                                    assert(old_timers[j2].id != old_timers[f as int].id);
                                } else {
                                    assert(old_timers[f as int].id != old_timers[j2].id);
                                }
                            }
                        }
                        insert_sorted(&mut remaining, nt2);
                        proof {
                            lemma_insert_pos_bounds(before, nt2);
                            let pos = insert_pos(before, nt2);
                            assert forall|m: int|
                                0 <= m < remaining@.len() implies ((#[trigger] remaining@[m]).id
                                < old(self).next_id && (remaining@[m].due > now0 || now0
                                == u64::MAX) && exists|j2: int|
                                0 <= j2 < old_timers.len() && remaining@[m].id
                                    == old_timers[j2].id && (j2 >= k || (j2 < f + 1
                                    && old_timers[j2].interval is Some))) by {
                                if m < pos {
                                    assert(remaining@[m] == before[m]);
                                } else if m > pos {
                                    assert(remaining@[m] == before[m - 1]);
                                } else {
                                    assert(remaining@[m] == nt2);
                                    assert(old_timers[f as int].id < old(self).next_id);
                                    assert(remaining@[m].id == old_timers[f as int].id && (
                                    f as int) < f + 1 && old_timers[f as int].interval is Some);
                                }
                            }
                            assert forall|idq: u64| has_id(before, idq) implies has_id(
                                remaining@,
                                idq,
                            ) by {
                                let m = choose|m: int|
                                    0 <= m < before.len() && before[m].id == idq;
                                if m < pos {
                                    assert(remaining@[m].id == idq);
                                } else {
                                    assert(remaining@[m + 1].id == idq);
                                }
                            }
                        }
                    }
                },
                None => {},
            }
            f = f + 1;
        }
        self.timers = remaining;
        proof {
            assert forall|j: int|
                0 <= j < k && (#[trigger] old_timers[j]).interval is None implies !has_id(
                self.timers@,
                old_timers[j].id,
            ) by {
                if has_id(self.timers@, old_timers[j].id) {
                    let m = choose|m: int|
                        0 <= m < self.timers@.len() && self.timers@[m].id == old_timers[j].id;
                    let j2 = choose|j2: int|
                        0 <= j2 < old_timers.len() && self.timers@[m].id == old_timers[j2].id && (
                        j2 >= k || (j2 < k && old_timers[j2].interval is Some));
                    if j2 != j {
                        if j < j2 {
                            assert(old_timers[j].id != old_timers[j2].id);
                        } else {
                            assert(old_timers[j2].id != old_timers[j].id);
                        }
                    }
                }
            }
        }
        r
    }
}

/// A drained loop is idle: once no pending timer is due and no microtask is
/// queued, a further drain without a tick hands back no work at all — so a
/// one-shot timer that fired in one drain cannot fire a second time.
pub proof fn lemma_drained_loop_is_idle(ts: Seq<Timer>, now: u64)
    requires
        forall|m: int| 0 <= m < ts.len() ==> (#[trigger] ts[m]).due > now,
    ensures
        drain_result(Seq::empty(), ts, now) == Seq::<u64>::empty(),
{
    if ts.len() > 0 {
        assert(ts[0].due > now);
    }
    assert(due_prefix_len(ts, now) == 0);
    assert(drain_result(Seq::empty(), ts, now) =~= Seq::<u64>::empty());
}

/// In one drain, every pending microtask is handed back before any due
/// timer's callback: microtasks occupy the leading positions of the result.
pub proof fn lemma_microtasks_drain_first(micro: Seq<u64>, ts: Seq<Timer>, now: u64)
    ensures
        forall|i: int| 0 <= i < micro.len() ==> drain_result(micro, ts, now)[i] == micro[i],
        forall|j: int|
            0 <= j < due_cbs(ts, now).len() ==> drain_result(micro, ts, now)[micro.len() + j]
                == due_cbs(ts, now)[j],
{
}

} // verus!
