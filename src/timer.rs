use vstd::prelude::*;

verus! {

/// A timer entry: the deadline and the task waiting on it.
pub type TimerEntry = (u64, u64);

/// Tasks of the entries of `s` whose deadline has been reached at `now`, in
/// registration order.
pub open spec fn due(s: Seq<TimerEntry>, now: u64) -> Seq<u64>
    decreases s.len(),
{
    if s.len() == 0 {
        Seq::empty()
    } else if s.last().0 <= now {
        due(s.drop_last(), now).push(s.last().1)
    } else {
        due(s.drop_last(), now)
    }
}

/// Entries of `s` whose deadline lies after `now`, in registration order.
pub open spec fn pending(s: Seq<TimerEntry>, now: u64) -> Seq<TimerEntry>
    decreases s.len(),
{
    if s.len() == 0 {
        Seq::empty()
    } else if s.last().0 > now {
        pending(s.drop_last(), now).push(s.last())
    } else {
        pending(s.drop_last(), now)
    }
}

/// Entries of `s` that do not belong to `task`.
pub open spec fn without_task(s: Seq<TimerEntry>, task: u64) -> Seq<TimerEntry>
    decreases s.len(),
{
    if s.len() == 0 {
        Seq::empty()
    } else if s.last().1 != task {
        without_task(s.drop_last(), task).push(s.last())
    } else {
        without_task(s.drop_last(), task)
    }
}

/// The first polling instant, on a grid of step `tick`, at or after `t`.
pub open spec fn first_tick(t: nat, tick: nat) -> nat
    recommends
        tick >= 1,
{
    (((t + tick - 1) as nat) / tick) * tick
}

/// Deadlines waited on by tasks; a driver polls it at each tick and wakes
/// the tasks whose deadline has passed.
pub struct TimerQueue {
    entries: Vec<TimerEntry>,
    tick: u64,
}

impl TimerQueue {
    pub closed spec fn entries(&self) -> Seq<TimerEntry> {
        self.entries@
    }

    pub closed spec fn tick_spec(&self) -> nat {
        self.tick as nat
    }

    pub open spec fn wf(&self) -> bool {
        self.tick_spec() >= 1
    }

    /// An empty queue polled every `tick` time units.
    pub fn new(tick: u64) -> (r: TimerQueue)
        requires
            tick >= 1,
        ensures
            r.wf(),
            r.entries() == Seq::<TimerEntry>::empty(),
            r.tick_spec() == tick,
    {
        TimerQueue { entries: Vec::new(), tick }
    }

    /// The polling interval.
    pub fn tick(&self) -> (r: u64)
        ensures
            r == self.tick_spec(),
    {
        self.tick
    }

    /// Number of armed timers.
    pub fn len(&self) -> (r: usize)
        ensures
            r == self.entries().len(),
    {
        self.entries.len()
    }

    /// Arms a timer: `task` waits until `deadline`.
    pub fn register(&mut self, deadline: u64, task: u64)
        requires
            old(self).wf(),
        ensures
            final(self).wf(),
            final(self).tick_spec() == old(self).tick_spec(),
            final(self).entries() == old(self).entries().push((deadline, task)),
    {
        self.entries.push((deadline, task));
    }

    /// Removes every timer of `task` (its owner was cancelled); the others
    /// are kept in order. Returns how many were removed.
    pub fn cancel(&mut self, task: u64) -> (r: usize)
        requires
            old(self).wf(),
        ensures
            final(self).wf(),
            final(self).tick_spec() == old(self).tick_spec(),
            final(self).entries() == without_task(old(self).entries(), task),
            r == old(self).entries().len() - final(self).entries().len(),
    {
        let mut kept: Vec<TimerEntry> = Vec::new();
        let mut i: usize = 0;
        while i < self.entries.len()
            invariant
                i <= self.entries@.len(),
                kept@ == without_task(self.entries@.take(i as int), task),
                kept@.len() <= i,
            decreases self.entries@.len() - i,
        {
            let e = self.entries[i];
            assert(self.entries@.take(i + 1).drop_last() =~= self.entries@.take(i as int));
            if e.1 != task {
                kept.push(e);
            }
            i = i + 1;
        }
        assert(self.entries@.take(i as int) =~= self.entries@);
        let removed = self.entries.len() - kept.len();
        self.entries = kept;
        removed
    }

    /// Poll at time `now`: returns the tasks whose deadline is at or before
    /// `now`, in registration order, and disarms their timers; later ones stay.
    pub fn fire_due(&mut self, now: u64) -> (r: Vec<u64>)
        requires
            old(self).wf(),
        ensures
            final(self).wf(),
            final(self).tick_spec() == old(self).tick_spec(),
            r@ == due(old(self).entries(), now),
            final(self).entries() == pending(old(self).entries(), now),
    {
        let mut fired: Vec<u64> = Vec::new();
        let mut kept: Vec<TimerEntry> = Vec::new();
        let mut i: usize = 0;
        while i < self.entries.len()
            invariant
                i <= self.entries@.len(),
                fired@ == due(self.entries@.take(i as int), now),
                kept@ == pending(self.entries@.take(i as int), now),
            decreases self.entries@.len() - i,
        {
            let e = self.entries[i];
            assert(self.entries@.take(i + 1).drop_last() =~= self.entries@.take(i as int));
            if e.0 <= now {
                fired.push(e.1);
            } else {
                kept.push(e);
            }
            i = i + 1;
        }
        assert(self.entries@.take(i as int) =~= self.entries@);
        self.entries = kept;
        fired
    }

    /// The earliest armed deadline, if any: the driver need not poll before it.
    pub fn earliest_deadline(&self) -> (r: Option<u64>)
        ensures
            r is None <==> self.entries().len() == 0,
            r matches Some(d) ==> {
                &&& exists|i: int| 0 <= i < self.entries().len() && self.entries()[i].0 == d
                &&& forall|i: int| 0 <= i < self.entries().len() ==> d <= self.entries()[i].0
            },
    {
        if self.entries.len() == 0 {
            return None;
        }
        let mut best: u64 = self.entries[0].0;
        let mut at: usize = 0;
        let mut i: usize = 1;
        while i < self.entries.len()
            invariant
                1 <= i <= self.entries@.len(),
                at < i,
                self.entries@[at as int].0 == best,
                forall|j: int| 0 <= j < i ==> best <= self.entries@[j].0,
            decreases self.entries@.len() - i,
        {
            if self.entries[i].0 < best {
                best = self.entries[i].0;
                at = i;
            }
            i = i + 1;
        }
        assert(self.entries()[at as int].0 == best);
        Some(best)
    }
}

/// The first polling instant at or after `t` when polls happen every `tick`
/// time units starting at zero.
pub fn next_tick(t: u64, tick: u64) -> (r: u64)
    requires
        tick >= 1,
        t + tick <= u64::MAX,
    ensures
        r == first_tick(t as nat, tick as nat),
        t <= r < t + tick,
        r % tick == 0,
{
    let q = (t + tick - 1) / tick;
    proof {
        let n: int = t + tick - 1;
        assert(q == n / (tick as int));
        assert((n / (tick as int)) * tick <= n) by (nonlinear_arith)
            requires
                tick >= 1,
                n >= 0,
        ;
        lemma_first_tick(t as nat, tick as nat);
    }
    q * tick
}

/// With polls every `tick` time units, a deadline `t` is first served at the
/// first poll at or after `t`, which is less than one tick late, and no
/// earlier poll serves it.
pub proof fn lemma_first_tick(t: nat, tick: nat)
    requires
        tick >= 1,
    ensures
        t <= first_tick(t, tick) < t + tick,
        first_tick(t, tick) % tick == 0,
        forall|k: nat| #[trigger] (k * tick) < first_tick(t, tick) ==> k * tick < t,
{
    let q = ((t + tick - 1) as nat) / tick;
    let m = ((t + tick - 1) as nat) % tick;
    assert((t + tick - 1) as nat == q * tick + m && m < tick) by (nonlinear_arith)
        requires
            tick >= 1,
            q == ((t + tick - 1) as nat) / tick,
            m == ((t + tick - 1) as nat) % tick,
    ;
    assert((q * tick) % tick == 0) by (nonlinear_arith)
        requires
            tick >= 1,
    ;
    assert forall|k: nat| #[trigger] (k * tick) < q * tick implies k * tick < t by {
        assert(k < q) by (nonlinear_arith)
            requires
                k * tick < q * tick,
                tick >= 1,
        ;
        assert(k * tick <= (q - 1) * tick) by (nonlinear_arith)
            requires
                k < q,
                tick >= 1,
        ;
        assert((q - 1) * tick == q * tick - tick) by (nonlinear_arith);
    }
}

/// A timer never fires early and is never missed: a poll at `now` wakes
/// exactly the tasks whose deadline is at or before `now`, and keeps only
/// timers still in the future.
pub proof fn lemma_timer_never_early(s: Seq<TimerEntry>, now: u64)
    ensures
        forall|j: int|
            #![trigger due(s, now)[j]]
            0 <= j < due(s, now).len() ==> exists|i: int|
                #![trigger s[i]]
                0 <= i < s.len() && s[i].0 <= now && s[i].1 == due(s, now)[j],
        forall|i: int| 0 <= i < s.len() && s[i].0 <= now ==> due(s, now).contains(#[trigger] s[i].1),
        forall|j: int| 0 <= j < pending(s, now).len() ==> #[trigger] pending(s, now)[j].0 > now,
    decreases s.len(),
{
    if s.len() > 0 {
        let p = s.drop_last();
        lemma_timer_never_early(p, now);
        let last = s.len() - 1;
        assert(s[last] == s.last());
        assert forall|j: int| #![trigger due(s, now)[j]] 0 <= j < due(s, now).len() implies exists|i: int|
            #![trigger s[i]]
            0 <= i < s.len() && s[i].0 <= now && s[i].1 == due(s, now)[j] by {
            if j < due(p, now).len() {
                if s.last().0 <= now {
                    assert(due(s, now) == due(p, now).push(s.last().1));
                } else {
                    assert(due(s, now) == due(p, now));
                }
                assert(due(s, now)[j] == due(p, now)[j]);
                let i = choose|i: int| 0 <= i < p.len() && p[i].0 <= now && p[i].1 == due(p, now)[j];
                assert(s[i] == p[i]);
            } else {
                assert(s.last().0 <= now);
                assert(due(s, now) == due(p, now).push(s.last().1));
                assert(s[last].1 == due(s, now)[j]);
            }
        }
        assert forall|i: int| 0 <= i < s.len() && s[i].0 <= now implies due(s, now).contains(
            #[trigger] s[i].1,
        ) by {
            if i < p.len() {
                assert(p[i] == s[i]);
                let k = choose|k: int| 0 <= k < due(p, now).len() && due(p, now)[k] == p[i].1;
                assert(due(s, now)[k] == s[i].1);
            } else {
                assert(due(s, now).last() == s[i].1);
            }
        }
        assert forall|j: int| 0 <= j < pending(s, now).len() implies #[trigger] pending(s, now)[j].0 > now by {
            if j < pending(p, now).len() {
                assert(pending(s, now)[j] == pending(p, now)[j]);
            }
        }
    }
}

/// A timer served by a driver that polls every `tick` time units, starting
/// at zero, fires at the first poll at or after its deadline, which is less
/// than one tick late, and at no earlier poll: at every earlier poll its
/// deadline still lies ahead.
pub proof fn lemma_tick_driver_on_time(s: Seq<TimerEntry>, i: int, tick: nat)
    requires
        0 <= i < s.len(),
        tick >= 1,
        first_tick(s[i].0 as nat, tick) <= u64::MAX,
    ensures
        s[i].0 <= first_tick(s[i].0 as nat, tick) < s[i].0 + tick,
        due(s, first_tick(s[i].0 as nat, tick) as u64).contains(s[i].1),
        forall|k: nat| #[trigger] (k * tick) < first_tick(s[i].0 as nat, tick) ==> s[i].0 > k * tick,
{
    let t = first_tick(s[i].0 as nat, tick);
    lemma_first_tick(s[i].0 as nat, tick);
    lemma_timer_never_early(s, t as u64);
}

} // verus!
