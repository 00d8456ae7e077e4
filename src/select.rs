use vstd::prelude::*;
use crate::channel::{Channel, ChannelView, RecvOutcome};

verus! {

/// The branch at offset `k` from `s0` among `n` branches, wrapping around.
pub open spec fn slot(s0: nat, k: nat, n: nat) -> int {
    ((s0 + k) as int) % (n as int)
}

/// Scanning `ready` cyclically from index `s0`, the first ready branch among
/// offsets `k` and later.
pub open spec fn scan(ready: Seq<bool>, s0: nat, k: nat) -> Option<nat>
    decreases ready.len() - k,
{
    if k >= ready.len() {
        None
    } else if ready[slot(s0, k, ready.len())] {
        Some(slot(s0, k, ready.len()) as nat)
    } else {
        scan(ready, s0, k + 1)
    }
}

/// The round-robin choice: the first ready branch at or after the cursor,
/// wrapping around; `None` when no branch is ready.
pub open spec fn rr_pick(ready: Seq<bool>, cursor: nat) -> Option<nat> {
    if ready.len() == 0 {
        None
    } else {
        scan(ready, cursor % ready.len(), 0)
    }
}

/// The branches chosen by `m` consecutive selects over the same readiness,
/// starting from `cursor`.
pub open spec fn rr_run(ready: Seq<bool>, cursor: nat, m: nat) -> Seq<nat>
    decreases m,
{
    if m == 0 {
        Seq::empty()
    } else {
        match rr_pick(ready, cursor) {
            Some(i) => seq![i] + rr_run(ready, i + 1, (m - 1) as nat),
            None => Seq::empty(),
        }
    }
}

/// How many times `b` occurs in `s`.
pub open spec fn count_of(s: Seq<nat>, b: nat) -> nat
    decreases s.len(),
{
    if s.len() == 0 {
        0
    } else {
        (if s[0] == b { 1nat } else { 0nat }) + count_of(s.drop_first(), b)
    }
}

/// The select multiplexer's fairness state: branches are tried round-robin
/// starting after the one chosen last.
pub struct Selector {
    cursor: usize,
}

impl Selector {
    pub closed spec fn cursor(&self) -> nat {
        self.cursor as nat
    }

    /// A selector that tries branch 0 first.
    pub fn new() -> (r: Selector)
        ensures
            r.cursor() == 0,
    {
        Selector { cursor: 0 }
    }

    /// Chooses one ready branch by the round-robin policy, or `None` when
    /// none is ready (the caller then waits). The cursor moves past the
    /// chosen branch.
    pub fn select(&mut self, ready: &Vec<bool>) -> (r: Option<usize>)
        ensures
            match rr_pick(ready@, old(self).cursor()) {
                Some(i) => r == Some(i as usize) && final(self).cursor() == i + 1,
                None => r is None && final(self).cursor() == old(self).cursor(),
            },
    {
        let n = ready.len();
        if n == 0 {
            return None;
        }
        let s0 = self.cursor % n;
        let mut k: usize = 0;
        while k < n
            invariant
                n == ready@.len(),
                s0 == old(self).cursor() % (n as nat),
                s0 < n,
                k <= n,
                self.cursor == old(self).cursor,
                rr_pick(ready@, old(self).cursor()) == scan(ready@, s0 as nat, k as nat),
            decreases n - k,
        {
            let idx: usize = if k >= n - s0 {
                k - (n - s0)
            } else {
                s0 + k
            };
            assert(idx == slot(s0 as nat, k as nat, n as nat)) by (nonlinear_arith)
                requires
                    s0 < n,
                    k < n,
                    idx == if s0 + k >= n { s0 + k - n } else { s0 + k },
            ;
            if ready[idx] {
                self.cursor = idx + 1;
                return Some(idx);
            }
            k = k + 1;
        }
        None
    }
}

/// Readiness of two channel branches: a branch is ready when its channel
/// holds a message.
pub open spec fn two_ready<T>(a: ChannelView<T>, b: ChannelView<T>) -> Seq<bool> {
    seq![a.queue.len() > 0, b.queue.len() > 0]
}

/// One select over receives on two channels by task `receiver`, from the
/// channels `a`, `b` and the selector's cursor: the new channels, the new
/// cursor, and the branch taken with its message and the sender that the
/// freed slot woke. When neither channel holds a message, the receiver is
/// recorded as waiting on each channel that is still open.
pub open spec fn either_step<T>(a: ChannelView<T>, b: ChannelView<T>, cursor: nat, receiver: u64) -> (
    ChannelView<T>,
    ChannelView<T>,
    nat,
    Option<(usize, T, Option<u64>)>,
) {
    match rr_pick(two_ready(a, b), cursor) {
        Some(i) => if i == 0 {
            match a.recv_step(receiver) {
                (a2, RecvOutcome::Received(m, w)) => (a2, b, 1, Some((0usize, m, w))),
                _ => (a, b, cursor, None),
            }
        } else {
            match b.recv_step(receiver) {
                (b2, RecvOutcome::Received(m, w)) => (a, b2, 2, Some((1usize, m, w))),
                _ => (a, b, cursor, None),
            }
        },
        None => (a.recv_step(receiver).0, b.recv_step(receiver).0, cursor, None),
    }
}

/// One select over receives on two channels on behalf of task `receiver`:
/// the chosen channel gives its oldest message (with the sender it wakes),
/// the other is left exactly as it was. `None` when neither holds a
/// message: the receiver then waits on both.
pub fn receive_either<T>(
    sel: &mut Selector,
    a: &mut Channel<T>,
    b: &mut Channel<T>,
    receiver: u64,
) -> (r: Option<(usize, T, Option<u64>)>)
    requires
        old(a).wf(),
        old(b).wf(),
    ensures
        final(a).wf(),
        final(b).wf(),
        (final(a)@, final(b)@, final(sel).cursor(), r) == either_step(
            old(a)@,
            old(b)@,
            old(sel).cursor(),
            receiver,
        ),
{
    let ready: Vec<bool> = vec![a.has_message(), b.has_message()];
    assert(ready@ =~= two_ready(a@, b@));
    proof {
        lemma_pick_is_ready(ready@, sel.cursor());
    }
    match sel.select(&ready) {
        Some(i) => {
            if i == 0 {
                match a.try_recv(receiver) {
                    RecvOutcome::Received(m, w) => Some((0, m, w)),
                    _ => None,
                }
            } else {
                match b.try_recv(receiver) {
                    RecvOutcome::Received(m, w) => Some((1, m, w)),
                    _ => None,
                }
            }
        },
        None => {
            let _ = a.try_recv(receiver);
            let _ = b.try_recv(receiver);
            None
        },
    }
}

proof fn lemma_scan_ready(ready: Seq<bool>, s0: nat, k: nat)
    requires
        ready.len() > 0,
    ensures
        scan(ready, s0, k) matches Some(i) ==> i < ready.len() && ready[i as int],
    decreases ready.len() - k,
{
    if k < ready.len() && !ready[slot(s0, k, ready.len())] {
        lemma_scan_ready(ready, s0, k + 1);
    }
}

/// A branch chosen by select is one that was ready.
pub proof fn lemma_pick_is_ready(ready: Seq<bool>, cursor: nat)
    ensures
        rr_pick(ready, cursor) matches Some(i) ==> i < ready.len() && ready[i as int],
        rr_pick(ready, cursor) is None <==> forall|j: int| 0 <= j < ready.len() ==> !ready[j],
{
    if ready.len() > 0 {
        let n = ready.len();
        let s0 = cursor % n;
        lemma_scan_ready(ready, s0, 0);
        lemma_scan_none(ready, s0, 0);
        assert forall|d: nat| d < n implies 0 <= #[trigger] slot(s0, d, n) < n by {
            let sum: int = (s0 + d) as int;
            assert(0 <= sum % (n as int) < n) by (nonlinear_arith)
                requires
                    n > 0,
                    sum >= 0,
            ;
        }
        if rr_pick(ready, cursor) is None {
            assert forall|j: int| 0 <= j < n implies !ready[j] by {
                let d: nat = if j >= s0 { (j - s0) as nat } else { (j + n - s0) as nat };
                let sum: int = (s0 + d) as int;
                assert(sum % (n as int) == j) by (nonlinear_arith)
                    requires
                        0 <= j < n,
                        s0 < n,
                        sum == if j >= s0 { j } else { j + n },
                ;
                assert(slot(s0, d, n) == j);
            }
        }
    }
}

proof fn lemma_scan_none(ready: Seq<bool>, s0: nat, k: nat)
    requires
        ready.len() > 0,
        s0 < ready.len(),
        k <= ready.len(),
    ensures
        scan(ready, s0, k) is None <==> forall|d: nat|
            k <= d < ready.len() ==> !ready[#[trigger] slot(s0, d, ready.len())],
    decreases ready.len() - k,
{
    if k < ready.len() {
        lemma_scan_none(ready, s0, k + 1);
    }
}

/// When exactly one branch is ready, select returns that branch, whatever
/// the cursor.
pub proof fn lemma_single_ready(ready: Seq<bool>, cursor: nat, i: nat)
    requires
        i < ready.len(),
        ready[i as int],
        forall|j: int| 0 <= j < ready.len() && j != i ==> !ready[j],
    ensures
        rr_pick(ready, cursor) == Some(i),
{
    lemma_pick_is_ready(ready, cursor);
}

proof fn lemma_run_two(cursor: nat, m: nat, b: nat)
    requires
        b < 2,
    ensures
        count_of(rr_run(seq![true, true], cursor, m), b) == if cursor % 2 == b {
            (m + 1) / 2
        } else {
            m / 2
        },
    decreases m,
{
    let ready = seq![true, true];
    if m > 0 {
        let i = cursor % 2;
        assert(rr_pick(ready, cursor) == Some(i));
        let rest = rr_run(ready, i + 1, (m - 1) as nat);
        assert((seq![i] + rest).drop_first() =~= rest);
        lemma_run_two(i + 1, (m - 1) as nat, b);
        assert((i + 1) % 2 != i);
    }
}

/// With two branches that are always ready, `m` consecutive selects choose
/// each branch either `m / 2` or `(m + 1) / 2` times: within half a choice
/// of an even split (1000 selects give exactly 500 each).
pub proof fn lemma_fair_two(cursor: nat, m: nat)
    ensures
        count_of(rr_run(seq![true, true], cursor, m), 0) + count_of(
            rr_run(seq![true, true], cursor, m),
            1,
        ) == m,
        m <= 2 * count_of(rr_run(seq![true, true], cursor, m), 0) + 1,
        2 * count_of(rr_run(seq![true, true], cursor, m), 0) <= m + 1,
        m <= 2 * count_of(rr_run(seq![true, true], cursor, m), 1) + 1,
        2 * count_of(rr_run(seq![true, true], cursor, m), 1) <= m + 1,
{
    lemma_run_two(cursor, m, 0);
    lemma_run_two(cursor, m, 1);
}

/// The branches, messages and woken senders of `m` consecutive selects over
/// two channels, with no send in between; it stops early at a select that
/// finds nothing.
pub open spec fn either_run<T>(a: ChannelView<T>, b: ChannelView<T>, cursor: nat, receiver: u64, m: nat) -> Seq<
    (usize, T, Option<u64>),
>
    decreases m,
{
    if m == 0 {
        Seq::empty()
    } else {
        let (a2, b2, c2, r) = either_step(a, b, cursor, receiver);
        match r {
            Some(e) => seq![e] + either_run(a2, b2, c2, receiver, (m - 1) as nat),
            None => Seq::empty(),
        }
    }
}

/// The messages of `s` that came from branch `k`, in order.
pub open spec fn from_branch<T>(s: Seq<(usize, T, Option<u64>)>, k: usize) -> Seq<T>
    decreases s.len(),
{
    if s.len() == 0 {
        Seq::empty()
    } else {
        (if s[0].0 == k { seq![s[0].1] } else { Seq::empty() }) + from_branch(s.drop_first(), k)
    }
}

proof fn lemma_run_prefixes<T>(a: ChannelView<T>, b: ChannelView<T>, cursor: nat, receiver: u64, m: nat)
    requires
        m <= a.queue.len() + b.queue.len(),
    ensures
        from_branch(either_run(a, b, cursor, receiver, m), 0) == a.queue.take(
            from_branch(either_run(a, b, cursor, receiver, m), 0).len() as int,
        ),
        from_branch(either_run(a, b, cursor, receiver, m), 1) == b.queue.take(
            from_branch(either_run(a, b, cursor, receiver, m), 1).len() as int,
        ),
        from_branch(either_run(a, b, cursor, receiver, m), 0).len() <= a.queue.len(),
        from_branch(either_run(a, b, cursor, receiver, m), 1).len() <= b.queue.len(),
        from_branch(either_run(a, b, cursor, receiver, m), 0).len() + from_branch(
            either_run(a, b, cursor, receiver, m),
            1,
        ).len() == m,
    decreases m,
{
    let run = either_run(a, b, cursor, receiver, m);
    if m == 0 {
        assert(a.queue.take(0) =~= Seq::<T>::empty());
        assert(b.queue.take(0) =~= Seq::<T>::empty());
    } else {
        let ready = two_ready(a, b);
        lemma_pick_is_ready(ready, cursor);
        assert(!(forall|j: int| 0 <= j < ready.len() ==> !ready[j])) by {
            if a.queue.len() > 0 {
                assert(ready[0]);
            } else {
                assert(ready[1]);
            }
        }
        let i = rr_pick(ready, cursor)->Some_0;
        let (a2, b2, c2, r) = either_step(a, b, cursor, receiver);
        let rest = either_run(a2, b2, c2, receiver, (m - 1) as nat);
        let e = r->Some_0;
        assert(run == seq![e] + rest);
        assert(run.drop_first() =~= rest);
        assert(run[0] == e);
        if i == 0 {
            assert(a2.queue == a.queue.drop_first());
            assert(b2 == b);
            lemma_run_prefixes(a2, b2, c2, receiver, (m - 1) as nat);
            assert(e.0 == 0usize && e.1 == a.queue[0]);
            let l0 = from_branch(rest, 0).len();
            assert(from_branch(run, 0) == seq![a.queue[0]] + from_branch(rest, 0));
            assert(from_branch(run, 1) =~= from_branch(rest, 1));
            assert(seq![a.queue[0]] + a.queue.drop_first().take(l0 as int) =~= a.queue.take(l0 as int + 1));
        } else {
            assert(b2.queue == b.queue.drop_first());
            assert(a2 == a);
            lemma_run_prefixes(a2, b2, c2, receiver, (m - 1) as nat);
            assert(e.0 == 1usize && e.1 == b.queue[0]);
            let l1 = from_branch(rest, 1).len();
            assert(from_branch(run, 1) == seq![b.queue[0]] + from_branch(rest, 1));
            assert(from_branch(run, 0) =~= from_branch(rest, 0));
            assert(seq![b.queue[0]] + b.queue.drop_first().take(l1 as int) =~= b.queue.take(l1 as int + 1));
        }
    }
}

/// Receiving by select from two channels loses and repeats nothing: as many
/// selects as there are queued messages deliver every message of each
/// channel exactly once, in the order in which that channel queued them.
pub proof fn lemma_select_drains_both<T>(a: ChannelView<T>, b: ChannelView<T>, cursor: nat, receiver: u64)
    ensures
        from_branch(either_run(a, b, cursor, receiver, a.queue.len() + b.queue.len()), 0) == a.queue,
        from_branch(either_run(a, b, cursor, receiver, a.queue.len() + b.queue.len()), 1) == b.queue,
{
    lemma_run_prefixes(a, b, cursor, receiver, a.queue.len() + b.queue.len());
    assert(a.queue.take(a.queue.len() as int) =~= a.queue);
    assert(b.queue.take(b.queue.len() as int) =~= b.queue);
}

} // verus!
