use vstd::prelude::*;
use std::collections::VecDeque;

verus! {

/// What a send attempt did.
#[derive(Debug, PartialEq, Eq)]
pub enum SendOutcome<T> {
    /// The message was queued; carries the receiver woken by it, if one was waiting.
    Sent(Option<u64>),
    /// The buffer was full: the message is handed back and the sender now waits for space.
    Full(T),
    /// The channel is closed: the message is handed back.
    Closed(T),
}

/// What a receive attempt did.
#[derive(Debug, PartialEq, Eq)]
pub enum RecvOutcome<T> {
    /// The oldest queued message; carries the sender woken by the freed slot, if one was waiting.
    Received(T, Option<u64>),
    /// Nothing is queued and the channel is open: the receiver now waits for a message.
    Empty,
    /// The channel is closed and drained.
    Closed,
}

/// The mathematical state of a channel.
pub struct ChannelView<T> {
    pub queue: Seq<T>,
    pub capacity: nat,
    pub closed: bool,
    pub send_waiters: Seq<u64>,
    pub recv_waiters: Seq<u64>,
}

impl<T> ChannelView<T> {
    pub open spec fn wf(self) -> bool {
        self.capacity >= 1 && self.queue.len() <= self.capacity
    }

    /// One send by task `sender` of message `v`.
    pub open spec fn send_step(self, sender: u64, v: T) -> (ChannelView<T>, SendOutcome<T>) {
        if self.closed {
            (self, SendOutcome::Closed(v))
        } else if self.queue.len() < self.capacity {
            if self.recv_waiters.len() > 0 {
                (
                    ChannelView {
                        queue: self.queue.push(v),
                        recv_waiters: self.recv_waiters.drop_first(),
                        ..self
                    },
                    SendOutcome::Sent(Some(self.recv_waiters[0])),
                )
            } else {
                (ChannelView { queue: self.queue.push(v), ..self }, SendOutcome::Sent(None))
            }
        } else {
            (
                ChannelView { send_waiters: self.send_waiters.push(sender), ..self },
                SendOutcome::Full(v),
            )
        }
    }

    /// One receive by task `receiver`.
    pub open spec fn recv_step(self, receiver: u64) -> (ChannelView<T>, RecvOutcome<T>) {
        if self.queue.len() > 0 {
            if self.send_waiters.len() > 0 {
                (
                    ChannelView {
                        queue: self.queue.drop_first(),
                        send_waiters: self.send_waiters.drop_first(),
                        ..self
                    },
                    RecvOutcome::Received(self.queue[0], Some(self.send_waiters[0])),
                )
            } else {
                (
                    ChannelView { queue: self.queue.drop_first(), ..self },
                    RecvOutcome::Received(self.queue[0], None),
                )
            }
        } else if self.closed {
            (self, RecvOutcome::Closed)
        } else {
            (
                ChannelView { recv_waiters: self.recv_waiters.push(receiver), ..self },
                RecvOutcome::Empty,
            )
        }
    }

    /// Closing: no waiter is left, the queue stays to be drained.
    pub open spec fn close_step(self) -> ChannelView<T> {
        ChannelView {
            closed: true,
            send_waiters: Seq::empty(),
            recv_waiters: Seq::empty(),
            ..self
        }
    }
}

/// A bounded FIFO channel between tasks, with the tasks waiting on it for
/// space (senders) or for a message (receivers), each set in arrival order.
pub struct Channel<T> {
    buf: VecDeque<T>,
    capacity: usize,
    closed: bool,
    send_waiters: VecDeque<u64>,
    recv_waiters: VecDeque<u64>,
}

impl<T> View for Channel<T> {
    type V = ChannelView<T>;

    closed spec fn view(&self) -> ChannelView<T> {
        ChannelView {
            queue: self.buf@,
            capacity: self.capacity as nat,
            closed: self.closed,
            send_waiters: self.send_waiters@,
            recv_waiters: self.recv_waiters@,
        }
    }
}

impl<T> Channel<T> {
    pub open spec fn wf(&self) -> bool {
        self@.wf()
    }

    /// An open, empty channel that holds at most `capacity` messages.
    pub fn new(capacity: usize) -> (r: Channel<T>)
        requires
            capacity >= 1,
        ensures
            r.wf(),
            r@.queue == Seq::<T>::empty(),
            r@.capacity == capacity,
            !r@.closed,
            r@.send_waiters == Seq::<u64>::empty(),
            r@.recv_waiters == Seq::<u64>::empty(),
    {
        Channel {
            buf: VecDeque::new(),
            capacity,
            closed: false,
            send_waiters: VecDeque::new(),
            recv_waiters: VecDeque::new(),
        }
    }

    /// Offers `v` on behalf of task `sender`: queued at once when there is
    /// room, else the sender is recorded as waiting and `v` comes back.
    pub fn try_send(&mut self, sender: u64, v: T) -> (r: SendOutcome<T>)
        requires
            old(self).wf(),
        ensures
            final(self).wf(),
            (final(self)@, r) == old(self)@.send_step(sender, v),
    {
        if self.closed {
            return SendOutcome::Closed(v);
        }
        if self.buf.len() < self.capacity {
            self.buf.push_back(v);
            let woke = self.recv_waiters.pop_front();
            SendOutcome::Sent(woke)
        } else {
            self.send_waiters.push_back(sender);
            SendOutcome::Full(v)
        }
    }

    /// Takes the oldest message on behalf of task `receiver`; when nothing is
    /// queued on an open channel the receiver is recorded as waiting.
    pub fn try_recv(&mut self, receiver: u64) -> (r: RecvOutcome<T>)
        requires
            old(self).wf(),
        ensures
            final(self).wf(),
            (final(self)@, r) == old(self)@.recv_step(receiver),
    {
        match self.buf.pop_front() {
            Some(m) => {
                let woke = self.send_waiters.pop_front();
                RecvOutcome::Received(m, woke)
            },
            None => {
                if self.closed {
                    RecvOutcome::Closed
                } else {
                    self.recv_waiters.push_back(receiver);
                    RecvOutcome::Empty
                }
            },
        }
    }

    /// Closes the channel and hands back every waiting sender (each to fail
    /// with a closed channel) and every waiting receiver (each to drain or end).
    pub fn close(&mut self) -> (r: (Vec<u64>, Vec<u64>))
        requires
            old(self).wf(),
        ensures
            final(self).wf(),
            final(self)@ == old(self)@.close_step(),
            r.0@ == old(self)@.send_waiters,
            r.1@ == old(self)@.recv_waiters,
    {
        self.closed = true;
        let senders = drain_ids(&mut self.send_waiters);
        let receivers = drain_ids(&mut self.recv_waiters);
        (senders, receivers)
    }

    /// Whether a message is queued, so that a receive would not wait.
    pub fn has_message(&self) -> (r: bool)
        ensures
            r == (self@.queue.len() > 0),
    {
        self.buf.len() > 0
    }

    /// Number of queued messages.
    pub fn len(&self) -> (r: usize)
        ensures
            r == self@.queue.len(),
    {
        self.buf.len()
    }

    pub fn capacity(&self) -> (r: usize)
        ensures
            r == self@.capacity,
    {
        self.capacity
    }

    pub fn is_closed(&self) -> (r: bool)
        ensures
            r == self@.closed,
    {
        self.closed
    }
}

/// Moves every id out of `q`, oldest first.
fn drain_ids(q: &mut VecDeque<u64>) -> (r: Vec<u64>)
    ensures
        r@ == old(q)@,
        final(q)@ == Seq::<u64>::empty(),
{
    let mut out: Vec<u64> = Vec::new();
    let ghost orig = q@;
    loop
        invariant
            orig == out@ + q@,
        ensures
            q@ == Seq::<u64>::empty(),
        decreases q@.len(),
    {
        match q.pop_front() {
            Some(id) => {
                out.push(id);
            },
            None => {
                break;
            },
        }
    }
    assert(out@ =~= orig);
    out
}

/// The channel after task `sender` sends each message of `s` in turn.
pub open spec fn send_all<T>(c: ChannelView<T>, sender: u64, s: Seq<T>) -> ChannelView<T>
    decreases s.len(),
{
    if s.len() == 0 {
        c
    } else {
        send_all(c, sender, s.drop_last()).send_step(sender, s.last()).0
    }
}

/// The channel after `n` receives by task `receiver`, and the messages they returned.
pub open spec fn recv_n<T>(c: ChannelView<T>, receiver: u64, n: nat) -> (ChannelView<T>, Seq<T>)
    decreases n,
{
    if n == 0 {
        (c, Seq::empty())
    } else {
        let (c1, got) = recv_n(c, receiver, (n - 1) as nat);
        let (c2, o) = c1.recv_step(receiver);
        (
            c2,
            match o {
                RecvOutcome::Received(m, _) => got.push(m),
                _ => got,
            },
        )
    }
}

proof fn lemma_send_all_queues<T>(c: ChannelView<T>, sender: u64, s: Seq<T>)
    requires
        !c.closed,
        c.queue.len() + s.len() <= c.capacity,
    ensures
        send_all(c, sender, s).queue == c.queue + s,
        !send_all(c, sender, s).closed,
        send_all(c, sender, s).capacity == c.capacity,
    decreases s.len(),
{
    if s.len() > 0 {
        lemma_send_all_queues(c, sender, s.drop_last());
        assert(c.queue + s.drop_last() + seq![s.last()] =~= c.queue + s);
        assert((c.queue + s.drop_last()).push(s.last()) =~= c.queue + s);
    } else {
        assert(c.queue + s =~= c.queue);
    }
}

proof fn lemma_recv_n_takes<T>(c: ChannelView<T>, receiver: u64, n: nat)
    requires
        n <= c.queue.len(),
    ensures
        recv_n(c, receiver, n).1 == c.queue.take(n as int),
        recv_n(c, receiver, n).0.queue == c.queue.skip(n as int),
    decreases n,
{
    if n > 0 {
        lemma_recv_n_takes(c, receiver, (n - 1) as nat);
        let c1 = recv_n(c, receiver, (n - 1) as nat).0;
        assert(c1.queue[0] == c.queue[n - 1]);
        assert(c.queue.take(n - 1).push(c.queue[n - 1]) =~= c.queue.take(n as int));
        assert(c1.queue.drop_first() =~= c.queue.skip(n as int));
    } else {
        assert(c.queue.take(0) =~= Seq::<T>::empty());
        assert(c.queue.skip(0) =~= c.queue);
    }
}

/// Messages sent by one task into an open, empty channel with room for all
/// of them are received in exactly the order they were sent.
pub proof fn lemma_fifo_single_sender<T>(c: ChannelView<T>, sender: u64, receiver: u64, s: Seq<T>)
    requires
        c.queue.len() == 0,
        !c.closed,
        s.len() <= c.capacity,
    ensures
        recv_n(send_all(c, sender, s), receiver, s.len()).1 == s,
{
    lemma_send_all_queues(c, sender, s);
    assert(c.queue + s =~= s);
    lemma_recv_n_takes(send_all(c, sender, s), receiver, s.len());
    assert(s.take(s.len() as int) =~= s);
}

/// A channel never holds more than its capacity: a send into a full channel
/// queues nothing and leaves the sender waiting, and once a receive has
/// taken a message the next send is admitted.
pub proof fn lemma_capacity_bound<T>(c: ChannelView<T>, sender: u64, receiver: u64, v: T, w: T)
    requires
        c.wf(),
    ensures
        c.send_step(sender, v).0.wf(),
        c.recv_step(receiver).0.wf(),
        (!c.closed && c.queue.len() == c.capacity) ==> {
            &&& c.send_step(sender, v).0.queue == c.queue
            &&& c.send_step(sender, v).1 == SendOutcome::Full(v)
            &&& c.send_step(sender, v).0.send_waiters.last() == sender
            &&& c.recv_step(receiver).0.send_step(sender, w).0.queue == c.queue.drop_first().push(w)
            &&& c.recv_step(receiver).0.send_step(sender, w).1 is Sent
        },
{
}

} // verus!
