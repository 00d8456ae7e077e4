use task_kernel::channel::{Channel, RecvOutcome, SendOutcome};
use task_kernel::error::KernelError;
use task_kernel::jitter::{sleep_for_secs, sleep_random, MILLIS_PER_SEC};
use task_kernel::naming::thread_namer;
use task_kernel::scheduler::{Scheduler, TaskEvent, TaskState};
use task_kernel::select::{receive_either, Selector};
use task_kernel::timer::{next_tick, TimerQueue};

#[test]
fn thread_names_follow_the_pool_pattern() {
    assert_eq!(thread_namer(0), "my-pool-0");
    assert_eq!(thread_namer(7), "my-pool-7");
    assert_eq!(thread_namer(42), "my-pool-42");
    assert_eq!(thread_namer(1234567), "my-pool-1234567");
}

#[test]
fn error_names() {
    assert_eq!(KernelError::ChannelClosed.describe(), "channel closed");
    assert_eq!(KernelError::TaskCancelled.describe(), "task cancelled");
    assert_eq!(KernelError::SchedulerShuttingDown.describe(), "scheduler shutting down");
    assert_eq!(KernelError::TaskPanicked.describe(), "task panicked");
}

#[test]
fn channel_delivers_one_senders_messages_in_order() {
    let mut ch: Channel<u32> = Channel::new(5);
    for v in [10u32, 20, 30, 40, 50] {
        assert_eq!(ch.try_send(1, v), SendOutcome::Sent(None));
    }
    let mut got = Vec::new();
    for _ in 0..5 {
        match ch.try_recv(2) {
            RecvOutcome::Received(m, None) => got.push(m),
            other => panic!("unexpected {:?}", other),
        }
    }
    assert_eq!(got, vec![10, 20, 30, 40, 50]);
    assert_eq!(ch.try_recv(2), RecvOutcome::Empty);
}

#[test]
fn channel_never_exceeds_capacity() {
    let mut ch: Channel<u32> = Channel::new(2);
    assert_eq!(ch.try_send(1, 1), SendOutcome::Sent(None));
    assert_eq!(ch.try_send(1, 2), SendOutcome::Sent(None));
    assert_eq!(ch.try_send(3, 3), SendOutcome::Full(3));
    assert_eq!(ch.len(), 2);
    assert_eq!(ch.capacity(), 2);
    // the receive frees a slot and wakes the waiting sender
    assert_eq!(ch.try_recv(9), RecvOutcome::Received(1, Some(3)));
    assert_eq!(ch.try_send(3, 3), SendOutcome::Sent(None));
    assert_eq!(ch.len(), 2);
}

#[test]
fn send_wakes_waiting_receiver() {
    let mut ch: Channel<u32> = Channel::new(1);
    assert_eq!(ch.try_recv(4), RecvOutcome::Empty);
    assert_eq!(ch.try_recv(5), RecvOutcome::Empty);
    assert_eq!(ch.try_send(1, 7), SendOutcome::Sent(Some(4)));
    assert!(ch.has_message());
    assert_eq!(ch.try_recv(4), RecvOutcome::Received(7, None));
    assert_eq!(ch.try_send(1, 8), SendOutcome::Sent(Some(5)));
}

#[test]
fn closed_channel_drains_then_ends() {
    let mut ch: Channel<u32> = Channel::new(2);
    assert_eq!(ch.try_send(1, 1), SendOutcome::Sent(None));
    assert_eq!(ch.try_send(1, 2), SendOutcome::Sent(None));
    assert_eq!(ch.try_send(6, 3), SendOutcome::Full(3));
    let (senders, receivers) = ch.close();
    assert_eq!(senders, vec![6]);
    assert!(receivers.is_empty());
    assert!(ch.is_closed());
    assert_eq!(ch.try_send(1, 4), SendOutcome::Closed(4));
    assert_eq!(ch.try_recv(2), RecvOutcome::Received(1, None));
    assert_eq!(ch.try_recv(2), RecvOutcome::Received(2, None));
    assert_eq!(ch.try_recv(2), RecvOutcome::Closed);
}

#[test]
fn close_hands_back_waiting_receivers() {
    let mut ch: Channel<u32> = Channel::new(3);
    assert_eq!(ch.try_recv(8), RecvOutcome::Empty);
    let (senders, receivers) = ch.close();
    assert!(senders.is_empty());
    assert_eq!(receivers, vec![8]);
    assert_eq!(ch.try_recv(8), RecvOutcome::Closed);
}

#[test]
fn timer_never_fires_early() {
    let mut t = TimerQueue::new(10);
    t.register(100, 1);
    t.register(50, 2);
    t.register(100, 3);
    t.register(200, 4);
    assert_eq!(t.earliest_deadline(), Some(50));
    assert_eq!(t.fire_due(49), Vec::<u64>::new());
    assert_eq!(t.fire_due(50), vec![2]);
    assert_eq!(t.fire_due(99), Vec::<u64>::new());
    assert_eq!(t.fire_due(100), vec![1, 3]);
    assert_eq!(t.len(), 1);
    assert_eq!(t.earliest_deadline(), Some(200));
    assert_eq!(t.fire_due(1000), vec![4]);
    assert_eq!(t.earliest_deadline(), None);
}

#[test]
fn timer_cancel_removes_only_that_task() {
    let mut t = TimerQueue::new(1);
    t.register(5, 1);
    t.register(6, 2);
    t.register(7, 1);
    assert_eq!(t.cancel(1), 2);
    assert_eq!(t.cancel(9), 0);
    assert_eq!(t.fire_due(100), vec![2]);
}

#[test]
fn polls_on_tick_grid_are_late_by_less_than_a_tick() {
    assert_eq!(next_tick(0, 100), 0);
    assert_eq!(next_tick(1000, 100), 1000);
    assert_eq!(next_tick(1001, 100), 1100);
    assert_eq!(next_tick(1099, 100), 1100);
    assert_eq!(next_tick(7, 1), 7);
    let mut t = TimerQueue::new(100);
    assert_eq!(t.tick(), 100);
    t.register(1001, 5);
    assert_eq!(t.fire_due(1000), Vec::<u64>::new());
    assert_eq!(t.fire_due(next_tick(1001, t.tick())), vec![5]);
}

#[test]
fn select_returns_the_only_ready_branch() {
    let mut sel = Selector::new();
    for _ in 0..5 {
        assert_eq!(sel.select(&vec![false, true, false]), Some(1));
    }
    assert_eq!(sel.select(&vec![true, false, false]), Some(0));
    assert_eq!(sel.select(&vec![false, false, false]), None);
    assert_eq!(sel.select(&vec![]), None);
}

#[test]
fn select_is_fair_between_two_ready_branches() {
    let mut sel = Selector::new();
    let mut counts = [0u32; 2];
    for _ in 0..1000 {
        let i = sel.select(&vec![true, true]).unwrap();
        counts[i] += 1;
    }
    assert_eq!(counts, [500, 500]);
}

#[test]
fn select_round_robin_skips_unready_branches() {
    let mut sel = Selector::new();
    let all = vec![true, true, true];
    assert_eq!(sel.select(&all), Some(0));
    assert_eq!(sel.select(&all), Some(1));
    assert_eq!(sel.select(&vec![true, false, false]), Some(0));
    assert_eq!(sel.select(&vec![false, false, true]), Some(2));
    assert_eq!(sel.select(&all), Some(0));
}

#[test]
fn receive_either_leaves_the_other_channel_alone() {
    let mut sel = Selector::new();
    let mut a: Channel<u32> = Channel::new(4);
    let mut b: Channel<u32> = Channel::new(4);
    assert_eq!(receive_either(&mut sel, &mut a, &mut b, 9), None);
    // the receiver now waits on both channels: a send to either wakes it
    assert_eq!(b.try_send(1, 11), SendOutcome::Sent(Some(9)));
    assert_eq!(a.try_send(1, 1), SendOutcome::Sent(Some(9)));
    assert_eq!(receive_either(&mut sel, &mut a, &mut b, 9), Some((0, 1, None)));
    assert_eq!(b.try_send(1, 12), SendOutcome::Sent(None));
    // cursor is past branch 0: branch 1 comes first
    assert_eq!(receive_either(&mut sel, &mut a, &mut b, 9), Some((1, 11, None)));
    assert_eq!(a.len(), 0);
    assert_eq!(receive_either(&mut sel, &mut a, &mut b, 9), Some((1, 12, None)));
}

#[test]
fn receive_either_reports_the_woken_sender() {
    let mut sel = Selector::new();
    let mut a: Channel<u32> = Channel::new(1);
    let mut b: Channel<u32> = Channel::new(1);
    assert_eq!(a.try_send(4, 1), SendOutcome::Sent(None));
    assert_eq!(a.try_send(5, 2), SendOutcome::Full(2));
    assert_eq!(receive_either(&mut sel, &mut a, &mut b, 9), Some((0, 1, Some(5))));
    assert_eq!(a.try_send(5, 2), SendOutcome::Sent(None));
}

#[test]
fn select_drains_both_channels_in_order() {
    let mut sel = Selector::new();
    let mut a: Channel<u32> = Channel::new(10);
    let mut b: Channel<u32> = Channel::new(10);
    for v in 1..=5u32 {
        assert_eq!(a.try_send(1, v), SendOutcome::Sent(None));
        assert_eq!(b.try_send(2, 10 * v), SendOutcome::Sent(None));
    }
    let mut got = Vec::new();
    for _ in 0..10 {
        got.push(receive_either(&mut sel, &mut a, &mut b, 9).unwrap());
    }
    let firsts: Vec<u32> = got.iter().filter(|e| e.0 == 0).map(|e| e.1).collect();
    let seconds: Vec<u32> = got.iter().filter(|e| e.0 == 1).map(|e| e.1).collect();
    assert_eq!(firsts, vec![1, 2, 3, 4, 5]);
    assert_eq!(seconds, vec![10, 20, 30, 40, 50]);
    assert_eq!(receive_either(&mut sel, &mut a, &mut b, 9), None);
}

#[test]
fn ten_ticks_from_two_senders() {
    // two senders, one message per second each, five messages apiece
    let mut timers = TimerQueue::new(1000);
    let mut a: Channel<u32> = Channel::new(100);
    let mut b: Channel<u32> = Channel::new(100);
    let mut next = [1u32, 1u32];
    timers.register(0, 0);
    timers.register(0, 1);
    let mut sel = Selector::new();
    let mut events: Vec<(usize, u32)> = Vec::new();
    let mut now: u64 = 0;
    while events.len() < 10 {
        for who in timers.fire_due(now) {
            let w = who as usize;
            let ch = if w == 0 { &mut a } else { &mut b };
            assert!(matches!(ch.try_send(who, next[w]), SendOutcome::Sent(_)));
            next[w] += 1;
            if next[w] <= 5 {
                timers.register(now + 1000, who);
            }
        }
        while let Some((k, n, _)) = receive_either(&mut sel, &mut a, &mut b, 2) {
            events.push((k, n));
        }
        now += 1000;
        assert!(now <= 10_000);
    }
    assert_eq!(events.len(), 10);
    let first: Vec<u32> = events.iter().filter(|e| e.0 == 0).map(|e| e.1).collect();
    let second: Vec<u32> = events.iter().filter(|e| e.0 == 1).map(|e| e.1).collect();
    assert_eq!(first, vec![1, 2, 3, 4, 5]);
    assert_eq!(second, vec![1, 2, 3, 4, 5]);
    // interleaved: each second both channels deliver
    for pair in events.chunks(2) {
        assert_ne!(pair[0].0, pair[1].0);
    }
}

#[test]
fn run_queue_is_fifo() {
    let mut s: Scheduler<i32> = Scheduler::new(4, 2);
    assert_eq!(s.workers(), 4);
    assert_eq!(s.max_blocking(), 2);
    assert_eq!(s.spawn(), Ok(0));
    assert_eq!(s.spawn(), Ok(1));
    assert_eq!(s.spawn(), Ok(2));
    assert_eq!(s.task_count(), 3);
    assert_eq!(s.next_ready(), Some(0));
    s.report(0, TaskEvent::Yielded);
    assert_eq!(s.next_ready(), Some(1));
    assert_eq!(s.next_ready(), Some(2));
    assert_eq!(s.next_ready(), Some(0));
    assert_eq!(s.next_ready(), None);
}

#[test]
fn join_reads_the_cached_result() {
    let mut s: Scheduler<i32> = Scheduler::new(1, 1);
    let id = s.spawn().unwrap();
    assert_eq!(s.join(id), Ok(None));
    assert_eq!(s.next_ready(), Some(id));
    s.report(id, TaskEvent::Returned(8));
    assert_eq!(s.join(id), Ok(Some(8)));
    assert_eq!(s.join(id), Ok(Some(8)));
    // a finished task is not run again nor changed
    s.report(id, TaskEvent::Returned(99));
    assert!(!s.wake(id));
    assert_eq!(s.join(id), Ok(Some(8)));
    assert_eq!(s.next_ready(), None);
}

#[test]
fn suspended_task_is_skipped_until_woken() {
    let mut s: Scheduler<i32> = Scheduler::new(1, 1);
    let a = s.spawn().unwrap();
    let b = s.spawn().unwrap();
    assert_eq!(s.next_ready(), Some(a));
    s.report(a, TaskEvent::Suspended);
    assert_eq!(s.state(a), TaskState::Suspended);
    assert_eq!(s.next_ready(), Some(b));
    assert_eq!(s.next_ready(), None);
    assert!(s.wake(a));
    assert!(!s.wake(a));
    assert_eq!(s.next_ready(), Some(a));
}

#[test]
fn failing_task_is_isolated() {
    let mut s: Scheduler<i32> = Scheduler::new(1, 1);
    let a = s.spawn().unwrap();
    let b = s.spawn().unwrap();
    assert_eq!(s.next_ready(), Some(a));
    s.report(a, TaskEvent::Panicked);
    assert_eq!(s.join(a), Err(KernelError::TaskPanicked));
    assert_eq!(s.next_ready(), Some(b));
    s.report(b, TaskEvent::Returned(3));
    assert_eq!(s.join(b), Ok(Some(3)));
}

#[test]
fn shutdown_refuses_spawns_and_cancels_outstanding() {
    let mut s: Scheduler<i32> = Scheduler::new(2, 1);
    let done = s.spawn().unwrap();
    let waiting = s.spawn().unwrap();
    let queued = s.spawn().unwrap();
    assert_eq!(s.next_ready(), Some(done));
    s.report(done, TaskEvent::Returned(5));
    assert_eq!(s.next_ready(), Some(waiting));
    s.report(waiting, TaskEvent::Suspended);
    s.shutdown();
    assert!(s.is_shutting_down());
    assert_eq!(s.spawn(), Err(KernelError::SchedulerShuttingDown));
    assert_eq!(s.spawn_task(true), Err(KernelError::SchedulerShuttingDown));
    assert_eq!(s.task_count(), 3);
    assert_eq!(s.cancel_remaining(), vec![waiting, queued]);
    assert_eq!(s.join(done), Ok(Some(5)));
    assert_eq!(s.join(waiting), Err(KernelError::TaskCancelled));
    assert_eq!(s.join(queued), Err(KernelError::TaskCancelled));
    assert_eq!(s.next_ready(), None);
}

#[test]
fn blocking_pool_queues_overflow() {
    let mut s: Scheduler<i32> = Scheduler::new(1, 2);
    let a = s.spawn_task(true).unwrap();
    let b = s.spawn_task(true).unwrap();
    let c = s.spawn_task(true).unwrap();
    assert_eq!(s.next_ready(), None);
    assert_eq!(s.next_blocking(), Some(a));
    assert_eq!(s.next_blocking(), Some(b));
    assert_eq!(s.next_blocking(), None);
    s.report(a, TaskEvent::Returned(1));
    s.release_blocking();
    assert_eq!(s.next_blocking(), Some(c));
    assert_eq!(s.join(a), Ok(Some(1)));
}

#[test]
fn sleep_for_secs_arms_exact_deadline() {
    let mut t = TimerQueue::new(1000);
    assert_eq!(sleep_for_secs(&mut t, 3, 2500, 2), 4500);
    assert_eq!(t.fire_due(4499), Vec::<u64>::new());
    assert_eq!(t.fire_due(4500), vec![3]);
}

#[test]
fn sleep_random_stays_below_five_seconds() {
    let mut t = TimerQueue::new(1000);
    for task in 0..200u64 {
        let d = sleep_random(&mut t, task, 10_000);
        assert!(d >= 10_000 && d <= 14_000, "deadline {}", d);
        assert_eq!((d - 10_000) % MILLIS_PER_SEC, 0);
    }
    assert_eq!(t.len(), 200);
    assert_eq!(t.fire_due(14_000).len(), 200);
}

#[test]
fn yielding_tasks_alternate() {
    let mut s: Scheduler<u32> = Scheduler::new(1, 1);
    let ticker = s.spawn().unwrap();
    let tocker = s.spawn().unwrap();
    let mut out = Vec::new();
    let mut rounds = [0u32; 2];
    while let Some(id) = s.next_ready() {
        let k = if id == ticker { 0 } else { 1 };
        out.push(format!("{} {}", if id == tocker { "tock" } else { "tick" }, rounds[k]));
        rounds[k] += 1;
        let ev = if rounds[k] == 10 { TaskEvent::Returned(rounds[k]) } else { TaskEvent::Yielded };
        s.report(id, ev);
    }
    let mut expected = Vec::new();
    for i in 0..10 {
        expected.push(format!("tick {i}"));
        expected.push(format!("tock {i}"));
    }
    assert_eq!(out, expected);
}
