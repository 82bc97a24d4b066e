use multiqueue::errors::{RecvError, TryRecvError, TrySendError};
use multiqueue::futures_queue::futures_multiqueue;
use multiqueue::futures_wait::{FuturesWait, SendStep, Spin, WaitStep, Wakeup, MAX_INLINE};
use multiqueue::inline::InlineTasks;
use multiqueue::multiqueue::BCast;
use multiqueue::wait::{Blocking, Stage};
use multiqueue::{mpmc_fut_queue, multicast_fut_queue};

#[test]
fn a_short_list_keeps_its_order() {
    assert_eq!(InlineTasks::of(vec![5, 3, 9, 3]).into_tasks(), vec![5, 3, 9, 3]);
    assert_eq!(InlineTasks::of(vec![]).into_tasks(), vec![]);
    let full: Vec<u64> = (0..9).collect();
    assert_eq!(InlineTasks::of(full.clone()).into_tasks(), full);
}

#[test]
fn few_parked_tasks_are_called_after_the_list_is_free() {
    let mut wait = FuturesWait::with_spins(0, 0);
    for task in [4, 2, 7] {
        wait.push(task);
    }
    let wakeup = wait.notify();
    assert!(matches!(wakeup, Wakeup::Freed(_)));
    assert!(!wakeup.keeps_list());
    assert_eq!(wakeup.into_tasks(), vec![4, 2, 7]);
    assert_eq!(wait.len(), 0);
    assert!(matches!(wait.notify(), Wakeup::Nobody));
}

#[test]
fn many_parked_tasks_are_called_at_once() {
    let mut wait = FuturesWait::new();
    for task in 0..8 {
        wait.push(task);
    }
    assert!(!wait.notify().keeps_list());
    for task in 0..9 {
        wait.push(task);
    }
    let wakeup = wait.notify();
    assert!(wakeup.keeps_list());
    assert_eq!(wakeup.into_tasks(), (0..9).collect::<Vec<u64>>());
    assert_eq!(wait.len(), 0);
}

#[test]
fn a_clone_has_the_same_numbers_and_no_tasks() {
    let mut wait = FuturesWait::with_spins(1, 2);
    wait.push(1);
    let other = wait.clone();
    assert_eq!(other.len(), 0);
    let mut stage = other.start();
    let mut seen = vec![stage];
    for _ in 0..4 {
        stage = other.after(stage);
        seen.push(stage);
    }
    assert_eq!(seen, vec![Stage::Spin(0), Stage::Yield(0), Stage::Yield(1), Stage::Lock, Stage::Lock]);
    assert!(other.needs_notify());
}

#[test]
fn a_task_is_parked_only_when_it_has_to_wait() {
    let mut wait = FuturesWait::with_spins(1, 0);
    assert_eq!(wait.spin(Stage::Spin(0), 5, 4, 1), Spin::Again(Stage::Lock));
    assert_eq!(wait.spin(Stage::Spin(0), 5, 5, 1), Spin::Ready);
    assert!(!wait.park(5, 5, 1, 1));
    assert!(!wait.park(5, 4, 0, 1));
    assert_eq!(wait.len(), 0);
    assert!(wait.park(5, 4, 1, 1));
    assert_eq!(wait.notify().into_tasks(), vec![1]);
}

#[test]
fn a_try_to_send_decides_what_comes_next() {
    let mut wait = FuturesWait::with_spins(1, 0);
    let ready = wait.send_or_park::<usize>(Stage::Spin(0), Ok(()), 1);
    assert!(matches!(ready, SendStep::Ready));
    let again = wait.send_or_park(Stage::Spin(0), Err(TrySendError::Full(5)), 1);
    assert!(matches!(again, SendStep::Again(Stage::Lock, 5)));
    let gone = wait.send_or_park(Stage::Lock, Err(TrySendError::Disconnected(5)), 1);
    assert!(matches!(gone, SendStep::Failed(_)));
    assert_eq!(wait.len(), 0);
    let parked = wait.send_or_park(Stage::Lock, Err(TrySendError::Full(5)), 1);
    assert!(matches!(parked, SendStep::NotReady(5)));
    assert_eq!(wait.notify().into_tasks(), vec![1]);
}

#[test]
fn a_sending_task_waits_for_room() {
    let (mut queue, mut sender, receiver) = multicast_fut_queue::<usize>(1);
    let first = queue.start_stage();
    assert!(matches!(sender.start_send(&mut queue, first, 1, 10), SendStep::Ready));
    // There is no room. The tries come to an end, and the task is parked.
    let mut stage = queue.start_stage();
    let mut msg = 2;
    let mut tries = 0;
    loop {
        tries += 1;
        match sender.start_send(&mut queue, stage, msg, 11) {
            SendStep::Again(next, back) => {
                stage = next;
                msg = back;
            }
            SendStep::NotReady(back) => {
                assert_eq!(back, 2);
                break;
            }
            _ => panic!("the queue is full"),
        }
    }
    assert_eq!(tries, 1000 + 50 + 1);
    assert_eq!(queue.notify_senders().into_tasks(), vec![]);
    assert_eq!(receiver.poll(&mut queue), Blocking::Done(Some(1)));
    assert_eq!(queue.notify_senders().into_tasks(), vec![11]);
    assert_eq!(queue.notify_senders().into_tasks(), vec![]);
    assert!(matches!(sender.start_send(&mut queue, Stage::Lock, 2, 11), SendStep::Ready));
    assert_eq!(receiver.try_recv(&mut queue), Ok(2));
}

#[test]
fn a_receiving_task_waits_for_values() {
    let (mut queue, mut sender, receiver) = multicast_fut_queue::<usize>(1);
    sender.try_send(&mut queue, 1).unwrap();
    assert_eq!(queue.notify_receivers().into_tasks(), vec![]);
    assert_eq!(receiver.poll(&mut queue), Blocking::Done(Some(1)));
    let on = match receiver.poll(&mut queue) {
        Blocking::Wait(on) => on,
        _ => panic!("there is nothing yet"),
    };
    let first = queue.start_wait();
    assert_eq!(queue.fut_wait(first, &on, 6), WaitStep::Again(Stage::Spin(1)));
    assert_eq!(queue.fut_wait(Stage::Lock, &on, 7), WaitStep::Parked);
    sender.try_send(&mut queue, 2).unwrap();
    assert_eq!(queue.fut_wait(first, &on, 8), WaitStep::Ready);
    assert_eq!(queue.fut_wait(Stage::Lock, &on, 8), WaitStep::Ready);
    assert_eq!(queue.notify_receivers().into_tasks(), vec![7]);
    assert_eq!(queue.notify_receivers().into_tasks(), vec![]);
    assert_eq!(receiver.poll_again(&mut queue), Blocking::Done(Some(2)));
    let on = match receiver.poll(&mut queue) {
        Blocking::Wait(on) => on,
        _ => panic!("there is nothing yet"),
    };
    assert_eq!(queue.fut_wait(Stage::Lock, &on, 9), WaitStep::Parked);
    sender.unsubscribe(&mut queue);
    assert_eq!(queue.notify_receivers().into_tasks(), vec![9]);
    assert_eq!(receiver.poll_again(&mut queue), Blocking::Done(None));
    assert_eq!(receiver.recv(&mut queue), Blocking::Done(Err(RecvError)));
}

#[test]
fn a_task_is_parked_on_a_new_queue() {
    let (mut queue, mut sender, receiver) = multicast_fut_queue::<usize>(2);
    let on = match receiver.poll(&mut queue) {
        Blocking::Wait(on) => on,
        _ => panic!("there is nothing yet"),
    };
    let first = queue.start_wait();
    assert_eq!(queue.fut_wait(first, &on, 5), WaitStep::Again(Stage::Spin(1)));
    assert_eq!(queue.fut_wait(Stage::Lock, &on, 5), WaitStep::Parked);
    sender.try_send(&mut queue, 1).unwrap();
    assert_eq!(queue.notify_receivers().into_tasks(), vec![5]);
    assert_eq!(queue.fut_wait(Stage::Lock, &on, 5), WaitStep::Ready);
    assert_eq!(receiver.poll_again(&mut queue), Blocking::Done(Some(1)));
}

#[test]
fn a_task_does_not_wait_for_a_value_that_others_received() {
    let (mut queue, mut sender, receiver) = multicast_fut_queue::<usize>(2);
    let other = receiver.clone(&mut queue);
    for i in 0..2 {
        sender.try_send(&mut queue, i).unwrap();
        assert_eq!(other.try_recv(&mut queue), Ok(i));
    }
    let on = match receiver.poll(&mut queue) {
        Blocking::Wait(on) => on,
        _ => panic!("there is nothing yet"),
    };
    assert_eq!(queue.fut_wait(Stage::Spin(0), &on, 1), WaitStep::Again(Stage::Spin(1)));
    for i in 2..9 {
        sender.try_send(&mut queue, i).unwrap();
        assert_eq!(other.try_recv(&mut queue), Ok(i));
        assert_eq!(queue.fut_wait(Stage::Spin(0), &on, 1), WaitStep::Ready);
        assert_eq!(queue.fut_wait(Stage::Lock, &on, 1), WaitStep::Ready);
    }
}

#[test]
fn tasks_of_a_queue_are_handed_out_by_their_number() {
    for count in 0..12 {
        let (mut queue, mut sender, receiver) = multicast_fut_queue::<usize>(1);
        let on = match receiver.poll(&mut queue) {
            Blocking::Wait(on) => on,
            _ => panic!("there is nothing yet"),
        };
        for task in 0..count {
            assert_eq!(queue.fut_wait(Stage::Lock, &on, task), WaitStep::Parked);
        }
        assert!(matches!(queue.notify_receivers(), Wakeup::Nobody));
        sender.try_send(&mut queue, 1).unwrap();
        let wakeup = queue.notify_receivers();
        assert_eq!(matches!(wakeup, Wakeup::Nobody), count == 0);
        assert_eq!(matches!(wakeup, Wakeup::Kept(_)), count > MAX_INLINE as u64);
        assert_eq!(wakeup.into_tasks(), (0..count).collect::<Vec<u64>>());
        for task in 0..count {
            assert!(matches!(sender.start_send(&mut queue, Stage::Lock, 2, task), SendStep::NotReady(2)));
        }
        assert_eq!(receiver.poll(&mut queue), Blocking::Done(Some(1)));
        let wakeup = queue.notify_senders();
        assert_eq!(matches!(wakeup, Wakeup::Nobody), count == 0);
        assert_eq!(matches!(wakeup, Wakeup::Kept(_)), count > MAX_INLINE as u64);
        assert_eq!(wakeup.into_tasks(), (0..count).collect::<Vec<u64>>());
    }
}

#[test]
fn a_sending_task_fails_when_no_stream_is_left() {
    let (mut queue, mut sender, receiver) = mpmc_fut_queue::<usize>(1);
    assert!(receiver.unsubscribe(&mut queue));
    match sender.start_send(&mut queue, queue_stage(), 5, 1) {
        SendStep::Failed(err) => assert_eq!(err.into_inner(), 5),
        _ => panic!("nobody can receive"),
    }
    assert_eq!(sender.try_send(&mut queue, 6), Err(TrySendError::Disconnected(6)));
}

fn queue_stage() -> Stage {
    Stage::Spin(0)
}

#[test]
fn a_receiver_that_leaves_calls_the_senders() {
    let (mut queue, mut sender, receiver) = multicast_fut_queue::<usize>(1);
    let other = receiver.add_stream(&mut queue);
    sender.try_send(&mut queue, 1).unwrap();
    assert_eq!(receiver.try_recv(&mut queue), Ok(1));
    assert!(matches!(sender.start_send(&mut queue, Stage::Lock, 2, 3), SendStep::NotReady(2)));
    assert!(other.unsubscribe(&mut queue));
    assert_eq!(queue.notify_senders().into_tasks(), vec![3]);
    assert!(matches!(sender.start_send(&mut queue, Stage::Lock, 2, 3), SendStep::Ready));
}

#[test]
fn a_single_receiver_applies_its_function() {
    let (mut queue, mut sender, receiver) = multicast_fut_queue::<usize>(4);
    let second = receiver.clone(&mut queue);
    let receiver = match receiver.into_single(&mut queue, |x: &usize| *x + 1) {
        Ok(_) => panic!("there are two receivers"),
        Err((_, receiver)) => receiver,
    };
    assert!(!second.unsubscribe(&mut queue));
    let mut single = match receiver.into_single(&mut queue, |x: &usize| *x + 1) {
        Ok(single) => single,
        Err(_) => panic!("there is one receiver"),
    };
    let mut double = single.add_stream_with(&mut queue, |x: &usize| *x * 2);
    assert_eq!(single.try_recv(&mut queue), Err(TryRecvError::Empty));
    for i in 1..4 {
        sender.try_send(&mut queue, i).unwrap();
    }
    assert_eq!(single.try_recv(&mut queue), Ok(2));
    assert_eq!(single.recv(&mut queue), Blocking::Done(Ok(3)));
    assert_eq!(single.poll(&mut queue), Blocking::Done(Some(4)));
    assert_eq!(double.poll(&mut queue), Blocking::Done(Some(2)));
    assert_eq!(double.recv_again(&mut queue), Blocking::Done(Ok(4)));
    assert_eq!(double.poll_again(&mut queue), Blocking::Done(Some(6)));
    sender.unsubscribe(&mut queue);
    assert_eq!(single.recv(&mut queue), Blocking::Done(Err(RecvError)));
    assert_eq!(single.poll(&mut queue), Blocking::Done(None));
    assert!(single.unsubscribe(&mut queue));
    assert!(double.unsubscribe(&mut queue));
}

#[test]
fn another_function_goes_on_where_the_first_stood() {
    let (mut queue, mut sender, receiver) = futures_multiqueue::<BCast<usize>, usize>(4);
    for i in 1..4 {
        sender.try_send(&mut queue, i).unwrap();
    }
    let mut single = match receiver.into_single(&mut queue, |x: &usize| *x) {
        Ok(single) => single,
        Err(_) => panic!("there is one receiver"),
    };
    assert_eq!(single.try_recv(&mut queue), Ok(1));
    let mut other = single.transform_operation(|x: &usize| *x * 100);
    assert_eq!(other.try_recv(&mut queue), Ok(200));
    assert_eq!(other.try_recv(&mut queue), Ok(300));
    assert_eq!(other.try_recv(&mut queue), Err(TryRecvError::Empty));
    let mut second = sender.clone(&mut queue);
    second.try_send(&mut queue, 4).unwrap();
    assert_eq!(other.try_recv(&mut queue), Ok(400));
}

#[test]
fn tasks_can_share_one_stream() {
    let (mut queue, mut sender, receiver) = mpmc_fut_queue::<usize>(2);
    let mut single = match receiver.into_single(&mut queue, |x: &usize| *x + 1) {
        Ok(single) => single,
        Err(_) => panic!("there is one receiver"),
    };
    let mut other = sender.clone(&mut queue);
    sender.try_send(&mut queue, 1).unwrap();
    other.try_send(&mut queue, 2).unwrap();
    assert_eq!(single.poll(&mut queue), Blocking::Done(Some(2)));
    assert_eq!(single.poll_again(&mut queue), Blocking::Done(Some(3)));
    sender.unsubscribe(&mut queue);
    assert!(matches!(single.poll(&mut queue), Blocking::Wait(_)));
    other.unsubscribe(&mut queue);
    assert_eq!(single.poll(&mut queue), Blocking::Done(None));
}
