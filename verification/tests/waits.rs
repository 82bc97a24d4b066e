use std::sync::atomic::{fence, AtomicUsize, Ordering};
use std::sync::{Condvar, Mutex};

use crossbeam::scope;

use multiqueue::countedindex::{INITIAL_QUEUE_FLAG, MASK_IND};
use multiqueue::errors::RecvError;
use multiqueue::multiqueue::{multiqueue_with, BCast, MultiQueue};
use multiqueue::receiver::SingleReceiver;
use multiqueue::sender::Sender;
use multiqueue::wait::{check, load_tagless, Blocking, BlockingWait, BusyWait, Stage, Wait, YieldingWait};
use multiqueue::wait::{DEFAULT_TRY_SPINS, DEFAULT_YIELD_SPINS};

type Item = (usize, usize);
type Queue = MultiQueue<BCast<Item>, Item>;

/// A queue that threads share, and where receivers sleep.
struct Shared {
    queue: Mutex<Queue>,
    bell: Condvar,
}

impl Shared {
    fn try_send(&self, writer: &mut Sender<BCast<Item>, Item>, val: Item) -> bool {
        let mut queue = self.queue.lock().unwrap();
        let sent = writer.try_send(&mut queue, val).is_ok();
        if queue.take_wake() {
            self.bell.notify_all();
        }
        sent
    }

    fn leave(&self, writer: Sender<BCast<Item>, Item>) {
        let mut queue = self.queue.lock().unwrap();
        writer.unsubscribe(&mut queue);
        if queue.take_wake() {
            self.bell.notify_all();
        }
    }

    fn recv<W: Wait>(&self, reader: &SingleReceiver<BCast<Item>, Item>, waiter: &W) -> Result<Item, RecvError> {
        let mut res = reader.recv(&mut self.queue.lock().unwrap());
        loop {
            let on = match res {
                Blocking::Done(done) => return done,
                Blocking::Wait(on) => on,
            };
            let mut stage = waiter.start();
            loop {
                let mut queue = self.queue.lock().unwrap();
                if stage == Stage::Block && !queue.wait_ready(&on) {
                    queue = self.bell.wait(queue).unwrap();
                }
                match queue.wait_step(waiter, &on, stage) {
                    Some(next) => stage = next,
                    None => break,
                }
                drop(queue);
                if let Stage::Yield(_) = stage {
                    std::hint::spin_loop();
                }
            }
            res = reader.recv_again(&mut self.queue.lock().unwrap());
        }
    }
}

fn waste_some_us(n_us: usize, to: &AtomicUsize) {
    for _ in 0..20 * n_us {
        to.store(0, Ordering::Relaxed);
        fence(Ordering::SeqCst);
    }
}

fn mpsc_broadcast<W: Wait + Clone + Send + Sync>(senders: usize, receivers: usize, waiter: W) {
    let (queue, mut writer, reader) = multiqueue_with::<Item, W>(4, &waiter);
    let shared = Shared { queue: Mutex::new(queue), bell: Condvar::new() };
    let sref = &shared;
    let wref = &waiter;
    let num_loop = 1000;
    scope(|scope| {
        for q in 0..senders {
            let mut cur_writer = writer.clone(&mut sref.queue.lock().unwrap());
            scope.spawn(move || {
                let v = AtomicUsize::new(0);
                'outer: for i in 0..num_loop {
                    for _ in 0..100000000 {
                        if sref.try_send(&mut cur_writer, (q, i)) {
                            waste_some_us(1, &v); // makes sure readers block
                            continue 'outer;
                        }
                        std::hint::spin_loop();
                    }
                    assert!(false, "Writer could not write");
                }
                sref.leave(cur_writer);
            });
        }
        sref.leave(writer);
        for _ in 0..receivers {
            let this_reader = {
                let mut queue = sref.queue.lock().unwrap();
                let stream = reader.add_stream(&mut queue);
                match stream.into_single(&mut queue) {
                    Ok(single) => single,
                    Err(_) => panic!("a new stream has one consumer"),
                }
            };
            scope.spawn(move || {
                let mut myv = Vec::new();
                for _ in 0..senders {
                    myv.push(0);
                }
                for _ in 0..num_loop * senders {
                    if let Ok(val) = sref.recv(&this_reader, wref) {
                        assert_eq!(myv[val.0], val.1);
                        myv[val.0] += 1;
                    } else {
                        panic!("Writer got disconnected early");
                    }
                }
                for val in myv {
                    if val != num_loop {
                        panic!("Wrong number of values obtained for this");
                    }
                }
                assert!(this_reader.try_recv(&mut sref.queue.lock().unwrap()).is_err());
            });
        }
        reader.unsubscribe(&mut sref.queue.lock().unwrap());
    });
}

fn test_waiter<T: Wait + Clone + Send + Sync>(waiter: T) {
    mpsc_broadcast(2, 2, waiter.clone());
}

#[test]
fn test_busywait() {
    test_waiter(BusyWait::new());
}

#[test]
fn test_yieldwait() {
    test_waiter(YieldingWait::new());
}

#[test]
fn test_blockingwait() {
    test_waiter(BlockingWait::new());
}

#[test]
fn test_blockingwait_nospin() {
    test_waiter(BlockingWait::with_spins(0, 0));
}

fn stages<W: Wait>(waiter: &W, count: usize) -> Vec<Stage> {
    let mut res = vec![waiter.start()];
    while res.len() < count {
        let last = res[res.len() - 1];
        res.push(waiter.wait(last));
    }
    res
}

#[test]
fn a_busy_wait_never_pauses() {
    let waiter = BusyWait::new();
    assert_eq!(stages(&waiter, 3), vec![Stage::Spin(0), Stage::Spin(0), Stage::Spin(0)]);
    assert!(!waiter.needs_notify());
    assert!(!waiter.notify());
}

#[test]
fn a_yielding_wait_pauses_from_time_to_time() {
    let waiter = YieldingWait::with_spins(2, 3);
    let expected = vec![
        Stage::Spin(0),
        Stage::Spin(1),
        Stage::Yield(0),
        Stage::Batch(1),
        Stage::Batch(2),
        Stage::Yield(0),
        Stage::Batch(1),
    ];
    assert_eq!(stages(&waiter, 7), expected);
    assert_eq!(stages(&YieldingWait::with_spins(0, 1), 3), vec![Stage::Yield(0); 3]);
    assert_eq!(stages(&YieldingWait::with_spins(1, 0), 3), vec![Stage::Spin(0), Stage::Yield(0), Stage::Yield(0)]);
    assert_eq!(stages(&YieldingWait::with_spins(0, 0), 3), vec![Stage::Yield(0); 3]);
    assert!(!waiter.needs_notify());
    assert_eq!(YieldingWait::new(), YieldingWait::with_spins(DEFAULT_TRY_SPINS, DEFAULT_YIELD_SPINS));
}

#[test]
fn a_blocking_wait_sleeps_in_the_end() {
    let waiter = BlockingWait::with_spins(1, 2);
    let expected = vec![
        Stage::Spin(0),
        Stage::Yield(0),
        Stage::Yield(1),
        Stage::Lock,
        Stage::Block,
        Stage::Lock,
        Stage::Block,
    ];
    assert_eq!(stages(&waiter, 7), expected);
    assert!(waiter.needs_notify());
    assert!(waiter.notify());
    assert_eq!(BlockingWait::new(), BlockingWait::with_spins(1000, 50));
}

#[test]
fn a_look_tells_whether_to_wait() {
    assert!(check(5, 5, 1));
    assert!(!check(5, 4, 1));
    assert!(check(5, 4, 0));
    assert!(check(5, 6, 1));
    // A slot that was never filled, and counts of which one has begun a new lap.
    assert!(!check(0, INITIAL_QUEUE_FLAG, 1));
    assert!(!check(3, INITIAL_QUEUE_FLAG, 1));
    assert!(check(0, INITIAL_QUEUE_FLAG, 0));
    assert!(!check(1, MASK_IND - 1, 1));
    assert!(check(MASK_IND - 1, 1, 1));
    assert_eq!(load_tagless(usize::MAX), usize::MAX / 2);
}

#[test]
fn a_receiver_stops_waiting_when_its_value_is_there() {
    let (mut queue, mut writer, reader) = multiqueue_with::<usize, BlockingWait>(2, &BlockingWait::new());
    for i in 0..2 {
        writer.try_send(&mut queue, i).unwrap();
        reader.try_recv(&mut queue).unwrap();
    }
    assert!(queue.take_wake());
    assert!(!queue.take_wake());
    let on = match reader.recv(&mut queue) {
        Blocking::Wait(on) => on,
        Blocking::Done(_) => panic!("there is nothing to receive"),
    };
    assert_eq!((on.seq, on.slot), (2, 0));
    assert!(!queue.wait_ready(&on));
    writer.try_send(&mut queue, 2).unwrap();
    assert!(queue.take_wake());
    assert!(queue.wait_ready(&on));
    assert_eq!(reader.recv_again(&mut queue).done(), Some(Ok(2)));
    let on = match reader.recv(&mut queue) {
        Blocking::Wait(on) => on,
        Blocking::Done(_) => panic!("there is nothing to receive"),
    };
    assert!(!queue.wait_ready(&on));
    writer.unsubscribe(&mut queue);
    assert!(queue.take_wake());
    assert!(queue.wait_ready(&on));
    assert_eq!(reader.recv_again(&mut queue).done(), Some(Err(RecvError)));
}

#[test]
fn receivers_that_do_not_sleep_are_not_called() {
    let (mut queue, mut writer, _reader) = multiqueue_with::<usize, BusyWait>(2, &BusyWait::new());
    writer.try_send(&mut queue, 1).unwrap();
    assert!(!queue.take_wake());
    writer.unsubscribe(&mut queue);
    assert!(queue.take_wake());
}

#[test]
fn a_wait_ends_with_the_first_look_when_the_value_is_there() {
    for waiter in [YieldingWait::with_spins(0, 0), YieldingWait::with_spins(2, 0), YieldingWait::new()] {
        let (mut queue, mut writer, reader) = multiqueue_with::<usize, YieldingWait>(1, &waiter);
        for i in 0..5 {
            writer.try_send(&mut queue, i).unwrap();
            assert_eq!(reader.recv(&mut queue).done(), Some(Ok(i)));
        }
        let on = match reader.recv(&mut queue) {
            Blocking::Wait(on) => on,
            Blocking::Done(_) => panic!("there is nothing to receive"),
        };
        assert_eq!(on.seq, 5);
        assert!(queue.wait_step(&waiter, &on, waiter.start()).is_some());
        writer.try_send(&mut queue, 5).unwrap();
        assert!(queue.wait_step(&waiter, &on, waiter.start()).is_none());
        assert_eq!(reader.recv_again(&mut queue).done(), Some(Ok(5)));
    }
}

#[test]
fn a_wait_that_is_out_of_date_ends() {
    let waiter = BlockingWait::new();
    let (mut queue, mut writer, reader) = multiqueue_with::<usize, BlockingWait>(2, &waiter);
    let other = reader.clone(&mut queue);
    for i in 0..2 {
        writer.try_send(&mut queue, i).unwrap();
        reader.try_recv(&mut queue).unwrap();
    }
    let on = match reader.recv(&mut queue) {
        Blocking::Wait(on) => on,
        Blocking::Done(_) => panic!("there is nothing to receive"),
    };
    assert!(!queue.wait_ready(&on));
    // The other consumer gets the awaited value, and then some that fill the place again.
    for i in 2..9 {
        writer.try_send(&mut queue, i).unwrap();
        assert_eq!(other.try_recv(&mut queue), Ok(i));
        assert!(queue.wait_ready(&on));
        assert!(queue.wait_step(&waiter, &on, waiter.start()).is_none());
    }
}

#[test]
fn queues_answer_alike_whatever_the_strategy() {
    let (mut a, mut wa, ra) = multiqueue_with::<usize, BusyWait>(3, &BusyWait::new());
    let (mut b, mut wb, rb) = multiqueue_with::<usize, BlockingWait>(3, &BlockingWait::new());
    assert_eq!(a.capacity(), 4);
    assert_eq!(b.capacity(), 4);
    for i in 0..20 {
        for k in 0..i % 6 {
            assert_eq!(wa.try_send(&mut a, i + k), wb.try_send(&mut b, i + k));
        }
        for _ in 0..i % 4 {
            assert_eq!(ra.try_recv(&mut a), rb.try_recv(&mut b));
        }
    }
    wa.unsubscribe(&mut a);
    wb.unsubscribe(&mut b);
    for _ in 0..6 {
        assert_eq!(ra.try_recv(&mut a), rb.try_recv(&mut b));
    }
}

#[test]
fn a_receiver_waits_for_a_place_that_was_never_filled() {
    let waiter = BlockingWait::with_spins(1, 1);
    let (mut queue, mut writer, reader) = multiqueue_with::<usize, BlockingWait>(2, &waiter);
    for i in 0..5 {
        let on = match reader.recv(&mut queue) {
            Blocking::Wait(on) => on,
            Blocking::Done(_) => panic!("there is nothing to receive"),
        };
        assert_eq!((on.seq, on.slot), (i, i % 2));
        assert!(!queue.wait_ready(&on));
        // The receiver spins, then yields, and then sleeps.
        let mut stage = waiter.start();
        for expected in [Stage::Yield(0), Stage::Lock, Stage::Block] {
            stage = queue.wait_step(&waiter, &on, stage).unwrap();
            assert_eq!(stage, expected);
        }
        assert!(reader.recv_again(&mut queue).done().is_none());
        writer.try_send(&mut queue, i).unwrap();
        assert!(queue.take_wake());
        assert!(queue.wait_ready(&on));
        assert!(queue.wait_step(&waiter, &on, stage).is_none());
        assert_eq!(reader.recv_again(&mut queue).done(), Some(Ok(i)));
    }
}

#[test]
fn all_receives_return_in_any_interleaving() {
    let count = 50;
    for seed in 0..40u64 {
        let (mut queue, writer, reader) = multiqueue_with::<Item, BlockingWait>(4, &BlockingWait::new());
        let streams = [reader.add_stream(&mut queue), reader];
        let mut writers = vec![Some(writer)];
        let second = writers[0].as_mut().unwrap().clone(&mut queue);
        writers.push(Some(second));
        let mut next = [0, 0];
        let mut got = [Vec::new(), Vec::new()];
        let mut ended = [false, false];
        let mut state = seed;
        while !(ended[0] && ended[1]) {
            state = state.wrapping_mul(6364136223846793005).wrapping_add(1442695040888963407);
            let who = (state >> 33) as usize % 4;
            if who < 2 {
                if next[who] == count {
                    if let Some(writer) = writers[who].take() {
                        writer.unsubscribe(&mut queue);
                    }
                } else if writers[who].as_mut().unwrap().try_send(&mut queue, (who, next[who])).is_ok() {
                    next[who] += 1;
                }
            } else {
                match streams[who - 2].recv(&mut queue) {
                    Blocking::Done(Ok(val)) => got[who - 2].push(val),
                    Blocking::Done(Err(RecvError)) => ended[who - 2] = true,
                    Blocking::Wait(on) => assert!(!queue.wait_ready(&on)),
                }
            }
        }
        assert_eq!(got[0], got[1]);
        for q in 0..2 {
            let mine: Vec<usize> = got[0].iter().filter(|v| v.0 == q).map(|v| v.1).collect();
            assert_eq!(mine, (0..count).collect::<Vec<usize>>());
        }
        for stream in &streams {
            assert_eq!(stream.recv(&mut queue), Blocking::Done(Err(RecvError)));
        }
    }
}
