use std::hint::spin_loop;
use std::sync::{Barrier, Condvar, Mutex};
use std::time::Duration;

use crossbeam::scope;

use multiqueue::multiqueue::{BCast, MultiQueue};

/// Lets others go on: at first by spinning, after many tries in vain by a short sleep.
fn pause(tries: usize) {
    if tries % 1000 == 999 {
        let lock = Mutex::new(());
        let bell = Condvar::new();
        let _ = bell.wait_timeout(lock.lock().unwrap(), Duration::from_micros(50)).unwrap();
    } else {
        spin_loop();
    }
}

fn mpsc_broadcast(senders: usize, receivers: usize) {
    let (queue, mut writer, reader) = MultiQueue::<BCast<(usize, usize)>, (usize, usize)>::new(4);
    let shared = Mutex::new(queue);
    let sref = &shared;
    let myb = Barrier::new(receivers + senders);
    let bref = &myb;
    let num_loop = 100000;
    scope(|scope| {
        for q in 0..senders {
            let mut cur_writer = writer.clone(&mut sref.lock().unwrap());
            scope.spawn(move || {
                bref.wait();
                'outer: for i in 0..num_loop {
                    for tries in 0..100000000 {
                        if cur_writer.try_send(&mut sref.lock().unwrap(), (q, i)).is_ok() {
                            continue 'outer;
                        }
                        pause(tries);
                    }
                    assert!(false, "Writer could not write");
                }
                cur_writer.unsubscribe(&mut sref.lock().unwrap());
            });
        }
        writer.unsubscribe(&mut sref.lock().unwrap());
        for _ in 0..receivers {
            let this_reader = {
                let mut queue = sref.lock().unwrap();
                let stream = reader.add_stream(&mut queue);
                match stream.into_single(&mut queue) {
                    Ok(single) => single,
                    Err(_) => panic!("a new stream has one consumer"),
                }
            };
            scope.spawn(move || {
                let mut myv = Vec::new();
                for _ in 0..senders {
                    myv.push(0);
                }
                bref.wait();
                for _ in 0..num_loop * senders {
                    let mut tries = 0;
                    loop {
                        let seen = this_reader.try_recv_view(&mut sref.lock().unwrap(), |x| *x);
                        if let Ok(val) = seen {
                            assert_eq!(myv[val.0], val.1);
                            myv[val.0] += 1;
                            break;
                        }
                        pause(tries);
                        tries += 1;
                    }
                }
                for val in myv {
                    if val != num_loop {
                        panic!("Wrong number of values obtained for this");
                    }
                }
                assert!(this_reader.try_recv(&mut sref.lock().unwrap()).is_err());
            });
        }
        reader.unsubscribe(&mut sref.lock().unwrap());
    });
}

#[test]
fn multiqueue_test_spsc_this() {
    mpsc_broadcast(1, 1);
}

#[test]
fn multiqueue_test_spsc_broadcast() {
    mpsc_broadcast(1, 3);
}

#[test]
fn multiqueue_test_mpsc_single() {
    mpsc_broadcast(2, 1);
}

#[test]
fn multiqueue_test_mpsc_broadcast() {
    mpsc_broadcast(2, 3);
}
