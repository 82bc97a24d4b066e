use std::sync::atomic::{AtomicUsize, Ordering};
use std::sync::Arc;

use multiqueue::errors::{RecvError, TryRecvError, TrySendError};
use multiqueue::multicast_queue;
use multiqueue::wait::Blocking;

#[test]
fn multicast_build_queue() {
    let _ = multicast_queue::<usize>(10);
}

#[test]
fn multicast_push_pop_test() {
    let (mut queue, mut writer, reader) = multicast_queue::<usize>(1);
    for _ in 0..100 {
        assert!(reader.try_recv(&mut queue).is_err());
        writer.try_send(&mut queue, 1 as usize).expect("Push should succeed");
        assert!(writer.try_send(&mut queue, 1).is_err());
        assert_eq!(1, reader.try_recv(&mut queue).unwrap());
    }
}

#[test]
fn multicast_test_baddrop() {
    // This ensures that a bogus arc isn't dropped from the queue
    let (mut queue, mut writer, reader) = multicast_queue::<Arc<i32>>(1);
    for _ in 0..10 {
        writer.try_send(&mut queue, Arc::new(10)).unwrap();
        reader.recv(&mut queue).done().unwrap().unwrap();
    }
}

#[derive(Debug)]
struct Dropper<'a> {
    aref: &'a AtomicUsize,
}

impl<'a> Dropper<'a> {
    pub fn new(a: &AtomicUsize) -> Dropper<'_> {
        a.fetch_add(1, Ordering::Relaxed);
        Dropper { aref: a }
    }
}

impl<'a> Drop for Dropper<'a> {
    fn drop(&mut self) {
        self.aref.fetch_sub(1, Ordering::Relaxed);
    }
}

impl<'a> Clone for Dropper<'a> {
    fn clone(&self) -> Dropper<'a> {
        self.aref.fetch_add(1, Ordering::Relaxed);
        Dropper { aref: self.aref }
    }
}

#[test]
fn multicast_test_gooddrop() {
    // This counts the # of drops and creations
    let count = AtomicUsize::new(0);
    {
        let (mut queue, mut writer, reader) = multicast_queue::<Dropper>(1);
        for _ in 0..10 {
            writer.try_send(&mut queue, Dropper::new(&count)).unwrap();
            reader.recv(&mut queue).done().unwrap().unwrap();
        }
    }
    assert_eq!(count.load(Ordering::Relaxed), 0);
}

#[test]
fn multicast_test_iterator_comp() {
    let (mut queue, writer, reader) = multicast_queue::<usize>(10);
    writer.unsubscribe(&mut queue);
    let mut iter = reader.into_iter();
    while let Some(_) = iter.next(&mut queue).done().unwrap() {}
}

#[test]
fn multicast_test_single_leave_multi() {
    let (mut queue, mut writer, reader) = multicast_queue::<usize>(10);
    let reader2 = reader.clone(&mut queue);
    writer.try_send(&mut queue, 1).unwrap();
    writer.try_send(&mut queue, 1).unwrap();
    assert_eq!(reader2.recv(&mut queue).done().unwrap().unwrap(), 1);
    reader2.unsubscribe(&mut queue);
    let reader_s = match reader.into_single(&mut queue) {
        Ok(single) => single,
        Err(_) => panic!("the other receiver has left"),
    };
    assert!(reader_s.recv_view(&mut queue, |x| *x).is_ok());
}

#[test]
fn multicast_test_remove_reader() {
    let (mut queue, mut writer, reader) = multicast_queue::<usize>(1);
    assert!(writer.try_send(&mut queue, 1).is_ok());
    let reader_2 = reader.add_stream(&mut queue);
    assert!(writer.try_send(&mut queue, 1).is_err());
    assert_eq!(1, reader.try_recv(&mut queue).unwrap());
    assert!(reader.try_recv(&mut queue).is_err());
    assert_eq!(1, reader_2.try_recv(&mut queue).unwrap());
    assert!(reader_2.try_recv(&mut queue).is_err());
    assert!(writer.try_send(&mut queue, 1).is_ok());
    assert!(writer.try_send(&mut queue, 1).is_err());
    assert_eq!(1, reader.try_recv(&mut queue).unwrap());
    assert!(reader.try_recv(&mut queue).is_err());
    reader_2.unsubscribe(&mut queue);
    assert!(writer.try_send(&mut queue, 2).is_ok());
    assert_eq!(2, reader.try_recv(&mut queue).unwrap());
}

#[test]
fn every_stream_receives_every_value() {
    let (mut queue, mut writer, reader) = multicast_queue::<usize>(4);
    let other = reader.add_stream(&mut queue);
    for i in 0..4 {
        writer.try_send(&mut queue, i).unwrap();
    }
    assert_eq!(writer.try_send(&mut queue, 4), Err(TrySendError::Full(4)));
    for i in 0..4 {
        assert_eq!(reader.try_recv(&mut queue), Ok(i));
    }
    // The other stream has not moved, and keeps the queue full.
    assert_eq!(writer.try_send(&mut queue, 4), Err(TrySendError::Full(4)));
    for i in 0..4 {
        assert_eq!(other.try_recv(&mut queue), Ok(i));
    }
    assert_eq!(writer.try_send(&mut queue, 4), Ok(()));
    assert_eq!(other.try_recv(&mut queue), Ok(4));
    assert_eq!(other.try_recv(&mut queue), Err(TryRecvError::Empty));
}

#[test]
fn a_new_stream_starts_where_its_origin_stands() {
    let (mut queue, mut w, r) = multicast_queue::<usize>(10);
    w.try_send(&mut queue, 1).unwrap();
    assert_eq!(r.recv(&mut queue).done(), Some(Ok(1)));
    w.try_send(&mut queue, 1).unwrap();
    let r2 = r.add_stream(&mut queue);
    assert_eq!(r.recv(&mut queue).done(), Some(Ok(1)));
    assert_eq!(r2.recv(&mut queue).done(), Some(Ok(1)));
    assert!(r.try_recv(&mut queue).is_err());
    assert!(r2.try_recv(&mut queue).is_err());
}

#[test]
fn the_last_consumer_takes_its_stream_along() {
    let (mut queue, mut writer, reader) = multicast_queue::<usize>(1);
    let reader_2_1 = reader.add_stream(&mut queue);
    let reader_2_2 = reader_2_1.clone(&mut queue);
    writer.try_send(&mut queue, 1).expect("This will succeed since queue is empty");
    reader.try_recv(&mut queue).expect("This reader can read");
    assert!(
        writer.try_send(&mut queue, 1).is_err(),
        "This fails since the reader2 group hasn't advanced"
    );
    assert!(
        !reader_2_2.unsubscribe(&mut queue),
        "This returns false since reader_2_1 is still alive"
    );
    assert!(
        reader_2_1.unsubscribe(&mut queue),
        "This returns true since there are no readers alive in the reader_2_x group"
    );
    writer.try_send(&mut queue, 1).expect("This succeeds since the reader_2 group is not blocking");
}

#[test]
fn consumers_of_a_stream_share_its_values() {
    let (mut queue, mut writer, reader) = multicast_queue::<usize>(4);
    let second = reader.clone(&mut queue);
    let apart = reader.add_stream(&mut queue);
    for i in 0..3 {
        writer.try_send(&mut queue, i).unwrap();
    }
    assert_eq!(reader.try_recv(&mut queue), Ok(0));
    assert_eq!(second.try_recv(&mut queue), Ok(1));
    assert_eq!(reader.try_recv(&mut queue), Ok(2));
    assert_eq!(second.try_recv(&mut queue), Err(TryRecvError::Empty));
    for i in 0..3 {
        assert_eq!(apart.try_recv(&mut queue), Ok(i));
    }
}

#[test]
fn only_an_only_consumer_looks_at_values_in_place() {
    let (mut queue, mut w, r) = multicast_queue::<usize>(10);
    w.try_send(&mut queue, 1).unwrap();
    let r2 = r.clone(&mut queue);
    // Fails since there's two receivers on the stream
    let r2 = match r2.into_single(&mut queue) {
        Ok(_) => panic!("there are two receivers"),
        Err(receiver) => receiver,
    };
    r2.unsubscribe(&mut queue);
    let single_r = match r.into_single(&mut queue) {
        Ok(single) => single,
        Err(_) => panic!("there is one receiver"),
    };
    let val = match single_r.try_recv_view(&mut queue, |x| 2 * *x) {
        Ok(val) => val,
        Err(_) => panic!("Queue should have an element"),
    };
    assert_eq!(2, val);
}

#[test]
fn views_move_the_stream_on() {
    let (mut queue, mut w, r) = multicast_queue::<usize>(10);
    let single_r = match r.into_single(&mut queue) {
        Ok(single) => single,
        Err(_) => panic!("there is one receiver"),
    };
    for i in 0..5 {
        w.try_send(&mut queue, i).unwrap();
    }
    for i in 0..5 {
        let val = match single_r.recv_view(&mut queue, |x| 1 + *x) {
            Ok(val) => val,
            Err(_) => panic!("Queue shouldn't be disconncted or empty"),
        };
        assert_eq!(i + 1, val);
    }
    match single_r.recv_view(&mut queue, |x| *x) {
        Err((_, Blocking::Wait(on))) => assert_eq!((on.seq, on.slot), (5, 5)),
        _ => panic!("there is nothing to look at yet"),
    }
    match single_r.try_recv_view(&mut queue, |x| *x) {
        Err((_, why)) => assert_eq!(why, TryRecvError::Empty),
        Ok(_) => panic!("there is nothing to look at yet"),
    }
    w.unsubscribe(&mut queue);
    match single_r.recv_view(&mut queue, |x| *x) {
        Err((_, Blocking::Done(why))) => assert_eq!(why, RecvError),
        _ => panic!("nobody is left to send"),
    }
    match single_r.try_recv_view(&mut queue, |x| *x) {
        Err((_, why)) => assert_eq!(why, TryRecvError::Disconnected),
        Ok(_) => panic!("nobody is left to send"),
    }
    single_r.unsubscribe(&mut queue);
}

#[test]
fn iterators_with_a_function_give_what_it_makes_of_each_value() {
    let (mut queue, mut w, r) = multicast_queue::<usize>(10);
    for i in 0..5 {
        w.try_send(&mut queue, i).unwrap();
    }
    let single = match r.into_single(&mut queue) {
        Ok(single) => single,
        Err(_) => panic!("there is one receiver"),
    };
    {
        let mut part = single.partial_iter_with(|x: &usize| *x * 10);
        assert_eq!(part.next(&mut queue), Some(0));
        assert_eq!(part.next(&mut queue), Some(10));
    }
    let mut iter = single.iter_with(|x: &usize| *x + 1);
    for i in 2..5 {
        assert_eq!(iter.next(&mut queue).done(), Some(Some(i + 1)));
    }
    assert!(matches!(iter.next(&mut queue), Blocking::Wait(_)));
    assert!(matches!(iter.next_again(&mut queue), Blocking::Wait(_)));
    w.unsubscribe(&mut queue);
    assert_eq!(iter.next(&mut queue).done(), Some(None));
}

#[test]
fn partial_iterators_end_when_nothing_is_there() {
    let (mut queue, mut w, r) = multicast_queue::<usize>(2);
    for _ in 0..3 {
        w.try_send(&mut queue, 1).unwrap();
        w.try_send(&mut queue, 2).unwrap();
        let mut iter = r.partial_iter();
        assert_eq!(iter.next(&mut queue), Some(1));
        assert_eq!(iter.next(&mut queue), Some(2));
        assert_eq!(iter.next(&mut queue), None);
    }
    let single = match r.into_single(&mut queue) {
        Ok(single) => single,
        Err(_) => panic!("there is one receiver"),
    };
    let mut part = single.partial_iter_with(|x: &usize| *x);
    assert_eq!(part.next(&mut queue), None);
}

#[test]
fn senders_are_told_when_no_stream_is_left() {
    let (mut queue, mut writer, reader) = multicast_queue::<usize>(2);
    let other = reader.add_stream(&mut queue);
    assert!(reader.unsubscribe(&mut queue));
    assert_eq!(writer.try_send(&mut queue, 1), Ok(()));
    assert!(other.unsubscribe(&mut queue));
    assert_eq!(writer.try_send(&mut queue, 2), Err(TrySendError::Disconnected(2)));
    writer.unsubscribe(&mut queue);
}

#[test]
fn streams_come_and_go_many_times() {
    let (mut queue, mut writer, reader) = multicast_queue::<usize>(8);
    for round in 0..200 {
        let other = reader.add_stream(&mut queue);
        writer.try_send(&mut queue, round).unwrap();
        assert_eq!(other.try_recv(&mut queue), Ok(round));
        assert_eq!(reader.try_recv(&mut queue), Ok(round));
        assert!(other.unsubscribe(&mut queue));
    }
}
