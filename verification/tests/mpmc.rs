use std::sync::atomic::{AtomicUsize, Ordering};
use std::sync::Arc;

use multiqueue::errors::{RecvError, TryRecvError, TrySendError};
use multiqueue::mpmc_queue;
use multiqueue::wait::Blocking;

#[test]
fn mpmc_build_queue() {
    let _ = mpmc_queue::<usize>(10);
}

#[test]
fn mpmc_push_pop_test() {
    let (mut queue, mut writer, reader) = mpmc_queue::<usize>(1);
    for _ in 0..100 {
        assert!(reader.try_recv(&mut queue).is_err());
        writer.try_send(&mut queue, 1 as usize).expect("Push should succeed");
        assert!(writer.try_send(&mut queue, 1).is_err());
        assert_eq!(1, reader.try_recv(&mut queue).unwrap());
    }
}

#[test]
fn mpmc_test_baddrop() {
    // This ensures that a bogus arc isn't dropped from the queue
    let (mut queue, mut writer, reader) = mpmc_queue::<Arc<i32>>(1);
    for _ in 0..10 {
        writer.try_send(&mut queue, Arc::new(10)).unwrap();
        reader.recv(&mut queue).done().unwrap().unwrap();
    }
}

#[derive(Debug)]
struct Dropper<'a> {
    aref: &'a AtomicUsize,
}

impl<'a> Dropper<'a> {
    pub fn new(a: &AtomicUsize) -> Dropper<'_> {
        a.fetch_add(1, Ordering::Relaxed);
        Dropper { aref: a }
    }
}

impl<'a> Drop for Dropper<'a> {
    fn drop(&mut self) {
        self.aref.fetch_sub(1, Ordering::Relaxed);
    }
}

impl<'a> Clone for Dropper<'a> {
    fn clone(&self) -> Dropper<'a> {
        self.aref.fetch_add(1, Ordering::Relaxed);
        Dropper { aref: self.aref }
    }
}

#[test]
fn mpmc_test_gooddrop() {
    // This counts the # of drops and creations
    let count = AtomicUsize::new(0);
    {
        let (mut queue, mut writer, reader) = mpmc_queue::<Dropper>(1);
        for _ in 0..10 {
            writer.try_send(&mut queue, Dropper::new(&count)).unwrap();
            reader.recv(&mut queue).done().unwrap().unwrap();
        }
    }
    assert_eq!(count.load(Ordering::Relaxed), 0);
}

#[test]
fn mpmc_test_iterator_comp() {
    let (mut queue, writer, reader) = mpmc_queue::<usize>(10);
    writer.unsubscribe(&mut queue);
    let mut iter = reader.into_iter();
    while let Some(_) = iter.next(&mut queue).done().unwrap() {}
}

#[test]
fn mpmc_test_single_leave_multi() {
    let (mut queue, mut writer, reader) = mpmc_queue::<usize>(10);
    let reader2 = reader.clone(&mut queue);
    writer.try_send(&mut queue, 1).unwrap();
    writer.try_send(&mut queue, 1).unwrap();
    assert_eq!(reader2.recv(&mut queue).done().unwrap().unwrap(), 1);
    reader2.unsubscribe(&mut queue);
    let reader_s = match reader.into_single(&mut queue) {
        Ok(single) => single,
        Err(_) => panic!("the other receiver has left"),
    };
    assert!(reader_s.recv_view(&mut queue, |x| *x).is_ok());
}

/// Something that cannot be cloned.
#[derive(Debug, PartialEq)]
struct Unique(usize);

#[test]
fn values_need_not_be_cloned() {
    let (mut queue, mut writer, reader) = mpmc_queue::<Unique>(2);
    writer.try_send(&mut queue, Unique(1)).unwrap();
    writer.try_send(&mut queue, Unique(2)).unwrap();
    assert_eq!(writer.try_send(&mut queue, Unique(3)), Err(TrySendError::Full(Unique(3))));
    assert_eq!(reader.try_recv(&mut queue), Ok(Unique(1)));
    assert_eq!(reader.recv(&mut queue), Blocking::Done(Ok(Unique(2))));
    assert_eq!(reader.try_recv(&mut queue), Err(TryRecvError::Empty));
}

#[test]
fn each_value_goes_to_one_consumer() {
    let (mut queue, mut writer, reader) = mpmc_queue::<usize>(10);
    let second = reader.clone(&mut queue);
    let mut seen = vec![];
    for i in 0..10 {
        writer.try_send(&mut queue, i).unwrap();
    }
    for _ in 0..5 {
        seen.push(second.try_recv(&mut queue).unwrap());
        seen.push(reader.try_recv(&mut queue).unwrap());
    }
    assert_eq!(seen, (0..10).collect::<Vec<usize>>());
    assert!(reader.try_recv(&mut queue).is_err());
    assert!(second.try_recv(&mut queue).is_err());
}

#[test]
fn what_was_sent_is_received_after_the_senders_left() {
    let (mut queue, mut writer, reader) = mpmc_queue::<usize>(4);
    let mut other = writer.clone(&mut queue);
    writer.try_send(&mut queue, 1).unwrap();
    other.try_send(&mut queue, 2).unwrap();
    writer.unsubscribe(&mut queue);
    assert_eq!(reader.try_recv(&mut queue), Ok(1));
    other.unsubscribe(&mut queue);
    assert_eq!(reader.try_recv(&mut queue), Ok(2));
    assert_eq!(reader.try_recv(&mut queue), Err(TryRecvError::Disconnected));
    assert_eq!(reader.recv(&mut queue), Blocking::Done(Err(RecvError)));
}

#[test]
fn a_queue_without_receivers_takes_nothing() {
    let (mut queue, mut writer, reader) = mpmc_queue::<usize>(2);
    writer.try_send(&mut queue, 1).expect("This will succeed since queue is empty");
    reader.try_recv(&mut queue).expect("This reader can read");
    reader.unsubscribe(&mut queue);
    // Fails since there's no readers left
    assert_eq!(writer.try_send(&mut queue, 1), Err(TrySendError::Disconnected(1)));
}

#[test]
fn a_view_of_a_value_drops_it_later() {
    let count = AtomicUsize::new(0);
    {
        let (mut queue, mut writer, reader) = mpmc_queue::<Dropper>(1);
        let single = match reader.into_single(&mut queue) {
            Ok(single) => single,
            Err(_) => panic!("there is one receiver"),
        };
        for _ in 0..3 {
            writer.try_send(&mut queue, Dropper::new(&count)).unwrap();
            let seen = match single.try_recv_view(&mut queue, |x| x.aref.load(Ordering::Relaxed)) {
                Ok(seen) => seen,
                Err(_) => panic!("there is a value"),
            };
            assert_eq!(seen, 1);
        }
        assert!(single.unsubscribe(&mut queue));
    }
    assert_eq!(count.load(Ordering::Relaxed), 0);
}

#[test]
fn iterators_by_reference_leave_the_receiver() {
    let (mut queue, mut writer, reader) = mpmc_queue::<usize>(4);
    writer.try_send(&mut queue, 1).unwrap();
    writer.try_send(&mut queue, 2).unwrap();
    {
        let mut iter = reader.iter();
        assert_eq!(iter.next(&mut queue).done(), Some(Some(1)));
    }
    let single = match reader.into_single(&mut queue) {
        Ok(single) => single,
        Err(_) => panic!("there is one receiver"),
    };
    let mut iter = single.ref_iter_with(|x: &usize| *x + 10);
    assert_eq!(iter.next(&mut queue).done(), Some(Some(12)));
    assert!(matches!(iter.next(&mut queue), Blocking::Wait(_)));
    writer.unsubscribe(&mut queue);
    assert_eq!(iter.next_again(&mut queue).done(), Some(None));
}
