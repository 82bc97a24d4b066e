use std::sync::atomic::{AtomicUsize, Ordering};
use std::sync::Arc;

use multiqueue::multiqueue::{BCast, MultiQueue};

#[test]
fn multiqueue_build_queue() {
    let _ = MultiQueue::<BCast<usize>, usize>::new(10);
}

#[test]
fn multiqueue_push_pop_test() {
    let (mut queue, mut writer, reader) = MultiQueue::<BCast<usize>, usize>::new(1);
    for _ in 0..100 {
        assert!(reader.try_recv(&mut queue).is_err());
        writer.try_send(&mut queue, 1 as usize).expect("Push should succeed");
        assert!(writer.try_send(&mut queue, 1).is_err());
        assert_eq!(1, reader.try_recv(&mut queue).unwrap());
    }
}

#[test]
fn multiqueue_test_baddrop() {
    // This ensures that a bogus arc isn't dropped from the queue
    let (mut queue, mut writer, reader) = MultiQueue::<BCast<Arc<i32>>, Arc<i32>>::new(1);
    for _ in 0..10 {
        writer.try_send(&mut queue, Arc::new(10)).unwrap();
        reader.recv(&mut queue).done().unwrap().unwrap();
    }
}

#[derive(Debug)]
struct Dropper<'a> {
    aref: &'a AtomicUsize,
}

impl<'a> Dropper<'a> {
    pub fn new(a: &AtomicUsize) -> Dropper<'_> {
        a.fetch_add(1, Ordering::Relaxed);
        Dropper { aref: a }
    }
}

impl<'a> Drop for Dropper<'a> {
    fn drop(&mut self) {
        self.aref.fetch_sub(1, Ordering::Relaxed);
    }
}

impl<'a> Clone for Dropper<'a> {
    fn clone(&self) -> Dropper<'a> {
        self.aref.fetch_add(1, Ordering::Relaxed);
        Dropper { aref: self.aref }
    }
}

#[test]
fn multiqueue_test_gooddrop() {
    // This counts the # of drops and creations
    let count = AtomicUsize::new(0);
    {
        let (mut queue, mut writer, reader) = MultiQueue::<BCast<Dropper>, Dropper>::new(1);
        for _ in 0..10 {
            writer.try_send(&mut queue, Dropper::new(&count)).unwrap();
            reader.recv(&mut queue).done().unwrap().unwrap();
        }
    }
    assert_eq!(count.load(Ordering::Relaxed), 0);
}

#[test]
fn multiqueue_test_iterator_comp() {
    let (mut queue, writer, reader) = MultiQueue::<BCast<usize>, usize>::new(10);
    writer.unsubscribe(&mut queue);
    let mut iter = reader.into_iter();
    while let Some(_) = iter.next(&mut queue).done().unwrap() {}
}

#[test]
fn test_single_leav_multi() {
    let (mut queue, mut writer, reader) = MultiQueue::<BCast<usize>, usize>::new(10);
    let reader2 = reader.clone(&mut queue);
    writer.try_send(&mut queue, 1).unwrap();
    writer.try_send(&mut queue, 1).unwrap();
    assert_eq!(reader2.recv(&mut queue).done().unwrap().unwrap(), 1);
    reader2.unsubscribe(&mut queue);
    let reader_s = match reader.into_single(&mut queue) {
        Ok(single) => single,
        Err(_) => panic!("the other receiver has left"),
    };
    assert!(reader_s.recv_view(&mut queue, |x| *x).is_ok());
}

#[test]
fn multiqueue_test_remove_reader() {
    let (mut queue, mut writer, reader) = MultiQueue::<BCast<usize>, usize>::new(1);
    assert!(writer.try_send(&mut queue, 1).is_ok());
    let reader_2 = reader.add_stream(&mut queue);
    assert!(writer.try_send(&mut queue, 1).is_err());
    assert_eq!(1, reader.try_recv(&mut queue).unwrap());
    assert!(reader.try_recv(&mut queue).is_err());
    assert_eq!(1, reader_2.try_recv(&mut queue).unwrap());
    assert!(reader_2.try_recv(&mut queue).is_err());
    assert!(writer.try_send(&mut queue, 1).is_ok());
    assert!(writer.try_send(&mut queue, 1).is_err());
    assert_eq!(1, reader.try_recv(&mut queue).unwrap());
    assert!(reader.try_recv(&mut queue).is_err());
    reader_2.unsubscribe(&mut queue);
    assert!(writer.try_send(&mut queue, 2).is_ok());
    assert_eq!(2, reader.try_recv(&mut queue).unwrap());
}
