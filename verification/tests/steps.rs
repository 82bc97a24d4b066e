use multiqueue::atomicsignal::AtomicSignal;
use multiqueue::countedindex::MASK_IND;
use multiqueue::errors::{RecvError, SendError, TryRecvError, TrySendError};
use multiqueue::memory::{MemoryManager, ToFree, FREE_THRESHOLD};
use multiqueue::multiqueue::{multiqueue, BCast, ClaimResult, MultiQueue, MPMC};
use multiqueue::read_cursor::{ReadCursor, Reader, ReaderState};
use multiqueue::wait::Blocking;

#[test]
fn flags_do_not_depend_on_each_other() {
    let mut signal = AtomicSignal::new();
    assert!(!signal.load().has_action());
    signal.set_epoch();
    assert!(signal.load().get_epoch() && !signal.load().get_reader());
    signal.set_reader();
    signal.clear_epoch();
    assert!(!signal.load().get_epoch() && signal.load().get_reader());
    assert!(signal.load().has_action());
}

#[test]
fn the_value_of_a_failed_send_comes_back() {
    assert_eq!(SendError("lost").into_inner(), "lost");
}

#[test]
fn a_claimed_place_keeps_receivers_waiting() {
    let (mut queue, _sender, receiver) = MultiQueue::<MPMC<usize>, usize>::new(4);
    let first = match queue.try_claim(queue.load_transaction()) {
        ClaimResult::Claimed(claim) => claim,
        _ => panic!("there is room"),
    };
    let second = match queue.try_claim(queue.load_transaction()) {
        ClaimResult::Claimed(claim) => claim,
        _ => panic!("there is room"),
    };
    queue.publish(second, 2);
    // The second place is filled, but the first is not.
    assert_eq!(receiver.try_recv(&mut queue), Err(TryRecvError::Empty));
    queue.publish(first, 1);
    assert_eq!(receiver.try_recv(&mut queue), Ok(1));
    assert_eq!(receiver.try_recv(&mut queue), Ok(2));
}

#[test]
fn values_come_in_the_order_of_the_claims() {
    let (mut queue, mut sender, receiver) = MultiQueue::<BCast<usize>, usize>::new(8);
    let other = receiver.add_stream(&mut queue);
    sender.try_send(&mut queue, 1).unwrap();
    let mut claims = Vec::new();
    for _ in 0..3 {
        match queue.try_claim(queue.load_transaction()) {
            ClaimResult::Claimed(claim) => claims.push(claim),
            _ => panic!("there is room"),
        }
    }
    queue.try_send_multi(5).unwrap();
    assert_eq!(receiver.try_recv(&mut queue), Ok(1));
    // The places are filled from the last to the first.
    for val in [4, 3, 2] {
        assert_eq!(receiver.try_recv(&mut queue), Err(TryRecvError::Empty));
        queue.publish(claims.pop().unwrap(), val);
    }
    for val in 2..6 {
        assert_eq!(receiver.try_recv(&mut queue), Ok(val));
    }
    for val in 1..6 {
        assert_eq!(other.try_recv(&mut queue), Ok(val));
    }
    assert_eq!(other.try_recv(&mut queue), Err(TryRecvError::Empty));
}

#[test]
fn each_sender_is_received_in_its_order() {
    let (mut queue, mut first, receiver) = multiqueue::<(usize, usize)>(16);
    let other = receiver.add_stream(&mut queue);
    let mut second = first.clone(&mut queue);
    for n in 0..4 {
        first.try_send(&mut queue, (0, n)).unwrap();
        for k in 0..n {
            second.try_send(&mut queue, (1, n * 10 + k)).unwrap();
        }
    }
    first.unsubscribe(&mut queue);
    second.unsubscribe(&mut queue);
    for stream in [&receiver, &other] {
        let mut got = Vec::new();
        while let Some(Ok(val)) = stream.recv(&mut queue).done() {
            got.push(val);
        }
        assert_eq!(got.len(), 10);
        let from = |q: usize| -> Vec<usize> { got.iter().filter(|v| v.0 == q).map(|v| v.1).collect() };
        assert_eq!(from(0), vec![0, 1, 2, 3]);
        assert_eq!(from(1), vec![10, 20, 21, 30, 31, 32]);
        assert_eq!(stream.recv(&mut queue), Blocking::Done(Err(RecvError)));
        assert_eq!(stream.try_recv(&mut queue), Err(TryRecvError::Disconnected));
    }
}

#[test]
fn of_two_senders_one_gets_the_place() {
    let (mut queue, _sender, receiver) = MultiQueue::<MPMC<usize>, usize>::new(2);
    let mine = queue.load_transaction();
    let theirs = queue.load_transaction();
    let claim = match queue.try_claim(theirs) {
        ClaimResult::Claimed(claim) => claim,
        _ => panic!("there is room"),
    };
    let again = match queue.try_claim(mine) {
        ClaimResult::Lost(next) => next,
        _ => panic!("the place is taken"),
    };
    queue.publish(claim, 1);
    match queue.try_claim(again) {
        ClaimResult::Claimed(claim) => queue.publish(claim, 2),
        _ => panic!("there is room"),
    }
    assert!(matches!(queue.try_claim(queue.load_transaction()), ClaimResult::Full));
    assert_eq!(queue.try_send_multi(3), Err(TrySendError::Full(3)));
    assert_eq!(queue.try_send_single(3), Err(TrySendError::Full(3)));
    assert_eq!(receiver.try_recv(&mut queue), Ok(1));
    assert_eq!(queue.try_send_multi(3), Ok(()));
    assert_eq!(receiver.try_recv(&mut queue), Ok(2));
    assert_eq!(queue.try_send_single(4), Ok(()));
    assert_eq!(receiver.try_recv(&mut queue), Ok(3));
    assert_eq!(receiver.try_recv(&mut queue), Ok(4));
}

#[test]
fn senders_learn_whether_they_are_alone() {
    let (mut queue, mut sender, receiver) = multiqueue::<usize>(16);
    let mut sender2 = sender.clone(&mut queue);
    assert_eq!(queue.writers(), 2);
    sender.try_send(&mut queue, 1).unwrap();
    sender2.try_send(&mut queue, 2).unwrap();
    assert_eq!(1, receiver.try_recv(&mut queue).unwrap());
    assert_eq!(2, receiver.try_recv(&mut queue).unwrap());
    sender.unsubscribe(&mut queue);
    assert_eq!(queue.writers(), 1);
    sender2.try_send(&mut queue, 3).unwrap();
    assert_eq!(3, receiver.try_recv(&mut queue).unwrap());
    assert_eq!(queue.capacity(), 16);
}

#[test]
fn a_receiver_leaves_once() {
    let (mut queue, mut sender, mut receiver) = multiqueue::<usize>(4);
    let other = receiver.clone(&mut queue);
    receiver.do_unsubscribe_with(&mut queue, || ());
    receiver.do_unsubscribe_with(&mut queue, || panic!("it has left"));
    sender.try_send(&mut queue, 1).unwrap();
    assert_eq!(other.try_recv(&mut queue), Ok(1));
    assert!(other.unsubscribe(&mut queue));
}

#[test]
fn a_single_receiver_becomes_one_of_many() {
    let (mut queue, mut sender, receiver) = multiqueue::<usize>(4);
    let single = match receiver.into_single(&mut queue) {
        Ok(single) => single,
        Err(_) => panic!("there is one receiver"),
    };
    let more = single.add_stream(&mut queue);
    sender.try_send(&mut queue, 5).unwrap();
    assert_eq!(single.try_recv(&mut queue), Ok(5));
    assert_eq!(more.recv(&mut queue).done(), Some(Ok(5)));
    assert!(more.recv_again(&mut queue).done().is_none());
    let multi = single.into_multi();
    let second = multi.clone(&mut queue);
    assert!(!multi.unsubscribe(&mut queue));
    assert!(second.unsubscribe(&mut queue));
    assert!(more.unsubscribe(&mut queue));
}

#[test]
fn iterators_give_their_receiver_back() {
    let (mut queue, mut sender, receiver) = multiqueue::<usize>(4);
    for i in 0..4 {
        sender.try_send(&mut queue, i).unwrap();
    }
    let mut iter = receiver.into_iter();
    assert_eq!(iter.next(&mut queue).done(), Some(Some(0)));
    assert_eq!(iter.next_again(&mut queue).done(), Some(Some(1)));
    let receiver = iter.get_recv();
    assert_eq!(receiver.partial_iter().next(&mut queue), Some(2));
    let single = match receiver.into_single(&mut queue) {
        Ok(single) => single,
        Err(_) => panic!("there is one receiver"),
    };
    {
        let part = single.partial_iter_with(|x: &usize| *x);
        let mut part = part.with_transform(|x: &usize| *x * 7);
        assert_eq!(part.next(&mut queue), Some(21));
        assert_eq!(part.next(&mut queue), None);
    }
    let iter = single.iter_with(|x: &usize| *x);
    let mut iter = iter.with_transform(|x: &usize| *x + 1);
    assert!(iter.next(&mut queue).done().is_none());
    sender.unsubscribe(&mut queue);
    assert_eq!(iter.next_again(&mut queue).done(), Some(None));
    let single = iter.get_receiver();
    assert!(single.unsubscribe(&mut queue));
}

#[test]
fn of_two_consumers_one_gets_the_value() {
    let (mut cursor, reader) = ReadCursor::new(4);
    reader.dup_consumer(&mut cursor);
    assert_eq!(reader.get_consumers(&cursor), 2);
    let mine = reader.load_attempt(&cursor);
    let theirs = reader.load_attempt(&cursor);
    assert_eq!(mine.get(), (0, 0));
    assert!(theirs.commit_attempt(&mut cursor, 1).is_none());
    let again = mine.commit_attempt(&mut cursor, 1).unwrap();
    assert_eq!(again.get(), (1, 1));
    assert_eq!(again.state, ReaderState::Multi);
    assert!(again.commit_attempt(&mut cursor, 1).is_none());
    assert_eq!(reader.load_count(&cursor), 2);
    assert_eq!(reader.remove_consumer(&mut cursor), 2);
    assert!(reader.is_single(&mut cursor));
    reader.load_attempt(&cursor).commit_direct(&mut cursor, 3);
    assert_eq!(reader.load_count(&cursor), 5);
}

#[test]
fn the_slowest_stream_counts() {
    let mut manager = MemoryManager::new();
    let (mut cursor, reader) = ReadCursor::new(8);
    let other = cursor.add_stream(&reader, &mut manager);
    reader.load_attempt(&cursor).commit_direct(&mut cursor, 3);
    assert_eq!(cursor.get_max_diff(5), Some(5));
    other.load_attempt(&cursor).commit_direct(&mut cursor, 4);
    assert_eq!(cursor.get_max_diff(5), Some(2));
    // A stream that seems to be ahead cannot be compared.
    assert_eq!(cursor.get_max_diff(3), None);
    assert!(!cursor.remove_reader(&reader, &mut manager));
    assert_eq!(cursor.get_max_diff(5), Some(1));
    assert!(!cursor.has_readers());
    assert!(cursor.remove_reader(&other, &mut manager));
    assert!(cursor.has_readers());
    assert_eq!(cursor.last_pos(), 4);
    assert_eq!(cursor.get_max_diff(5), Some(0));
}

#[test]
fn a_stream_can_be_compared_with_senders_that_have_begun_a_new_lap() {
    let mut manager = MemoryManager::new();
    let (mut cursor, reader) = ReadCursor::new(8);
    reader.load_attempt(&cursor).commit_direct(&mut cursor, MASK_IND - 3);
    assert_eq!(reader.load_count(&cursor), MASK_IND - 3);
    assert_eq!(cursor.get_max_diff(MASK_IND - 1), Some(2));
    assert_eq!(cursor.get_max_diff(0), Some(3));
    assert_eq!(cursor.get_max_diff(5), Some(8));
    let other = cursor.add_stream(&reader, &mut manager);
    other.load_attempt(&cursor).commit_direct(&mut cursor, 4);
    assert_eq!(other.load_count(&cursor), 1);
    assert_eq!(cursor.get_max_diff(5), Some(8));
    assert_eq!(cursor.get_max_diff(0), None);
}

#[test]
fn a_place_is_used_again_after_all_subscribers_took_note() {
    let mut manager = MemoryManager::new();
    let token = manager.get_token();
    let (mut cursor, reader) = ReadCursor::new(8);
    let first = cursor.add_stream(&reader, &mut manager);
    cursor.remove_reader(&first, &mut manager);
    // The place waits for its release.
    let second = cursor.add_stream(&reader, &mut manager);
    assert_ne!(first.pos, second.pos);
    cursor.remove_reader(&second, &mut manager);
    let mut rounds = 0;
    while !manager.load_signal().get_epoch() {
        let stream = cursor.add_stream(&reader, &mut manager);
        assert_ne!(first.pos, stream.pos);
        cursor.remove_reader(&stream, &mut manager);
        rounds += 1;
        assert!(rounds < 20);
    }
    // The collection was put aside, and the subscriber has not noted it yet.
    let waiting = cursor.add_stream(&reader, &mut manager);
    assert_ne!(first.pos, waiting.pos);
    manager.attend(token);
    cursor.remove_reader(&waiting, &mut manager);
    assert!(!manager.load_signal().get_epoch());
    let again = cursor.add_stream(&reader, &mut manager);
    assert_eq!(first.pos, again.pos);
}

#[test]
fn a_collection_is_put_aside_when_it_is_large() {
    let mut manager = MemoryManager::new();
    let token = manager.get_token();
    for i in 0..FREE_THRESHOLD {
        assert_eq!(manager.free(ToFree::Pos(i)).len(), 0);
        assert!(!manager.load_signal().get_epoch());
    }
    assert_eq!(manager.free(ToFree::Pos(FREE_THRESHOLD)).len(), 0);
    assert!(manager.load_signal().get_epoch());
    assert_eq!(manager.free(ToFree::Pos(100)).len(), 0);
    manager.update_token(token);
    assert_eq!(manager.free(ToFree::Pos(101)).len(), FREE_THRESHOLD + 1);
    assert!(!manager.load_signal().get_epoch());
    manager.remove_token(token);
    let next = manager.get_token();
    assert_ne!(token, next);
}

#[test]
fn a_queue_of_clones_keeps_values_for_other_streams() {
    let (mut queue, mut sender, receiver) = MultiQueue::<BCast<String>, String>::new(2);
    let other = receiver.add_stream(&mut queue);
    sender.try_send(&mut queue, "a".to_string()).unwrap();
    assert_eq!(receiver.try_recv(&mut queue), Ok("a".to_string()));
    assert_eq!(other.try_recv(&mut queue), Ok("a".to_string()));
}

#[test]
fn room_that_was_found_stays_until_it_is_taken() {
    let (mut queue, mut sender, receiver) = MultiQueue::<MPMC<usize>, usize>::new(1);
    sender.try_send(&mut queue, 1).unwrap();
    let head = queue.load_transaction();
    assert!(!queue.find_room(&head));
    receiver.try_recv(&mut queue).unwrap();
    assert!(queue.find_room(&head));
    let other = receiver.clone(&mut queue);
    other.unsubscribe(&mut queue);
    let claim = match queue.take_place(head) {
        Ok(claim) => claim,
        Err(_) => panic!("nobody else wants the place"),
    };
    let late = queue.load_transaction();
    assert!(!queue.find_room(&late));
    queue.publish(claim, 2);
    assert_eq!(receiver.try_recv(&mut queue), Ok(2));
}

#[test]
fn a_place_that_was_found_can_be_lost() {
    let (mut queue, mut sender, receiver) = MultiQueue::<MPMC<usize>, usize>::new(2);
    let head = queue.load_transaction();
    assert!(queue.find_room(&head));
    sender.try_send(&mut queue, 1).unwrap();
    let again = match queue.take_place(head) {
        Ok(_) => panic!("the place is taken"),
        Err(again) => again,
    };
    assert_eq!(again.get(), (1, 1));
    assert_eq!(receiver.try_recv(&mut queue), Ok(1));
}

#[test]
fn a_value_that_was_seen_can_be_lost() {
    let (mut queue, mut sender, receiver) = multiqueue::<usize>(4);
    let second = receiver.clone(&mut queue);
    let stream = Reader { pos: 0 };
    assert_eq!(queue.look(&stream).err(), Some((Some(0), TryRecvError::Empty)));
    sender.try_send(&mut queue, 1).unwrap();
    sender.try_send(&mut queue, 2).unwrap();
    let mine = match queue.look(&stream) {
        Ok(attempt) => attempt,
        Err(_) => panic!("there is a value"),
    };
    assert_eq!(second.try_recv(&mut queue), Ok(1));
    let again = match queue.commit_recv(mine) {
        Ok(_) => panic!("another consumer has got the value"),
        Err(again) => again,
    };
    match queue.commit_recv(again) {
        Ok(val) => assert_eq!(val, 2),
        Err(_) => panic!("nobody else wants the value"),
    }
    assert_eq!(receiver.try_recv(&mut queue), Err(TryRecvError::Empty));
}
