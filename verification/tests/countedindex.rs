use std::sync::Mutex;

use crossbeam::scope;

use multiqueue::countedindex::{get_valid_wrap, is_tagged, past, past_by, rm_tag, validate_wrap};
use multiqueue::countedindex::{CountedIndex, Index, WrapError, INITIAL_QUEUE_FLAG, MASK_IND, MAX_WRAP};

fn test_incr_param(wrap_size: Index, goaround: usize) {
    let mut mycounted = CountedIndex::new(wrap_size);
    for j in 0..goaround {
        for i in 0..wrap_size as usize {
            let trans = mycounted.load_transaction();
            assert_eq!(i, mycounted.load() as usize);
            assert_eq!(i + (j * wrap_size as usize), mycounted.load_count());
            assert_eq!(i, trans.get().0 as usize);
            trans.commit_direct(&mut mycounted, 1);
        }
    }
    // Is wrap_size * goaround % wrap_size, so trivially zero
    assert_eq!(0, mycounted.load());
    assert_eq!(wrap_size as usize * goaround, mycounted.load_count());
}

fn test_incr_param_threaded(wrap_size: Index, goaround: usize, nthread: usize) {
    let mycounted = Mutex::new(CountedIndex::new(wrap_size));
    let counted = &mycounted;
    scope(|scope| {
        for _ in 0..nthread {
            scope.spawn(move || {
                for _ in 0..goaround {
                    for _ in 0..wrap_size {
                        let mut trans = counted.lock().unwrap().load_transaction();
                        loop {
                            let done = trans.commit(&mut counted.lock().unwrap(), 1);
                            match done {
                                Some(new_t) => trans = new_t,
                                None => break,
                            }
                        }
                    }
                }
            });
        }
    });
    let mycounted = mycounted.into_inner().unwrap();
    assert_eq!(0, mycounted.load());
    assert_eq!(wrap_size as usize * goaround * nthread, mycounted.load_count());
}

#[test]
fn test_small() {
    test_incr_param(16, 100);
}

#[test]
fn test_tiny() {
    test_incr_param(1, 100)
}

#[test]
fn test_wrapu16() {
    test_incr_param(1 + u16::MAX as Index, 2)
}

#[test]
fn test_small_mt() {
    test_incr_param_threaded(16, 1000, 2)
}

#[test]
fn test_tiny_mt() {
    test_incr_param_threaded(1, 10000, 2)
}

#[test]
fn test_wrapu16_mt() {
    test_incr_param_threaded(u16::MAX as Index + 1, 2, 13)
}

#[test]
fn test_transaction_fail() {
    let mut mycounted = CountedIndex::new(16);
    let trans = mycounted.load_transaction();
    let trans2 = mycounted.load_transaction();
    trans2.commit_direct(&mut mycounted, 1);
    trans.commit(&mut mycounted, 1).unwrap();
}

#[test]
fn a_failed_transaction_reads_the_count_again() {
    let mut counted = CountedIndex::new(16);
    let trans = counted.load_transaction();
    counted.load_transaction().commit_direct(&mut counted, 5);
    let again = trans.commit(&mut counted, 1).unwrap();
    assert_eq!(again.get(), (5, 5));
    assert!(again.commit(&mut counted, 1).is_none());
    assert_eq!(counted.load_count(), 6);
}

#[test]
fn distances_tell_which_count_is_ahead() {
    assert_eq!(past(7, 3), (4, false));
    assert_eq!(past(3, 3), (0, false));
    let (distance, ahead) = past(3, 7);
    assert_eq!(distance, 0usize.wrapping_sub(4));
    assert!(ahead);
}

#[test]
fn counts_can_be_compared_when_one_has_begun_a_new_lap() {
    assert_eq!(past_by(7, 3), (4, false));
    assert_eq!(past_by(3, 7), (MASK_IND - 4, true));
    assert_eq!(past_by(1, MASK_IND - 2), (3, false));
    assert_eq!(past_by(MASK_IND - 2, 1), (MASK_IND - 3, true));
    assert_eq!(past_by(0, MASK_IND - 1), (1, false));
}

#[test]
fn tags_are_the_top_bit() {
    assert!(is_tagged(INITIAL_QUEUE_FLAG));
    assert!(is_tagged(MASK_IND));
    assert!(!is_tagged(MASK_IND - 1));
    assert_eq!(rm_tag(MASK_IND + 12), 12);
    assert_eq!(rm_tag(12), 12);
    assert_eq!(rm_tag(INITIAL_QUEUE_FLAG), MASK_IND - 1);
}

#[test]
fn sizes_are_rounded_up() {
    assert_eq!(get_valid_wrap(0), 1);
    assert_eq!(get_valid_wrap(1), 1);
    assert_eq!(get_valid_wrap(2), 2);
    assert_eq!(get_valid_wrap(3), 4);
    assert_eq!(get_valid_wrap(10), 16);
    assert_eq!(get_valid_wrap(16), 16);
    assert_eq!(get_valid_wrap(MAX_WRAP / 2 + 1), MAX_WRAP / 2 + 1);
    assert_eq!(get_valid_wrap(MAX_WRAP), MAX_WRAP);
    assert_eq!(get_valid_wrap(usize::MAX), MAX_WRAP);
}

#[test]
fn sizes_that_are_not_valid_are_refused() {
    assert_eq!(validate_wrap(16), Ok(()));
    assert_eq!(validate_wrap(0), Err(WrapError::NotPowerOfTwo));
    assert_eq!(validate_wrap(12), Err(WrapError::NotPowerOfTwo));
    assert_eq!(validate_wrap(MAX_WRAP), Err(WrapError::NotPowerOfTwo));
    assert_eq!(validate_wrap(MASK_IND), Err(WrapError::TooLarge));
}

#[test]
fn counts_wrap_around_a_lap() {
    let mut counted = CountedIndex::from_usize(MASK_IND - 1, 8);
    assert_eq!(counted.wrap_at(), 8);
    assert_eq!(counted.load(), 7);
    assert_eq!(counted.load_raw(), MASK_IND - 1);
    let trans = counted.load_transaction();
    assert!(trans.matches_previous(MASK_IND - 9));
    assert!(!trans.matches_previous(MASK_IND - 1));
    trans.commit_direct(&mut counted, 1);
    assert_eq!(counted.load_count(), 0);
    assert!(counted.load_transaction().matches_previous(MASK_IND - 8));
    assert_eq!(CountedIndex::get_previous(0, 1), usize::MAX);
    assert_eq!(CountedIndex::get_previous(9, 4), 5);
}
