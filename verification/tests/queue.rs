use ref_count::array_queue::ArrayQueue;
use ref_count::queue_steps::{Access, LenStep, OnFull, Pause, PopStep, PushStep, Reply};
use ref_count::ring::{distance, lags_one_lap};
use ref_count::stamp::Layout;
use std::cell::RefCell;
use std::rc::Rc;

#[test]
fn push_until_full() {
    let mut q = ArrayQueue::<char, 2>::new();
    assert_eq!(q.push('a'), Ok(()));
    assert_eq!(q.push('b'), Ok(()));
    assert_eq!(q.push('c'), Err('c'));
    assert_eq!(q.pop(), Some('a'));
}

#[test]
fn push_with_room_for_one() {
    let mut q = ArrayQueue::<i32, 1>::new();
    assert_eq!(q.push(10), Ok(()));
    assert_eq!(q.push(20), Err(20));
    assert_eq!(q.pop(), Some(10));
    assert_eq!(q.push(30), Ok(()));
    assert_eq!(q.pop(), Some(30));
    assert_eq!(q.pop(), None);
}

#[test]
fn force_push_replaces_the_oldest() {
    let mut q = ArrayQueue::<i32, 2>::new();
    assert_eq!(q.force_push(10), None);
    assert_eq!(q.force_push(20), None);
    assert_eq!(q.force_push(30), Some(10));
    assert_eq!(q.pop(), Some(20));
    assert_eq!(q.pop(), Some(30));
    assert_eq!(q.pop(), None);
}

#[test]
fn force_push_keeps_the_newest() {
    let mut q = ArrayQueue::<u32, 3>::new();
    for i in 0..100u32 {
        let replaced = q.force_push(i);
        assert_eq!(replaced, if i < 3 { None } else { Some(i - 3) });
    }
    assert_eq!(q.pop(), Some(97));
    assert_eq!(q.pop(), Some(98));
    assert_eq!(q.pop(), Some(99));
    assert_eq!(q.pop(), None);
}

#[test]
fn pop_what_was_pushed() {
    let mut q = ArrayQueue::<i32, 32>::new();
    assert_eq!(q.push(10), Ok(()));
    assert_eq!(q.pop(), Some(10));
    assert!(q.pop().is_none());
}

#[test]
fn capacity_is_the_parameter() {
    let q = ArrayQueue::<i32, 100>::new();
    assert_eq!(q.capacity(), 100);
    let q = ArrayQueue::<i32, 7>::default();
    assert_eq!(q.capacity(), 7);
    assert!(q.is_empty());
}

#[test]
fn empty_until_pushed() {
    let mut q = ArrayQueue::<i32, 4>::new();
    assert!(q.is_empty());
    q.push(1).unwrap();
    assert!(!q.is_empty());
    q.pop();
    assert!(q.is_empty());
}

#[test]
fn full_once_pushed() {
    let mut q = ArrayQueue::<i32, 1>::new();
    assert!(!q.is_full());
    q.push(1).unwrap();
    assert!(q.is_full());
    q.pop();
    assert!(!q.is_full());
}

#[test]
fn len_counts() {
    let mut q = ArrayQueue::<usize, 3>::new();
    assert_eq!(q.len(), 0);
    q.push(10).unwrap();
    assert_eq!(q.len(), 1);
    q.push(20).unwrap();
    assert_eq!(q.len(), 2);
    q.push(30).unwrap();
    assert_eq!(q.len(), 3);
    q.pop();
    q.pop();
    q.push(40).unwrap();
    assert_eq!(q.len(), 2);
}

#[test]
fn first_in_first_out_over_many_laps() {
    let mut q = ArrayQueue::<usize, 5>::new();
    let mut next_in = 0;
    let mut next_out = 0;
    for round in 0..1000usize {
        for _ in 0..(round % 7) {
            let full = next_in - next_out == 5;
            assert_eq!(q.is_full(), full);
            assert_eq!(q.push(next_in), if full { Err(next_in) } else { Ok(()) });
            if !full {
                next_in += 1;
            }
        }
        for _ in 0..(round % 5) {
            let empty = next_in == next_out;
            assert_eq!(q.pop(), if empty { None } else { Some(next_out) });
            if !empty {
                next_out += 1;
            }
        }
        assert_eq!(q.len(), next_in - next_out);
    }
}

#[test]
fn into_iter_in_order() {
    let mut q = ArrayQueue::<i32, 4>::new();
    for i in 0..6 {
        q.force_push(i);
    }
    let mut iter = q.into_iter();
    assert_eq!(iter.next(), Some(2));
    assert_eq!(iter.next(), Some(3));
    assert_eq!(iter.next(), Some(4));
    assert_eq!(iter.next(), Some(5));
    assert_eq!(iter.next(), None);
    assert_eq!(iter.next(), None);
}

struct Noisy {
    name: u32,
    log: Rc<RefCell<Vec<u32>>>,
}

impl Drop for Noisy {
    fn drop(&mut self) {
        self.log.borrow_mut().push(self.name);
    }
}

fn noisy(name: u32, log: &Rc<RefCell<Vec<u32>>>) -> Noisy {
    Noisy { name, log: log.clone() }
}

#[test]
fn drops_what_is_left_oldest_first() {
    let log = Rc::new(RefCell::new(Vec::new()));
    let mut q = ArrayQueue::<Noisy, 3>::new();
    assert!(q.push(noisy(1, &log)).is_ok());
    assert!(q.push(noisy(2, &log)).is_ok());
    drop(q.pop());
    assert!(q.push(noisy(3, &log)).is_ok());
    assert!(q.push(noisy(4, &log)).is_ok());
    assert_eq!(*log.borrow(), vec![1]);
    drop(q);
    assert_eq!(*log.borrow(), vec![1, 2, 3, 4]);
}

#[test]
fn iterator_drops_what_is_left() {
    let log = Rc::new(RefCell::new(Vec::new()));
    let mut q = ArrayQueue::<Noisy, 4>::new();
    for name in 1..5 {
        assert!(q.push(noisy(name, &log)).is_ok());
    }
    let mut iter = q.into_iter();
    drop(iter.next());
    assert_eq!(*log.borrow(), vec![1]);
    drop(iter);
    assert_eq!(*log.borrow(), vec![1, 2, 3, 4]);
}

#[test]
fn refused_value_is_given_back_whole() {
    let log = Rc::new(RefCell::new(Vec::new()));
    let mut q = ArrayQueue::<Noisy, 1>::new();
    assert!(q.push(noisy(1, &log)).is_ok());
    match q.push(noisy(2, &log)) {
        Ok(()) => panic!("pushed into a full queue"),
        Err(back) => assert_eq!(back.name, 2),
    }
    assert_eq!(*log.borrow(), vec![2]);
}

#[test]
fn one_lap_is_the_next_power_of_two() {
    assert_eq!(Layout::new(1), Layout { capacity: 1, one_lap: 2 });
    assert_eq!(Layout::new(2), Layout { capacity: 2, one_lap: 4 });
    assert_eq!(Layout::new(3), Layout { capacity: 3, one_lap: 4 });
    assert_eq!(Layout::new(4), Layout { capacity: 4, one_lap: 8 });
    assert_eq!(Layout::new(100), Layout { capacity: 100, one_lap: 128 });
    assert_eq!(Layout::new(usize::MAX / 2).one_lap, 1 << (usize::BITS - 1));
}

#[test]
fn stamps_walk_through_the_places() {
    let layout = Layout::new(3);
    assert_eq!(layout.index(0), 0);
    assert_eq!(layout.index(6), 2);
    assert_eq!(layout.following(0), 1);
    assert_eq!(layout.following(1), 2);
    assert_eq!(layout.following(2), 4);
    assert_eq!(layout.following(usize::MAX - 1), 0);
}

#[test]
fn distance_counts_places() {
    let layout = Layout::new(3);
    assert_eq!(distance(layout, 0, 0), 0);
    assert_eq!(distance(layout, 0, 2), 2);
    assert_eq!(distance(layout, 2, 4), 1);
    assert_eq!(distance(layout, 0, 4), 3);
    assert!(lags_one_lap(layout, 0, 4));
    assert!(!lags_one_lap(layout, 0, 2));
    assert!(lags_one_lap(layout, usize::MAX - 3, 0));
}

#[test]
fn steps_of_a_push() {
    let layout = Layout::new(2);
    let step = PushStep::LoadTail;
    assert_eq!(step.access(layout), Access::LoadTail);
    let (step, pause) = step.advance(layout, OnFull::Refuse, Reply::Word(1));
    assert_eq!((step, pause), (PushStep::LoadStamp { tail: 1 }, Pause::No));
    assert_eq!(step.access(layout), Access::LoadStamp { index: 1 });
    let (step, pause) = step.advance(layout, OnFull::Refuse, Reply::Word(1));
    assert_eq!((step, pause), (PushStep::ClaimTail { tail: 1 }, Pause::No));
    assert_eq!(step.access(layout), Access::ExchangeTail { current: 1, new: 4 });
    let (lost, pause) = step.advance(layout, OnFull::Refuse, Reply::Found(4));
    assert_eq!((lost, pause), (PushStep::LoadStamp { tail: 4 }, Pause::Spin));
    let (step, _) = step.advance(layout, OnFull::Refuse, Reply::Exchanged);
    assert_eq!(step.access(layout), Access::Write { index: 1 });
    let (step, _) = step.advance(layout, OnFull::Refuse, Reply::Made);
    assert_eq!(step.access(layout), Access::StoreStamp { index: 1, stamp: 2 });
    let (step, _) = step.advance(layout, OnFull::Refuse, Reply::Made);
    assert_eq!(step, PushStep::Stored);
    assert_eq!(step.access(layout), Access::Done);
}

#[test]
fn steps_of_a_push_into_a_full_ring() {
    let layout = Layout::new(2);
    let look = PushStep::LoadStamp { tail: 4 };
    let (step, _) = look.advance(layout, OnFull::Refuse, Reply::Word(1));
    assert_eq!(step, PushStep::LoadHead { tail: 4 });
    assert_eq!(step.advance(layout, OnFull::Refuse, Reply::Word(0)).0, PushStep::Refused);
    assert_eq!(
        step.advance(layout, OnFull::Refuse, Reply::Word(1)),
        (PushStep::LoadTail, Pause::Spin)
    );
    let (step, _) = look.advance(layout, OnFull::Replace, Reply::Word(1));
    assert_eq!(step, PushStep::ClaimHead { tail: 4 });
    assert_eq!(step.access(layout), Access::ExchangeHead { current: 0, new: 1 });
    assert_eq!(
        step.advance(layout, OnFull::Replace, Reply::Found(1)),
        (PushStep::LoadTail, Pause::Spin)
    );
    let (step, _) = step.advance(layout, OnFull::Replace, Reply::Exchanged);
    assert_eq!(step.access(layout), Access::StoreTail { tail: 5 });
    let (step, _) = step.advance(layout, OnFull::Replace, Reply::Made);
    assert_eq!(step.access(layout), Access::Swap { index: 0 });
    let (step, _) = step.advance(layout, OnFull::Replace, Reply::Made);
    assert_eq!(step.access(layout), Access::StoreStamp { index: 0, stamp: 5 });
    assert_eq!(step.advance(layout, OnFull::Replace, Reply::Made).0, PushStep::Replaced);
    assert_eq!(
        look.advance(layout, OnFull::Refuse, Reply::Word(0)),
        (PushStep::LoadTail, Pause::Snooze)
    );
}

#[test]
fn steps_of_a_pop() {
    let layout = Layout::new(2);
    let step = PopStep::LoadHead;
    assert_eq!(step.access(layout), Access::LoadHead);
    let (look, _) = step.advance(layout, Reply::Word(1));
    assert_eq!(look.access(layout), Access::LoadStamp { index: 1 });
    let (step, _) = look.advance(layout, Reply::Word(2));
    assert_eq!(step.access(layout), Access::ExchangeHead { current: 1, new: 4 });
    assert_eq!(
        step.advance(layout, Reply::Found(4)),
        (PopStep::LoadStamp { head: 4 }, Pause::Spin)
    );
    let (step, _) = step.advance(layout, Reply::Exchanged);
    assert_eq!(step.access(layout), Access::Take { index: 1 });
    let (step, _) = step.advance(layout, Reply::Made);
    assert_eq!(step.access(layout), Access::StoreStamp { index: 1, stamp: 5 });
    assert_eq!(step.advance(layout, Reply::Made).0, PopStep::Popped);
    let (step, _) = look.advance(layout, Reply::Word(1));
    assert_eq!(step, PopStep::LoadTail { head: 1 });
    assert_eq!(step.advance(layout, Reply::Word(1)).0, PopStep::Empty);
    assert_eq!(step.advance(layout, Reply::Word(4)), (PopStep::LoadHead, Pause::Spin));
    assert_eq!(look.advance(layout, Reply::Word(6)), (PopStep::LoadHead, Pause::Snooze));
}

#[test]
fn steps_of_a_count() {
    let layout = Layout::new(3);
    let step = LenStep::LoadTail.advance(layout, 4);
    assert_eq!(step, LenStep::LoadHead { tail: 4 });
    let step = step.advance(layout, 1);
    assert_eq!(step.advance(layout, 4), LenStep::Counted { len: 2 });
    assert_eq!(step.advance(layout, 5), LenStep::LoadTail);
    assert_eq!(step.access(), Access::LoadTail);
}
