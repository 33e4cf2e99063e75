use ref_count::array_queue::ArrayQueue;
use ref_count::backoff::{slight_spin, Backoff, Rest, YIELD_POINT};
use ref_count::futures::{FutureExclusiveRef, MaybeFuture, Poll};
use ref_count::hints::Hints;
use ref_count::pad::CacheLine;
use ref_count::poll_steps::{
    exclusive_start, BlockingStep, ExclusivePollStep, ExclusiveStart, ExclusiveStep, PollStep,
    UnblockStep,
};
use ref_count::shared::{HeldBlock, HeldRef, Refusal, SharedWord};
use ref_count::state::{
    all_refs, block_state, released, standard_refs, unblocked, Attempt, Grab,
};
use ref_count::traced::Trace;
use ref_count::waiter::Waiter;
use ref_count::{RefCount, State};

/// The waiters in a queue, the oldest first.
fn all<const C: usize>(queue: ArrayQueue<Waiter, C>) -> Vec<Waiter> {
    let mut waiters = Vec::new();
    let mut iter = queue.into_iter();
    while let Some(waiter) = iter.next() {
        waiters.push(waiter);
    }
    waiters
}

#[test]
fn exclusive_vs_ref() {
    let mut ref_counter = RefCount::<30>::new();
    let r = match ref_counter.get_ref() {
        MaybeFuture::Ready(r) => r,
        MaybeFuture::Future(_) => panic!("Went to future without contention"),
    };

    let mut fut = match ref_counter.get_exclusive_ref() {
        MaybeFuture::Ready(_) => panic!("should have deadlocked but was ready"),
        MaybeFuture::Future(fut) => fut,
    };

    let mut not_yet_fut = match ref_counter.get_ref() {
        MaybeFuture::Ready(_) => panic!("Got new ref after exclusive ref made request"),
        MaybeFuture::Future(f) => f,
    };

    for _ in 0..5000 {
        assert!(matches!(
            fut.poll(&mut ref_counter, Waiter::new(0, 0)),
            Poll::Pending { .. }
        ));
    }

    r.release(&mut ref_counter);

    // now should be ready
    match fut.poll(&mut ref_counter, Waiter::new(0, 0)) {
        Poll::Ready(exclusive) => {
            assert!(exclusive.release(&mut ref_counter).is_empty());
        }
        Poll::Pending { .. } => panic!("should be ready"),
    }
    assert!(matches!(
        not_yet_fut.poll(&mut ref_counter, Waiter::new(1, 1)),
        Poll::Ready(_)
    ));
}

#[test]
fn state_enum_from_raw() {
    let e = State::from_raw(1);
    assert!(e.is_blocked());

    let e = State::from_raw(0);
    assert!(e.is_allowed());
}

#[test]
fn state_of_any_word() {
    assert!(State::from_raw(7).is_blocked());
    assert!(State::from_raw(6).is_allowed());
    assert!(!State::from_raw(7).is_allowed());
    assert!(!State::from_raw(6).is_blocked());
    assert_eq!(State::from_raw(2).to_string(), "allowed");
    assert_eq!(State::from_raw(3).to_string(), "blocked");
}

#[test]
fn state_follows_the_block() {
    let mut rc = RefCount::<32>::new();
    assert!(rc.state().is_allowed());
    assert_eq!(rc.raw_state(), 0);
    assert_eq!(rc.is_blocked(), false);
    assert_eq!(rc.is_allowed(), true);
    let exclusive = rc.try_get_exclusive_ref().unwrap();
    assert!(rc.state().is_blocked());
    assert_eq!(rc.raw_state(), 1);
    assert_eq!(rc.is_blocked(), true);
    assert_eq!(rc.is_allowed(), false);
    assert!(rc.try_get_ref().is_none());
    assert!(rc.try_get_exclusive_ref().is_none());
    assert!(exclusive.release(&mut rc).is_empty());
    assert!(rc.state().is_allowed());
}

#[test]
fn counts_of_references() {
    let mut rc = RefCount::<32>::default();
    assert!(rc.no_refs());
    let reference = rc.try_get_ref().unwrap();
    assert_eq!(rc.ref_count(), 1);
    assert_eq!(rc.standard_ref_count(), 1);
    assert!(!rc.no_refs());
    assert!(!rc.no_standard_refs());
    reference.release(&mut rc);
    assert!(rc.no_refs());
    assert!(rc.no_standard_refs());
    let exclusive = rc.try_get_exclusive_ref().unwrap();
    assert_eq!(rc.ref_count(), 1);
    assert_eq!(rc.standard_ref_count(), 0);
    assert!(!rc.no_refs());
    assert!(rc.no_standard_refs());
    assert!(exclusive.release(&mut rc).is_empty());
    assert!(rc.no_refs());
}

#[test]
fn failed_exclusive_request_keeps_the_count() {
    let mut rc = RefCount::<32>::new();
    let one = rc.try_get_ref().unwrap();
    let other = rc.try_get_ref().unwrap();
    assert!(rc.try_get_exclusive_ref().is_none());
    assert!(rc.is_allowed());
    assert_eq!(rc.ref_count(), 2);
    one.release(&mut rc);
    assert!(rc.try_get_exclusive_ref().is_none());
    assert_eq!(rc.ref_count(), 1);
    other.release(&mut rc);
    assert!(rc.no_refs());
    assert!(rc.try_get_exclusive_ref().is_some());
}

#[test]
fn block_and_unblock() {
    let mut rc = RefCount::<32>::new();
    let reference = rc.try_get_ref().unwrap();
    assert!(rc.try_block_refs());
    assert!(!rc.try_block_refs());
    // The block is not a reference while a standard one is left.
    assert_eq!(rc.ref_count(), 1);
    assert!(rc.try_get_ref().is_none());
    assert!(rc.unblock_refs().is_empty());
    assert_eq!(rc.ref_count(), 1);
    reference.release(&mut rc);
    assert!(rc.no_refs());
}

#[test]
fn block_refs_waits_in_turn() {
    let mut rc = RefCount::<32>::new();
    assert!(matches!(rc.block_refs(), MaybeFuture::Ready(())));
    let mut fut = match rc.block_refs() {
        MaybeFuture::Ready(()) => panic!("blocked twice"),
        MaybeFuture::Future(fut) => fut,
    };
    let waiter = Waiter::new(5, 9);
    assert!(matches!(fut.poll(&mut rc, waiter), Poll::Pending { wake: None }));
    assert!(fut.registered);
    assert!(matches!(fut.poll(&mut rc, waiter), Poll::Pending { wake: None }));
    assert_eq!(all(rc.unblock_refs()), vec![waiter]);
    assert_eq!(waiter.wake(&mut fut.registered), 5);
    assert!(!fut.registered);
    assert!(matches!(fut.poll(&mut rc, waiter), Poll::Ready(())));
    assert!(rc.is_blocked());
    assert!(rc.unblock_refs().is_empty());
}

#[test]
fn blocking_requests() {
    let mut rc = RefCount::<32>::new();
    let exclusive = rc.blocking_get_exclusive_ref();
    assert!(rc.is_blocked());
    assert!(rc.try_get_exclusive_ref().is_none());
    assert!(exclusive.release(&mut rc).is_empty());
    let reference = rc.blocking_get_ref();
    assert_eq!(rc.ref_count(), 1);
    assert!(rc.is_allowed());
    assert!(rc.try_get_exclusive_ref().is_none());
    reference.release(&mut rc);
    assert!(rc.no_refs());
}

#[test]
fn waiters_are_woken_in_order() {
    let mut rc = RefCount::<2>::new();
    let exclusive = rc.try_get_exclusive_ref().unwrap();
    let mut futures = Vec::new();
    for _ in 0..3 {
        match rc.get_ref() {
            MaybeFuture::Ready(_) => panic!("got a reference beside an exclusive one"),
            MaybeFuture::Future(fut) => futures.push(fut),
        }
    }
    assert!(matches!(futures[0].poll(&mut rc, Waiter::new(10, 0)), Poll::Pending { wake: None }));
    assert!(matches!(futures[1].poll(&mut rc, Waiter::new(11, 1)), Poll::Pending { wake: None }));
    // The queue is full, so the third is to be polled again at once.
    assert!(matches!(
        futures[2].poll(&mut rc, Waiter::new(12, 2)),
        Poll::Pending { wake: Some(12) }
    ));
    assert!(futures[0].registered);
    assert!(futures[1].registered);
    assert!(!futures[2].registered);
    // A registered future does not join the queue again.
    assert!(matches!(futures[0].poll(&mut rc, Waiter::new(10, 0)), Poll::Pending { wake: None }));
    let woken = all(exclusive.release(&mut rc));
    assert_eq!(woken, vec![Waiter::new(10, 0), Waiter::new(11, 1)]);
    let mut tasks = Vec::new();
    for waiter in woken {
        tasks.push(waiter.wake(&mut futures[waiter.registered].registered));
    }
    assert_eq!(tasks, vec![10, 11]);
    let mut refs = Vec::new();
    for fut in futures.iter_mut() {
        match fut.poll(&mut rc, Waiter::new(0, 0)) {
            Poll::Ready(r) => refs.push(r),
            Poll::Pending { .. } => panic!("references are allowed"),
        }
    }
    assert_eq!(rc.ref_count(), 3);
    for r in refs {
        r.release(&mut rc);
    }
    assert!(rc.no_refs());
}

#[test]
fn exclusive_future_waits_for_the_block_first() {
    let mut rc = RefCount::<4>::new();
    let first = rc.try_get_exclusive_ref().unwrap();
    let mut fut = match rc.get_exclusive_ref() {
        MaybeFuture::Ready(_) => panic!("two exclusive references"),
        MaybeFuture::Future(fut) => fut,
    };
    assert!(fut.blocked_fut.is_some());
    let waiter = Waiter::new(3, 0);
    assert!(matches!(fut.poll(&mut rc, waiter), Poll::Pending { wake: None }));
    assert_eq!(all(first.release(&mut rc)), vec![waiter]);
    let reference = rc.try_get_ref().unwrap();
    // It has the block now, and waits for the reference.
    assert!(matches!(fut.poll(&mut rc, waiter), Poll::Pending { wake: Some(3) }));
    assert!(fut.blocked_fut.is_none());
    assert!(rc.is_blocked());
    reference.release(&mut rc);
    assert!(matches!(fut.poll(&mut rc, waiter), Poll::Ready(_)));
}

#[test]
fn exclusive_future_without_block() {
    let mut rc = RefCount::<4>::new();
    assert!(rc.try_block_refs());
    let mut fut = FutureExclusiveRef::new(&rc, None);
    match fut.poll(&mut rc, Waiter::new(0, 0)) {
        Poll::Ready(e) => assert!(e.release(&mut rc).is_empty()),
        Poll::Pending { .. } => panic!("nothing to wait for"),
    }
    assert!(rc.no_refs());
}

#[test]
fn words() {
    assert_eq!(standard_refs(9), 4);
    assert_eq!(block_state(9), 1);
    assert_eq!(block_state(8), 0);
    assert_eq!(all_refs(9), 4);
    assert_eq!(all_refs(8), 4);
    assert_eq!(all_refs(1), 1);
    assert_eq!(all_refs(0), 0);
    assert_eq!(all_refs(u32::MAX), 0x7fff_ffff);
    assert_eq!(unblocked(9), 8);
    assert_eq!(unblocked(8), 8);
    assert_eq!(released(9), 7);
}

#[test]
fn attempts_are_four() {
    let a = Attempt::new(Grab::Reference, 5);
    assert_eq!((a.current, a.next, a.left), (4, 6, 4));
    let a = a.retry(9);
    assert_eq!((a.current, a.next, a.left), (8, 10, 3));
    let a = a.retry(8).retry(2);
    assert_eq!((a.current, a.next, a.left), (2, 4, 1));
    let a = a.retry(6);
    assert_eq!((a.current, a.next, a.left), (2, 4, 0));
    let b = Attempt::new(Grab::Block, 5);
    assert_eq!((b.current, b.next), (4, 5));
    let most = Attempt::new(Grab::Reference, u32::MAX - 3);
    assert_eq!((most.current, most.next), (u32::MAX - 3, u32::MAX - 1));
}

#[test]
fn steps_of_polls() {
    assert_eq!(PollStep::start(Grab::Reference), PollStep::LookBlocked);
    assert_eq!(PollStep::start(Grab::Block), PollStep::TryGrab);
    assert_eq!(PollStep::LookBlocked.advance(Grab::Reference, false), PollStep::TryGrab);
    assert_eq!(PollStep::LookBlocked.advance(Grab::Block, false), PollStep::WakeSelf);
    assert_eq!(PollStep::TryGrab.advance(Grab::Reference, false), PollStep::WakeSelf);
    assert_eq!(PollStep::TryGrab.advance(Grab::Block, false), PollStep::LookBlocked);
    assert_eq!(PollStep::TryGrab.advance(Grab::Block, true), PollStep::Ready);
    assert_eq!(PollStep::WakeSelf.advance(Grab::Block, true), PollStep::Pending);
    assert_eq!(PollStep::LookRegistered.advance(Grab::Block, false), PollStep::Register);
    assert_eq!(PollStep::Register.advance(Grab::Block, true), PollStep::Enqueue);
    assert_eq!(PollStep::Enqueue.advance(Grab::Reference, true), PollStep::LookAgain);
    assert_eq!(PollStep::Enqueue.advance(Grab::Reference, false), PollStep::WakeWaiter);
    assert_eq!(PollStep::LookAgain.advance(Grab::Reference, true), PollStep::Pending);
    assert_eq!(PollStep::LookAgain.advance(Grab::Reference, false), PollStep::WakeSelf);
    assert_eq!(ExclusivePollStep::start(true), ExclusivePollStep::PollBlock);
    assert_eq!(ExclusivePollStep::start(false), ExclusivePollStep::LookRefs);
    assert_eq!(ExclusivePollStep::PollBlock.advance(false), ExclusivePollStep::Pending);
    assert_eq!(exclusive_start(false, true), ExclusiveStart::AwaitBlock);
    assert_eq!(exclusive_start(true, false), ExclusiveStart::AwaitRefs);
    assert_eq!(exclusive_start(true, true), ExclusiveStart::Ready);
}

#[test]
fn steps_of_blocking_requests() {
    let step = BlockingStep::TryGrab;
    assert_eq!(step.advance(Grab::Reference, true), BlockingStep::Granted);
    assert_eq!(step.advance(Grab::Reference, false), BlockingStep::WaitGrab);
    assert_eq!(step.advance(Grab::Block, true), BlockingStep::LookRefs);
    assert_eq!(BlockingStep::WaitGrab.advance(Grab::Block, true), BlockingStep::TryGrab);
    assert_eq!(BlockingStep::LookRefs.advance(Grab::Block, false), BlockingStep::WaitRefs);
    assert_eq!(BlockingStep::WaitRefs.advance(Grab::Block, true), BlockingStep::LookRefs);
    assert_eq!(BlockingStep::LookRefs.advance(Grab::Block, true), BlockingStep::Granted);
}

#[test]
fn steps_of_unblocking() {
    let step = UnblockStep::Clear.advance(true);
    assert_eq!(step, UnblockStep::Pop { first: true });
    assert_eq!(step.advance(false), UnblockStep::Spin);
    assert_eq!(step.advance(false).advance(true), UnblockStep::Pop { first: false });
    assert_eq!(step.advance(true), UnblockStep::Wake);
    assert_eq!(step.advance(true).advance(true), UnblockStep::Pop { first: false });
    assert_eq!(UnblockStep::Pop { first: false }.advance(false), UnblockStep::Over);
}

#[test]
fn request_is_no_reference_yet() {
    let mut rc = RefCount::<32>::new();
    let reference = rc.try_get_ref().unwrap();
    let mut fut = match rc.get_exclusive_ref() {
        MaybeFuture::Ready(_) => panic!("exclusive beside another reference"),
        MaybeFuture::Future(fut) => fut,
    };
    assert_eq!(rc.ref_count(), 1);
    reference.release(&mut rc);
    assert!(matches!(fut.poll(&mut rc, Waiter::new(0, 0)), Poll::Ready(_)));
    assert_eq!(rc.ref_count(), 1);
}

#[test]
fn release_restores_the_counter() {
    let mut rc = RefCount::<4>::new();
    let kept = rc.try_get_ref().unwrap();
    let given = rc.blocking_get_ref();
    assert!(rc.try_block_refs());
    let mut fut = match rc.get_ref() {
        MaybeFuture::Ready(_) => panic!("got a reference while blocked"),
        MaybeFuture::Future(fut) => fut,
    };
    let waiter = Waiter::new(1, 0);
    assert!(matches!(fut.poll(&mut rc, waiter), Poll::Pending { wake: None }));
    given.release(&mut rc);
    assert_eq!(rc.standard_ref_count(), 1);
    assert_eq!(rc.raw_state(), 1);
    assert_eq!(all(rc.unblock_refs()), vec![waiter]);
    kept.release(&mut rc);
    assert!(rc.no_refs());
}

#[test]
fn looks_are_five() {
    let mut step = ExclusiveStep::Block.advance(true);
    let mut looks = 0;
    while let ExclusiveStep::Look { .. } = step {
        looks += 1;
        step = step.advance(false).advance(true);
    }
    assert_eq!(looks, 5);
    assert_eq!(step, ExclusiveStep::Unblock);
    assert_eq!(step.advance(true), ExclusiveStep::Denied);
    assert_eq!(ExclusiveStep::Block.advance(false), ExclusiveStep::Denied);
    assert_eq!(ExclusiveStep::Look { looks: 4 }.advance(true), ExclusiveStep::Granted);
}

#[test]
fn waiter_wakes() {
    let waiter = Waiter::new(7, 1);
    let mut flag = true;
    assert_eq!(waiter.inner_wake(), 7);
    assert!(flag);
    assert_eq!(waiter.wake(&mut flag), 7);
    assert!(!flag);
    waiter.set_registered(&mut flag, true);
    assert!(flag);
}

#[test]
fn backoff_grows_and_yields() {
    let mut backoff = Backoff::new();
    let expected = [2, 4, 8, 16, 32, 64, 128, 256, 2, 4];
    for rounds in expected {
        assert_eq!(backoff.spin(), Rest { rounds, yields: false });
    }
    backoff.reset();
    for _ in 0..YIELD_POINT {
        assert!(!backoff.snooze().yields);
    }
    assert_eq!(backoff.snooze(), Rest { rounds: 2, yields: true });
    assert_eq!(backoff.snooze(), Rest { rounds: 2, yields: false });
    assert_eq!(slight_spin(15, &mut Hints::new()), 256);
}

#[test]
fn cache_line_holds_a_value() {
    let mut line = CacheLine::new(3);
    assert_eq!(*line, 3);
    *line += 1;
    assert_eq!(line.0, 4);
    assert_eq!(CacheLine::from(5u8).0, 5);
}

#[test]
fn shared_word_is_grabbed_and_given_back() {
    let mut trace = Trace::new();
    let word = SharedWord::new(&mut trace);
    assert_eq!(word.load(&mut trace), 0);
    let won = word.grab(Grab::Reference, &mut trace).unwrap();
    assert_eq!((won.current, won.next), (0, 2));
    word.grab(Grab::Reference, &mut trace).unwrap();
    assert_eq!(word.load(&mut trace), 4);
    let won = word.grab(Grab::Block, &mut trace).unwrap();
    assert_eq!((won.current, won.next), (4, 5));
    assert_eq!(word.grab(Grab::Reference, &mut trace), Err(Refusal::Lost));
    assert_eq!(word.grab(Grab::Block, &mut trace), Err(Refusal::Lost));
    word.release(&mut trace);
    assert_eq!(word.load(&mut trace), 3);
    word.unblock(&mut trace);
    assert_eq!(word.load(&mut trace), 2);
    word.release(&mut trace);
    assert_eq!(word.load(&mut trace), 0);
}

#[test]
fn held_references_and_blocks_are_given_back_when_dropped() {
    let mut trace = Trace::new();
    let word = SharedWord::new(&mut trace);
    word.grab(Grab::Reference, &mut trace).unwrap();
    let one = HeldRef::new(&word);
    word.grab(Grab::Reference, &mut trace).unwrap();
    let other = HeldRef::new(&word);
    word.grab(Grab::Block, &mut trace).unwrap();
    let block = HeldBlock::new(&word);
    assert_eq!(word.load(&mut trace), 5);
    drop(one);
    assert_eq!(word.load(&mut trace), 3);
    drop(block);
    assert_eq!(word.load(&mut trace), 2);
    drop(other);
    assert_eq!(word.load(&mut trace), 0);
}

#[test]
fn polls_are_over_after_seven_steps() {
    for answers in 0..128u32 {
        for grab in [Grab::Reference, Grab::Block] {
            let mut step = PollStep::start(grab);
            for k in 0..7 {
                step = step.advance(grab, answers >> k & 1 == 1);
            }
            assert!(matches!(step, PollStep::Ready | PollStep::Pending));
        }
    }
}

#[test]
fn requests_are_over_after_twelve_steps() {
    for answers in 0..4096u32 {
        let mut step = ExclusiveStep::Block;
        for k in 0..12 {
            step = step.advance(answers >> k & 1 == 1);
        }
        assert!(matches!(step, ExclusiveStep::Granted | ExclusiveStep::Denied));
    }
}
