use std::future::Future;
use std::pin::Pin;
use std::task::{Context, Poll, Waker};

use loom::cell::Cell;
use loom::future::block_on;
use loom::sync::atomic::{fence, AtomicBool, AtomicU32, AtomicUsize, Ordering};
use loom::sync::Arc;
use loom::thread;
use ref_count::consts::{REF_COUNT_MASK, REF_INCR};
use ref_count::poll_steps::{
    exclusive_start, BlockingStep, ExclusivePollStep, ExclusiveStart, ExclusiveStep, PollStep,
    UnblockStep,
};
use ref_count::queue_steps::{Access, LenStep, OnFull, Pause, PopStep, PushStep, Reply};
use ref_count::stamp::Layout;
use ref_count::state::{block_state, standard_refs, Attempt, Grab};

/// A ring whose words and slots threads share. Two threads at the value in one slot are caught.
struct SharedRing<T> {
    layout: Layout,
    head: AtomicUsize,
    tail: AtomicUsize,
    stamps: Vec<AtomicUsize>,
    values: Vec<Cell<Option<T>>>,
}

impl<T> SharedRing<T> {
    fn new(capacity: usize) -> Self {
        SharedRing {
            layout: Layout::new(capacity),
            head: AtomicUsize::new(0),
            tail: AtomicUsize::new(0),
            stamps: (0..capacity).map(AtomicUsize::new).collect(),
            values: (0..capacity).map(|_| Cell::new(None)).collect(),
        }
    }

    fn exchange(word: &AtomicUsize, current: usize, new: usize) -> Reply {
        match word.compare_exchange_weak(current, new, Ordering::SeqCst, Ordering::Relaxed) {
            Ok(_) => Reply::Exchanged,
            Err(found) => Reply::Found(found),
        }
    }

    fn perform(&self, access: Access, hand: &mut Option<T>) -> Reply {
        match access {
            Access::LoadHead => Reply::Word(self.head.load(Ordering::Acquire)),
            Access::LoadTail => Reply::Word(self.tail.load(Ordering::Relaxed)),
            Access::LoadStamp { index } => {
                Reply::Word(self.stamps[index].load(Ordering::Acquire))
            }
            Access::ExchangeHead { current, new } => Self::exchange(&self.head, current, new),
            Access::ExchangeTail { current, new } => Self::exchange(&self.tail, current, new),
            Access::StoreTail { tail } => {
                self.tail.store(tail, Ordering::SeqCst);
                Reply::Made
            }
            Access::StoreStamp { index, stamp } => {
                self.stamps[index].store(stamp, Ordering::Release);
                Reply::Made
            }
            Access::Write { index } => {
                assert!(self.values[index].replace(hand.take()).is_none());
                Reply::Made
            }
            Access::Swap { index } => {
                *hand = self.values[index].replace(hand.take());
                assert!(hand.is_some());
                Reply::Made
            }
            Access::Take { index } => {
                *hand = self.values[index].take();
                assert!(hand.is_some());
                Reply::Made
            }
            Access::Done => Reply::Made,
        }
    }

    fn push_or_else(&self, value: T, on_full: OnFull) -> Result<(), T> {
        let mut hand = Some(value);
        let mut step = PushStep::LoadTail;
        loop {
            let access = step.access(self.layout);
            if access == Access::Done {
                return match hand {
                    None => Ok(()),
                    Some(back) => Err(back),
                };
            }
            if matches!(step, PushStep::LoadHead { .. } | PushStep::ClaimHead { .. }) {
                fence(Ordering::SeqCst);
            }
            let reply = self.perform(access, &mut hand);
            let (next, pause) = step.advance(self.layout, on_full, reply);
            if pause != Pause::No {
                thread::yield_now();
            }
            step = next;
        }
    }

    fn push(&self, value: T) -> Result<(), T> {
        self.push_or_else(value, OnFull::Refuse)
    }

    fn force_push(&self, value: T) -> Option<T> {
        self.push_or_else(value, OnFull::Replace).err()
    }

    fn len(&self) -> usize {
        let mut step = LenStep::LoadTail;
        loop {
            let word = match step {
                LenStep::LoadHead { .. } => self.head.load(Ordering::SeqCst),
                LenStep::LoadTail | LenStep::CheckTail { .. } => self.tail.load(Ordering::SeqCst),
                LenStep::Counted { len } => return len,
            };
            step = step.advance(self.layout, word);
        }
    }

    fn pop(&self) -> Option<T> {
        let mut hand = None;
        let mut step = PopStep::LoadHead;
        loop {
            let access = step.access(self.layout);
            if access == Access::Done {
                return hand;
            }
            if matches!(step, PopStep::LoadTail { .. }) {
                fence(Ordering::SeqCst);
            }
            let reply = self.perform(access, &mut hand);
            let (next, pause) = step.advance(self.layout, reply);
            if pause != Pause::No {
                thread::yield_now();
            }
            step = next;
        }
    }
}

#[test]
fn test_concurrent_push_pop() {
    loom::model(|| {
        let queue = Arc::new(SharedRing::<i32>::new(5));

        let producer = {
            let queue = queue.clone();
            thread::spawn(move || {
                queue.push(5).unwrap();
            })
        };

        let consumer = {
            let queue = queue.clone();
            thread::spawn(move || {
                if let Some(item) = queue.pop() {
                    assert_eq!(item, 5);
                }
            })
        };

        producer.join().unwrap();
        consumer.join().unwrap();
    });
}

#[test]
fn concurrent_pushes_are_both_stored() {
    loom::model(|| {
        let queue = Arc::new(SharedRing::<i32>::new(2));
        let other = {
            let queue = queue.clone();
            thread::spawn(move || queue.push(1).unwrap())
        };
        queue.push(2).unwrap();
        other.join().unwrap();
        let mut items = vec![queue.pop().unwrap(), queue.pop().unwrap()];
        items.sort();
        assert_eq!(items, vec![1, 2]);
        assert_eq!(queue.pop(), None);
        assert_eq!(queue.push(3), Ok(()));
    });
}

#[test]
fn concurrent_force_push_and_pop_lose_nothing() {
    loom::model(|| {
        let queue = Arc::new(SharedRing::<i32>::new(1));
        queue.push(1).unwrap();
        let other = {
            let queue = queue.clone();
            thread::spawn(move || queue.force_push(2))
        };
        let popped = queue.pop();
        let replaced = other.join().unwrap();
        let left = queue.pop();
        let mut all: Vec<i32> = vec![];
        all.extend(popped);
        all.extend(replaced);
        all.extend(left);
        all.sort();
        assert_eq!(all, vec![1, 2]);
    });
}

#[test]
fn concurrent_pushes_into_one_slot_refuse_one() {
    loom::model(|| {
        let queue = Arc::new(SharedRing::<i32>::new(1));
        let other = {
            let queue = queue.clone();
            thread::spawn(move || queue.push(1))
        };
        let mine = queue.push(2);
        let theirs = other.join().unwrap();
        let left = queue.pop();
        match (mine, theirs) {
            (Ok(()), Err(1)) => assert_eq!(left, Some(2)),
            (Err(2), Ok(())) => assert_eq!(left, Some(1)),
            other => panic!("{:?}", other),
        }
        assert_eq!(queue.pop(), None);
    });
}

#[test]
fn concurrent_pops_take_a_value_once() {
    loom::model(|| {
        let queue = Arc::new(SharedRing::<i32>::new(2));
        queue.push(7).unwrap();
        let other = {
            let queue = queue.clone();
            thread::spawn(move || queue.pop())
        };
        let mine = queue.pop();
        let theirs = other.join().unwrap();
        assert!(matches!((mine, theirs), (Some(7), None) | (None, Some(7))));
    });
}

#[test]
fn concurrent_count_is_of_one_moment() {
    loom::model(|| {
        let queue = Arc::new(SharedRing::<i32>::new(1));
        queue.push(1).unwrap();
        let other = {
            let queue = queue.clone();
            thread::spawn(move || {
                assert_eq!(queue.pop(), Some(1));
                assert_eq!(queue.push(2), Ok(()));
            })
        };
        assert!(queue.len() <= 1);
        other.join().unwrap();
        assert_eq!(queue.len(), 1);
    });
}

/// A future that waits: its waker, and the flag that tells it whether it is registered.
struct Waiter {
    waker: Waker,
    registered: Arc<AtomicBool>,
}

impl Waiter {
    fn wake(self) {
        self.registered.store(false, Ordering::Release);
        self.waker.wake();
    }
}

/// A counter that threads share.
struct Counter {
    word: AtomicU32,
    waiters: SharedRing<Waiter>,
}

impl Counter {
    fn new(max_waiting: usize) -> Self {
        Counter { word: AtomicU32::new(0), waiters: SharedRing::new(max_waiting) }
    }

    fn grab(&self, grab: Grab) -> bool {
        let mut attempt = Attempt::new(grab, self.word.load(Ordering::Acquire));
        while attempt.left > 0 {
            match self.word.compare_exchange_weak(
                attempt.current,
                attempt.next,
                Ordering::SeqCst,
                Ordering::SeqCst,
            ) {
                Ok(_) => return true,
                Err(found) => attempt = attempt.retry(found),
            }
        }
        false
    }

    fn is_blocked(&self) -> bool {
        block_state(self.word.load(Ordering::Acquire)) == 1
    }

    fn no_standard_refs(&self) -> bool {
        standard_refs(self.word.load(Ordering::Acquire)) == 0
    }

    fn release(&self) {
        self.word.fetch_sub(REF_INCR, Ordering::Release);
    }

    fn unblock(&self) {
        let mut popped = None;
        let mut step = UnblockStep::Clear;
        loop {
            let yes = match step {
                UnblockStep::Clear => {
                    self.word.fetch_and(REF_COUNT_MASK, Ordering::Release);
                    fence(Ordering::SeqCst);
                    true
                }
                UnblockStep::Pop { .. } => {
                    popped = self.waiters.pop();
                    popped.is_some()
                }
                UnblockStep::Spin => true,
                UnblockStep::Wake => {
                    popped.take().unwrap().wake();
                    true
                }
                UnblockStep::Over => return,
            };
            step = step.advance(yes);
        }
    }

    fn wait_for(&self, grab: Grab) {
        let mut step = BlockingStep::TryGrab;
        loop {
            let yes = match step {
                BlockingStep::TryGrab => self.grab(grab),
                BlockingStep::LookRefs => self.no_standard_refs(),
                BlockingStep::WaitGrab | BlockingStep::WaitRefs => {
                    thread::yield_now();
                    true
                }
                BlockingStep::Granted => return,
            };
            step = step.advance(grab, yes);
        }
    }
}

/// A future that waits to grab a reference or the block.
struct FutureGrab {
    counter: Arc<Counter>,
    grab: Grab,
    registered: Arc<AtomicBool>,
}

impl FutureGrab {
    fn new(counter: &Arc<Counter>, grab: Grab) -> Self {
        FutureGrab {
            counter: counter.clone(),
            grab,
            registered: Arc::new(AtomicBool::new(false)),
        }
    }
}

impl Future for FutureGrab {
    type Output = ();

    fn poll(self: Pin<&mut Self>, cx: &mut Context<'_>) -> Poll<()> {
        let mut refused = None;
        let mut step = PollStep::start(self.grab);
        loop {
            let yes = match step {
                PollStep::LookBlocked => self.counter.is_blocked(),
                PollStep::TryGrab => self.counter.grab(self.grab),
                PollStep::LookRegistered => self.registered.load(Ordering::Acquire),
                PollStep::Register => {
                    self.registered.store(true, Ordering::Relaxed);
                    true
                }
                PollStep::Enqueue => {
                    let waiter = Waiter {
                        waker: cx.waker().clone(),
                        registered: self.registered.clone(),
                    };
                    refused = self.counter.waiters.push(waiter).err();
                    refused.is_none()
                }
                PollStep::LookAgain => {
                    fence(Ordering::SeqCst);
                    self.counter.is_blocked()
                }
                PollStep::WakeWaiter => {
                    refused.take().unwrap().wake();
                    thread::yield_now();
                    true
                }
                PollStep::WakeSelf => {
                    cx.waker().wake_by_ref();
                    thread::yield_now();
                    true
                }
                PollStep::Ready => return Poll::Ready(()),
                PollStep::Pending => return Poll::Pending,
            };
            step = step.advance(self.grab, yes);
        }
    }
}

/// A future for an exclusive reference.
struct FutureExclusive {
    counter: Arc<Counter>,
    blocked_fut: Option<FutureGrab>,
}

impl Future for FutureExclusive {
    type Output = ();

    fn poll(mut self: Pin<&mut Self>, cx: &mut Context<'_>) -> Poll<()> {
        let mut step = ExclusivePollStep::start(self.blocked_fut.is_some());
        loop {
            let yes = match step {
                ExclusivePollStep::PollBlock => {
                    let fut = self.blocked_fut.as_mut().unwrap();
                    let ready = Pin::new(fut).poll(cx).is_ready();
                    if ready {
                        self.blocked_fut = None;
                    }
                    ready
                }
                ExclusivePollStep::LookRefs => self.counter.no_standard_refs(),
                ExclusivePollStep::WakeSelf => {
                    cx.waker().wake_by_ref();
                    thread::yield_now();
                    true
                }
                ExclusivePollStep::Ready => return Poll::Ready(()),
                ExclusivePollStep::Pending => return Poll::Pending,
            };
            step = step.advance(yes);
        }
    }
}

/// A value that only an exclusive reference may write and only a reference may read. Whoever reads or
/// writes it while another writes it is caught.
struct RwLock {
    data: Cell<u32>,
    state: Arc<Counter>,
}

struct ReadGuard<'lock> {
    lock: &'lock RwLock,
}

impl ReadGuard<'_> {
    fn get(&self) -> u32 {
        self.lock.data.get()
    }
}

impl Drop for ReadGuard<'_> {
    fn drop(&mut self) {
        self.lock.state.release();
    }
}

impl RwLock {
    fn new(data: u32, max_waiting: usize) -> Self {
        RwLock { data: Cell::new(data), state: Arc::new(Counter::new(max_waiting)) }
    }

    fn try_read(&self) -> Option<ReadGuard<'_>> {
        if self.state.grab(Grab::Reference) {
            Some(ReadGuard { lock: self })
        } else {
            None
        }
    }

    async fn read(&self) -> ReadGuard<'_> {
        if !self.state.grab(Grab::Reference) {
            FutureGrab::new(&self.state, Grab::Reference).await;
        }
        ReadGuard { lock: self }
    }

    async fn write_to(&self, val: u32) {
        let blocked = self.state.grab(Grab::Block);
        let fut = match exclusive_start(blocked, self.state.no_standard_refs()) {
            ExclusiveStart::Ready => None,
            ExclusiveStart::AwaitRefs => {
                Some(FutureExclusive { counter: self.state.clone(), blocked_fut: None })
            }
            ExclusiveStart::AwaitBlock => Some(FutureExclusive {
                counter: self.state.clone(),
                blocked_fut: Some(FutureGrab::new(&self.state, Grab::Block)),
            }),
        };
        if let Some(fut) = fut {
            fut.await;
        }
        self.data.set(val);
        self.state.unblock();
    }

    fn try_write_to(&self, val: u32) -> Option<()> {
        let mut step = ExclusiveStep::Block;
        loop {
            let yes = match step {
                ExclusiveStep::Block => self.state.grab(Grab::Block),
                ExclusiveStep::Look { .. } => self.state.no_standard_refs(),
                ExclusiveStep::Wait { .. } => {
                    thread::yield_now();
                    true
                }
                ExclusiveStep::Unblock => {
                    self.state.unblock();
                    true
                }
                ExclusiveStep::Granted => {
                    self.data.set(val);
                    self.state.unblock();
                    return Some(());
                }
                ExclusiveStep::Denied => return None,
            };
            step = step.advance(yes);
        }
    }
}

/// Runs `test` under the interleavings with at most `bound` switches away from a thread that could
/// go on.
fn model_bounded(bound: usize, test: impl Fn() + Sync + Send + 'static) {
    let mut builder = loom::model::Builder::new();
    builder.preemption_bound = Some(bound);
    builder.check(test);
}

#[test]
fn writers() {
    model_bounded(4, || {
        let rwlock = Arc::new(RwLock::new(0, 32));
        let rw = rwlock.clone();
        let t1 = thread::spawn(move || {
            block_on(async {
                rw.write_to(5).await;
            });
        });

        let rw = rwlock.clone();
        let t2 = thread::spawn(move || {
            block_on(async {
                rw.write_to(5).await;
            });
        });

        t1.join().unwrap();
        t2.join().unwrap();
        assert_eq!(rwlock.try_read().unwrap().get(), 5);
    });
}

#[test]
fn readers() {
    loom::model(|| {
        let rwlock = Arc::new(RwLock::new(0, 32));
        let rw = rwlock.clone();
        let t1 = thread::spawn(move || {
            let read = rw.try_read();
            drop(read);
        });

        let rw = rwlock.clone();
        let t2 = thread::spawn(move || {
            let read = rw.try_read();
            drop(read);
        });

        t1.join().unwrap();
        t2.join().unwrap();
        assert_eq!(rwlock.state.word.load(Ordering::SeqCst), 0);
    })
}

#[test]
fn reader_writer() {
    loom::model(|| {
        let rwlock = Arc::new(RwLock::new(0, 32));
        let rw = rwlock.clone();
        let t1 = thread::spawn(move || {
            rw.try_write_to(5);
        });

        let rw = rwlock.clone();
        let t2 = thread::spawn(move || {
            let read = rw.try_read();
            if let Some(read) = &read {
                assert!(matches!(read.get(), 0 | 5));
            }
            drop(read);
        });

        t1.join().unwrap();
        t2.join().unwrap();
        assert_eq!(rwlock.state.word.load(Ordering::SeqCst), 0);
    })
}

#[test]
fn reader_that_waits_is_woken() {
    model_bounded(3, || {
        let rwlock = Arc::new(RwLock::new(0, 1));
        assert!(rwlock.state.grab(Grab::Block));
        let rw = rwlock.clone();
        let reader = thread::spawn(move || {
            block_on(async {
                assert_eq!(rw.read().await.get(), 7);
            });
        });
        rwlock.data.set(7);
        rwlock.state.unblock();
        reader.join().unwrap();
        assert_eq!(rwlock.state.word.load(Ordering::SeqCst), 0);
    });
}

#[test]
fn waiters_beyond_the_queue_are_woken() {
    model_bounded(2, || {
        let rwlock = Arc::new(RwLock::new(0, 1));
        assert!(rwlock.state.grab(Grab::Block));
        let mut threads = Vec::new();
        for _ in 0..2 {
            let rw = rwlock.clone();
            threads.push(thread::spawn(move || {
                block_on(async {
                    assert_eq!(rw.read().await.get(), 7);
                });
            }));
        }
        rwlock.data.set(7);
        rwlock.state.unblock();
        for t in threads {
            t.join().unwrap();
        }
        assert_eq!(rwlock.state.word.load(Ordering::SeqCst), 0);
    });
}

#[test]
fn blocking_writer_waits_for_the_reader() {
    model_bounded(3, || {
        let rwlock = Arc::new(RwLock::new(0, 1));
        assert!(rwlock.state.grab(Grab::Reference));
        let rw = rwlock.clone();
        let writer = thread::spawn(move || {
            rw.state.wait_for(Grab::Block);
            rw.data.set(7);
            rw.state.unblock();
        });
        let read = ReadGuard { lock: &rwlock };
        assert_eq!(read.get(), 0);
        drop(read);
        writer.join().unwrap();
        assert_eq!(rwlock.try_read().unwrap().get(), 7);
    });
}
