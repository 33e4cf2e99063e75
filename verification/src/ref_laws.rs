//! What holds of a state word that many threads share.
//!
//! A request is a sequence of single accesses to the word, and between any two of them other
//! threads may make any number of theirs. All accesses take effect one after another, and a
//! compare-and-exchange may fail even though it finds the word that it expects. The laws hold after
//! every access, in whichever order they come.

use vstd::prelude::*;
use crate::state::blocked_in;
use crate::state::lemma_word;
use crate::state::lemma_word_of;
use crate::state::refs_of;
use crate::state::word_of;
use crate::state::Attempt;
use crate::state::Grab;

verus! {

/// Where a request is.
pub enum Request {
    /// It attempts to change the word.
    Attempting(Attempt),
    /// It has used up its attempts.
    Denied,
    /// It has a standard reference.
    Standard,
    /// It has blocked references, and waits for those that are left.
    Blocking,
    /// It has an exclusive reference.
    Exclusive,
    /// It has given back what it had.
    Over,
}

/// A state word, and all requests that were made.
pub struct Counter {
    /// The state word.
    pub word: u32,
    /// The requests.
    pub requests: Map<int, Request>,
    /// The requests that have a standard reference.
    pub standard: Set<int>,
    /// The request that has blocked references.
    pub blocker: Option<int>,
}

/// One access of a request to the word.
pub enum Event {
    /// A request is begun with a look at the word.
    Begin(Grab),
    /// A compare-and-exchange, which fails whatever it finds if `fails`.
    Exchange { fails: bool },
    /// A look whether standard references are left.
    Look,
    /// A standard reference is given back.
    Release,
    /// The block is given back.
    Unblock,
}

impl Counter {
    /// A counter on which no request was made.
    pub open spec fn fresh() -> Self {
        Counter {
            word: 0,
            requests: Map::empty(),
            standard: Set::empty(),
            blocker: None,
        }
    }

    /// Whether the request `id` can make the access `event`. The word must have room for one more
    /// reference where one is asked for and attempts are left.
    pub open spec fn can(self, id: int, event: Event) -> bool {
        match event {
            Event::Begin(grab) => !self.requests.contains_key(id) && grab.fits(self.word),
            _ => self.requests.contains_key(id) && match (self.requests[id], event) {
                (Request::Attempting(attempt), Event::Exchange { .. }) => attempt.left > 1
                    ==> attempt.grab.fits(self.word),
                (Request::Blocking, Event::Look) => true,
                (Request::Standard, Event::Release) => true,
                (Request::Blocking, Event::Unblock) => true,
                (Request::Exclusive, Event::Unblock) => true,
                (_, _) => false,
            },
        }
    }

    /// The counter after the request `id` made the access `event`.
    pub open spec fn after(self, id: int, event: Event) -> Self {
        match event {
            Event::Begin(grab) => Counter {
                requests: self.requests.insert(
                    id,
                    Request::Attempting(Attempt::first(grab, self.word)),
                ),
                ..self
            },
            Event::Exchange { fails } => {
                let attempt = self.requests[id]->Attempting_0;
                if !fails && self.word == attempt.current {
                    match attempt.grab {
                        Grab::Reference => Counter {
                            word: attempt.next,
                            requests: self.requests.insert(id, Request::Standard),
                            standard: self.standard.insert(id),
                            blocker: self.blocker,
                        },
                        Grab::Block => Counter {
                            word: attempt.next,
                            requests: self.requests.insert(id, Request::Blocking),
                            standard: self.standard,
                            blocker: Some(id),
                        },
                    }
                } else {
                    let next = attempt.then_from(self.word);
                    Counter {
                        requests: self.requests.insert(
                            id,
                            if next.left > 0 {
                                Request::Attempting(next)
                            } else {
                                Request::Denied
                            },
                        ),
                        ..self
                    }
                }
            },
            Event::Look => if refs_of(self.word) == 0 {
                Counter { requests: self.requests.insert(id, Request::Exclusive), ..self }
            } else {
                self
            },
            Event::Release => Counter {
                word: (self.word - 2) as u32,
                requests: self.requests.insert(id, Request::Over),
                standard: self.standard.remove(id),
                blocker: self.blocker,
            },
            Event::Unblock => Counter {
                word: word_of(refs_of(self.word), false) as u32,
                requests: self.requests.insert(id, Request::Over),
                standard: self.standard,
                blocker: None,
            },
        }
    }

    /// The word counts the standard references, and says whether references are blocked.
    pub open spec fn inv(self) -> bool {
        &&& self.standard.finite()
        &&& refs_of(self.word) == self.standard.len()
        &&& blocked_in(self.word) == (self.blocker is Some)
        &&& forall|id: int|
            #![trigger self.standard.contains(id)]
            #![trigger self.requests.contains_key(id)]
            self.standard.contains(id) <==> self.requests.contains_key(id)
                && self.requests[id] is Standard
        &&& self.blocker matches Some(id) ==> self.requests.contains_key(id) && (
        self.requests[id] is Blocking || self.requests[id] is Exclusive)
        &&& forall|id: int| #[trigger]
            self.requests.contains_key(id) && (self.requests[id] is Blocking
                || self.requests[id] is Exclusive) ==> self.blocker == Some(id)
        &&& forall|id: int| #[trigger]
            self.requests.contains_key(id) && self.requests[id] is Exclusive
                ==> self.standard.len() == 0
        &&& forall|id: int| #[trigger]
            self.requests.contains_key(id) ==> (self.requests[id] matches Request::Attempting(a)
                ==> a.wf() && a.left > 0)
    }

    /// A new counter is in order.
    pub proof fn fresh_is_in_order()
        ensures
            Self::fresh().inv(),
    {
    }

    /// Whatever access comes next, of whichever request, the counter stays in order.
    pub proof fn access_keeps_order(self, id: int, event: Event)
        requires
            self.inv(),
            self.can(id, event),
        ensures
            self.after(id, event).inv(),
    {
        let post = self.after(id, event);
        lemma_word(self.word);
        match event {
            Event::Begin(grab) => {
                lemma_word_of(refs_of(self.word), false);
                lemma_word_of(refs_of(self.word), true);
                if grab is Reference {
                    lemma_word_of(refs_of(self.word) + 1, false);
                }
            },
            Event::Exchange { fails } => {
                let attempt = self.requests[id]->Attempting_0;
                assert(self.requests.contains_key(id));
                lemma_word(attempt.current);
                lemma_word_of(refs_of(self.word), false);
                lemma_word_of(refs_of(self.word), true);
                if attempt.grab.fits(self.word) && attempt.grab is Reference {
                    lemma_word_of(refs_of(self.word) + 1, false);
                }
                lemma_word_of(refs_of(attempt.current), true);
            },
            Event::Look => {},
            Event::Release => {
                assert(self.requests.contains_key(id));
                assert(self.standard.contains(id));
                assert(self.standard.len() > 0) by {
                    vstd::set_lib::lemma_set_empty_equivalency_len(self.standard);
                }
            },
            Event::Unblock => {
                assert(self.requests.contains_key(id));
                lemma_word_of(refs_of(self.word), false);
            },
        }
    }

    /// While there is an exclusive reference there is no other reference, and nobody else holds the
    /// block.
    pub proof fn exclusive_is_alone(self, one: int, other: int)
        requires
            self.inv(),
            self.requests.contains_key(one),
            self.requests[one] is Exclusive,
            self.requests.contains_key(other),
            other != one,
        ensures
            self.requests[other] !is Standard,
            self.requests[other] !is Exclusive,
            self.requests[other] !is Blocking,
            refs_of(self.word) == 0,
            blocked_in(self.word),
    {
        if self.requests[other] is Standard {
            assert(self.standard.contains(other));
            vstd::set_lib::lemma_set_empty_equivalency_len(self.standard);
        }
    }

    /// The word counts the standard references, neither more nor fewer.
    pub proof fn count_is_exact(self)
        requires
            self.inv(),
        ensures
            refs_of(self.word) == self.standard.len(),
            forall|id: int| #[trigger]
                self.requests.contains_key(id) ==> (self.requests[id] is Standard
                    <==> self.standard.contains(id)),
            forall|id: int| #[trigger]
                self.standard.contains(id) ==> self.requests.contains_key(id),
            blocked_in(self.word) <==> exists|id: int| #[trigger]
                self.requests.contains_key(id) && (self.requests[id] is Blocking
                    || self.requests[id] is Exclusive),
    {
        if self.blocker is Some {
            assert(self.requests.contains_key(self.blocker->Some_0));
        }
    }

    /// While references are blocked, whatever access comes next, no request gets a reference of
    /// either kind but the one that holds the block.
    pub proof fn blocked_keeps_out(self, id: int, event: Event)
        requires
            self.inv(),
            self.can(id, event),
            blocked_in(self.word),
        ensures
            self.after(id, event).standard.subset_of(self.standard),
            self.blocker != Some(id) ==> self.after(id, event).requests[id] !is Exclusive
                && self.after(id, event).requests[id] !is Blocking,
    {
    }

    /// A request that asks for a reference gets one, if references are not blocked, no other thread
    /// gets in between and the exchange does not fail by chance.
    pub proof fn allowed_gets_in(self, id: int, grab: Grab)
        requires
            self.inv(),
            self.can(id, Event::Begin(grab)),
            !blocked_in(self.word),
        ensures
            ({
                let begun = self.after(id, Event::Begin(grab));
                let done = begun.after(id, Event::Exchange { fails: false });
                &&& begun.can(id, Event::Exchange { fails: false })
                &&& done.requests[id] == (match grab {
                    Grab::Reference => Request::Standard,
                    Grab::Block => Request::Blocking,
                })
                &&& refs_of(done.word) == refs_of(self.word) + (match grab {
                    Grab::Reference => 1int,
                    Grab::Block => 0,
                })
                &&& blocked_in(done.word) == (grab is Block)
            }),
    {
        lemma_word(self.word);
        lemma_word_of(refs_of(self.word), true);
        if grab is Reference {
            lemma_word_of(refs_of(self.word) + 1, false);
        }
    }

    /// Giving back what a request has undoes what it did to the word, whatever happened in between:
    /// the count is less by that reference alone, or the block alone is gone.
    pub proof fn giving_back_undoes(self, id: int, event: Event)
        requires
            self.inv(),
            self.can(id, event),
            event is Release || event is Unblock,
        ensures
            event is Release ==> {
                &&& refs_of(self.after(id, event).word) == refs_of(self.word) - 1
                &&& blocked_in(self.after(id, event).word) == blocked_in(self.word)
            },
            event is Unblock ==> {
                &&& refs_of(self.after(id, event).word) == refs_of(self.word)
                &&& !blocked_in(self.after(id, event).word)
            },
            forall|other: int|
                other != id && self.requests.contains_key(other) ==> #[trigger] self.after(
                    id,
                    event,
                ).requests[other] == self.requests[other],
    {
        self.access_keeps_order(id, event);
        lemma_word(self.word);
        lemma_word_of(refs_of(self.word), false);
        if event is Release {
            assert(self.standard.contains(id));
        }
    }

    /// Whether `post` comes right after this counter.
    pub open spec fn leads_to(self, post: Self) -> bool {
        exists|id: int, event: Event|
            self.can(id, event) && post == #[trigger] self.after(id, event)
    }

    /// Whether `run` is what becomes of a new counter, access by access.
    pub open spec fn is_run(run: Seq<Self>) -> bool {
        &&& run.len() > 0
        &&& run[0] == Self::fresh()
        &&& forall|i: int| 0 <= i < run.len() - 1 ==> (#[trigger] run[i]).leads_to(run[i + 1])
    }

    /// Whatever the threads do, and in whichever order, the counter is in order all the time.
    pub proof fn always_in_order(run: Seq<Self>, i: int)
        requires
            Self::is_run(run),
            0 <= i < run.len(),
        ensures
            run[i].inv(),
        decreases i,
    {
        if i == 0 {
            Self::fresh_is_in_order();
        } else {
            let pre = run[i - 1];
            Self::always_in_order(run, i - 1);
            assert(pre.leads_to(run[i - 1 + 1]));
            let (id, event) = choose|id: int, event: Event|
                pre.can(id, event) && run[i] == #[trigger] pre.after(id, event);
            pre.access_keeps_order(id, event);
        }
    }
}

} // verus!
