//! The state word: a count of references and a bit that blocks new ones.

use vstd::prelude::*;
use crate::consts::ATTEMPTS;
use crate::consts::MAX_REFS;
use crate::consts::REF_BLOCKED;
use crate::consts::REF_COUNT_MASK;
use crate::consts::REF_COUNT_SHIFT;
use crate::consts::REF_INCR;
use crate::consts::STATE_MASK;

verus! {

/// The number of standard references that a state word counts.
pub open spec fn refs_of(word: u32) -> nat {
    (word / 2) as nat
}

/// Whether references are blocked in a state word.
pub open spec fn blocked_in(word: u32) -> bool {
    word % 2 == 1
}

/// The state word that counts `refs` references and says whether they are blocked.
pub open spec fn word_of(refs: nat, blocked: bool) -> int {
    2 * refs + (if blocked {
        1int
    } else {
        0
    })
}

/// A state word is its count and its block bit.
pub proof fn lemma_word(word: u32)
    ensures
        word == word_of(refs_of(word), blocked_in(word)),
        refs_of(word) <= MAX_REFS,
{
}

/// The count and the block bit of a word are the ones that it was made of.
pub proof fn lemma_word_of(refs: nat, blocked: bool)
    requires
        refs <= MAX_REFS,
    ensures
        0 <= word_of(refs, blocked) <= u32::MAX,
        refs_of(word_of(refs, blocked) as u32) == refs,
        blocked_in(word_of(refs, blocked) as u32) == blocked,
{
}

/// Two words count as many references exactly if they differ in the lowest bit at most, which alone
/// says whether references are blocked. One more reference makes a word greater by two.
pub proof fn words_are_counts(word: u32)
    ensures
        2 * refs_of(word) <= word <= 2 * refs_of(word) + 1,
        blocked_in(word) <==> word == 2 * refs_of(word) + 1,
        !blocked_in(word) <==> word == 2 * refs_of(word),
        word <= u32::MAX - 2 ==> refs_of((word + 2) as u32) == refs_of(word) + 1 && blocked_in(
            (word + 2) as u32,
        ) == blocked_in(word),
{
}

/// A word is made of its count and its block bit alone: two for each reference, and one for the
/// block.
pub proof fn words_add_up(refs: nat, blocked: bool)
    ensures
        word_of(refs + 1, blocked) == word_of(refs, blocked) + 2,
        word_of(refs, true) == word_of(refs, false) + 1,
        word_of(refs, false) == refs + refs,
{
}

/// What the masks and the shift take out of a word.
proof fn lemma_bits(word: u32)
    ensures
        word >> REF_COUNT_SHIFT == word / 2,
        word & STATE_MASK == word % 2,
        word & REF_COUNT_MASK == word - word % 2,
        (word & REF_COUNT_MASK) | REF_BLOCKED == word - word % 2 + 1,
{
    assert(word >> 1u32 == word / 2) by (bit_vector);
    assert(word & 1 == word % 2) by (bit_vector);
    assert(word & 0xffff_fffe == word - word % 2) by (bit_vector);
    assert((word & 0xffff_fffe) | 1 == word - word % 2 + 1) by (bit_vector);
}

/// Masking out the block bit leaves the count.
pub proof fn lemma_unblocked(word: u32)
    ensures
        word & REF_COUNT_MASK == word_of(refs_of(word), false),
{
    lemma_bits(word);
}

/// Whether references can take place or are blocked.
#[derive(Clone, Copy, PartialEq, Eq, Structural)]
pub enum State {
    /// References must wait, there is an exclusive reference or a request for one.
    Blocked,
    /// References can take place.
    Allowed,
}

impl State {
    /// The state that a state word is in.
    #[must_use]
    pub fn from_raw(state: u32) -> (result: Self)
        ensures
            result == (if blocked_in(state) {
                State::Blocked
            } else {
                State::Allowed
            }),
    {
        if block_state(state) == REF_BLOCKED {
            State::Blocked
        } else {
            State::Allowed
        }
    }

    /// Whether references were allowed.
    #[must_use]
    pub fn is_allowed(&self) -> (allowed: bool)
        ensures
            allowed == (*self is Allowed),
    {
        matches!(self, State::Allowed)
    }

    /// Whether references were blocked.
    #[must_use]
    pub fn is_blocked(&self) -> (blocked: bool)
        ensures
            blocked == (*self is Blocked),
    {
        matches!(self, State::Blocked)
    }

    /// The state in words.
    pub fn to_string(&self) -> (text: String)
        ensures
            text@ == (match *self {
                State::Allowed => "allowed"@,
                State::Blocked => "blocked"@,
            }),
    {
        match self {
            State::Allowed => "allowed".to_owned(),
            State::Blocked => "blocked".to_owned(),
        }
    }
}

/// The number of standard references that a state word counts.
pub fn standard_refs(state: u32) -> (refs: u32)
    ensures
        refs == refs_of(state),
        refs == state / 2,
{
    proof {
        lemma_bits(state);
    }
    state >> REF_COUNT_SHIFT
}

/// The block bit of a state word: 1 if references are blocked, 0 if they are allowed.
pub fn block_state(state: u32) -> (bit: u32)
    ensures
        bit == (if blocked_in(state) {
            1u32
        } else {
            0u32
        }),
{
    proof {
        lemma_bits(state);
    }
    state & STATE_MASK
}

/// The number of references of either kind that a state word speaks of. The standard ones count as
/// long as there are any: whoever blocks references then has none yet. With none left, the block
/// counts as an exclusive one.
pub open spec fn all_refs_of(word: u32) -> nat {
    if refs_of(word) > 0 {
        refs_of(word)
    } else if blocked_in(word) {
        1
    } else {
        0
    }
}

/// All standard references count, and the block counts only with none of them left. Nothing counts
/// exactly in a word that is zero.
pub proof fn all_refs_are_counted(word: u32)
    ensures
        word >= 2 ==> all_refs_of(word) == word / 2,
        word < 2 ==> all_refs_of(word) == word,
        all_refs_of(word) == 0 <==> word == 0,
{
}

/// The number of references of either kind that a state word speaks of.
pub fn all_refs(state: u32) -> (refs: u32)
    ensures
        refs == all_refs_of(state),
        refs == (if state < 2 {
            state
        } else {
            state / 2
        }),
{
    let refs = standard_refs(state);
    if refs > 0 {
        refs
    } else {
        block_state(state)
    }
}

/// The state word without the block bit.
pub fn unblocked(state: u32) -> (next: u32)
    ensures
        next == word_of(refs_of(state), false),
        next == state - state % 2,
{
    proof {
        lemma_bits(state);
    }
    state & REF_COUNT_MASK
}

/// The state word after one reference is gone.
pub fn released(state: u32) -> (next: u32)
    requires
        refs_of(state) > 0,
    ensures
        next == word_of((refs_of(state) - 1) as nat, blocked_in(state)),
        next == state - 2,
{
    state - REF_INCR
}

/// What a change of the state word is for.
#[derive(Clone, Copy, Debug, PartialEq, Eq, Structural)]
pub enum Grab {
    /// To count one more standard reference.
    Reference,
    /// To block references.
    Block,
}

impl Grab {
    /// The word that a grab expects to find, having seen `seen`: as many references, not blocked.
    pub open spec fn expects(self, seen: u32) -> int {
        word_of(refs_of(seen), false)
    }

    /// The word that a grab puts in place, having seen `seen`.
    pub open spec fn puts(self, seen: u32) -> int {
        match self {
            Grab::Reference => word_of(refs_of(seen) + 1, false),
            Grab::Block => word_of(refs_of(seen), true),
        }
    }

    /// Whether the word that a grab puts in place, having seen `seen`, is a state word.
    pub open spec fn fits(self, seen: u32) -> bool {
        self is Reference ==> refs_of(seen) < MAX_REFS
    }
}

impl Grab {
    /// A grab expects a word without the block, with the references that it saw, and so fails while
    /// references are blocked. It puts a word there with one reference more and no block, or with
    /// the same references and the block.
    pub proof fn grab_changes_one_thing(self, seen: u32)
        ensures
            self.expects(seen) == seen - seen % 2,
            self.expects(seen) % 2 == 0,
            seen % 2 == 1 ==> self.expects(seen) != seen,
            seen % 2 == 0 ==> self.expects(seen) == seen,
            self is Reference ==> self.puts(seen) == self.expects(seen) + 2,
            self is Block ==> self.puts(seen) == self.expects(seen) + 1,
            self.fits(seen) <==> self.puts(seen) <= u32::MAX,
    {
    }
}

/// An attempt to change the state word with a compare-and-exchange.
#[derive(Clone, Copy, Debug, PartialEq, Eq, Structural)]
pub struct Attempt {
    /// What the change is for.
    pub grab: Grab,
    /// The word that must be found.
    pub current: u32,
    /// The word that is put in its place.
    pub next: u32,
    /// How many attempts are left, with this one.
    pub left: u32,
}

impl Attempt {
    /// The attempt is to change some state word as its grab does.
    pub open spec fn wf(self) -> bool {
        &&& self.left <= ATTEMPTS
        &&& !blocked_in(self.current)
        &&& self.grab.fits(self.current)
        &&& self.next == self.grab.puts(self.current)
    }

    /// The first attempt after the state word was seen as `seen`.
    pub open spec fn first(grab: Grab, seen: u32) -> Attempt {
        Attempt {
            grab,
            current: grab.expects(seen) as u32,
            next: grab.puts(seen) as u32,
            left: ATTEMPTS,
        }
    }

    /// What follows an attempt whose exchange failed and found `found`: the next attempt goes by the
    /// word found. After the last attempt none is left.
    pub open spec fn then_from(self, found: u32) -> Attempt {
        if self.left > 1 {
            Attempt { left: (self.left - 1) as u32, ..Attempt::first(self.grab, found) }
        } else {
            Attempt { left: 0, ..self }
        }
    }

    /// An attempt is to put a word with one reference more, or with the block, in the place of one
    /// that has no block.
    pub proof fn attempts_are_sound(self)
        requires
            self.wf(),
        ensures
            self.current % 2 == 0,
            self.grab is Reference ==> self.next == self.current + 2,
            self.grab is Block ==> self.next == self.current + 1,
            self.left <= ATTEMPTS,
    {
    }

    /// The first attempt goes by the word seen, and has all attempts left. Each failure uses up one,
    /// and the next attempt is as if the word found had been the word seen, until none is left.
    pub proof fn failures_use_up_attempts(self, grab: Grab, seen: u32, found: u32)
        requires
            grab.fits(seen),
            self.left > 1 ==> self.grab.fits(found),
        ensures
            Self::first(grab, seen).grab == grab,
            Self::first(grab, seen).current == seen - seen % 2,
            Self::first(grab, seen).left == ATTEMPTS,
            Self::first(grab, seen).wf(),
            self.then_from(found).grab == self.grab,
            self.left > 0 ==> self.then_from(found).left == self.left - 1,
            self.left == 0 ==> self.then_from(found).left == 0,
            self.left > 1 ==> {
                &&& self.then_from(found).current == found - found % 2
                &&& self.then_from(found).next == Self::first(self.grab, found).next
            },
    {
    }

    /// The first attempt after the state word was seen as `seen`.
    pub fn new(grab: Grab, seen: u32) -> (attempt: Self)
        requires
            grab.fits(seen),
        ensures
            attempt == Attempt::first(grab, seen),
            attempt.wf(),
            attempt.current == grab.expects(seen),
            attempt.next == grab.puts(seen),
    {
        let (current, next) = Self::words(grab, seen);
        Attempt { grab, current, next, left: ATTEMPTS }
    }

    /// The words of an attempt after the state word was seen as `seen`. The block bit is masked out
    /// of the word to be found, so the exchange fails while references are blocked.
    fn words(grab: Grab, seen: u32) -> (words: (u32, u32))
        requires
            grab.fits(seen),
        ensures
            words.0 == grab.expects(seen),
            words.1 == grab.puts(seen),
    {
        proof {
            lemma_bits(seen);
        }
        let current = seen & REF_COUNT_MASK;
        match grab {
            Grab::Reference => (current, current + REF_INCR),
            Grab::Block => (current, current | REF_BLOCKED),
        }
    }

    /// What follows when the exchange failed and found `found`.
    pub fn retry(self, found: u32) -> (attempt: Self)
        requires
            self.wf(),
            self.left > 0,
            self.left > 1 ==> self.grab.fits(found),
        ensures
            attempt == self.then_from(found),
            attempt.wf(),
            self.left > 1 ==> attempt.current == self.grab.expects(found),
    {
        if self.left > 1 {
            let (current, next) = Self::words(self.grab, found);
            Attempt { grab: self.grab, current, next, left: self.left - 1 }
        } else {
            Attempt { left: 0, ..self }
        }
    }
}

} // verus!
