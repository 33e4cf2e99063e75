//! Stamps: one machine word that holds an index into a ring together with a lap number.
//!
//! The low bits of a stamp are an index below the ring's capacity, the high bits count how often
//! the ring has been walked through. One lap is a power of two greater than the capacity, so the
//! word right behind the stamp of a place never is the stamp of another place.

use vstd::prelude::*;
use vstd::arithmetic::power2::pow2;
use vstd::arithmetic::power2::lemma_pow2_adds;
use vstd::arithmetic::power2::lemma_pow2_pos;
use vstd::arithmetic::power2::lemma_pow2_strictly_increases;
use vstd::arithmetic::power2::lemma_pow2_unfold;
use vstd::arithmetic::div_mod::lemma_fundamental_div_mod;
use vstd::arithmetic::div_mod::lemma_fundamental_div_mod_converse;
use vstd::bits::lemma_usize_low_bits_mask_is_mod;
use vstd::bits::low_bits_mask;

verus! {

/// How the stamps of one ring are laid out.
#[derive(Clone, Copy, Debug, PartialEq, Eq, Structural)]
pub struct Layout {
    /// The number of places in the ring.
    pub capacity: usize,
    /// A stamp with the value of `{ lap: 1, index: 0 }`.
    pub one_lap: usize,
}

/// The number of machine words.
pub open spec fn words() -> int {
    usize::MAX + 1
}

/// The word `a + b`, modulo the number of words.
pub open spec fn wrap_add(a: int, b: int) -> usize {
    (if a + b > usize::MAX {
        a + b - words()
    } else {
        a + b
    }) as usize
}

/// The word `a - b`, modulo the number of words.
pub open spec fn wrap_sub(a: int, b: int) -> usize {
    (if a < b {
        a - b + words()
    } else {
        a - b
    }) as usize
}

impl Layout {
    /// The ring has a place, and one lap is a power of two greater than the capacity.
    pub open spec fn wf(self) -> bool {
        &&& 0 < self.capacity < self.one_lap
        &&& exists|e: nat| self.one_lap == #[trigger] pow2(e)
    }

    /// The index that a stamp holds.
    pub open spec fn index_of(self, stamp: usize) -> int {
        stamp as int % self.one_lap as int
    }

    /// The lap that a stamp holds.
    pub open spec fn lap_of(self, stamp: usize) -> int {
        stamp as int / self.one_lap as int
    }

    /// Whether the index that a stamp holds is one of the ring's places.
    pub open spec fn valid(self, stamp: usize) -> bool {
        self.index_of(stamp) < self.capacity
    }

    /// The stamp of the same place one lap later. Laps wrap around.
    pub open spec fn lap_after(self, stamp: usize) -> usize {
        wrap_add(stamp as int, self.one_lap as int)
    }

    /// The stamp of the same place one lap earlier. Laps wrap around.
    pub open spec fn lap_before(self, stamp: usize) -> usize {
        wrap_sub(stamp as int, self.one_lap as int)
    }

    /// The stamp of the place that comes `k` places later, for `k` up to the capacity.
    pub open spec fn ahead(self, stamp: usize, k: int) -> usize {
        if self.index_of(stamp) + k < self.capacity {
            (stamp + k) as usize
        } else {
            (self.lap_after(stamp) + k - self.capacity) as usize
        }
    }

    /// The stamp of the place that comes next.
    pub open spec fn next(self, stamp: usize) -> usize {
        self.ahead(stamp, 1)
    }

    /// One lap divides the number of words.
    proof fn lemma_laps(self)
        requires
            self.wf(),
        ensures
            self.one_lap >= 2,
            exists|n: int| n >= 1 && #[trigger] (n * self.one_lap) == words(),
    {
        let e = choose|e: nat| self.one_lap == #[trigger] pow2(e);
        vstd::layout::unsigned_int_max_values();
        if e >= usize::BITS {
            if e > usize::BITS {
                lemma_pow2_strictly_increases(usize::BITS as nat, e);
            }
            assert(false);
        }
        let f = (usize::BITS - e) as nat;
        lemma_pow2_adds(f, e);
        lemma_pow2_pos(f);
        assert(pow2(f) as int * self.one_lap == words());
    }

    /// One lap is at most half of the number of words, and the capacity is less.
    pub proof fn lemma_capacity(self)
        requires
            self.wf(),
        ensures
            0 < self.capacity <= usize::MAX / 2,
    {
        self.lemma_laps();
        let n = choose|n: int| n >= 1 && #[trigger] (n * self.one_lap) == words();
        assert(n >= 2) by (nonlinear_arith)
            requires
                n >= 1,
                n * self.one_lap == words(),
                self.one_lap < words(),
        ;
        assert(n * self.one_lap >= 2 * self.one_lap) by (nonlinear_arith)
            requires
                n >= 2,
                self.one_lap >= 0,
        ;
    }

    /// What holds of the index of any stamp.
    pub proof fn lemma_stamp(self, s: usize)
        requires
            self.wf(),
        ensures
            0 <= self.index_of(s) < self.one_lap,
            self.index_of(s) <= s,
            s == self.lap_of(s) * self.one_lap + self.index_of(s),
            self.lap_of(s) >= 0,
            s - self.index_of(s) + self.one_lap <= words(),
            s + self.one_lap > usize::MAX ==> s - self.index_of(s) + self.one_lap == words(),
    {
        self.lemma_laps();
        let l = self.one_lap as int;
        let n = choose|n: int| n >= 1 && #[trigger] (n * self.one_lap) == words();
        lemma_fundamental_div_mod(s as int, l);
        let q = s as int / l;
        let r = s as int % l;
        assert(s == q * l + r) by (nonlinear_arith)
            requires s == l * q + r;
        assert(0 <= q && 0 <= q * l) by (nonlinear_arith)
            requires s >= 0, l > 0, q == s as int / l;
        assert(q < n) by (nonlinear_arith)
            requires q * l <= s, s < n * l, l > 0;
        assert((q + 1) * l <= n * l) by (nonlinear_arith)
            requires q + 1 <= n, l > 0;
        assert((q + 1) * l == q * l + l) by (nonlinear_arith);
        if s + l > usize::MAX {
            assert(q + 1 >= n) by (nonlinear_arith)
                requires q * l + r + l >= n * l, r < l, l > 0;
        }
    }

    /// A step that stays within one lap moves the index by as much.
    pub proof fn lemma_shift(self, s: usize, d: int)
        requires
            self.wf(),
            0 <= self.index_of(s) + d < self.one_lap,
        ensures
            0 <= s + d <= usize::MAX,
            self.index_of((s + d) as usize) == self.index_of(s) + d,
            self.lap_of((s + d) as usize) == self.lap_of(s),
    {
        self.lemma_stamp(s);
        let l = self.one_lap as int;
        lemma_fundamental_div_mod_converse(
            s + d, l, self.lap_of(s), self.index_of(s) + d);
    }

    /// Moving by one lap keeps the index, and the two directions undo each other.
    pub proof fn lemma_lap(self, s: usize)
        requires
            self.wf(),
        ensures
            self.index_of(self.lap_after(s)) == self.index_of(s),
            self.index_of(self.lap_before(s)) == self.index_of(s),
            self.lap_before(self.lap_after(s)) == s,
            self.lap_after(self.lap_before(s)) == s,
            s + self.one_lap <= usize::MAX ==> self.lap_of(self.lap_after(s)) == self.lap_of(s) + 1,
            s >= self.one_lap ==> self.lap_of(self.lap_before(s)) == self.lap_of(s) - 1,
    {
        self.lemma_laps();
        self.lemma_stamp(s);
        let l = self.one_lap as int;
        let q = self.lap_of(s);
        let r = self.index_of(s);
        let n = choose|n: int| n >= 1 && #[trigger] (n * self.one_lap) == words();
        assert((q + 1) * l == q * l + l) by (nonlinear_arith);
        assert((q - 1) * l == q * l - l) by (nonlinear_arith);
        assert((n - 1) * l == n * l - l) by (nonlinear_arith);
        if s + l <= usize::MAX {
            lemma_fundamental_div_mod_converse(s + l, l, q + 1, r);
        } else {
            lemma_fundamental_div_mod_converse(s + l - words(), l, 0, r);
        }
        if s >= l {
            lemma_fundamental_div_mod_converse(s - l, l, q - 1, r);
        } else {
            assert(q == 0) by (nonlinear_arith)
                requires q * l + r < l, q >= 0, l > 0, r >= 0;
            lemma_fundamental_div_mod_converse(s - l + words(), l, n - 1, r);
        }
    }

    /// Where the place `k` places later lies, and that one further step moves it on by one.
    pub proof fn lemma_ahead(self, s: usize, k: int)
        requires
            self.wf(),
            self.valid(s),
            0 <= k <= self.capacity,
        ensures
            self.valid(self.ahead(s, k)),
            self.index_of(self.ahead(s, k)) == (if self.index_of(s) + k < self.capacity {
                self.index_of(s) + k
            } else {
                self.index_of(s) + k - self.capacity
            }),
            self.ahead(s, 0) == s,
            self.ahead(s, self.capacity as int) == self.lap_after(s),
            k < self.capacity ==> self.next(self.ahead(s, k)) == self.ahead(s, k + 1),
            k < self.capacity ==> self.ahead(self.next(s), k) == self.ahead(s, k + 1),
    {
        self.lemma_stamp(s);
        self.lemma_lap(s);
        let t = self.lap_after(s);
        self.lemma_stamp(t);
        let i = self.index_of(s);
        let c = self.capacity as int;
        if i + k < c {
            self.lemma_shift(s, k);
            self.lemma_stamp(self.ahead(s, k));
        } else {
            self.lemma_shift(t, k - c);
            self.lemma_stamp(self.ahead(s, k));
        }
        if k < c {
            let a = self.ahead(s, k);
            if i + k == c - 1 {
                assert(a == s + k);
                self.lemma_lap_shift(s, k);
            }
            if i + 1 < c {
                self.lemma_shift(s, 1);
                self.lemma_lap_shift(s, 1);
            } else {
                self.lemma_shift(t, -i);
            }
        }
    }

    /// Moving within a lap and moving by one lap commute.
    pub proof fn lemma_lap_shift(self, s: usize, d: int)
        requires
            self.wf(),
            0 <= self.index_of(s) + d < self.one_lap,
        ensures
            self.lap_after((s + d) as usize) == self.lap_after(s) + d,
            self.lap_before((s + d) as usize) == self.lap_before(s) + d,
    {
        self.lemma_shift(s, d);
        self.lemma_stamp(s);
        self.lemma_stamp((s + d) as usize);
        self.lemma_lap(s);
        self.lemma_lap((s + d) as usize);
        self.lemma_stamp(self.lap_before(s));
        self.lemma_stamp(self.lap_before((s + d) as usize));
    }

    /// The next place one lap later is the place one lap after the next place.
    pub proof fn lemma_next_lap(self, s: usize)
        requires
            self.wf(),
            self.valid(s),
        ensures
            self.valid(self.lap_after(s)),
            self.next(self.lap_after(s)) == self.lap_after(self.next(s)),
            self.lap_before(self.next(self.lap_after(s))) == self.next(s),
    {
        self.lemma_stamp(s);
        self.lemma_lap(s);
        let t = self.lap_after(s);
        self.lemma_stamp(t);
        self.lemma_lap(t);
        let i = self.index_of(s);
        if i + 1 < self.capacity {
            self.lemma_lap_shift(s, 1);
        } else {
            self.lemma_lap_shift(t, -i);
        }
        self.lemma_lap(self.next(s));
    }

    /// How many places come before the place of a stamp, counted from the first lap on.
    pub open spec fn number(self, stamp: usize) -> nat {
        (self.lap_of(stamp) * self.capacity + self.index_of(stamp)) as nat
    }

    /// Two stamps of one slot differ by whole laps.
    pub proof fn lemma_same_index(self, a: usize, b: usize)
        requires
            self.wf(),
            self.index_of(a) == self.index_of(b),
            a < b,
        ensures
            a + self.one_lap <= b,
    {
        self.lemma_stamp(a);
        self.lemma_stamp(b);
        let l = self.one_lap as int;
        let p = self.lap_of(a);
        let q = self.lap_of(b);
        assert(p < q) by (nonlinear_arith)
            requires p * l < q * l, l > 0;
        assert((p + 1) * l <= q * l) by (nonlinear_arith)
            requires p + 1 <= q, l > 0;
        assert((p + 1) * l == p * l + l) by (nonlinear_arith);
    }

    /// Stamps are ordered as their places are, as long as laps do not wrap around.
    pub proof fn lemma_order(self, a: usize, b: usize)
        requires
            self.wf(),
            self.valid(a),
            self.valid(b),
            a < b,
        ensures
            a < self.next(a) <= b,
            self.number(a) < self.number(b),
    {
        self.lemma_stamp(a);
        self.lemma_stamp(b);
        self.lemma_ahead(a, 1);
        let l = self.one_lap as int;
        let c = self.capacity as int;
        let p = self.lap_of(a);
        let q = self.lap_of(b);
        let i = self.index_of(a);
        let j = self.index_of(b);
        if p == q {
            assert(i < j);
        } else {
            assert(p < q) by (nonlinear_arith)
                requires p * l + i < q * l + j, 0 <= i, j < l, l > 0, p != q;
            assert((p + 1) * l <= q * l) by (nonlinear_arith)
                requires p + 1 <= q, l > 0;
            assert((p + 1) * l == p * l + l) by (nonlinear_arith);
            assert((p + 1) * c <= q * c) by (nonlinear_arith)
                requires p + 1 <= q, c > 0;
            assert((p + 1) * c == p * c + c) by (nonlinear_arith);
        }
        assert(0 <= p * c) by (nonlinear_arith)
            requires 0 <= p, 0 < c;
    }

    /// The next place has the next number, and lies at most one lap ahead, as long as laps do not
    /// wrap around.
    pub proof fn lemma_next(self, a: usize)
        requires
            self.wf(),
            self.valid(a),
            a + self.one_lap <= usize::MAX,
        ensures
            self.valid(self.next(a)),
            a < self.next(a) <= a + self.one_lap,
            self.number(self.next(a)) == self.number(a) + 1,
            self.lap_after(a) == a + self.one_lap,
            self.number(self.lap_after(a)) == self.number(a) + self.capacity,
            self.valid(self.lap_after(a)),
    {
        self.lemma_stamp(a);
        self.lemma_ahead(a, 1);
        self.lemma_lap(a);
        let c = self.capacity as int;
        let p = self.lap_of(a);
        let i = self.index_of(a);
        assert((p + 1) * c == p * c + c) by (nonlinear_arith);
        assert(0 <= p * c) by (nonlinear_arith)
            requires 0 <= p, 0 < c;
        if i + 1 < c {
            self.lemma_shift(a, 1);
        } else {
            self.lemma_shift(self.lap_after(a), -i);
        }
    }

    /// The place `k` places later has a number greater by `k`, as long as laps do not wrap around.
    pub proof fn lemma_ahead_number(self, a: usize, k: int)
        requires
            self.wf(),
            self.valid(a),
            a + self.one_lap <= usize::MAX,
            0 <= k <= self.capacity,
        ensures
            self.valid(self.ahead(a, k)),
            self.number(self.ahead(a, k)) == self.number(a) + k,
            a <= self.ahead(a, k) <= a + self.one_lap,
            k < self.capacity ==> self.ahead(a, k) < a + self.one_lap,
    {
        self.lemma_stamp(a);
        self.lemma_ahead(a, k);
        self.lemma_lap(a);
        let c = self.capacity as int;
        let p = self.lap_of(a);
        let i = self.index_of(a);
        assert((p + 1) * c == p * c + c) by (nonlinear_arith);
        assert(0 <= p * c) by (nonlinear_arith)
            requires 0 <= p, 0 < c;
        if i + k < c {
            self.lemma_shift(a, k);
        } else {
            self.lemma_shift(self.lap_after(a), k - c);
        }
    }

    /// The layout of a ring with `capacity` places: one lap is the smallest power of two greater
    /// than the capacity.
    pub fn new(capacity: usize) -> (layout: Self)
        requires
            0 < capacity <= usize::MAX / 2,
        ensures
            layout.wf(),
            layout.capacity == capacity,
            layout.one_lap <= 2 * capacity,
    {
        let mut one_lap: usize = 1;
        proof {
            vstd::arithmetic::power2::lemma2_to64();
        }
        while one_lap <= capacity
            invariant
                0 < capacity <= usize::MAX / 2,
                one_lap <= 2 * capacity,
                one_lap >= 1,
                exists|e: nat| one_lap == #[trigger] pow2(e),
            decreases 2 * capacity - one_lap,
        {
            proof {
                let e = choose|e: nat| one_lap == #[trigger] pow2(e);
                lemma_pow2_unfold(e + 1);
                assert(2 * one_lap == pow2(e + 1));
            }
            one_lap = one_lap * 2;
        }
        Layout { capacity, one_lap }
    }

    /// The index that a stamp holds.
    pub fn index(&self, stamp: usize) -> (index: usize)
        requires
            self.wf(),
        ensures
            index == self.index_of(stamp),
    {
        proof {
            self.lemma_mask(stamp);
        }
        stamp & (self.one_lap - 1)
    }

    /// The stamp of the place that comes next: the index moves up by one, or goes back to zero
    /// with the lap moving on by one.
    pub fn following(&self, stamp: usize) -> (next: usize)
        requires
            self.wf(),
            self.valid(stamp),
        ensures
            next == self.next(stamp),
            self.valid(next),
    {
        let index = self.index(stamp);
        let lap = stamp & !(self.one_lap - 1);
        proof {
            self.lemma_mask(stamp);
            self.lemma_stamp(stamp);
            self.lemma_ahead(stamp, 1);
            if index + 1 >= self.capacity {
                self.lemma_lap_shift(stamp, -index);
            }
        }
        if index + 1 < self.capacity {
            // Same lap, incremented index.
            stamp + 1
        } else {
            // One lap forward, index wraps around to zero.
            lap.wrapping_add(self.one_lap)
        }
    }

    /// The mask of one lap parts a stamp into its index and the rest.
    pub proof fn lemma_mask(self, s: usize)
        requires
            self.wf(),
        ensures
            self.one_lap >= 2,
            s & ((self.one_lap - 1) as usize) == self.index_of(s),
            s & !((self.one_lap - 1) as usize) == s - self.index_of(s),
    {
        self.lemma_laps();
        self.lemma_stamp(s);
        let e = choose|e: nat| self.one_lap == #[trigger] pow2(e);
        vstd::layout::unsigned_int_max_values();
        if e >= usize::BITS {
            if e > usize::BITS {
                lemma_pow2_strictly_increases(usize::BITS as nat, e);
            }
            assert(false);
        }
        lemma_usize_low_bits_mask_is_mod(s, e);
        let m = (self.one_lap - 1) as usize;
        assert(low_bits_mask(e) as usize == m);
        assert((s & m) + (s & !m) == s) by (bit_vector);
    }
}

} // verus!
