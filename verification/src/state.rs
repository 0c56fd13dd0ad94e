//! One column of the edit-distance matrix and the rollback of its distance
//! to an earlier row.

use crate::numeric::{
    bit, count_ones, count_to_u64, dist_from_u64, dist_max, dist_to_u64, lemma_popcount_single,
    lemma_popcount_span, popcount, span, word_max,
};
use vstd::prelude::*;

verus! {

/// A column of the matrix: bit `i` of `pv` (`mv`) is set where the value in
/// pattern row `i` is one more (one less) than in the row above it, and
/// `dist` is the value of the row the column currently stands at.
#[derive(Clone, Copy, Debug, PartialEq, Eq, Structural, PartialOrd, Ord, Hash)]
pub struct State {
    pub pv: u64,
    pub mv: u64,
    pub dist: usize,
}

impl Default for State {
    fn default() -> (r: State)
        ensures
            r == (State { pv: 0, mv: 0, dist: 0 }),
    {
        State { pv: 0, mv: 0, dist: 0 }
    }
}

impl State {
    /// No row rises and falls at once.
    pub open spec fn exclusive(self) -> bool {
        self.pv & self.mv == 0
    }

    /// The distance after moving up over the rows of `range_mask`: every
    /// falling row of the range is added and every rising row is taken away.
    pub open spec fn dist_up_by(self, range_mask: u64) -> int {
        self.dist + popcount(self.mv & range_mask) - popcount(self.pv & range_mask)
    }

    /// The distance after moving up over the one row of `pos_mask`.
    pub open spec fn dist_one_up(self, pos_mask: u64) -> int {
        if self.pv & pos_mask != 0 {
            self.dist - 1
        } else if self.mv & pos_mask != 0 {
            self.dist + 1
        } else {
            self.dist as int
        }
    }

    /// The state after `n` single moves up, the first over the row of
    /// `pos_mask` and each further one over the next higher bit.
    pub open spec fn up_steps(self, pos_mask: u64, n: nat) -> State
        decreases n,
    {
        if n == 0 {
            self
        } else {
            (State { dist: self.dist_one_up(pos_mask) as usize, ..self }).up_steps(
                pos_mask << 1,
                (n - 1) as nat,
            )
        }
    }

    /// Whether each of those `n` moves stays within the distance type.
    pub open spec fn up_steps_fit(self, pos_mask: u64, n: nat) -> bool
        decreases n,
    {
        n > 0 ==> {
            &&& 0 <= self.dist_one_up(pos_mask) <= usize::MAX
            &&& (State { dist: self.dist_one_up(pos_mask) as usize, ..self }).up_steps_fit(
                pos_mask << 1,
                (n - 1) as nat,
            )
        }
    }

    /// Over a single row the move by a range and the move by one row agree.
    pub proof fn lemma_one_up_is_up_by(self, k: u64)
        requires
            k < 64,
            self.exclusive(),
        ensures
            self.dist_up_by(1u64 << k) == self.dist_one_up(1u64 << k),
    {
        let mask = 1u64 << k;
        let pv = self.pv;
        let mv = self.mv;
        lemma_popcount_single(pv, k);
        lemma_popcount_single(mv, k);
        assert(!(pv & mask != 0 && mv & mask != 0)) by (bit_vector)
            requires
                pv & mv == 0,
                k < 64,
                mask == 1u64 << k,
        ;
    }

    /// Moving up by `n` single rows from bit `k` on and moving up by the
    /// range of those `n` bits agree, wherever each single move stays within
    /// the distance type.
    pub proof fn lemma_up_steps_is_up_by(self, k: u64, n: nat)
        requires
            k + n <= 64,
            self.exclusive(),
            self.up_steps_fit(1u64 << k, n),
        ensures
            self.up_steps(1u64 << k, n).dist == self.dist_up_by(span(k, n)),
            self.up_steps(1u64 << k, n).pv == self.pv,
            self.up_steps(1u64 << k, n).mv == self.mv,
        decreases n,
    {
        let pv = self.pv;
        let mv = self.mv;
        if n == 0 {
            assert(pv & 0 == 0 && mv & 0 == 0) by (bit_vector);
            assert(popcount(0) == 0);
        } else {
            let mask = 1u64 << k;
            let next = State { dist: self.dist_one_up(mask) as usize, ..self };
            lemma_popcount_span(pv, k, n);
            lemma_popcount_span(mv, k, n);
            assert((pv & mask != 0) == bit(pv, k) && (mv & mask != 0) == bit(mv, k) && !(bit(pv, k)
                && bit(mv, k))) by (bit_vector)
                requires
                    pv & mv == 0,
                    k < 64,
                    mask == 1u64 << k,
            ;
            if n == 1 {
                assert(pv & 0 == 0 && mv & 0 == 0) by (bit_vector);
                assert(popcount(0) == 0);
                assert(next.up_steps(mask << 1, 0) == next);
            } else {
                assert(mask << 1 == 1u64 << ((k + 1) as u64)) by (bit_vector)
                    requires
                        k < 63,
                        mask == 1u64 << k,
                ;
                next.lemma_up_steps_is_up_by((k + 1) as u64, (n - 1) as nat);
            }
        }
    }

    /// The leftmost column for a pattern of `m` symbols: every row rises.
    pub fn init(m: usize) -> (r: State)
        ensures
            r == (State { pv: u64::MAX, mv: 0, dist: m }),
    {
        State { pv: word_max(), mv: 0, dist: m }
    }

    /// The column that marks a cell not reached: the largest distance.
    pub fn init_max_dist() -> (r: State)
        ensures
            r == (State { pv: u64::MAX, mv: 0, dist: usize::MAX }),
    {
        Self::init(dist_max())
    }

    /// The distance of the column, which is always known for a pattern that
    /// fits one word.
    pub fn known_dist(&self) -> (r: Option<usize>)
        ensures
            r == Some(self.dist),
    {
        Some(self.dist)
    }

    /// Whether the state is still the default one.
    pub fn is_new(&self) -> (r: bool)
        ensures
            r == (self.dist == 0 && self.pv == 0 && self.mv == 0),
    {
        self.dist == 0 && self.pv == 0 && self.mv == 0
    }

    /// Whether the state is the not-reached column: the upper half of `pv`
    /// is saturated, nothing falls and the distance is the largest there is.
    pub fn is_max(&self) -> (r: bool)
        ensures
            r == (self.pv >= u64::MAX >> 1 && self.mv == 0 && self.dist == usize::MAX),
    {
        self.pv >= (word_max() >> 1) && self.mv == 0 && self.dist == dist_max()
    }

    /// Moves the distance up over the rows set in `range_mask`, which are the
    /// rows between the target row and the current one, the current one left
    /// out. The distance that comes out must be one that the distance type
    /// holds: not below zero and not above its maximum.
    pub fn adjust_up_by(&mut self, range_mask: u64)
        requires
            0 <= old(self).dist_up_by(range_mask) <= usize::MAX,
        ensures
            final(self).dist == old(self).dist_up_by(range_mask),
            final(self).pv == old(self).pv,
            final(self).mv == old(self).mv,
    {
        let p = count_ones(self.pv & range_mask);
        let m = count_ones(self.mv & range_mask);
        let mut dist: u64 = dist_to_u64(self.dist).unwrap();
        dist = dist.wrapping_add(count_to_u64(m).unwrap());
        dist = dist.wrapping_sub(count_to_u64(p).unwrap());
        self.dist = dist_from_u64(dist).unwrap();
    }

    /// Moves the distance up by `n` rows one at a time, starting with the
    /// row of `pos_mask`, which has a single bit set.
    pub fn _adjust_up_by(&mut self, pos_mask: u64, n: usize)
        requires
            old(self).up_steps_fit(pos_mask, n as nat),
        ensures
            *final(self) == old(self).up_steps(pos_mask, n as nat),
    {
        let mut mask = pos_mask;
        let mut k: usize = 0;
        while k < n
            invariant
                k <= n,
                self.up_steps_fit(mask, (n - k) as nat),
                self.up_steps(mask, (n - k) as nat) == old(self).up_steps(pos_mask, n as nat),
            decreases n - k,
        {
            self.adjust_one_up(mask);
            mask <<= 1;
            k += 1;
        }
    }

    /// Moves the distance up by one row: the row of `pos_mask`, which has a
    /// single bit set.
    pub fn adjust_one_up(&mut self, pos_mask: u64)
        requires
            0 <= old(self).dist_one_up(pos_mask) <= usize::MAX,
        ensures
            final(self).dist == old(self).dist_one_up(pos_mask),
            final(self).pv == old(self).pv,
            final(self).mv == old(self).mv,
    {
        if self.pv & pos_mask != 0 {
            self.dist -= 1;
        } else if self.mv & pos_mask != 0 {
            self.dist += 1;
        }
    }
}

} // verus!
