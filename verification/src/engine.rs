//! The matching engine: the equality masks of a pattern and the transition
//! that takes a column to the next one.

use crate::state::State;
use crate::table::{lemma_least_dist_is_table_min, table};
use vstd::prelude::*;

verus! {

/// The equality mask of symbol `a`: bit `i` is set where `pattern[i]` is `a`.
pub open spec fn eq_mask(pattern: Seq<u8>, a: u8) -> u64
    decreases pattern.len(),
{
    if pattern.len() == 0 {
        0
    } else if pattern.last() == a {
        eq_mask(pattern.drop_last(), a) | (1u64 << ((pattern.len() - 1) as u64))
    } else {
        eq_mask(pattern.drop_last(), a)
    }
}

/// The bit of the last pattern row.
pub open spec fn last_row(m: nat) -> u64 {
    1u64 << ((m - 1) as u64)
}

/// The column that follows `s` when the text symbol with equality mask `eq`
/// is read. `bound` is the bit of the last pattern row. The distance moves
/// with the horizontal difference in that row and stays within its type.
pub open spec fn next_column(s: State, eq: u64, bound: u64) -> State {
    let xv = eq | s.mv;
    let xh = (((eq & s.pv).wrapping_add(s.pv)) ^ s.pv) | eq;
    let ph = s.mv | !(xh | s.pv);
    let mh = s.pv & xh;
    let dist = if ph & bound != 0 {
        if s.dist == usize::MAX {
            s.dist
        } else {
            (s.dist + 1) as usize
        }
    } else if mh & bound != 0 {
        if s.dist == 0 {
            s.dist
        } else {
            (s.dist - 1) as usize
        }
    } else {
        s.dist
    };
    let ph = ph << 1;
    let mh = mh << 1;
    State { pv: mh | !(xv | ph), mv: ph & xv, dist }
}

/// The column reached from the leftmost one after reading `text`.
pub open spec fn column_after(pattern: Seq<u8>, text: Seq<u8>) -> State
    decreases text.len(),
{
    if text.len() == 0 {
        State { pv: u64::MAX, mv: 0, dist: pattern.len() as usize }
    } else {
        next_column(
            column_after(pattern, text.drop_last()),
            eq_mask(pattern, text.last()),
            last_row(pattern.len()),
        )
    }
}

/// The distance in the last pattern row of the column that ends with
/// `text[end]`.
pub open spec fn dist_ending_at(pattern: Seq<u8>, text: Seq<u8>, end: int) -> usize {
    column_after(pattern, text.take(end + 1)).dist
}

/// The least distance over all end positions of `text`, and the largest
/// distance there is for an empty text.
pub open spec fn least_dist(pattern: Seq<u8>, text: Seq<u8>) -> usize
    decreases text.len(),
{
    if text.len() == 0 {
        usize::MAX
    } else {
        let before = least_dist(pattern, text.drop_last());
        let here = column_after(pattern, text).dist;
        if here < before {
            here
        } else {
            before
        }
    }
}

/// What one advance of a scan returns: the first end position from `from`
/// on whose distance is at most `max_dist`, with that distance, which is the
/// cell of the quadratic table for the pattern and that position, the scan
/// then standing at `to`, one behind it; or `None` where every position from
/// `from` on lies above `max_dist`, the scan standing at the end of the text.
pub open spec fn scan_result(
    pattern: Seq<u8>,
    text: Seq<u8>,
    max_dist: usize,
    from: nat,
    r: Option<(usize, usize)>,
    to: nat,
) -> bool {
    match r {
        Some((end, dist)) => {
            &&& from <= end < text.len()
            &&& to == end + 1
            &&& dist == dist_ending_at(pattern, text, end as int)
            &&& dist == table(pattern, text.take(end + 1))
            &&& dist <= max_dist
            &&& forall|k: int|
                from <= k < end ==> #[trigger] dist_ending_at(pattern, text, k) > max_dist
        },
        None => {
            &&& to == text.len()
            &&& forall|k: int|
                from <= k < text.len() ==> #[trigger] dist_ending_at(pattern, text, k) > max_dist
        },
    }
}

/// The leftmost column and the columns of the first `n - 1` text positions.
pub open spec fn columns(pattern: Seq<u8>, text: Seq<u8>, n: nat) -> Seq<State> {
    Seq::new(n, |k: int| column_after(pattern, text.take(k)))
}

/// A transition keeps the rising and the falling rows apart.
pub proof fn lemma_next_column_exclusive(s: State, eq: u64, bound: u64)
    requires
        s.exclusive(),
    ensures
        next_column(s, eq, bound).exclusive(),
{
    let xh = (((eq & s.pv).wrapping_add(s.pv)) ^ s.pv) | eq;
    let pv = s.pv;
    let mv = s.mv;
    assert({
        let xv = eq | mv;
        let ph = (mv | !(xh | pv)) << 1;
        let mh = (pv & xh) << 1;
        (mh | !(xv | ph)) & (ph & xv) == 0
    }) by (bit_vector)
        requires
            pv & mv == 0,
    ;
}

/// In every column that a text leads to, no row rises and falls at once.
pub proof fn lemma_column_exclusive(pattern: Seq<u8>, text: Seq<u8>)
    ensures
        column_after(pattern, text).exclusive(),
    decreases text.len(),
{
    if text.len() == 0 {
        assert(u64::MAX & 0 == 0) by (bit_vector);
    } else {
        lemma_column_exclusive(pattern, text.drop_last());
        lemma_next_column_exclusive(
            column_after(pattern, text.drop_last()),
            eq_mask(pattern, text.last()),
            last_row(pattern.len()),
        );
    }
}

/// The engine for one pattern of 1 to 64 symbols.
#[derive(Clone, Debug)]
pub struct Myers {
    pub(crate) peq: Vec<u64>,
    pub(crate) bound: u64,
    pub(crate) m: usize,
    pub(crate) pattern: Vec<u8>,
    pub(crate) states_store: Vec<State>,
}

impl Myers {
    /// The pattern that the engine was built for.
    pub open(crate) spec fn pattern(&self) -> Seq<u8> {
        self.pattern@
    }

    /// The columns retained by the search that last recorded its history.
    pub open(crate) spec fn history(&self) -> Seq<State> {
        self.states_store@
    }

    /// The engine holds one equality mask per symbol and the bit of the last
    /// row of a pattern that fits one word.
    pub open(crate) spec fn wf(&self) -> bool {
        &&& 1 <= self.pattern@.len() <= 64
        &&& self.m == self.pattern@.len()
        &&& self.bound == last_row(self.m as nat)
        &&& self.peq@.len() == 256
        &&& forall|a: u8| #[trigger] self.peq@[a as int] == eq_mask(self.pattern@, a)
    }

    /// Builds the engine for `pattern`.
    pub fn new(pattern: &[u8]) -> (r: Myers)
        requires
            1 <= pattern@.len() <= 64,
        ensures
            r.wf(),
            r.pattern() == pattern@,
            r.history().len() == 0,
    {
        let m: usize = pattern.len();
        let mut peq: Vec<u64> = Vec::new();
        let mut k: usize = 0;
        while k < 256
            invariant
                k <= 256,
                peq@.len() == k,
                forall|j: int| 0 <= j < k ==> peq@[j] == 0,
            decreases 256 - k,
        {
            peq.push(0);
            k += 1;
        }
        let mut kept: Vec<u8> = Vec::new();
        let mut i: usize = 0;
        while i < m
            invariant
                i <= m,
                m == pattern@.len(),
                m <= 64,
                peq@.len() == 256,
                kept@ == pattern@.take(i as int),
                forall|a: u8| #[trigger] peq@[a as int] == eq_mask(pattern@.take(i as int), a),
            decreases m - i,
        {
            let a: u8 = pattern[i];
            let ghost before = peq@;
            let bit: u64 = 1u64 << (i as u64);
            let mask: u64 = peq[a as usize] | bit;
            peq.set(a as usize, mask);
            kept.push(a);
            i += 1;
            proof {
                let grown = pattern@.take(i as int);
                assert(grown.drop_last() == pattern@.take(i - 1));
                assert(grown.last() == a);
                assert forall|b: u8| #[trigger] peq@[b as int] == eq_mask(grown, b) by {
                    assert(before[b as int] == eq_mask(pattern@.take(i - 1), b));
                }
            }
        }
        proof {
            assert(pattern@.take(m as int) == pattern@);
        }
        let bound: u64 = 1u64 << ((m - 1) as u64);
        Myers { peq, bound, m, pattern: kept, states_store: Vec::new() }
    }

    /// The length of the pattern.
    pub fn pattern_len(&self) -> (r: usize)
        requires
            self.wf(),
        ensures
            r == self.pattern().len(),
            1 <= r <= 64,
    {
        self.m
    }

    /// The leftmost column: the distance in row `i` is `i`.
    pub fn initial_state(&self) -> (r: State)
        requires
            self.wf(),
        ensures
            r == column_after(self.pattern(), Seq::<u8>::empty()),
    {
        State::init(self.m)
    }

    /// Takes `state` to the column that follows it when `a` is read. The
    /// transition is the same for every `max_dist`.
    pub fn step(&self, state: &mut State, a: u8, _max_dist: usize)
        requires
            self.wf(),
        ensures
            *final(state) == next_column(
                *old(state),
                eq_mask(self.pattern(), a),
                last_row(self.pattern().len()),
            ),
    {
        let eq: u64 = self.peq[a as usize];
        let xv: u64 = eq | state.mv;
        let xh: u64 = (((eq & state.pv).wrapping_add(state.pv)) ^ state.pv) | eq;
        let mut ph: u64 = state.mv | !(xh | state.pv);
        let mut mh: u64 = state.pv & xh;
        if ph & self.bound != 0 {
            state.dist = state.dist.saturating_add(1);
        } else if mh & self.bound != 0 {
            state.dist = state.dist.saturating_sub(1);
        }
        ph = ph << 1;
        mh = mh << 1;
        state.pv = mh | !(xv | ph);
        state.mv = ph & xv;
    }

    /// The least distance of the pattern to `text` over all end positions:
    /// the least cell in the last row of the quadratic table, and the
    /// largest distance there is for an empty text.
    pub fn distance(&self, text: &[u8]) -> (r: usize)
        requires
            self.wf(),
        ensures
            r == least_dist(self.pattern(), text@),
            forall|end: int|
                0 <= end < text@.len() ==> r <= #[trigger] table(
                    self.pattern(),
                    text@.take(end + 1),
                ),
            text@.len() > 0 ==> exists|end: int|
                0 <= end < text@.len() && r == #[trigger] table(
                    self.pattern(),
                    text@.take(end + 1),
                ),
            text@.len() == 0 ==> r == usize::MAX,
    {
        let mut dist: usize = usize::MAX;
        let mut state = self.initial_state();
        let mut i: usize = 0;
        while i < text.len()
            invariant
                self.wf(),
                i <= text@.len(),
                state == column_after(self.pattern(), text@.take(i as int)),
                dist == least_dist(self.pattern(), text@.take(i as int)),
            decreases text@.len() - i,
        {
            self.step(&mut state, text[i], usize::MAX);
            proof {
                assert(text@.take(i + 1).drop_last() == text@.take(i as int));
            }
            if let Some(d) = state.known_dist() {
                if d < dist {
                    dist = d;
                }
            }
            i += 1;
        }
        proof {
            assert(text@.take(text@.len() as int) == text@);
            lemma_least_dist_is_table_min(self.pattern(), text@);
        }
        dist
    }
}

} // verus!
