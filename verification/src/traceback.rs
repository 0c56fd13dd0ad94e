//! The traceback: the walk from the last row of a retained column back to
//! the first row, which recovers where a match starts and by which edit
//! operations it is reached.
//!
//! The history holds the leftmost column at index 0 and the column that
//! ends with text position `j` at index `j + 1`; no column is dropped. At
//! each cell the walk prefers the diagonal move (match or substitution),
//! then the move to the left (`Del`), then the move up (`Ins`), and takes a
//! move only where the values of the two cells differ by the move's cost.
//! The values of the cells above the last row come from the rollback of the
//! column's distance.

use crate::alignment::{edits, replays_backward, AlignmentOperation};
use crate::engine::columns;
use crate::numeric::popcount;
use crate::state::State;
use crate::table::{
    entry, is_column, lemma_cell_is_entry, lemma_column_is_table, lemma_entry_unfold,
    lemma_neighbours, lemma_one_up_is_entry, lemma_rollback_is_entry,
};
use vstd::prelude::*;

verus! {

/// The word with the lowest `k` bits set.
pub open spec fn low_bits(k: nat) -> u64 {
    if k >= 64 {
        u64::MAX
    } else {
        ((1u64 << (k as u64)) - 1) as u64
    }
}

/// The bits of the rows from `row` up to, but without, row `m`.
pub open spec fn rows_mask(row: nat, m: nat) -> u64 {
    low_bits(m) & !low_bits(row)
}

/// The value of the cell `row` rows from the top in column `col`, rolled
/// back from the value in row `m`.
pub open spec fn cell(col: State, row: nat, m: nat) -> int {
    col.dist + popcount(col.mv & rows_mask(row, m)) - popcount(col.pv & rows_mask(row, m))
}

/// The result of a walk with the operations `acc` put in front.
pub open spec fn prepend(
    acc: Seq<AlignmentOperation>,
    r: Option<(Seq<AlignmentOperation>, nat)>,
) -> Option<(Seq<AlignmentOperation>, nat)> {
    match r {
        None => None,
        Some((ops, start)) => Some((acc + ops, start)),
    }
}

/// Whether the diagonal move from cell (`c`, `i`) accounts for its value.
pub open spec fn takes_diagonal(
    history: Seq<State>,
    pattern: Seq<u8>,
    text: Seq<u8>,
    c: nat,
    i: nat,
) -> bool {
    let m = pattern.len();
    let cost: int = if pattern[i - 1] == text[c - 1] {
        0
    } else {
        1
    };
    c > 0 && cell(history[c - 1], (i - 1) as nat, m) + cost == cell(history[c as int], i, m)
}

/// Whether the move to the left does.
pub open spec fn takes_left(history: Seq<State>, m: nat, c: nat, i: nat) -> bool {
    c > 0 && cell(history[c - 1], i, m) + 1 == cell(history[c as int], i, m)
}

/// Whether the move up does.
pub open spec fn takes_up(history: Seq<State>, m: nat, c: nat, i: nat) -> bool {
    cell(history[c as int], (i - 1) as nat, m) + 1 == cell(history[c as int], i, m)
}

/// The walk from row `i` of column `c` to the first row: the operations
/// from the end of the match to its start, and the column at which the walk
/// arrives, which is the text position where the match starts. `None` where
/// no move accounts for a cell's value or the walk arrives at a value other
/// than zero.
pub open spec fn trace_from(
    history: Seq<State>,
    pattern: Seq<u8>,
    text: Seq<u8>,
    c: nat,
    i: nat,
) -> Option<(Seq<AlignmentOperation>, nat)>
    decreases c + i,
{
    let m = pattern.len();
    if i == 0 {
        if cell(history[c as int], 0, m) == 0 {
            Some((Seq::<AlignmentOperation>::empty(), c))
        } else {
            None
        }
    } else if takes_diagonal(history, pattern, text, c, i) {
        let op = if pattern[i - 1] == text[c - 1] {
            AlignmentOperation::Match
        } else {
            AlignmentOperation::Subst
        };
        prepend(seq![op], trace_from(history, pattern, text, (c - 1) as nat, (i - 1) as nat))
    } else if takes_left(history, m, c, i) {
        prepend(
            seq![AlignmentOperation::Del],
            trace_from(history, pattern, text, (c - 1) as nat, i),
        )
    } else if takes_up(history, m, c, i) {
        prepend(
            seq![AlignmentOperation::Ins],
            trace_from(history, pattern, text, c, (i - 1) as nat),
        )
    } else {
        None
    }
}

/// The walk for the match that ends at text position `end`.
pub open spec fn trace_ending_at(
    history: Seq<State>,
    pattern: Seq<u8>,
    text: Seq<u8>,
    end: nat,
) -> Option<(Seq<AlignmentOperation>, nat)> {
    trace_from(history, pattern, text, end + 1, pattern.len())
}

/// In the last row nothing is rolled back.
pub proof fn lemma_cell_last_row(col: State, m: nat)
    ensures
        cell(col, m, m) == col.dist,
{
    let lb = low_bits(m);
    let pv = col.pv;
    let mv = col.mv;
    assert(pv & (lb & !lb) == 0 && mv & (lb & !lb) == 0) by (bit_vector);
    assert(popcount(0) == 0);
}

/// Whatever a walk returns is an alignment of the pattern rows above row
/// `i` with the text between the start it reports and column `c`, and the
/// number of its edits is the value of the cell it set out from.
pub proof fn lemma_trace_replays(
    history: Seq<State>,
    pattern: Seq<u8>,
    text: Seq<u8>,
    c: nat,
    i: nat,
)
    requires
        i <= pattern.len(),
        c < history.len(),
        c <= text.len(),
    ensures
        match trace_from(history, pattern, text, c, i) {
            Some((rev, start)) => {
                &&& start <= c
                &&& replays_backward(rev, pattern.take(i as int), text.subrange(start as int, c as int))
                &&& edits(rev) == cell(history[c as int], i, pattern.len())
            },
            None => true,
        },
    decreases c + i,
{
    let m = pattern.len();
    if i == 0 {
    } else {
        let x = pattern.take(i as int);
        if takes_diagonal(history, pattern, text, c, i) {
            lemma_trace_replays(history, pattern, text, (c - 1) as nat, (i - 1) as nat);
            match trace_from(history, pattern, text, (c - 1) as nat, (i - 1) as nat) {
                Some((rest, start)) => {
                    let op = if pattern[i - 1] == text[c - 1] {
                        AlignmentOperation::Match
                    } else {
                        AlignmentOperation::Subst
                    };
                    let rev = seq![op] + rest;
                    let y = text.subrange(start as int, c as int);
                    assert(rev.drop_first() == rest);
                    assert(x.drop_last() == pattern.take(i - 1));
                    assert(y.drop_last() == text.subrange(start as int, c - 1));
                },
                None => {},
            }
        } else if takes_left(history, m, c, i) {
            lemma_trace_replays(history, pattern, text, (c - 1) as nat, i);
            match trace_from(history, pattern, text, (c - 1) as nat, i) {
                Some((rest, start)) => {
                    let rev = seq![AlignmentOperation::Del] + rest;
                    let y = text.subrange(start as int, c as int);
                    assert(rev.drop_first() == rest);
                    assert(y.drop_last() == text.subrange(start as int, c - 1));
                },
                None => {},
            }
        } else if takes_up(history, m, c, i) {
            lemma_trace_replays(history, pattern, text, c, (i - 1) as nat);
            match trace_from(history, pattern, text, c, (i - 1) as nat) {
                Some((rest, start)) => {
                    let rev = seq![AlignmentOperation::Ins] + rest;
                    assert(rev.drop_first() == rest);
                    assert(x.drop_last() == pattern.take(i - 1));
                },
                None => {},
            }
        }
    }
}

/// A walk reads no column to the right of the one it sets out from: two
/// histories that agree up to column `c` give the same walk.
pub proof fn lemma_trace_reads_prefix(
    h1: Seq<State>,
    h2: Seq<State>,
    pattern: Seq<u8>,
    text: Seq<u8>,
    c: nat,
    i: nat,
)
    requires
        c < h1.len(),
        c < h2.len(),
        forall|k: int| 0 <= k <= c ==> h1[k] == h2[k],
    ensures
        trace_from(h1, pattern, text, c, i) == trace_from(h2, pattern, text, c, i),
    decreases c + i,
{
    let m = pattern.len();
    if i > 0 {
        if c > 0 {
            lemma_trace_reads_prefix(h1, h2, pattern, text, (c - 1) as nat, (i - 1) as nat);
            lemma_trace_reads_prefix(h1, h2, pattern, text, (c - 1) as nat, i);
        }
        lemma_trace_reads_prefix(h1, h2, pattern, text, c, (i - 1) as nat);
    }
}

proof fn lemma_prepend_push(
    acc: Seq<AlignmentOperation>,
    op: AlignmentOperation,
    r: Option<(Seq<AlignmentOperation>, nat)>,
)
    ensures
        prepend(acc, prepend(seq![op], r)) == prepend(acc.push(op), r),
{
    match r {
        Some((ops, start)) => {
            assert(acc + (seq![op] + ops) =~= acc.push(op) + ops);
        },
        None => {},
    }
}

proof fn lemma_prepend_nothing(r: Option<(Seq<AlignmentOperation>, nat)>)
    ensures
        prepend(Seq::<AlignmentOperation>::empty(), r) == r,
{
    match r {
        Some((ops, start)) => {
            assert(Seq::<AlignmentOperation>::empty() + ops =~= ops);
        },
        None => {},
    }
}

fn low_bits_word(k: usize) -> (r: u64)
    requires
        k <= 64,
    ensures
        r == low_bits(k as nat),
{
    if k >= 64 {
        u64::MAX
    } else {
        let shift: u64 = k as u64;
        assert((1u64 << shift) >= 1) by (bit_vector)
            requires
                shift < 64,
        ;
        (1u64 << shift) - 1
    }
}

fn cell_at(
    col: &State,
    row: usize,
    m: usize,
    Ghost(pattern): Ghost<Seq<u8>>,
    Ghost(y): Ghost<Seq<u8>>,
) -> (r: usize)
    requires
        1 <= pattern.len() <= 64,
        m == pattern.len(),
        row <= m,
        is_column(*col, pattern, y),
    ensures
        r == cell(*col, row as nat, m as nat),
        r == entry(pattern, row as nat, y),
        r <= row,
{
    let mask: u64 = low_bits_word(m) & !low_bits_word(row);
    proof {
        lemma_rollback_is_entry(*col, pattern, y, row as nat);
        lemma_cell_is_entry(*col, pattern, y, row as nat);
        lemma_neighbours(pattern, row as nat, y);
    }
    let mut rolled = *col;
    rolled.adjust_up_by(mask);
    rolled.dist
}

/// The walks over the history of one search.
#[derive(Clone, Debug)]
pub struct Traceback {
    m: usize,
}

impl Traceback {
    /// The pattern length that the walks set out from.
    pub closed spec fn rows(&self) -> nat {
        self.m as nat
    }

    /// Empties `history`, puts the leftmost column `initial` into it and
    /// returns the traceback for a pattern of `m` symbols. Every column is
    /// retained, whatever the capacity asked for.
    pub fn new(
        history: &mut Vec<State>,
        initial: &State,
        _window_capacity: usize,
        m: usize,
    ) -> (r: Traceback)
        ensures
            r.rows() == m,
            final(history)@ == seq![*initial],
    {
        history.clear();
        history.push(*initial);
        Traceback { m }
    }

    /// Appends the column `state` to `history`.
    pub fn add_state(&self, state: &State, history: &mut Vec<State>)
        ensures
            final(history)@ == old(history)@.push(*state),
    {
        history.push(*state);
    }

    /// The distance of the match that ends at `end_pos`, or `None` where
    /// the history has no column for that position.
    pub fn dist_at(&self, end_pos: usize, history: &Vec<State>) -> (r: Option<usize>)
        ensures
            r == if end_pos + 1 < history@.len() {
                Some(history@[end_pos + 1].dist)
            } else {
                None
            },
    {
        if history.len() < 2 || end_pos > history.len() - 2 {
            None
        } else {
            Some(history[end_pos + 1].dist)
        }
    }

    /// Walks back from the match that ends at `end_pos`, over a history
    /// that holds the columns of `text`. Returns the number of text symbols
    /// that the match spans and its distance, and leaves in `ops` the
    /// operations from the end of the match to its start. Returns `None`,
    /// and leaves `ops` empty, where the history has no column for that
    /// position.
    pub fn traceback_at(
        &self,
        end_pos: usize,
        ops: &mut Vec<AlignmentOperation>,
        history: &Vec<State>,
        pattern: &[u8],
        text: &[u8],
    ) -> (r: Option<(usize, usize)>)
        requires
            self.rows() == pattern@.len(),
            1 <= pattern@.len() <= 64,
            history@.len() <= text@.len() + 1,
            history@ == columns(pattern@, text@, history@.len()),
        ensures
            end_pos + 1 >= history@.len() ==> r.is_none() && final(ops)@.len() == 0,
            end_pos + 1 < history@.len() ==> match trace_ending_at(
                history@,
                pattern@,
                text@,
                end_pos as nat,
            ) {
                Some((rev, start)) => {
                    &&& start <= end_pos + 1
                    &&& r == Some(((end_pos + 1 - start) as usize, history@[end_pos + 1].dist))
                    &&& final(ops)@ == rev
                },
                None => false,
            },
    {
        ops.clear();
        if history.len() < 2 || end_pos > history.len() - 2 {
            return None;
        }
        let m: usize = self.m;
        let mut c: usize = end_pos + 1;
        let mut i: usize = m;
        let dist: usize = history[c].dist;
        proof {
            lemma_prepend_nothing(trace_ending_at(history@, pattern@, text@, end_pos as nat));
        }
        while i > 0
            invariant
                i <= m,
                m == pattern@.len(),
                1 <= m <= 64,
                c <= end_pos + 1,
                end_pos + 1 < history@.len(),
                history@.len() <= text@.len() + 1,
                history@ == columns(pattern@, text@, history@.len()),
                trace_ending_at(history@, pattern@, text@, end_pos as nat) == prepend(
                    ops@,
                    trace_from(history@, pattern@, text@, c as nat, i as nat),
                ),
            decreases c + i,
        {
            let ghost y = text@.take(c as int);
            proof {
                lemma_column_is_table(pattern@, y);
                lemma_one_up_is_entry(history@[c as int], pattern@, y, i as nat);
                lemma_cell_is_entry(history@[c as int], pattern@, y, (i - 1) as nat);
                lemma_neighbours(pattern@, (i - 1) as nat, y);
            }
            let here: usize = cell_at(&history[c], i, m, Ghost(pattern@), Ghost(y));
            let mut standing = State { pv: history[c].pv, mv: history[c].mv, dist: here };
            standing.adjust_one_up(1u64 << ((i - 1) as u64));
            let above: usize = standing.dist;
            let mut matching: bool = false;
            let mut diagonal: bool = false;
            let mut left: bool = false;
            if c > 0 {
                let ghost before = text@.take(c - 1);
                proof {
                    lemma_column_is_table(pattern@, before);
                    assert(y.drop_last() == before);
                    assert(y.last() == text@[c - 1]);
                    lemma_entry_unfold(pattern@, i as nat, y);
                }
                matching = pattern[i - 1] == text[c - 1];
                let cost: usize = if matching {
                    0
                } else {
                    1
                };
                let across: usize = cell_at(
                    &history[c - 1],
                    i - 1,
                    m,
                    Ghost(pattern@),
                    Ghost(before),
                );
                let beside: usize = cell_at(&history[c - 1], i, m, Ghost(pattern@), Ghost(before));
                diagonal = across + cost == here;
                left = beside + 1 == here;
            } else {
                proof {
                    assert(pattern@.take(i as int).len() == i);
                    assert(pattern@.take(i - 1).len() == i - 1);
                }
            }
            let ghost acc = ops@;
            if diagonal {
                let op = if matching {
                    AlignmentOperation::Match
                } else {
                    AlignmentOperation::Subst
                };
                ops.push(op);
                c -= 1;
                i -= 1;
                proof {
                    lemma_prepend_push(
                        acc,
                        op,
                        trace_from(history@, pattern@, text@, c as nat, i as nat),
                    );
                }
            } else if left {
                ops.push(AlignmentOperation::Del);
                c -= 1;
                proof {
                    lemma_prepend_push(
                        acc,
                        AlignmentOperation::Del,
                        trace_from(history@, pattern@, text@, c as nat, i as nat),
                    );
                }
            } else {
                assert(above + 1 == here);
                ops.push(AlignmentOperation::Ins);
                i -= 1;
                proof {
                    lemma_prepend_push(
                        acc,
                        AlignmentOperation::Ins,
                        trace_from(history@, pattern@, text@, c as nat, i as nat),
                    );
                }
            }
        }
        proof {
            let y = text@.take(c as int);
            lemma_column_is_table(pattern@, y);
            lemma_cell_is_entry(history@[c as int], pattern@, y, 0);
            assert(ops@ + Seq::<AlignmentOperation>::empty() =~= ops@);
        }
        Some((end_pos + 1 - c, dist))
    }

    /// Walks back from the column added last, as `traceback_at` does from
    /// the column of a given position. Returns `None` where no column was
    /// added after the leftmost one.
    pub fn traceback(
        &self,
        ops: &mut Vec<AlignmentOperation>,
        history: &Vec<State>,
        pattern: &[u8],
        text: &[u8],
    ) -> (r: Option<(usize, usize)>)
        requires
            self.rows() == pattern@.len(),
            1 <= pattern@.len() <= 64,
            history@.len() <= text@.len() + 1,
            history@ == columns(pattern@, text@, history@.len()),
        ensures
            history@.len() < 2 ==> r.is_none() && final(ops)@.len() == 0,
            history@.len() >= 2 ==> match trace_ending_at(
                history@,
                pattern@,
                text@,
                (history@.len() - 2) as nat,
            ) {
                Some((rev, start)) => {
                    &&& start <= history@.len() - 1
                    &&& r == Some(
                        ((history@.len() - 1 - start) as usize, history@[history@.len() - 1].dist),
                    )
                    &&& final(ops)@ == rev
                },
                None => false,
            },
    {
        if history.len() < 2 {
            ops.clear();
            None
        } else {
            self.traceback_at(history.len() - 2, ops, history, pattern, text)
        }
    }
}

} // verus!
