//! The quadratic edit-distance table, and the proof that the columns of the
//! engine are the columns of that table.
//!
//! The cell for a pattern prefix `x` and a text prefix `y` holds the least
//! number of edits that turn `x` into a piece of `y` that ends where `y`
//! ends; the piece may start anywhere, so the cells of the empty prefix of
//! the pattern hold zero.

use crate::engine::{
    column_after, columns, dist_ending_at, eq_mask, last_row, least_dist, next_column,
};
use crate::numeric::{bit, lemma_popcount_with_bit};
use crate::state::State;
use crate::traceback::{cell, lemma_cell_last_row, low_bits, rows_mask, trace_from};
use vstd::prelude::*;

verus! {

/// The least of three numbers.
pub open spec fn min3(a: int, b: int, c: int) -> int {
    if a <= b && a <= c {
        a
    } else if b <= c {
        b
    } else {
        c
    }
}

/// The cell of the table for the pattern prefix `x` and the text prefix `y`.
pub open spec fn table(x: Seq<u8>, y: Seq<u8>) -> int
    decreases x.len() + y.len(),
{
    if x.len() == 0 {
        0
    } else if y.len() == 0 {
        x.len() as int
    } else {
        let cost: int = if x.last() == y.last() {
            0
        } else {
            1
        };
        min3(
            table(x.drop_last(), y.drop_last()) + cost,
            table(x.drop_last(), y) + 1,
            table(x, y.drop_last()) + 1,
        )
    }
}

/// The cell in row `i` of the column of `y`.
pub open spec fn entry(pattern: Seq<u8>, i: nat, y: Seq<u8>) -> int {
    table(pattern.take(i as int), y)
}

/// Whether the two words of `s` say of row `i` what the table says: the
/// row rises where its cell is one more than the cell above, and falls where
/// it is one less.
pub open spec fn row_agrees(s: State, pattern: Seq<u8>, y: Seq<u8>, i: nat) -> bool {
    let rise = entry(pattern, i, y) - entry(pattern, (i - 1) as nat, y);
    &&& bit(s.pv, (i - 1) as u64) <==> rise == 1
    &&& bit(s.mv, (i - 1) as u64) <==> rise == -1
}

/// Whether `s` is the column of `y` in the table of `pattern`.
pub open spec fn is_column(s: State, pattern: Seq<u8>, y: Seq<u8>) -> bool {
    &&& s.dist == table(pattern, y)
    &&& forall|i: nat| 1 <= i <= pattern.len() ==> #[trigger] row_agrees(s, pattern, y, i)
}

/// A cell below the first row and behind the first column is the least
/// of what its three neighbours allow.
pub proof fn lemma_entry_unfold(pattern: Seq<u8>, i: nat, y: Seq<u8>)
    requires
        1 <= i <= pattern.len(),
        y.len() > 0,
    ensures
        entry(pattern, i, y) == min3(
            entry(pattern, (i - 1) as nat, y.drop_last()) + (if pattern[i - 1] == y.last() {
                0int
            } else {
                1int
            }),
            entry(pattern, (i - 1) as nat, y) + 1,
            entry(pattern, i, y.drop_last()) + 1,
        ),
{
    let x = pattern.take(i as int);
    assert(x.drop_last() == pattern.take(i - 1));
    assert(x.last() == pattern[i - 1]);
}

/// Neighbouring cells of the table differ by one at most, and the cell in
/// row `i` lies between 0 and `i`.
pub proof fn lemma_neighbours(pattern: Seq<u8>, i: nat, y: Seq<u8>)
    requires
        i <= pattern.len(),
    ensures
        0 <= entry(pattern, i, y) <= i,
        i >= 1 ==> -1 <= entry(pattern, i, y) - entry(pattern, (i - 1) as nat, y) <= 1,
        y.len() > 0 ==> -1 <= entry(pattern, i, y) - entry(pattern, i, y.drop_last()) <= 1,
    decreases i + y.len(),
{
    if i == 0 {
    } else if y.len() == 0 {
        assert(pattern.take(i as int).len() == i);
        assert(pattern.take(i - 1).len() == i - 1);
    } else {
        lemma_entry_unfold(pattern, i, y);
        lemma_neighbours(pattern, (i - 1) as nat, y);
        lemma_neighbours(pattern, i, y.drop_last());
        lemma_neighbours(pattern, (i - 1) as nat, y.drop_last());
    }
}

proof fn lemma_bit_of_one_more(x: u64, n: u64, k: u64)
    by (bit_vector)
    requires
        n < 64,
        k < 64,
    ensures
        bit(x | (1u64 << n), k) == (bit(x, k) || k == n),
        bit(0, k) == false,
        bit(0xffff_ffff_ffff_ffff, k),
        ((x & (1u64 << n)) != 0) == bit(x, n),
{
}

/// Bit `k` of the equality mask of `a` is set where `pattern[k]` is `a`.
pub proof fn lemma_eq_mask_bit(pattern: Seq<u8>, a: u8, k: u64)
    requires
        pattern.len() <= 64,
        k < 64,
    ensures
        bit(eq_mask(pattern, a), k) == (k < pattern.len() && pattern[k as int] == a),
    decreases pattern.len(),
{
    if pattern.len() == 0 {
        lemma_bit_of_one_more(0, 0, k);
    } else {
        let n = (pattern.len() - 1) as u64;
        lemma_eq_mask_bit(pattern.drop_last(), a, k);
        lemma_bit_of_one_more(eq_mask(pattern.drop_last(), a), n, k);
    }
}

/// The words that a transition goes through, bit by bit: `sum` is the
/// wrapped sum that carries the horizontal fall from each row to the next.
proof fn lemma_transition_bits(eq: u64, pv: u64, mv: u64, sum: u64, k: u64)
    by (bit_vector)
    requires
        sum == ((eq & pv) + pv) % 0x1_0000_0000_0000_0000,
        k < 64,
    ensures
        ({
            let xv = eq | mv;
            let xh = (sum ^ pv) | eq;
            let ph = mv | !(xh | pv);
            let mh = pv & xh;
            let below_mh = k >= 1 && bit(mh, (k - 1) as u64);
            let below_ph = k >= 1 && bit(ph, (k - 1) as u64);
            &&& bit(mh, k) == (bit(pv, k) && (bit(eq, k) || below_mh))
            &&& bit(ph, k) == (bit(mv, k) || !(bit(eq, k) || below_mh || bit(pv, k)))
            &&& bit((mh << 1) | !(xv | (ph << 1)), k) == (below_mh || !(bit(eq, k) || bit(mv, k)
                || below_ph))
            &&& bit((ph << 1) & xv, k) == (below_ph && (bit(eq, k) || bit(mv, k)))
        }),
{
}

/// The horizontal rises of a transition.
pub open spec fn ph_of(s: State, eq: u64) -> u64 {
    let xh = (((eq & s.pv).wrapping_add(s.pv)) ^ s.pv) | eq;
    s.mv | !(xh | s.pv)
}

/// The horizontal falls of a transition.
pub open spec fn mh_of(s: State, eq: u64) -> u64 {
    let xh = (((eq & s.pv).wrapping_add(s.pv)) ^ s.pv) | eq;
    s.pv & xh
}

proof fn lemma_row_bits(s: State, eq: u64, k: u64)
    requires
        k < 64,
    ensures
        ({
            let n = next_column(s, eq, 0);
            let below_mh = k >= 1 && bit(mh_of(s, eq), (k - 1) as u64);
            let below_ph = k >= 1 && bit(ph_of(s, eq), (k - 1) as u64);
            &&& bit(mh_of(s, eq), k) == (bit(s.pv, k) && (bit(eq, k) || below_mh))
            &&& bit(ph_of(s, eq), k) == (bit(s.mv, k) || !(bit(eq, k) || below_mh || bit(
                s.pv,
                k,
            )))
            &&& bit(n.pv, k) == (below_mh || !(bit(eq, k) || bit(s.mv, k) || below_ph))
            &&& bit(n.mv, k) == (below_ph && (bit(eq, k) || bit(s.mv, k)))
        }),
{
    let sum = (eq & s.pv).wrapping_add(s.pv);
    lemma_transition_bits(eq, s.pv, s.mv, sum, k);
}

/// In the transition from the column of `y` to the column of `y` with `a`
/// behind it, the horizontal words say of row `r` what the table says.
proof fn lemma_horizontal(s: State, pattern: Seq<u8>, y: Seq<u8>, a: u8, r: nat)
    requires
        1 <= r <= pattern.len() <= 64,
        is_column(s, pattern, y),
    ensures
        ({
            let eq = eq_mask(pattern, a);
            let run = entry(pattern, r, y.push(a)) - entry(pattern, r, y);
            &&& bit(ph_of(s, eq), (r - 1) as u64) <==> run == 1
            &&& bit(mh_of(s, eq), (r - 1) as u64) <==> run == -1
        }),
    decreases r,
{
    let eq = eq_mask(pattern, a);
    let z = y.push(a);
    assert(z.drop_last() == y);
    assert(z.last() == a);
    if r >= 2 {
        lemma_horizontal(s, pattern, y, a, (r - 1) as nat);
    }
    lemma_row_bits(s, eq, (r - 1) as u64);
    lemma_eq_mask_bit(pattern, a, (r - 1) as u64);
    lemma_entry_unfold(pattern, r, z);
    lemma_neighbours(pattern, r, y);
    lemma_neighbours(pattern, (r - 1) as nat, z);
    lemma_neighbours(pattern, r, z);
    assert(row_agrees(s, pattern, y, r));
}

/// A transition takes the column of `y` to the column of `y` with `a`
/// behind it.
pub proof fn lemma_transition(s: State, pattern: Seq<u8>, y: Seq<u8>, a: u8)
    requires
        1 <= pattern.len() <= 64,
        is_column(s, pattern, y),
    ensures
        is_column(
            next_column(s, eq_mask(pattern, a), last_row(pattern.len())),
            pattern,
            y.push(a),
        ),
{
    let m = pattern.len();
    let eq = eq_mask(pattern, a);
    let z = y.push(a);
    let n = next_column(s, eq, last_row(m));
    assert(z.drop_last() == y);
    assert(z.last() == a);
    assert(pattern.take(m as int) == pattern);
    assert(n.pv == next_column(s, eq, 0).pv && n.mv == next_column(s, eq, 0).mv);
    assert forall|i: nat| 1 <= i <= m implies #[trigger] row_agrees(n, pattern, z, i) by {
        lemma_horizontal(s, pattern, y, a, i);
        if i >= 2 {
            lemma_horizontal(s, pattern, y, a, (i - 1) as nat);
        }
        lemma_row_bits(s, eq, (i - 1) as u64);
        lemma_eq_mask_bit(pattern, a, (i - 1) as u64);
        lemma_entry_unfold(pattern, i, z);
        lemma_neighbours(pattern, i, y);
        lemma_neighbours(pattern, (i - 1) as nat, z);
        lemma_neighbours(pattern, i, z);
        assert(row_agrees(s, pattern, y, i));
    }
    lemma_horizontal(s, pattern, y, a, m);
    lemma_bit_of_one_more(ph_of(s, eq), (m - 1) as u64, 0);
    lemma_bit_of_one_more(mh_of(s, eq), (m - 1) as u64, 0);
    lemma_neighbours(pattern, m, y);
    lemma_neighbours(pattern, m, z);
}

/// The column that the engine reaches after reading `text` is the column
/// of `text` in the table: its distance is the least number of edits that
/// turn the pattern into a piece of the text that ends where the text ends.
pub proof fn lemma_column_is_table(pattern: Seq<u8>, text: Seq<u8>)
    requires
        1 <= pattern.len() <= 64,
    ensures
        is_column(column_after(pattern, text), pattern, text),
        column_after(pattern, text).dist == table(pattern, text),
    decreases text.len(),
{
    let m = pattern.len();
    if text.len() == 0 {
        let s = column_after(pattern, text);
        assert forall|i: nat| 1 <= i <= m implies #[trigger] row_agrees(s, pattern, text, i) by {
            lemma_bit_of_one_more(0, 0, (i - 1) as u64);
            assert(pattern.take(i as int).len() == i);
            assert(pattern.take(i - 1).len() == i - 1);
        }
    } else {
        let y = text.drop_last();
        lemma_column_is_table(pattern, y);
        lemma_transition(column_after(pattern, y), pattern, y, text.last());
        assert(y.push(text.last()) == text);
    }
}

/// The distance that a search reports for an end position is the cell of
/// the table in the last pattern row and the column of that position.
pub proof fn lemma_dist_ending_at_is_table(pattern: Seq<u8>, text: Seq<u8>, end: int)
    requires
        1 <= pattern.len() <= 64,
    ensures
        dist_ending_at(pattern, text, end) == table(pattern, text.take(end + 1)),
{
    lemma_column_is_table(pattern, text.take(end + 1));
}

/// The least distance over a text is the least cell of the table's last
/// row over all end positions: no end position has a smaller cell, and for a
/// text that is not empty some end position has that cell.
pub proof fn lemma_least_dist_is_table_min(pattern: Seq<u8>, text: Seq<u8>)
    requires
        1 <= pattern.len() <= 64,
    ensures
        forall|end: int|
            0 <= end < text.len() ==> least_dist(pattern, text) <= #[trigger] table(
                pattern,
                text.take(end + 1),
            ),
        text.len() > 0 ==> exists|end: int|
            0 <= end < text.len() && least_dist(pattern, text) == #[trigger] table(
                pattern,
                text.take(end + 1),
            ),
    decreases text.len(),
{
    if text.len() > 0 {
        let y = text.drop_last();
        let last = text.len() - 1;
        lemma_least_dist_is_table_min(pattern, y);
        lemma_column_is_table(pattern, text);
        assert(text.take(last + 1) == text);
        assert forall|end: int| 0 <= end < last implies #[trigger] text.take(end + 1) == y.take(
            end + 1,
        ) by {
            assert(text.take(end + 1) =~= y.take(end + 1));
        }
        if y.len() > 0 {
            let e = choose|end: int|
                0 <= end < y.len() && least_dist(pattern, y) == #[trigger] table(
                    pattern,
                    y.take(end + 1),
                );
            assert(text.take(e + 1) == y.take(e + 1));
        }
        lemma_neighbours(pattern, pattern.len(), text);
        assert(pattern.take(pattern.len() as int) == pattern);
    }
}

proof fn lemma_mask_grows(x: u64, full: u64, low: u64, lower: u64, i: u64, m: u64)
    by (bit_vector)
    requires
        i < m <= 64,
        full == (if m == 64 {
            0xffff_ffff_ffff_ffffu64
        } else {
            ((1u64 << m) - 1) as u64
        }),
        low == (if i + 1 == 64 {
            0xffff_ffff_ffff_ffffu64
        } else {
            ((1u64 << ((i + 1) as u64)) - 1) as u64
        }),
        lower == ((1u64 << i) - 1) as u64,
    ensures
        bit(x, i) ==> x & (full & !lower) == (x & (full & !low)) | (1u64 << i),
        !bit(x, i) ==> x & (full & !lower) == x & (full & !low),
        !bit(x & (full & !low), i),
{
}

/// Rolled back to row `i`, the distance of a column of the table is the
/// cell of the table in that row.
pub proof fn lemma_cell_is_entry(s: State, pattern: Seq<u8>, y: Seq<u8>, i: nat)
    requires
        1 <= pattern.len() <= 64,
        i <= pattern.len(),
        is_column(s, pattern, y),
    ensures
        cell(s, i, pattern.len()) == entry(pattern, i, y),
    decreases pattern.len() - i,
{
    let m = pattern.len();
    if i == m {
        lemma_cell_last_row(s, m);
        assert(pattern.take(m as int) == pattern);
    } else {
        lemma_cell_is_entry(s, pattern, y, i + 1);
        let full = low_bits(m);
        let low = low_bits(i + 1);
        let lower = low_bits(i);
        lemma_mask_grows(s.pv, full, low, lower, i as u64, m as u64);
        lemma_mask_grows(s.mv, full, low, lower, i as u64, m as u64);
        if bit(s.pv, i as u64) {
            lemma_popcount_with_bit(s.pv & rows_mask(i + 1, m), i as u64);
        }
        if bit(s.mv, i as u64) {
            lemma_popcount_with_bit(s.mv & rows_mask(i + 1, m), i as u64);
        }
        assert(row_agrees(s, pattern, y, i + 1));
        lemma_neighbours(pattern, i + 1, y);
    }
}

/// Moving a column of the table up over the rows from `i` on, as
/// `State::adjust_up_by` does, gives the cell of the table in row `i`.
pub proof fn lemma_rollback_is_entry(s: State, pattern: Seq<u8>, y: Seq<u8>, i: nat)
    requires
        1 <= pattern.len() <= 64,
        i <= pattern.len(),
        is_column(s, pattern, y),
    ensures
        s.dist_up_by(rows_mask(i, pattern.len())) == entry(pattern, i, y),
{
    lemma_cell_is_entry(s, pattern, y, i);
    lemma_neighbours(pattern, i, y);
}

/// Moving a column of the table that stands at row `i` up by one row, as
/// `State::adjust_one_up` does, gives the cell of the table in row `i - 1`.
pub proof fn lemma_one_up_is_entry(s: State, pattern: Seq<u8>, y: Seq<u8>, i: nat)
    requires
        1 <= i <= pattern.len() <= 64,
        is_column(s, pattern, y),
    ensures
        (State { dist: entry(pattern, i, y) as usize, ..s }).dist_one_up(
            1u64 << ((i - 1) as u64),
        ) == entry(pattern, (i - 1) as nat, y),
{
    assert(row_agrees(s, pattern, y, i));
    lemma_neighbours(pattern, i, y);
    lemma_bit_of_one_more(s.pv, (i - 1) as u64, 0);
    lemma_bit_of_one_more(s.mv, (i - 1) as u64, 0);
}

/// Over the columns of a search every walk arrives: from each cell one of
/// the three moves accounts for its value, and the first row holds zero.
pub proof fn lemma_trace_arrives(pattern: Seq<u8>, text: Seq<u8>, n: nat, c: nat, i: nat)
    requires
        1 <= pattern.len() <= 64,
        i <= pattern.len(),
        c < n,
        c <= text.len(),
    ensures
        trace_from(columns(pattern, text, n), pattern, text, c, i).is_some(),
    decreases c + i,
{
    let m = pattern.len();
    let history = columns(pattern, text, n);
    let y = text.take(c as int);
    lemma_column_is_table(pattern, y);
    lemma_cell_is_entry(history[c as int], pattern, y, i);
    if i == 0 {
    } else {
        lemma_cell_is_entry(history[c as int], pattern, y, (i - 1) as nat);
        lemma_trace_arrives(pattern, text, n, c, (i - 1) as nat);
        if c == 0 {
            assert(pattern.take(i as int).len() == i);
            assert(pattern.take(i - 1).len() == i - 1);
        } else {
            let before = text.take(c - 1);
            assert(y.drop_last() == before);
            assert(y.last() == text[c - 1]);
            lemma_column_is_table(pattern, before);
            lemma_cell_is_entry(history[c - 1], pattern, before, i);
            lemma_cell_is_entry(history[c - 1], pattern, before, (i - 1) as nat);
            lemma_entry_unfold(pattern, i, y);
            lemma_trace_arrives(pattern, text, n, (c - 1) as nat, i);
            lemma_trace_arrives(pattern, text, n, (c - 1) as nat, (i - 1) as nat);
        }
    }
}

/// For a pattern of one symbol the table has a single row: the distance at
/// an end position is 0 where the text symbol there is the pattern's, and 1
/// where it is not.
pub proof fn lemma_single_symbol(pattern: Seq<u8>, text: Seq<u8>, end: int)
    requires
        pattern.len() == 1,
        0 <= end < text.len(),
    ensures
        dist_ending_at(pattern, text, end) == (if text[end] == pattern[0] {
            0usize
        } else {
            1usize
        }),
{
    let y = text.take(end + 1);
    lemma_dist_ending_at_is_table(pattern, text, end);
    lemma_table_not_negative(pattern, y.drop_last());
    assert(pattern.drop_last().len() == 0);
    assert(table(pattern.drop_last(), y.drop_last()) == 0);
    assert(table(pattern.drop_last(), y) == 0);
    assert(pattern.last() == pattern[0]);
    assert(y.last() == text[end]);
}

/// Whether `y` ends with `x`.
pub open spec fn ends_with(y: Seq<u8>, x: Seq<u8>) -> bool {
    x.len() <= y.len() && y.subrange(y.len() - x.len(), y.len() as int) == x
}

proof fn lemma_table_not_negative(x: Seq<u8>, y: Seq<u8>)
    ensures
        table(x, y) >= 0,
    decreases x.len() + y.len(),
{
    if x.len() > 0 && y.len() > 0 {
        lemma_table_not_negative(x.drop_last(), y.drop_last());
        lemma_table_not_negative(x.drop_last(), y);
        lemma_table_not_negative(x, y.drop_last());
    }
}

/// A cell of the table holds zero exactly where the text prefix ends with
/// the pattern prefix.
pub proof fn lemma_zero_is_exact(x: Seq<u8>, y: Seq<u8>)
    ensures
        table(x, y) == 0 <==> ends_with(y, x),
    decreases x.len(),
{
    if x.len() == 0 {
        assert(y.subrange(y.len() as int, y.len() as int) =~= x);
    } else if y.len() == 0 {
    } else {
        let x1 = x.drop_last();
        let y1 = y.drop_last();
        lemma_zero_is_exact(x1, y1);
        lemma_table_not_negative(x1, y1);
        lemma_table_not_negative(x1, y);
        lemma_table_not_negative(x, y1);
        if ends_with(y, x) {
            let piece = y.subrange(y.len() - x.len(), y.len() as int);
            assert(piece[x.len() - 1] == y[y.len() - 1]);
            assert(y1.subrange(y1.len() - x1.len(), y1.len() as int) =~= piece.drop_last());
        }
        if ends_with(y1, x1) && x.last() == y.last() {
            let piece1 = y1.subrange(y1.len() - x1.len(), y1.len() as int);
            assert forall|k: int| 0 <= k < x.len() implies y.subrange(
                y.len() - x.len(),
                y.len() as int,
            )[k] == x[k] by {
                if k < x1.len() {
                    assert(piece1[k] == x1[k]);
                }
            }
            assert(y.subrange(y.len() - x.len(), y.len() as int) =~= x);
        }
    }
}

/// An end position has the distance zero exactly where the text up to it
/// ends with the pattern: a search with the maximum distance zero yields
/// the end positions of the exact occurrences and no others.
pub proof fn lemma_zero_distance_is_exact(pattern: Seq<u8>, text: Seq<u8>, end: int)
    requires
        1 <= pattern.len() <= 64,
        0 <= end < text.len(),
    ensures
        dist_ending_at(pattern, text, end) == 0 <==> ends_with(text.take(end + 1), pattern),
{
    lemma_dist_ending_at_is_table(pattern, text, end);
    lemma_zero_is_exact(pattern, text.take(end + 1));
}

} // verus!
