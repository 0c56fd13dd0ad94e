//! Edit operations, what it means for a list of them to turn the pattern
//! into a piece of text, and the alignment value that a search fills in.
//!
//! The pattern is the sequence `x` and the text the sequence `y`. `Ins` is a
//! pattern symbol that has no partner in the text, `Del` a text symbol that
//! has no partner in the pattern.

use vstd::prelude::*;

verus! {

#[derive(Clone, Copy, Debug, PartialEq, Eq, Structural, Hash)]
pub enum AlignmentOperation {
    Match,
    Subst,
    Del,
    Ins,
}

/// The number of operations in `ops` that are no match.
pub open spec fn edits(ops: Seq<AlignmentOperation>) -> nat
    decreases ops.len(),
{
    if ops.len() == 0 {
        0
    } else if ops[0] == AlignmentOperation::Match {
        edits(ops.drop_first())
    } else {
        1 + edits(ops.drop_first())
    }
}

/// Whether `rev`, read from the end of both sequences to their start, pairs
/// all of `x` with all of `y`: a match pairs two equal symbols, a
/// substitution two different ones, an insertion takes a symbol of `x`
/// alone and a deletion a symbol of `y` alone.
pub open spec fn replays_backward(rev: Seq<AlignmentOperation>, x: Seq<u8>, y: Seq<u8>) -> bool
    decreases rev.len(),
{
    if rev.len() == 0 {
        x.len() == 0 && y.len() == 0
    } else {
        match rev[0] {
            AlignmentOperation::Match => x.len() > 0 && y.len() > 0 && x.last() == y.last()
                && replays_backward(rev.drop_first(), x.drop_last(), y.drop_last()),
            AlignmentOperation::Subst => x.len() > 0 && y.len() > 0 && x.last() != y.last()
                && replays_backward(rev.drop_first(), x.drop_last(), y.drop_last()),
            AlignmentOperation::Ins => x.len() > 0 && replays_backward(
                rev.drop_first(),
                x.drop_last(),
                y,
            ),
            AlignmentOperation::Del => y.len() > 0 && replays_backward(
                rev.drop_first(),
                x,
                y.drop_last(),
            ),
        }
    }
}

/// Whether `ops`, in the order of the text, pairs all of `x` with all of `y`.
pub open spec fn replays(ops: Seq<AlignmentOperation>, x: Seq<u8>, y: Seq<u8>) -> bool {
    replays_backward(ops.reverse(), x, y)
}

/// One more operation at the end adds its own cost to the number of edits.
pub proof fn lemma_edits_push(ops: Seq<AlignmentOperation>, op: AlignmentOperation)
    ensures
        edits(ops.push(op)) == edits(ops) + edits(seq![op]),
    decreases ops.len(),
{
    assert(edits(seq![op].drop_first()) == 0);
    if ops.len() == 0 {
        assert(ops.push(op) == seq![op]);
    } else {
        assert(ops.push(op).drop_first() == ops.drop_first().push(op));
        lemma_edits_push(ops.drop_first(), op);
    }
}

/// A list of operations has as many edits in one order as in the other.
pub proof fn lemma_edits_reverse(ops: Seq<AlignmentOperation>)
    ensures
        edits(ops.reverse()) == edits(ops),
    decreases ops.len(),
{
    if ops.len() > 0 {
        let rest = ops.drop_first();
        assert(ops.reverse() == rest.reverse().push(ops[0]));
        lemma_edits_push(rest.reverse(), ops[0]);
        lemma_edits_reverse(rest);
        assert(edits(seq![ops[0]].drop_first()) == 0);
    }
}

/// Turning a list of operations round twice gives the list back: the order
/// of the text and the order from the end of the match to its start are
/// reverses of each other.
pub proof fn lemma_orders_are_reverses(ops: Seq<AlignmentOperation>)
    ensures
        ops.reverse().reverse() == ops,
{
    assert(ops.reverse().reverse() =~= ops);
}

/// The score that stands for `distance`: the distance itself, or the
/// largest score where it is beyond the score's range.
pub open spec fn score_of(distance: usize) -> i32 {
    if distance > i32::MAX {
        i32::MAX
    } else {
        distance as i32
    }
}

/// An alignment of the whole pattern `x` with the piece `ystart..yend` of
/// the text `y`.
#[derive(Clone, Debug, PartialEq, Eq)]
pub struct Alignment {
    pub score: i32,
    pub ystart: usize,
    pub xstart: usize,
    pub yend: usize,
    pub xend: usize,
    pub ylen: usize,
    pub xlen: usize,
    pub operations: Vec<AlignmentOperation>,
}

impl Alignment {
    /// An alignment of nothing with nothing.
    pub fn new() -> (r: Alignment)
        ensures
            r.score == 0,
            r.ystart == 0,
            r.xstart == 0,
            r.yend == 0,
            r.xend == 0,
            r.ylen == 0,
            r.xlen == 0,
            r.operations@.len() == 0,
    {
        Alignment {
            score: 0,
            ystart: 0,
            xstart: 0,
            yend: 0,
            xend: 0,
            ylen: 0,
            xlen: 0,
            operations: Vec::new(),
        }
    }
}

/// Sets the coordinates and the score of `aln` for a match that ends at
/// `end_pos` and spans `aln_len` text symbols. The operations stay as they
/// are.
pub fn update_aln(
    end_pos: usize,
    aln_len: usize,
    text_len: usize,
    distance: usize,
    m: usize,
    aln: &mut Alignment,
)
    requires
        aln_len <= end_pos + 1 <= usize::MAX,
    ensures
        final(aln).xstart == 0,
        final(aln).xend == m,
        final(aln).xlen == m,
        final(aln).ylen == text_len,
        final(aln).yend == end_pos + 1,
        final(aln).ystart == end_pos + 1 - aln_len,
        final(aln).score == score_of(distance),
        final(aln).operations == old(aln).operations,
{
    aln.xstart = 0;
    aln.xend = m;
    aln.xlen = m;
    aln.ylen = text_len;
    aln.yend = end_pos + 1;
    aln.ystart = aln.yend - aln_len;
    aln.score = if distance > 0x7fff_ffff {
        i32::MAX
    } else {
        distance as i32
    };
}

/// Puts the operations of `ops` into the opposite order.
pub fn reverse_ops(ops: &mut Vec<AlignmentOperation>)
    ensures
        final(ops)@ == old(ops)@.reverse(),
{
    let n: usize = ops.len();
    let mut turned: Vec<AlignmentOperation> = Vec::new();
    let mut k: usize = 0;
    while k < n
        invariant
            k <= n,
            n == ops@.len(),
            ops@ == old(ops)@,
            turned@.len() == k,
            forall|j: int| 0 <= j < k ==> turned@[j] == ops@[n - 1 - j],
        decreases n - k,
    {
        turned.push(ops[n - 1 - k]);
        k += 1;
    }
    proof {
        assert(turned@ =~= ops@.reverse());
    }
    *ops = turned;
}

} // verus!
