//! The searches that record their history: the lazy search, which answers
//! for any end position visited so far where its match starts and how it is
//! reached, and the full search, which answers for the match yielded last.
//!
//! Both take the engine over for the time of the search, since they fill
//! its history, and give it back through `into_engine`.

use crate::alignment::{
    edits, lemma_edits_reverse, lemma_orders_are_reverses, replays, replays_backward, reverse_ops,
    score_of, update_aln, Alignment, AlignmentOperation,
};
use crate::engine::{
    column_after, columns, dist_ending_at, eq_mask, last_row, next_column, scan_result, Myers,
};
use crate::state::State;
use crate::table::{lemma_dist_ending_at_is_table, lemma_trace_arrives};
use crate::traceback::{
    lemma_cell_last_row, lemma_trace_reads_prefix, lemma_trace_replays, trace_ending_at, Traceback,
};
use vstd::prelude::*;

verus! {

/// The walk back from the match that ends at text position `end`: its
/// operations from end to start, and the position where it starts.
pub open spec fn alignment_ending_at(pattern: Seq<u8>, text: Seq<u8>, end: nat) -> Option<
    (Seq<AlignmentOperation>, nat),
> {
    trace_ending_at(columns(pattern, text, end + 2), pattern, text, end)
}

/// Start and distance of the match that ends at `end`, for a search that
/// has read `visited` text symbols: `None` where `end` was not visited.
pub open spec fn hit(pattern: Seq<u8>, text: Seq<u8>, visited: nat, end: nat) -> Option<
    (usize, usize),
> {
    if end < visited {
        match alignment_ending_at(pattern, text, end) {
            Some((rev, start)) => Some((start as usize, dist_ending_at(pattern, text, end as int))),
            None => None,
        }
    } else {
        None
    }
}

/// The operations of that match from its end to its start, and no
/// operation where there is no such match.
pub open spec fn path_backward(pattern: Seq<u8>, text: Seq<u8>, visited: nat, end: nat) -> Seq<
    AlignmentOperation,
> {
    if end < visited {
        match alignment_ending_at(pattern, text, end) {
            Some((rev, start)) => rev,
            None => Seq::empty(),
        }
    } else {
        Seq::empty()
    }
}

/// Whether `aln` describes the match of a pattern of `m` symbols that ends
/// at `end`, starts at `start` and has the distance `dist`, with the
/// operations `rev` put into the order of the text.
pub open spec fn describes(
    aln: Alignment,
    m: nat,
    text_len: nat,
    end: nat,
    start: usize,
    dist: usize,
    rev: Seq<AlignmentOperation>,
) -> bool {
    &&& aln.xstart == 0
    &&& aln.xend == m
    &&& aln.xlen == m
    &&& aln.ylen == text_len
    &&& aln.yend == end + 1
    &&& aln.ystart == start
    &&& aln.score == score_of(dist)
    &&& aln.operations@ == rev.reverse()
}

/// Whether two alignments differ in their operations at most.
pub open spec fn same_frame(a: Alignment, b: Alignment) -> bool {
    &&& a.xstart == b.xstart
    &&& a.xend == b.xend
    &&& a.xlen == b.xlen
    &&& a.ylen == b.ylen
    &&& a.yend == b.yend
    &&& a.ystart == b.ystart
    &&& a.score == b.score
}

/// The walk back from any end position of the text arrives. Its operations
/// in the order of the text turn the pattern into the text from the start
/// it reports to the end position, and the number of its edits is the
/// distance reported for that position.
pub proof fn lemma_match_replays(pattern: Seq<u8>, text: Seq<u8>, end: nat)
    requires
        1 <= pattern.len() <= 64,
        end < text.len(),
    ensures
        match alignment_ending_at(pattern, text, end) {
            Some((rev, start)) => {
                &&& start <= end + 1
                &&& replays(rev.reverse(), pattern, text.subrange(start as int, end as int + 1))
                &&& edits(rev.reverse()) == dist_ending_at(pattern, text, end as int)
                &&& edits(rev) == dist_ending_at(pattern, text, end as int)
            },
            None => false,
        },
{
    let history = columns(pattern, text, end + 2);
    lemma_trace_arrives(pattern, text, end + 2, end + 1, pattern.len());
    lemma_trace_replays(history, pattern, text, end + 1, pattern.len());
    lemma_cell_last_row(history[end as int + 1], pattern.len());
    assert(pattern.take(pattern.len() as int) == pattern);
    match alignment_ending_at(pattern, text, end) {
        Some((rev, start)) => {
            lemma_orders_are_reverses(rev);
            lemma_edits_reverse(rev);
        },
        None => {},
    }
}

/// What is reported for an end position does not depend on how far the
/// search has gone beyond it: a search that stands at the match and one
/// that has read further report the same start, distance and path.
pub proof fn lemma_hit_is_settled(
    pattern: Seq<u8>,
    text: Seq<u8>,
    visited: nat,
    further: nat,
    end: nat,
)
    requires
        end < visited,
        end < further,
    ensures
        hit(pattern, text, visited, end) == hit(pattern, text, further, end),
        path_backward(pattern, text, visited, end) == path_backward(pattern, text, further, end),
{
}

impl Myers {
    /// Takes `state` to the next column and appends that column to the
    /// history.
    pub fn step_trace(&mut self, state: &mut State, a: u8, max_dist: usize, traceback: &Traceback)
        requires
            old(self).wf(),
        ensures
            final(self).wf(),
            final(self).pattern() == old(self).pattern(),
            *final(state) == next_column(
                *old(state),
                eq_mask(old(self).pattern(), a),
                last_row(old(self).pattern().len()),
            ),
            final(self).history() == old(self).history().push(*final(state)),
    {
        self.step(state, a, max_dist);
        traceback.add_state(state, &mut self.states_store);
    }

    /// Starts a search of `text` that can be asked, for any end position
    /// visited so far, for the distance, the start and the path of its
    /// match.
    pub fn find_all_lazy<'a>(self, text: &'a [u8], max_dist: usize) -> (r: LazyMatches<'a>)
        requires
            self.wf(),
        ensures
            r.wf(),
            r.pattern() == self.pattern(),
            r.text() == text@,
            r.pos() == 0,
            r.max_dist() == max_dist,
    {
        LazyMatches::new(self, text, max_dist)
    }

    /// Starts a search of `text` that can be asked for the start and the
    /// path of the match yielded last.
    pub fn find_all<'a>(self, text: &'a [u8], max_dist: usize) -> (r: FullMatches<'a>)
        requires
            self.wf(),
        ensures
            r.wf(),
            r.pattern() == self.pattern(),
            r.text() == text@,
            r.pos() == 0,
            r.max_dist() == max_dist,
            r.current().is_none(),
            !r.finished(),
    {
        FullMatches::new(self, text, max_dist)
    }
}

/// A search that yields pairs of end position and distance and retains
/// the columns of all positions visited.
#[derive(Debug)]
pub struct LazyMatches<'a> {
    myers: Myers,
    traceback: Traceback,
    state: State,
    text: &'a [u8],
    text_len: usize,
    m: usize,
    max_dist: usize,
    pos: usize,
}

impl<'a> LazyMatches<'a> {
    /// The pattern searched for.
    pub closed spec fn pattern(&self) -> Seq<u8> {
        self.myers.pattern()
    }

    /// The text searched in.
    pub closed spec fn text(&self) -> Seq<u8> {
        self.text@
    }

    /// The number of text symbols read so far.
    pub closed spec fn pos(&self) -> nat {
        self.pos as nat
    }

    /// The largest distance that counts as a match.
    pub closed spec fn max_dist(&self) -> usize {
        self.max_dist
    }

    /// The search holds the column of the text read so far, and the
    /// engine's history the columns of all positions read.
    pub closed spec fn wf(&self) -> bool {
        &&& self.myers.wf()
        &&& self.traceback.rows() == self.myers.pattern().len()
        &&& self.m == self.myers.pattern().len()
        &&& self.text_len == self.text@.len()
        &&& self.pos <= self.text@.len()
        &&& self.state == column_after(self.myers.pattern(), self.text@.take(self.pos as int))
        &&& self.myers.history() == columns(
            self.myers.pattern(),
            self.text@,
            (self.pos + 1) as nat,
        )
    }

    pub(crate) fn new(myers: Myers, text: &'a [u8], max_dist: usize) -> (r: LazyMatches<'a>)
        requires
            myers.wf(),
        ensures
            r.wf(),
            r.pattern() == myers.pattern(),
            r.text() == text@,
            r.pos() == 0,
            r.max_dist() == max_dist,
    {
        let mut myers = myers;
        let state = myers.initial_state();
        let m: usize = myers.m;
        let traceback = Traceback::new(&mut myers.states_store, &state, text.len(), m);
        proof {
            assert(text@.take(0) == Seq::<u8>::empty());
            assert(myers.history() =~= columns(myers.pattern(), text@, 1));
        }
        LazyMatches { myers, traceback, state, text, text_len: text.len(), m, max_dist, pos: 0 }
    }

    /// Ends the search and gives the engine back.
    pub fn into_engine(self) -> (r: Myers)
        requires
            self.wf(),
        ensures
            r.wf(),
            r.pattern() == self.pattern(),
    {
        self.myers
    }

    /// Scans on to the next end position whose distance is at most the
    /// maximum and returns it with its distance, or returns `None` when the
    /// text is used up.
    pub fn next(&mut self) -> (r: Option<(usize, usize)>)
        requires
            old(self).wf(),
        ensures
            final(self).wf(),
            final(self).pattern() == old(self).pattern(),
            final(self).text() == old(self).text(),
            final(self).max_dist() == old(self).max_dist(),
            scan_result(
                old(self).pattern(),
                old(self).text(),
                old(self).max_dist(),
                old(self).pos(),
                r,
                final(self).pos(),
            ),
    {
        while self.pos < self.text.len()
            invariant
                self.wf(),
                self.myers.pattern() == old(self).myers.pattern(),
                self.text == old(self).text,
                self.max_dist == old(self).max_dist,
                old(self).pos <= self.pos,
                forall|k: int|
                    old(self).pos <= k < self.pos ==> #[trigger] dist_ending_at(
                        self.myers.pattern(),
                        self.text@,
                        k,
                    ) > self.max_dist,
            decreases self.text@.len() - self.pos,
        {
            let i: usize = self.pos;
            let a: u8 = self.text[i];
            self.myers.step_trace(&mut self.state, a, self.max_dist, &self.traceback);
            self.pos = i + 1;
            proof {
                assert(self.text@.take(i + 1).drop_last() == self.text@.take(i as int));
                assert(self.myers.history() =~= columns(
                    self.myers.pattern(),
                    self.text@,
                    (i + 2) as nat,
                ));
            }
            if let Some(dist) = self.state.known_dist() {
                if dist <= self.max_dist {
                    proof {
                        lemma_dist_ending_at_is_table(self.myers.pattern(), self.text@, i as int);
                    }
                    return Some((i, dist));
                }
            }
        }
        None
    }

    fn walk(&self, end_pos: usize, ops: &mut Vec<AlignmentOperation>) -> (r: Option<(usize, usize)>)
        requires
            self.wf(),
        ensures
            r == hit(self.pattern(), self.text(), self.pos(), end_pos as nat),
            final(ops)@ == path_backward(self.pattern(), self.text(), self.pos(), end_pos as nat),
            match r {
                Some((start, dist)) => {
                    &&& start <= end_pos + 1
                    &&& end_pos < self.pos()
                    &&& replays_backward(
                        final(ops)@,
                        self.pattern(),
                        self.text().subrange(start as int, end_pos + 1),
                    )
                    &&& edits(final(ops)@) == dist
                },
                None => end_pos >= self.pos(),
            },
    {
        proof {
            if end_pos < self.pos {
                lemma_match_replays(self.myers.pattern(), self.text@, end_pos as nat);
                lemma_orders_are_reverses(
                    path_backward(self.myers.pattern(), self.text@, self.pos as nat, end_pos as nat),
                );
                lemma_trace_reads_prefix(
                    self.myers.history(),
                    columns(self.myers.pattern(), self.text@, (end_pos + 2) as nat),
                    self.myers.pattern(),
                    self.text@,
                    (end_pos + 1) as nat,
                    self.myers.pattern().len(),
                );
            }
        }
        match self.traceback.traceback_at(
            end_pos,
            ops,
            &self.myers.states_store,
            self.myers.pattern.as_slice(),
            self.text,
        ) {
            Some((len, dist)) => Some((end_pos + 1 - len, dist)),
            None => None,
        }
    }

    /// The distance of the match that ends at `end_pos`, or `None` where
    /// that position was not visited yet.
    pub fn dist_at(&self, end_pos: usize) -> (r: Option<usize>)
        requires
            self.wf(),
        ensures
            r == if end_pos < self.pos() {
                Some(dist_ending_at(self.pattern(), self.text(), end_pos as int))
            } else {
                None
            },
    {
        self.traceback.dist_at(end_pos, &self.myers.states_store)
    }

    /// Start and distance of the match that ends at `end_pos`.
    pub fn hit_at(&self, end_pos: usize) -> (r: Option<(usize, usize)>)
        requires
            self.wf(),
        ensures
            r == hit(self.pattern(), self.text(), self.pos(), end_pos as nat),
            r.is_some() == (end_pos < self.pos()),
    {
        let mut scratch: Vec<AlignmentOperation> = Vec::new();
        self.walk(end_pos, &mut scratch)
    }

    /// Start and distance of the match that ends at `end_pos`; `ops` is
    /// emptied and takes the operations of the match in the order of the
    /// text.
    pub fn path_at(&self, end_pos: usize, ops: &mut Vec<AlignmentOperation>) -> (r: Option<
        (usize, usize),
    >)
        requires
            self.wf(),
        ensures
            r == hit(self.pattern(), self.text(), self.pos(), end_pos as nat),
            final(ops)@ == path_backward(
                self.pattern(),
                self.text(),
                self.pos(),
                end_pos as nat,
            ).reverse(),
            r.is_some() == (end_pos < self.pos()),
            match r {
                Some((start, dist)) => {
                    &&& start <= end_pos + 1
                    &&& replays(
                        final(ops)@,
                        self.pattern(),
                        self.text().subrange(start as int, end_pos + 1),
                    )
                    &&& edits(final(ops)@) == dist
                },
                None => true,
            },
    {
        let r = self.walk(end_pos, ops);
        proof {
            lemma_orders_are_reverses(ops@);
            lemma_edits_reverse(ops@);
        }
        reverse_ops(ops);
        r
    }

    /// As `path_at`, with the operations from the end of the match to its
    /// start.
    pub fn path_at_reverse(&self, end_pos: usize, ops: &mut Vec<AlignmentOperation>) -> (r:
        Option<(usize, usize)>)
        requires
            self.wf(),
        ensures
            r == hit(self.pattern(), self.text(), self.pos(), end_pos as nat),
            final(ops)@ == path_backward(self.pattern(), self.text(), self.pos(), end_pos as nat),
            r.is_some() == (end_pos < self.pos()),
            match r {
                Some((start, dist)) => {
                    &&& start <= end_pos + 1
                    &&& replays_backward(
                        final(ops)@,
                        self.pattern(),
                        self.text().subrange(start as int, end_pos + 1),
                    )
                    &&& edits(final(ops)@) == dist
                },
                None => true,
            },
    {
        self.walk(end_pos, ops)
    }

    /// Fills `aln` with the match that ends at `end_pos` and returns `true`;
    /// where there is none, empties the operations of `aln`, leaves the
    /// rest of it and returns `false`.
    pub fn alignment_at(&self, end_pos: usize, aln: &mut Alignment) -> (r: bool)
        requires
            self.wf(),
        ensures
            r == (end_pos < self.pos()),
            match hit(self.pattern(), self.text(), self.pos(), end_pos as nat) {
                Some((start, dist)) => r && describes(
                    *final(aln),
                    self.pattern().len(),
                    self.text().len(),
                    end_pos as nat,
                    start,
                    dist,
                    path_backward(self.pattern(), self.text(), self.pos(), end_pos as nat),
                ),
                None => !r && final(aln).operations@.len() == 0 && same_frame(
                    *final(aln),
                    *old(aln),
                ),
            },
    {
        let mut ops: Vec<AlignmentOperation> = Vec::new();
        match self.walk(end_pos, &mut ops) {
            Some((start, dist)) => {
                reverse_ops(&mut ops);
                aln.operations = ops;
                update_aln(end_pos, end_pos + 1 - start, self.text_len, dist, self.m, aln);
                true
            },
            None => {
                aln.operations = ops;
                false
            },
        }
    }
}

/// A search that yields matches and answers for the match yielded last
/// where it starts and how it is reached.
#[derive(Debug)]
pub struct FullMatches<'a> {
    lazy: LazyMatches<'a>,
    pos: usize,
    unsuccessfully_finished: bool,
}

impl<'a> FullMatches<'a> {
    /// The pattern searched for.
    pub closed spec fn pattern(&self) -> Seq<u8> {
        self.lazy.pattern()
    }

    /// The text searched in.
    pub closed spec fn text(&self) -> Seq<u8> {
        self.lazy.text()
    }

    /// The number of text symbols read so far.
    pub closed spec fn pos(&self) -> nat {
        self.lazy.pos()
    }

    /// The largest distance that counts as a match.
    pub closed spec fn max_dist(&self) -> usize {
        self.lazy.max_dist()
    }

    /// The end position of the match yielded last: none before the first
    /// match, and none once the search has ended without a further one.
    pub closed spec fn current(&self) -> Option<nat> {
        if self.unsuccessfully_finished || self.lazy.pos() == 0 {
            None
        } else {
            Some((self.lazy.pos() - 1) as nat)
        }
    }

    /// Whether the search has ended without a further match.
    pub closed spec fn finished(&self) -> bool {
        self.unsuccessfully_finished
    }

    /// The match yielded last, as the end-only search reports it.
    pub open spec fn last_yield(&self) -> Option<(usize, usize)> {
        match self.current() {
            Some(end) => Some(
                (end as usize, dist_ending_at(self.pattern(), self.text(), end as int)),
            ),
            None => None,
        }
    }

    /// Start and distance of the match yielded last.
    pub open spec fn current_hit(&self) -> Option<(usize, usize)> {
        match self.current() {
            Some(end) => hit(self.pattern(), self.text(), self.pos(), end),
            None => None,
        }
    }

    /// The operations of the match yielded last, from its end to its start.
    pub open spec fn current_path(&self) -> Seq<AlignmentOperation> {
        match self.current() {
            Some(end) => path_backward(self.pattern(), self.text(), self.pos(), end),
            None => Seq::empty(),
        }
    }

    /// The search is in order, and it remembers the end position of the
    /// match yielded last.
    pub closed spec fn wf(&self) -> bool {
        &&& self.lazy.wf()
        &&& self.lazy.pos() <= self.lazy.text().len()
        &&& self.unsuccessfully_finished ==> self.lazy.pos() == self.lazy.text().len()
        &&& !self.unsuccessfully_finished && self.lazy.pos() > 0 ==> self.pos == self.lazy.pos() - 1
    }

    pub(crate) fn new(myers: Myers, text: &'a [u8], max_dist: usize) -> (r: FullMatches<'a>)
        requires
            myers.wf(),
        ensures
            r.wf(),
            r.pattern() == myers.pattern(),
            r.text() == text@,
            r.pos() == 0,
            r.max_dist() == max_dist,
            r.current().is_none(),
            !r.finished(),
    {
        FullMatches {
            lazy: LazyMatches::new(myers, text, max_dist),
            pos: 0,
            unsuccessfully_finished: false,
        }
    }

    /// Ends the search and gives the engine back.
    pub fn into_engine(self) -> (r: Myers)
        requires
            self.wf(),
        ensures
            r.wf(),
            r.pattern() == self.pattern(),
    {
        self.lazy.into_engine()
    }

    /// Scans on to the next match and returns its end position and its
    /// distance, without looking for its start.
    pub fn next_end(&mut self) -> (r: Option<(usize, usize)>)
        requires
            old(self).wf(),
        ensures
            final(self).wf(),
            final(self).pattern() == old(self).pattern(),
            final(self).text() == old(self).text(),
            final(self).max_dist() == old(self).max_dist(),
            scan_result(
                old(self).pattern(),
                old(self).text(),
                old(self).max_dist(),
                old(self).pos(),
                r,
                final(self).pos(),
            ),
            r == final(self).last_yield(),
            final(self).finished() == r.is_none(),
    {
        match self.lazy.next() {
            Some((end, dist)) => {
                self.pos = end;
                Some((end, dist))
            },
            None => {
                self.unsuccessfully_finished = true;
                None
            },
        }
    }

    /// Scans on to the next match and returns its start, the position
    /// behind its end and its distance; `ops` takes its operations in the
    /// order of the text. Returns `None`, and leaves `ops` as it is, when
    /// the text is used up.
    pub fn next_path(&mut self, ops: &mut Vec<AlignmentOperation>) -> (r: Option<
        (usize, usize, usize),
    >)
        requires
            old(self).wf(),
        ensures
            final(self).wf(),
            final(self).pattern() == old(self).pattern(),
            final(self).text() == old(self).text(),
            final(self).max_dist() == old(self).max_dist(),
            scan_result(
                old(self).pattern(),
                old(self).text(),
                old(self).max_dist(),
                old(self).pos(),
                final(self).last_yield(),
                final(self).pos(),
            ),
            r == match final(self).current_hit() {
                Some((start, dist)) => Some((start, final(self).pos() as usize, dist)),
                None => None,
            },
            match final(self).last_yield() {
                Some((end, dist)) => r.is_some() && r.unwrap().1 == end + 1 && r.unwrap().2 == dist,
                None => r.is_none(),
            },
            final(self).finished() == r.is_none(),
            final(ops)@ == if r.is_none() {
                old(ops)@
            } else {
                final(self).current_path().reverse()
            },
            match r {
                Some((start, end, dist)) => {
                    &&& start <= end
                    &&& replays(
                        final(ops)@,
                        old(self).pattern(),
                        old(self).text().subrange(start as int, end as int),
                    )
                    &&& edits(final(ops)@) == dist
                },
                None => true,
            },
    {
        let found = self.next_end();
        match self.path(ops) {
            Some(start) => {
                match found {
                    Some((end, dist)) => Some((start, end + 1, dist)),
                    None => None,
                }
            },
            None => None,
        }
    }

    /// As `next_path`, with the operations from the end of the match to its
    /// start.
    pub fn next_path_reverse(&mut self, ops: &mut Vec<AlignmentOperation>) -> (r: Option<
        (usize, usize, usize),
    >)
        requires
            old(self).wf(),
        ensures
            final(self).wf(),
            final(self).pattern() == old(self).pattern(),
            final(self).text() == old(self).text(),
            final(self).max_dist() == old(self).max_dist(),
            scan_result(
                old(self).pattern(),
                old(self).text(),
                old(self).max_dist(),
                old(self).pos(),
                final(self).last_yield(),
                final(self).pos(),
            ),
            r == match final(self).current_hit() {
                Some((start, dist)) => Some((start, final(self).pos() as usize, dist)),
                None => None,
            },
            match final(self).last_yield() {
                Some((end, dist)) => r.is_some() && r.unwrap().1 == end + 1 && r.unwrap().2 == dist,
                None => r.is_none(),
            },
            final(self).finished() == r.is_none(),
            final(ops)@ == if r.is_none() {
                old(ops)@
            } else {
                final(self).current_path()
            },
    {
        let found = self.next_end();
        match self.path_reverse(ops) {
            Some(start) => {
                match found {
                    Some((end, dist)) => Some((start, end + 1, dist)),
                    None => None,
                }
            },
            None => None,
        }
    }

    /// Scans on to the next match and returns its start, the position
    /// behind its end and its distance.
    pub fn next(&mut self) -> (r: Option<(usize, usize, usize)>)
        requires
            old(self).wf(),
        ensures
            final(self).wf(),
            final(self).pattern() == old(self).pattern(),
            final(self).text() == old(self).text(),
            final(self).max_dist() == old(self).max_dist(),
            scan_result(
                old(self).pattern(),
                old(self).text(),
                old(self).max_dist(),
                old(self).pos(),
                final(self).last_yield(),
                final(self).pos(),
            ),
            r == match final(self).current_hit() {
                Some((start, dist)) => Some((start, final(self).pos() as usize, dist)),
                None => None,
            },
            match final(self).last_yield() {
                Some((end, dist)) => r.is_some() && r.unwrap().1 == end + 1 && r.unwrap().2 == dist,
                None => r.is_none(),
            },
    {
        let found = self.next_end();
        match self.start() {
            Some(start) => {
                match found {
                    Some((end, dist)) => Some((start, end + 1, dist)),
                    None => None,
                }
            },
            None => None,
        }
    }

    /// Scans on to the next match and fills `aln` with it. Returns `false`,
    /// and leaves `aln` as it is, when the text is used up.
    pub fn next_alignment(&mut self, aln: &mut Alignment) -> (r: bool)
        requires
            old(self).wf(),
        ensures
            final(self).wf(),
            final(self).pattern() == old(self).pattern(),
            final(self).text() == old(self).text(),
            final(self).max_dist() == old(self).max_dist(),
            scan_result(
                old(self).pattern(),
                old(self).text(),
                old(self).max_dist(),
                old(self).pos(),
                final(self).last_yield(),
                final(self).pos(),
            ),
            final(self).shows(*old(aln), *final(aln), r),
            r == final(self).last_yield().is_some(),
    {
        if self.next_end().is_some() {
            self.alignment(aln)
        } else {
            false
        }
    }

    /// Where the search stands at a match, the start of that match.
    pub fn start(&self) -> (r: Option<usize>)
        requires
            self.wf(),
        ensures
            r == match self.current_hit() {
                Some((start, dist)) => Some(start),
                None => None,
            },
            r.is_some() == self.current().is_some(),
    {
        if self.unsuccessfully_finished || self.lazy.pos == 0 {
            return None;
        }
        match self.lazy.hit_at(self.pos) {
            Some((start, dist)) => Some(start),
            None => None,
        }
    }

    /// The start of the current match; `ops` is emptied and takes its
    /// operations in the order of the text. Once the search has ended
    /// without a further match, `ops` stays as it is.
    pub fn path(&self, ops: &mut Vec<AlignmentOperation>) -> (r: Option<usize>)
        requires
            self.wf(),
        ensures
            r == match self.current_hit() {
                Some((start, dist)) => Some(start),
                None => None,
            },
            r.is_some() == self.current().is_some(),
            final(ops)@ == if self.finished() {
                old(ops)@
            } else {
                self.current_path().reverse()
            },
            match (r, self.last_yield()) {
                (Some(start), Some((end, dist))) => {
                    &&& start <= end + 1
                    &&& replays(
                        final(ops)@,
                        self.pattern(),
                        self.text().subrange(start as int, end + 1),
                    )
                    &&& edits(final(ops)@) == dist
                },
                _ => true,
            },
    {
        if self.unsuccessfully_finished {
            return None;
        }
        if self.lazy.pos == 0 {
            ops.clear();
            return None;
        }
        match self.lazy.path_at(self.pos, ops) {
            Some((start, dist)) => Some(start),
            None => None,
        }
    }

    /// As `path`, with the operations from the end of the match to its
    /// start.
    pub fn path_reverse(&self, ops: &mut Vec<AlignmentOperation>) -> (r: Option<usize>)
        requires
            self.wf(),
        ensures
            r == match self.current_hit() {
                Some((start, dist)) => Some(start),
                None => None,
            },
            r.is_some() == self.current().is_some(),
            final(ops)@ == if self.finished() {
                old(ops)@
            } else {
                self.current_path()
            },
    {
        if self.unsuccessfully_finished {
            return None;
        }
        if self.lazy.pos == 0 {
            ops.clear();
            return None;
        }
        match self.lazy.path_at_reverse(self.pos, ops) {
            Some((start, dist)) => Some(start),
            None => None,
        }
    }

    /// What `alignment` does to an alignment `before`, giving `after` and
    /// the answer `r`: with a current match, `after` describes it; with none,
    /// nothing changes.
    pub open spec fn shows(&self, before: Alignment, after: Alignment, r: bool) -> bool {
        match self.current() {
            Some(end) => match self.current_hit() {
                Some((start, dist)) => r && describes(
                    after,
                    self.pattern().len(),
                    self.text().len(),
                    end,
                    start,
                    dist,
                    self.current_path(),
                ),
                None => !r && after.operations@.len() == 0 && same_frame(after, before),
            },
            None => !r && after == before,
        }
    }

    /// Fills `aln` with the current match and returns `true`, or returns
    /// `false` where there is none.
    pub fn alignment(&self, aln: &mut Alignment) -> (r: bool)
        requires
            self.wf(),
        ensures
            self.shows(*old(aln), *final(aln), r),
            r == self.current().is_some(),
    {
        if self.unsuccessfully_finished || self.lazy.pos == 0 {
            return false;
        }
        self.lazy.alignment_at(self.pos, aln)
    }
}

} // verus!
