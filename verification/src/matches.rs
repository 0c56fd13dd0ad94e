//! The end-only search: a scan that reports each end position at which the
//! pattern matches within the maximum distance, and keeps no history.

use crate::engine::{column_after, dist_ending_at, least_dist, scan_result, Myers};
use crate::state::State;
use crate::table::{lemma_dist_ending_at_is_table, lemma_least_dist_is_table_min, table};
use vstd::prelude::*;

verus! {

/// A scan of one text that yields pairs of end position and distance.
#[derive(Clone, Debug)]
pub struct Matches<'a> {
    myers: &'a Myers,
    state: State,
    text: &'a [u8],
    pos: usize,
    max_dist: usize,
}

impl<'a> Matches<'a> {
    /// The pattern searched for.
    pub closed spec fn pattern(&self) -> Seq<u8> {
        self.myers.pattern()
    }

    /// The text searched in.
    pub closed spec fn text(&self) -> Seq<u8> {
        self.text@
    }

    /// The number of text symbols read so far.
    pub closed spec fn pos(&self) -> nat {
        self.pos as nat
    }

    /// The largest distance that counts as a match.
    pub closed spec fn max_dist(&self) -> usize {
        self.max_dist
    }

    /// The scan holds the column of the text read so far.
    pub closed spec fn wf(&self) -> bool {
        &&& self.myers.wf()
        &&& self.pos <= self.text@.len()
        &&& self.state == column_after(self.myers.pattern(), self.text@.take(self.pos as int))
    }

    pub(crate) fn new(myers: &'a Myers, text: &'a [u8], max_dist: usize) -> (r: Matches<'a>)
        requires
            myers.wf(),
        ensures
            r.wf(),
            r.pattern() == myers.pattern(),
            r.text() == text@,
            r.pos() == 0,
            r.max_dist() == max_dist,
    {
        let state = myers.initial_state();
        proof {
            assert(text@.take(0) == Seq::<u8>::empty());
        }
        Matches { myers, state, text, pos: 0, max_dist }
    }

    /// Scans on to the next end position whose distance is at most the
    /// maximum and returns it with its distance, or returns `None` when the
    /// text is used up. Every position passed over lies above the maximum.
    pub fn next(&mut self) -> (r: Option<(usize, usize)>)
        requires
            old(self).wf(),
        ensures
            final(self).wf(),
            final(self).pattern() == old(self).pattern(),
            final(self).text() == old(self).text(),
            final(self).max_dist() == old(self).max_dist(),
            scan_result(
                old(self).pattern(),
                old(self).text(),
                old(self).max_dist(),
                old(self).pos(),
                r,
                final(self).pos(),
            ),
    {
        while self.pos < self.text.len()
            invariant
                self.wf(),
                self.myers == old(self).myers,
                self.text == old(self).text,
                self.max_dist == old(self).max_dist,
                old(self).pos <= self.pos,
                forall|k: int|
                    old(self).pos <= k < self.pos ==> #[trigger] dist_ending_at(
                        self.myers.pattern(),
                        self.text@,
                        k,
                    ) > self.max_dist,
            decreases self.text@.len() - self.pos,
        {
            let i: usize = self.pos;
            let a: u8 = self.text[i];
            self.myers.step(&mut self.state, a, self.max_dist);
            self.pos = i + 1;
            proof {
                assert(self.text@.take(i + 1).drop_last() == self.text@.take(i as int));
            }
            if let Some(dist) = self.state.known_dist() {
                if dist <= self.max_dist {
                    proof {
                        lemma_dist_ending_at_is_table(self.myers.pattern(), self.text@, i as int);
                    }
                    return Some((i, dist));
                }
            }
        }
        None
    }
}

impl Myers {
    /// Starts a scan of `text` for the end positions at which the pattern
    /// matches with at most `max_dist` edits. A `max_dist` beyond the
    /// distance type's range cannot be given, so none is cut down.
    pub fn find_all_end<'a>(&'a self, text: &'a [u8], max_dist: usize) -> (r: Matches<'a>)
        requires
            self.wf(),
        ensures
            r.wf(),
            r.pattern() == self.pattern(),
            r.text() == text@,
            r.pos() == 0,
            r.max_dist() == max_dist,
    {
        Matches::new(self, text, max_dist)
    }

    /// The end position with the least distance and that distance; of
    /// several such positions the first.
    pub fn find_best_end(&self, text: &[u8]) -> (r: (usize, usize))
        requires
            self.wf(),
            text@.len() > 0,
        ensures
            r.0 < text@.len(),
            r.1 == least_dist(self.pattern(), text@),
            r.1 == dist_ending_at(self.pattern(), text@, r.0 as int),
            r.1 == table(self.pattern(), text@.take(r.0 + 1)),
            forall|k: int|
                0 <= k < text@.len() ==> r.1 <= #[trigger] table(self.pattern(), text@.take(k + 1)),
            forall|k: int| 0 <= k < r.0 ==> #[trigger] dist_ending_at(self.pattern(), text@, k) > r.1,
    {
        let mut matches = self.find_all_end(text, usize::MAX);
        let mut best: (usize, usize) = (0, usize::MAX);
        let mut found: bool = false;
        loop
            invariant
                matches.wf(),
                matches.pattern() == self.pattern(),
                matches.text() == text@,
                matches.max_dist() == usize::MAX,
                found <==> matches.pos() > 0,
                best.1 == least_dist(self.pattern(), text@.take(matches.pos() as int)),
                found ==> best.0 < matches.pos() && best.1 == dist_ending_at(
                    self.pattern(),
                    text@,
                    best.0 as int,
                ),
                forall|k: int|
                    0 <= k < best.0 ==> #[trigger] dist_ending_at(self.pattern(), text@, k)
                        > best.1,
                forall|k: int|
                    0 <= k < matches.pos() ==> #[trigger] dist_ending_at(self.pattern(), text@, k)
                        >= best.1,
            ensures
                matches.pos() == text@.len(),
            decreases text@.len() - matches.pos(),
        {
            let ghost before = matches.pos();
            match matches.next() {
                Some((end, dist)) => {
                    proof {
                        assert(end > before ==> dist_ending_at(self.pattern(), text@, before as int)
                            > usize::MAX);
                        assert(text@.take(end + 1).drop_last() == text@.take(end as int));
                    }
                    if !found || dist < best.1 {
                        best = (end, dist);
                        found = true;
                    }
                },
                None => {
                    proof {
                        assert(before < text@.len() ==> dist_ending_at(
                            self.pattern(),
                            text@,
                            before as int,
                        ) > usize::MAX);
                        assert(text@.take(text@.len() as int) == text@);
                    }
                    break ;
                },
            }
        }
        proof {
            assert(text@.take(text@.len() as int) == text@);
            lemma_least_dist_is_table_min(self.pattern(), text@);
            lemma_dist_ending_at_is_table(self.pattern(), text@, best.0 as int);
        }
        best
    }
}

} // verus!
