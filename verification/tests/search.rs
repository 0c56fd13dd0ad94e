use myers::alignment::{reverse_ops, update_aln};
use myers::AlignmentOperation::{Del, Ins, Match, Subst};
use myers::{Alignment, AlignmentOperation, Myers, State, Traceback};

fn table_row(pattern: &[u8], text: &[u8]) -> Vec<usize> {
    let m = pattern.len();
    let mut col: Vec<usize> = (0..=m).collect();
    let mut last = Vec::new();
    for &t in text {
        let mut next = vec![0usize; m + 1];
        for i in 1..=m {
            let cost = if pattern[i - 1] == t { 0 } else { 1 };
            next[i] = (col[i - 1] + cost).min(col[i] + 1).min(next[i - 1] + 1);
        }
        last.push(next[m]);
        col = next;
    }
    last
}

fn all_ends(pattern: &[u8], text: &[u8], max_dist: usize) -> Vec<(usize, usize)> {
    let myers = Myers::new(pattern);
    let mut matches = myers.find_all_end(text, max_dist);
    let mut found = Vec::new();
    while let Some(hit) = matches.next() {
        found.push(hit);
    }
    found
}

fn replay(ops: &[AlignmentOperation], pattern: &[u8], piece: &[u8]) -> Option<usize> {
    let (mut i, mut j, mut edits) = (0usize, 0usize, 0usize);
    for op in ops {
        match op {
            Match | Subst => {
                if i >= pattern.len() || j >= piece.len() {
                    return None;
                }
                if (pattern[i] == piece[j]) != (*op == Match) {
                    return None;
                }
                if *op == Subst {
                    edits += 1;
                }
                i += 1;
                j += 1;
            }
            Ins => {
                if i >= pattern.len() {
                    return None;
                }
                i += 1;
                edits += 1;
            }
            Del => {
                if j >= piece.len() {
                    return None;
                }
                j += 1;
                edits += 1;
            }
        }
    }
    if i == pattern.len() && j == piece.len() {
        Some(edits)
    } else {
        None
    }
}

const TEXT: &[u8] = b"CGGTCCTGAGGGATTAGCAC";
const PATTERN: &[u8] = b"TCCTAGGGC";

#[test]
fn exact_match_is_found_once() {
    assert_eq!(all_ends(b"AAAA", b"AAAA", 0), vec![(3, 0)]);
}

#[test]
fn short_text_matches_with_one_edit() {
    assert_eq!(all_ends(b"AAAA", b"AAA", 1), vec![(2, 1)]);
}

#[test]
fn substitution_is_found_with_its_path() {
    let myers = Myers::new(b"ACGT");
    let mut matches = myers.find_all(b"ACXT", 1);
    let mut ops = Vec::new();
    assert_eq!(matches.next_path(&mut ops), Some((0, 4, 1)));
    assert_eq!(ops, vec![Match, Match, Subst, Match]);
    assert_eq!(matches.next_path(&mut ops), None);
    assert_eq!(ops, vec![Match, Match, Subst, Match]);
}

#[test]
fn substitution_end_is_three() {
    let myers = Myers::new(b"ACGT");
    let mut matches = myers.find_all(b"ACXT", 1);
    assert_eq!(matches.start(), None);
    assert_eq!(matches.next_end(), Some((3, 1)));
    assert_eq!(matches.start(), Some(0));
    assert_eq!(matches.next_end(), None);
    assert_eq!(matches.start(), None);
}

#[test]
fn end_positions_of_a_longer_text() {
    assert_eq!(all_ends(PATTERN, TEXT, 2), vec![(11, 2), (12, 2)]);
}

#[test]
fn distances_agree_with_the_quadratic_table() {
    let cases: [(&[u8], &[u8]); 5] = [
        (PATTERN, TEXT),
        (b"AAAA", b"AAA"),
        (b"ACGT", b"ACXT"),
        (b"A", b"CCACCA"),
        (b"GATTACA", b"TTGATACAGGATTACCAGATTTACA"),
    ];
    for (pattern, text) in cases {
        let row = table_row(pattern, text);
        let myers = Myers::new(pattern);
        assert_eq!(myers.distance(text), *row.iter().min().unwrap());
        let found = all_ends(pattern, text, usize::MAX);
        assert_eq!(found.len(), text.len());
        for (end, dist) in found {
            assert_eq!(dist, row[end]);
        }
        for max_dist in 0..3 {
            let expected: Vec<(usize, usize)> = row
                .iter()
                .enumerate()
                .filter(|(_, d)| **d <= max_dist)
                .map(|(i, d)| (i, *d))
                .collect();
            assert_eq!(all_ends(pattern, text, max_dist), expected);
        }
    }
}

#[test]
fn distance_of_an_empty_text_is_the_largest() {
    assert_eq!(Myers::new(b"ACGT").distance(b""), usize::MAX);
}

#[test]
fn distance_of_the_documented_text() {
    assert_eq!(Myers::new(PATTERN).distance(TEXT), 2);
    assert_eq!(Myers::new(b"ACGT").distance(b"TTACGTTT"), 0);
}

#[test]
fn pattern_of_63_and_64_symbols() {
    let text = vec![b'A'; 100];
    let p64 = vec![b'A'; 64];
    let p63 = vec![b'A'; 63];
    assert_eq!(Myers::new(&p64).distance(&text), 0);
    assert_eq!(all_ends(&p64, &text, 0).first(), Some(&(63, 0)));
    assert_eq!(all_ends(&p63, &text, 0).first(), Some(&(62, 0)));
    assert_eq!(Myers::new(&p64).distance(b"AAAA"), 60);
}

#[test]
fn single_symbol_pattern() {
    assert_eq!(all_ends(b"A", b"CCACCA", 0), vec![(2, 0), (5, 0)]);
    assert_eq!(all_ends(b"A", b"CA", 1), vec![(0, 1), (1, 0)]);
}

#[test]
fn zero_distance_gives_exact_matches_only() {
    assert_eq!(all_ends(b"ACG", b"ACGTACGACC", 0), vec![(2, 0), (6, 0)]);
}

#[test]
fn best_end_is_the_first_of_the_least() {
    let myers = Myers::new(PATTERN);
    assert_eq!(myers.find_best_end(TEXT), (11, 2));
    assert_eq!(Myers::new(b"AC").find_best_end(b"TTACTTAC"), (3, 0));
    assert_eq!(Myers::new(b"AC").find_best_end(b"G"), (0, 2));
}

#[test]
fn step_follows_the_bottom_row() {
    let myers = Myers::new(b"AB");
    let mut state = myers.initial_state();
    assert_eq!(state, State::init(2));
    myers.step(&mut state, b'A', 0);
    assert_eq!(state.dist, 1);
    myers.step(&mut state, b'B', 0);
    assert_eq!(state.dist, 0);
    assert_eq!(state.pv & state.mv, 0);
    myers.step(&mut state, b'X', 0);
    assert_eq!(state.dist, 1);
    assert_eq!(myers.pattern_len(), 2);
}

#[test]
fn full_search_paths_replay() {
    for max_dist in 0..4 {
        let mut matches = Myers::new(PATTERN).find_all(TEXT, max_dist);
        let mut ops = Vec::new();
        let mut seen = 0;
        while let Some((start, end, dist)) = matches.next_path(&mut ops) {
            assert!(dist <= max_dist);
            assert_eq!(replay(&ops, PATTERN, &TEXT[start..end]), Some(dist));
            seen += 1;
        }
        assert_eq!(seen, all_ends(PATTERN, TEXT, max_dist).len());
    }
}

#[test]
fn full_search_yields_start_end_distance() {
    let mut matches = Myers::new(PATTERN).find_all(TEXT, 2);
    let first = matches.next().unwrap();
    assert_eq!((first.1, first.2), (12, 2));
    assert_eq!(matches.start(), Some(first.0));
    let second = matches.next().unwrap();
    assert_eq!((second.1, second.2), (13, 2));
    assert_eq!(matches.next(), None);
    let engine = matches.into_engine();
    assert_eq!(engine.distance(TEXT), 2);
}

#[test]
fn the_two_orders_are_reverses() {
    let mut matches = Myers::new(PATTERN).find_all(TEXT, 2);
    assert_eq!(matches.next_end(), Some((11, 2)));
    let mut forward = Vec::new();
    let mut backward = vec![Ins, Ins];
    let a = matches.path(&mut forward);
    let b = matches.path_reverse(&mut backward);
    assert_eq!(a, b);
    assert!(a.is_some());
    assert!(!forward.is_empty());
    backward.reverse();
    assert_eq!(forward, backward);
}

#[test]
fn next_path_reverse_gives_the_backward_order() {
    let mut one = Myers::new(PATTERN).find_all(TEXT, 2);
    let mut two = Myers::new(PATTERN).find_all(TEXT, 2);
    let mut forward = Vec::new();
    let mut backward = Vec::new();
    let a = one.next_path(&mut forward);
    let b = two.next_path_reverse(&mut backward);
    assert_eq!(a, b);
    reverse_ops(&mut backward);
    assert_eq!(forward, backward);
}

#[test]
fn lazy_and_full_agree() {
    let mut full = Myers::new(PATTERN).find_all(TEXT, 3);
    let mut lazy = Myers::new(PATTERN).find_all_lazy(TEXT, 3);
    let mut ends = Vec::new();
    while let Some(hit) = lazy.next() {
        ends.push(hit);
    }
    assert!(!ends.is_empty());
    for (end, dist) in ends {
        assert_eq!(full.next_end(), Some((end, dist)));
        let start = full.start().unwrap();
        assert_eq!(lazy.hit_at(end), Some((start, dist)));
        let mut a = Vec::new();
        let mut b = Vec::new();
        assert_eq!(full.path(&mut a), Some(start));
        assert_eq!(lazy.path_at(end, &mut b), Some((start, dist)));
        assert_eq!(a, b);
    }
    assert_eq!(full.next_end(), None);
}

#[test]
fn lazy_answers_for_every_visited_position() {
    let row = table_row(PATTERN, TEXT);
    let mut lazy = Myers::new(PATTERN).find_all_lazy(TEXT, 2);
    assert_eq!(lazy.dist_at(0), None);
    assert_eq!(lazy.hit_at(0), None);
    assert_eq!(lazy.next(), Some((11, 2)));
    assert_eq!(lazy.dist_at(12), None);
    let mut ops = vec![Match];
    assert_eq!(lazy.path_at(12, &mut ops), None);
    assert!(ops.is_empty());
    for end in 0..12 {
        assert_eq!(lazy.dist_at(end), Some(row[end]));
        let (start, dist) = lazy.path_at(end, &mut ops).unwrap();
        assert_eq!(dist, row[end]);
        assert_eq!(replay(&ops, PATTERN, &TEXT[start..end + 1]), Some(dist));
        let mut backward = Vec::new();
        assert_eq!(lazy.path_at_reverse(end, &mut backward), Some((start, dist)));
        backward.reverse();
        assert_eq!(ops, backward);
    }
    let engine = lazy.into_engine();
    assert_eq!(engine.pattern_len(), 9);
}

#[test]
fn alignment_of_the_best_match() {
    let mut lazy = Myers::new(PATTERN).find_all_lazy(TEXT, 2);
    assert_eq!(lazy.next(), Some((11, 2)));
    let mut aln = Alignment::new();
    assert!(lazy.alignment_at(11, &mut aln));
    assert_eq!(aln.score, 2);
    assert_eq!(aln.xstart, 0);
    assert_eq!(aln.xend, 9);
    assert_eq!(aln.xlen, 9);
    assert_eq!(aln.ylen, 20);
    assert_eq!(aln.yend, 12);
    assert_eq!(aln.ystart, 3);
    assert_eq!(replay(&aln.operations, PATTERN, &TEXT[aln.ystart..aln.yend]), Some(2));
    let before = aln.clone();
    assert!(!lazy.alignment_at(17, &mut aln));
    assert!(aln.operations.is_empty());
    assert_eq!(aln.ystart, before.ystart);
    assert_eq!(aln.score, before.score);
}

#[test]
fn full_alignment_needs_a_current_match() {
    let mut full = Myers::new(b"ACGT").find_all(b"ACXT", 1);
    let mut aln = Alignment::new();
    assert!(!full.alignment(&mut aln));
    assert_eq!(aln, Alignment::new());
    assert!(full.next_alignment(&mut aln));
    assert_eq!(aln.operations, vec![Match, Match, Subst, Match]);
    assert_eq!((aln.ystart, aln.yend, aln.score), (0, 4, 1));
    let kept = aln.clone();
    assert!(!full.next_alignment(&mut aln));
    assert_eq!(aln, kept);
    assert!(!full.alignment(&mut aln));
    let mut ops = vec![Del];
    assert_eq!(full.path(&mut ops), None);
    assert_eq!(ops, vec![Del]);
    assert_eq!(full.path_reverse(&mut ops), None);
    assert_eq!(ops, vec![Del]);
    assert_eq!(full.next_path_reverse(&mut ops), None);
    assert_eq!(ops, vec![Del]);
}

#[test]
fn path_before_the_first_match_is_empty() {
    let full = Myers::new(b"ACGT").find_all(b"ACXT", 1);
    let mut ops = vec![Del, Ins];
    assert_eq!(full.path(&mut ops), None);
    assert!(ops.is_empty());
    let mut more = vec![Subst];
    assert_eq!(full.path_reverse(&mut more), None);
    assert!(more.is_empty());
}

#[test]
fn a_cloned_scan_goes_on_by_itself() {
    let myers = Myers::new(PATTERN);
    let mut one = myers.find_all_end(TEXT, 2);
    assert_eq!(one.next(), Some((11, 2)));
    let mut two = one.clone();
    assert_eq!(one.next(), Some((12, 2)));
    assert_eq!(one.next(), None);
    assert_eq!(two.next(), Some((12, 2)));
    assert_eq!(two.next(), None);
    assert!(format!("{:?}", two).contains("Matches"));
}

#[test]
fn searches_can_be_printed_for_debugging() {
    let lazy = Myers::new(b"ACGT").find_all_lazy(b"ACXT", 1);
    assert!(format!("{:?}", lazy).contains("LazyMatches"));
    let full = lazy.into_engine().find_all(b"ACXT", 1);
    assert!(format!("{:?}", full).contains("FullMatches"));
}

#[test]
fn insertion_and_deletion_are_told_apart() {
    let mut ops = Vec::new();
    let mut a = Myers::new(b"ACGT").find_all(b"TTACTTT", 1);
    let hit = a.next_path(&mut ops).unwrap();
    assert_eq!(replay(&ops, b"ACGT", &b"TTACTTT"[hit.0..hit.1]), Some(hit.2));
    let mut b = Myers::new(b"AAAA").find_all(b"AAA", 1);
    assert_eq!(b.next_path(&mut ops), Some((0, 3, 1)));
    assert_eq!(ops.iter().filter(|op| **op == Ins).count(), 1);
    assert_eq!(ops.iter().filter(|op| **op == Match).count(), 3);
    let mut c = Myers::new(b"ACGT").find_all(b"ACXGT", 1);
    assert_eq!(c.next_path(&mut ops), Some((0, 5, 1)));
    assert_eq!(ops, vec![Match, Match, Del, Match, Match]);
}

#[test]
fn update_aln_sets_the_frame() {
    let mut aln = Alignment::new();
    aln.operations.push(Subst);
    update_aln(9, 4, 30, 3, 5, &mut aln);
    assert_eq!(
        aln,
        Alignment {
            score: 3,
            ystart: 6,
            xstart: 0,
            yend: 10,
            xend: 5,
            ylen: 30,
            xlen: 5,
            operations: vec![Subst],
        }
    );
    update_aln(9, 4, 30, usize::MAX, 5, &mut aln);
    assert_eq!(aln.score, i32::MAX);
}

#[test]
fn reverse_ops_turns_the_list() {
    let mut ops = vec![Match, Subst, Ins, Del];
    reverse_ops(&mut ops);
    assert_eq!(ops, vec![Del, Ins, Subst, Match]);
    let mut none: Vec<AlignmentOperation> = Vec::new();
    reverse_ops(&mut none);
    assert!(none.is_empty());
}

#[test]
fn traceback_answers_from_a_history() {
    let myers = Myers::new(b"ACGT");
    let text = b"ACXT";
    let mut state = myers.initial_state();
    let mut history = vec![State::default(); 3];
    let traceback = Traceback::new(&mut history, &state, 8, 4);
    assert_eq!(history, vec![State::init(4)]);
    let mut ops = vec![Del];
    assert_eq!(traceback.traceback(&mut ops, &history, b"ACGT", text), None);
    assert!(ops.is_empty());
    for &a in text {
        myers.step(&mut state, a, 1);
        traceback.add_state(&state, &mut history);
    }
    assert_eq!(history.len(), 5);
    assert_eq!(traceback.dist_at(3, &history), Some(1));
    assert_eq!(traceback.dist_at(4, &history), None);
    assert_eq!(traceback.traceback(&mut ops, &history, b"ACGT", text), Some((4, 1)));
    assert_eq!(ops, vec![Match, Subst, Match, Match]);
    assert_eq!(traceback.traceback_at(1, &mut ops, &history, b"ACGT", text), Some((2, 2)));
    assert_eq!(replay_backward(&ops, b"ACGT", &text[0..2]), Some(2));
    assert_eq!(traceback.traceback_at(4, &mut ops, &history, b"ACGT", text), None);
    assert!(ops.is_empty());
}

fn replay_backward(ops: &[AlignmentOperation], pattern: &[u8], piece: &[u8]) -> Option<usize> {
    let mut forward = ops.to_vec();
    forward.reverse();
    replay(&forward, pattern, piece)
}

#[test]
fn exact_occurrences_have_distance_zero() {
    let text = b"TTACGTACGTTACG";
    let found = all_ends(b"ACGT", text, 0);
    let expected: Vec<(usize, usize)> = (3..text.len())
        .filter(|&end| &text[end - 3..=end] == b"ACGT")
        .map(|end| (end, 0))
        .collect();
    assert_eq!(found, expected);
    assert_eq!(found, vec![(5, 0), (9, 0)]);
}
