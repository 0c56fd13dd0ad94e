use myers::{Myers, State};

#[test]
fn init_sets_every_row_rising() {
    let s = State::init(7);
    assert_eq!(s.pv, u64::MAX);
    assert_eq!(s.mv, 0);
    assert_eq!(s.dist, 7);
}

#[test]
fn init_max_dist_has_the_largest_distance() {
    let s = State::init_max_dist();
    assert_eq!(s, State { pv: u64::MAX, mv: 0, dist: usize::MAX });
    assert!(s.is_max());
    assert!(!s.is_new());
}

#[test]
fn known_dist_is_always_there() {
    assert_eq!(State::init(4).known_dist(), Some(4));
    assert_eq!(State { pv: 1, mv: 2, dist: 0 }.known_dist(), Some(0));
}

#[test]
fn is_new_holds_of_the_default_only() {
    assert!(State::default().is_new());
    assert!(!State { pv: 0, mv: 0, dist: 1 }.is_new());
    assert!(!State { pv: 1, mv: 0, dist: 0 }.is_new());
    assert!(!State { pv: 0, mv: 1, dist: 0 }.is_new());
}

#[test]
fn is_max_wants_all_three_marks() {
    assert!(State { pv: u64::MAX >> 1, mv: 0, dist: usize::MAX }.is_max());
    assert!(State { pv: u64::MAX, mv: 0, dist: usize::MAX }.is_max());
    assert!(!State { pv: u64::MAX >> 1, mv: 0, dist: 3 }.is_max());
    assert!(!State { pv: (u64::MAX >> 1) - 1, mv: 0, dist: usize::MAX }.is_max());
    assert!(!State { pv: u64::MAX, mv: 1, dist: usize::MAX }.is_max());
}

#[test]
fn leftmost_column_is_not_the_not_reached_state() {
    assert!(!State::init(4).is_max());
    assert!(!State::default().is_max());
}

#[test]
fn adjust_up_by_counts_the_bits_of_the_range() {
    let mut s = State { pv: 0b1110, mv: 0b0001, dist: 5 };
    s.adjust_up_by(0b0110);
    assert_eq!(s, State { pv: 0b1110, mv: 0b0001, dist: 3 });
    let mut t = State { pv: 0b1000, mv: 0b0111, dist: 5 };
    t.adjust_up_by(0b1110);
    assert_eq!(t.dist, 6);
    let mut u = State { pv: 0b1000, mv: 0b0111, dist: 5 };
    u.adjust_up_by(0);
    assert_eq!(u.dist, 5);
}

#[test]
fn adjust_up_by_takes_a_full_word() {
    let mut s = State { pv: u64::MAX, mv: 0, dist: 64 };
    s.adjust_up_by(u64::MAX);
    assert_eq!(s.dist, 0);
    let mut t = State { pv: 0, mv: u64::MAX, dist: 1 };
    t.adjust_up_by(u64::MAX);
    assert_eq!(t.dist, 65);
}

#[test]
fn adjust_one_up_follows_the_bit() {
    let mut s = State { pv: 0b100, mv: 0b010, dist: 5 };
    s.adjust_one_up(0b100);
    assert_eq!(s.dist, 4);
    s.adjust_one_up(0b010);
    assert_eq!(s.dist, 5);
    s.adjust_one_up(0b001);
    assert_eq!(s.dist, 5);
    assert_eq!(s.pv, 0b100);
    assert_eq!(s.mv, 0b010);
}

#[test]
fn single_steps_agree_with_the_range() {
    let start = State { pv: 0b0110_1001, mv: 0b1001_0010, dist: 9 };
    let mut a = start;
    a._adjust_up_by(0b10, 5);
    let mut b = start;
    b.adjust_up_by(0b11_1110);
    assert_eq!(a, b);
    assert_eq!(a.dist, 9 + 2 - 2);
    let mut c = start;
    c._adjust_up_by(0b1, 0);
    assert_eq!(c, start);
}

#[test]
fn rollback_of_a_column_reaches_the_first_row() {
    let myers = Myers::new(b"GATTACA");
    let mut state = myers.initial_state();
    for &a in b"TTGATACAGG" {
        myers.step(&mut state, a, 0);
        assert_eq!(state.pv & state.mv, 0);
        let mut top = state;
        top.adjust_up_by(0b111_1111);
        assert_eq!(top.dist, 0);
        let mut walked = state;
        let mut bit = 0b100_0000u64;
        while bit != 0 {
            walked.adjust_one_up(bit);
            bit >>= 1;
        }
        assert_eq!(walked.dist, 0);
        let mut none = state;
        none.adjust_up_by(0);
        assert_eq!(none, state);
    }
}
