use graphics_year2::Axis;
use graphics_year2::EdgeMatrix;
use graphics_year2::TStack;
use graphics_year2::Transformer;
use graphics_year2::fixed::FP_ONE;
use graphics_year2::transform::TRANS_BOUND;

fn edge_of(p0: (i64, i64, i64), p1: (i64, i64, i64)) -> EdgeMatrix {
    let mut e = EdgeMatrix::empty();
    e.add_edge(p0, p1);
    e
}

#[test]
fn identity_apply_returns_input() {
    let t = Transformer::default();
    let e = edge_of((1, 2, 3), (-4, 5, -6));
    let r = t.apply_edges(&e).expect("identity transform stays in range");
    assert_eq!(r.point(0), (1, 2, 3));
    assert_eq!(r.point(1), (-4, 5, -6));
}

#[test]
fn translate_moves_points_exactly() {
    let mut t = Transformer::default();
    assert!(t.translate(3 * FP_ONE, 4 * FP_ONE, 5 * FP_ONE));
    let e = edge_of((1, 2, 3), (0, 0, 0));
    let r = t.apply_edges(&e).expect("translation stays in range");
    assert_eq!(r.point(0), (4, 6, 8));
    assert_eq!(r.point(1), (3, 4, 5));
}

#[test]
fn scale_doubles_points_exactly() {
    let mut t = Transformer::default();
    assert!(t.scale(2 * FP_ONE, 2 * FP_ONE, 2 * FP_ONE));
    let e = edge_of((1, 2, 3), (-4, 0, 6));
    let r = t.apply_edges(&e).expect("scaling stays in range");
    assert_eq!(r.point(0), (2, 4, 6));
    assert_eq!(r.point(1), (-8, 0, 12));
}

#[test]
fn rotate_quarter_turn_about_z() {
    let mut t = Transformer::default();
    // a quarter turn: cosine 0, sine 1, in fixed point
    assert!(t.rotate(Axis::Z, 0, FP_ONE));
    let e = edge_of((1, 0, 0), (0, 1, 0));
    let r = t.apply_edges(&e).expect("rotation stays in range");
    assert_eq!(r.point(0), (0, 1, 0));
    assert_eq!(r.point(1), (-1, 0, 0));
}

#[test]
fn compose_matches_sequential_applies() {
    // T1 translates, T2 scales; (T2 * T1) applied once must equal
    // T1 then T2 applied in sequence.
    let mut t1 = Transformer::default();
    assert!(t1.translate(FP_ONE, 2 * FP_ONE, 3 * FP_ONE));
    let mut t2 = Transformer::default();
    assert!(t2.scale(2 * FP_ONE, 2 * FP_ONE, 2 * FP_ONE));

    let e = edge_of((1, 1, 1), (-2, 0, 5));

    let step1 = t1.apply_edges(&e).expect("in range");
    let sequential = t2.apply_edges(&step1).expect("in range");

    let mut composed = t2.clone();
    assert!(composed.compose(&t1));
    let at_once = composed.apply_edges(&e).expect("in range");

    for j in 0..2 {
        assert_eq!(at_once.point(j), sequential.point(j));
    }
}

#[test]
fn reset_restores_identity() {
    let mut t = Transformer::default();
    assert!(t.translate(7 * FP_ONE, 0, 0));
    t.reset();
    let e = edge_of((5, 6, 7), (8, 9, 10));
    let r = t.apply_edges(&e).expect("in range");
    assert_eq!(r.point(0), (5, 6, 7));
    assert_eq!(r.point(1), (8, 9, 10));
}

#[test]
fn stack_push_copy_top_and_pop() {
    let mut s = TStack::default();
    assert!(s.top().translate(FP_ONE, 0, 0));
    s.push_copy();
    assert!(s.top().translate(FP_ONE, 0, 0));

    // the top frame now translates by two units
    let e = edge_of((0, 0, 0), (1, 1, 1));
    let r = s.top().apply_edges(&e).expect("in range");
    assert_eq!(r.point(0), (2, 0, 0));

    // popping returns to the single-unit frame
    s.pop();
    let r2 = s.top().apply_edges(&e).expect("in range");
    assert_eq!(r2.point(0), (1, 0, 0));
}

#[test]
fn overflowing_compose_reports_and_keeps_state() {
    let mut big = Transformer::default();
    // a scale of 16384: applying it stays in range, squaring it does not
    let s = 16384 * FP_ONE;
    assert!(big.scale(s, s, s));
    let other = big.clone();
    // squaring the largest representable scale overflows: the operation
    // reports failure and leaves the transform as it was
    assert!(!big.compose(&other));
    let e = edge_of((1, 0, 0), (0, 0, 0));
    let before = other.apply_edges(&e).expect("in range");
    let after = big.apply_edges(&e).expect("in range");
    assert_eq!(before.point(0), after.point(0));
}

#[test]
fn out_of_range_apply_returns_none() {
    let mut t = Transformer::default();
    assert!(t.scale(TRANS_BOUND, TRANS_BOUND, TRANS_BOUND));
    let mut e = EdgeMatrix::empty();
    e.add_edge((1_000_000, 0, 0), (0, 0, 0));
    assert!(t.apply_edges(&e).is_none());
}
