//! Belief messages: access, normalization, read-out rescaling, and the
//! exact rational weight arithmetic underneath.

use check_bp::check_msg::CheckMsg;
use check_bp::errors::NodeError;
use check_bp::weight::Weight;

fn w(num: i64, den: u64) -> Weight {
    Weight { num, den }
}

fn msg(entries: &[Weight]) -> CheckMsg {
    let mut data: Vec<Weight> = Vec::new();
    for e in entries {
        data.push(*e);
    }
    CheckMsg::from_data(data)
}

#[test]
fn weight_arithmetic_exact() {
    let half = w(1, 2);
    let third = w(1, 3);
    assert!(half.times(&third).eqv(&w(1, 6)));
    assert!(half.plus(&third).eqv(&w(5, 6)));
    assert!(half.minus(&third).eqv(&w(1, 6)));
    assert!(half.over(&w(-2, 1)).eqv(&w(-1, 4)));
    assert!(half.over_abs(&w(-2, 1)).eqv(&w(1, 4)));
    assert!(w(-3, 4).abs_ge(&half));
    assert!(!w(1, 4).abs_ge(&half));
}

#[test]
fn weight_overflow_yields_marker() {
    let big = w(i64::MAX, 1);
    let two = w(2, 1);
    assert!(!big.times(&two).is_valid());
    assert!(!big.plus(&big).is_valid());
    // The marker propagates.
    assert!(!big.times(&two).plus(&w(1, 1)).is_valid());
}

#[test]
fn get_and_entries_follow_the_domain() {
    let m = msg(&[w(10, 1), w(20, 1), w(30, 1)]);
    assert_eq!(m.len(), 3);
    assert_eq!(m.get(-1), Some(w(10, 1)));
    assert_eq!(m.get(0), Some(w(20, 1)));
    assert_eq!(m.get(1), Some(w(30, 1)));
    assert_eq!(m.get(-2), None);
    assert_eq!(m.get(2), None);
    let pairs = m.entries();
    assert_eq!(pairs, vec![(-1, w(10, 1)), (0, w(20, 1)), (1, w(30, 1))]);
}

#[test]
fn insert_and_point_mass() {
    let mut m = CheckMsg::new(5);
    m.insert(-2, w(7, 1));
    assert_eq!(m.get(-2), Some(w(7, 1)));
    m.set_fixed_value(1);
    assert_eq!(m.get(-2), Some(w(0, 1)));
    assert_eq!(m.get(1), Some(w(1, 1)));
    assert_eq!(m.get(0), Some(w(0, 1)));
}

#[test]
fn normalize_scales_to_max_one() {
    let mut m = msg(&[w(2, 1), w(3, 1), w(1, 2)]);
    assert!(m.normalize().is_ok());
    assert!(m.data[0].eqv(&w(2, 3)));
    assert!(m.data[1].eqv(&w(1, 1)));
    assert!(m.data[2].eqv(&w(1, 6)));
}

#[test]
fn normalize_is_idempotent() {
    let mut once = msg(&[w(2, 1), w(-3, 1), w(1, 2)]);
    assert!(once.normalize().is_ok());
    let mut twice = once.dup_msg();
    assert!(twice.normalize().is_ok());
    for i in 0..3 {
        assert!(once.data[i].eqv(&twice.data[i]));
    }
    // The greatest magnitude is exactly one (here at the negative entry).
    assert!(once.data[1].eqv(&w(-1, 1)));
}

#[test]
fn normalize_fails_on_all_zero() {
    let mut m = msg(&[w(0, 1), w(0, 1), w(0, 1)]);
    assert_eq!(m.normalize(), Err(NodeError::NormalizationFailure));
    // The message is left unchanged.
    assert_eq!(m.get(0), Some(w(0, 1)));
}

#[test]
fn normalize_fails_on_marker_entry() {
    let mut m = msg(&[w(1, 1), w(0, 0), w(1, 1)]);
    assert_eq!(m.normalize(), Err(NodeError::NormalizationFailure));
    assert!(!m.is_valid());
}

#[test]
fn normalize_fails_on_empty() {
    let mut m = CheckMsg::new(0);
    assert_eq!(m.normalize(), Err(NodeError::NormalizationFailure));
}

#[test]
fn to_probabilities_divides_by_sum() {
    let mut m = msg(&[w(1, 1), w(1, 1), w(2, 1)]);
    assert!(m.to_probabilities().is_ok());
    assert!(m.data[0].eqv(&w(1, 4)));
    assert!(m.data[1].eqv(&w(1, 4)));
    assert!(m.data[2].eqv(&w(1, 2)));
}

#[test]
fn to_probabilities_fails_on_zero_sum() {
    let mut m = msg(&[w(1, 1), w(-1, 1)]);
    assert_eq!(m.to_probabilities(), Err(NodeError::NormalizationFailure));
}

#[test]
fn mult_msg_keeps_tail_beyond_other() {
    let mut m = msg(&[w(2, 1), w(3, 1), w(4, 1)]);
    let other = msg(&[w(5, 1), w(7, 1)]);
    m.mult_msg(&other);
    assert_eq!(m.data[0], w(10, 1));
    assert_eq!(m.data[1], w(21, 1));
    assert_eq!(m.data[2], w(4, 1));
}

#[test]
fn is_valid_detects_markers() {
    assert!(msg(&[w(1, 2), w(0, 1)]).is_valid());
    assert!(!msg(&[w(1, 2), w(3, 0)]).is_valid());
}
