//! Partial-sum windows: spreading, circular convolution with
//! renormalization, poisoning, and re-centering.

use check_bp::bin_tree::Combine;
use check_bp::check_msg::CheckMsg;
use check_bp::sum_dist::SumDist;
use check_bp::weight::Weight;

fn w(num: i64, den: u64) -> Weight {
    Weight { num, den }
}

fn window(entries: &[i64]) -> SumDist {
    let mut data: Vec<Weight> = Vec::new();
    for e in entries {
        data.push(w(*e, 1));
    }
    SumDist::from_data(data)
}

#[test]
fn spreading_scales_and_wraps() {
    // Domain {-1, 0, 1} scaled by -2 into eight slots: value -1 lands at
    // slot 2, value 0 at slot 0, value 1 at slot 6.
    let msg = CheckMsg::from_data(vec![w(5, 1), w(7, 1), w(9, 1)]);
    let b = SumDist::from_scaled(&msg, -2, 8);
    let got: Vec<i64> = b.data.iter().map(|x| x.num).collect();
    assert_eq!(got, vec![7, 0, 5, 0, 0, 0, 9, 0]);
}

#[test]
fn spreading_accumulates_colliding_slots() {
    // A window smaller than the scaled domain folds weights together:
    // with two slots and coefficient 2, every value lands at slot 0.
    let msg = CheckMsg::from_data(vec![w(1, 1), w(2, 1), w(4, 1)]);
    let b = SumDist::from_scaled(&msg, 2, 2);
    let got: Vec<i64> = b.data.iter().map(|x| x.num).collect();
    assert_eq!(got, vec![7, 0]);
}

#[test]
fn combine_convolves_and_rescales() {
    let a = window(&[1, 2, 0, 0]);
    let b = window(&[1, 1, 0, 0]);
    let c = a.combine(&b);
    // The circular convolution [1, 3, 2, 0], rescaled by 3.
    assert!(c.data[0].eqv(&w(1, 3)));
    assert!(c.data[1].eqv(&w(1, 1)));
    assert!(c.data[2].eqv(&w(2, 3)));
    assert!(c.data[3].eqv(&w(0, 1)));
}

#[test]
fn combine_poisons_degenerate_windows() {
    let a = window(&[0, 0, 0, 0]);
    let b = window(&[1, 1, 1, 1]);
    let c = a.combine(&b);
    assert!(c.data.iter().all(|x| x.den == 0));
    // A length mismatch has no sensible convolution either.
    let short = window(&[1, 1]);
    let c = b.combine(&short);
    assert_eq!(c.data.len(), 4);
    assert!(c.data.iter().all(|x| x.den == 0));
}

#[test]
fn recenter_puts_zero_at_the_midpoint() {
    let b = window(&[10, 11, 12, 13, 14, 15]);
    let r = b.recenter();
    let got: Vec<i64> = r.iter().map(|x| x.num).collect();
    // Slot j shows the weight of sum value j - 3.
    assert_eq!(got, vec![13, 14, 15, 10, 11, 12]);
}
