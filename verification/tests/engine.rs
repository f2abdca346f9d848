//! The leave-one-out engine on scalar messages: exclusion correctness and
//! prior folding on concrete values.

use check_bp::bin_tree::{BinMultTree, IntLeaf, compute_llo_products, pointwise_mult};
use check_bp::check_msg::CheckMsg;
use check_bp::weight::Weight;

fn w(num: i64, den: u64) -> Weight {
    Weight { num, den }
}

/// A one-entry message: a scalar under pointwise multiplication.
fn scalar(x: i64) -> CheckMsg {
    CheckMsg::from_data(vec![w(x, 1)])
}

fn scalar_of(m: &CheckMsg) -> i64 {
    assert_eq!(m.data.len(), 1);
    assert_eq!(m.data[0].den, 1);
    m.data[0].num
}

#[test]
fn exclusion_even_four() {
    let leaves = vec![scalar(2), scalar(3), scalar(4), scalar(5)];
    let tree = BinMultTree::new(leaves);
    let out = tree.calculate();
    let got: Vec<i64> = out.iter().map(scalar_of).collect();
    assert_eq!(got, vec![60, 40, 30, 24]);
}

#[test]
fn exclusion_tagged_primes() {
    // Distinct primes per position pin down which leaf each entry excludes.
    let leaves = vec![scalar(2), scalar(3), scalar(5), scalar(7)];
    let out = compute_llo_products(leaves);
    let got: Vec<i64> = out.iter().map(scalar_of).collect();
    assert_eq!(got, vec![105, 70, 42, 30]);
}

#[test]
fn exclusion_odd_three() {
    let leaves = vec![scalar(2), scalar(3), scalar(5)];
    let out = compute_llo_products(leaves);
    let got: Vec<i64> = out.iter().map(scalar_of).collect();
    assert_eq!(got, vec![15, 10, 6]);
}

#[test]
fn exclusion_minimal_pair() {
    let leaves = vec![scalar(11), scalar(13)];
    let out = compute_llo_products(leaves);
    let got: Vec<i64> = out.iter().map(scalar_of).collect();
    assert_eq!(got, vec![13, 11]);
}

#[test]
fn prior_folding_four() {
    let leaves = vec![scalar(2), scalar(3), scalar(4), scalar(5)];
    let tree = BinMultTree::new(leaves);
    let prior = scalar(10);
    let out = tree.calculate_with_prior(&prior);
    let got: Vec<i64> = out.iter().map(scalar_of).collect();
    assert_eq!(got, vec![600, 400, 300, 240]);
}

#[test]
fn integer_instance_excludes_and_saturates() {
    let leaves = vec![
        IntLeaf { val: 2 },
        IntLeaf { val: 3 },
        IntLeaf { val: 4 },
        IntLeaf { val: 5 },
    ];
    let out = compute_llo_products(leaves);
    let got: Vec<u64> = out.iter().map(|l| l.val).collect();
    assert_eq!(got, vec![60, 40, 30, 24]);
    // An overflowing product clamps instead of wrapping or failing.
    let big = vec![IntLeaf { val: u64::MAX }, IntLeaf { val: 2 }, IntLeaf { val: 0 }];
    let out = compute_llo_products(big);
    assert_eq!(out[0].val, 0);
    assert_eq!(out[1].val, 0);
    assert_eq!(out[2].val, u64::MAX);
}

#[test]
fn pointwise_mult_rescales_to_max_one() {
    let a = vec![w(2, 1), w(3, 1)];
    let b = vec![w(4, 1), w(5, 1)];
    let r = pointwise_mult(&a, &b);
    // [8, 15] rescaled by 15.
    assert!(r[0].eqv(&w(8, 15)));
    assert!(r[1].eqv(&w(1, 1)));
}
