//! A whole propagation round trip on a small graph: two variables over
//! {-1, 0, 1} and two inequalities, `x0 + x1 <= 0` and `x0 - x1 >= 0`,
//! driven the way a scheduler would drive it, ending in an exact posterior.

use check_bp::bin_var_node::BinVariableNode;
use check_bp::check_msg::CheckMsg;
use check_bp::check_node::{CheckNode, CmpOperator};
use check_bp::weight::Weight;

fn w(num: i64, den: u64) -> Weight {
    Weight { num, den }
}

fn uniform3() -> CheckMsg {
    CheckMsg::from_data(vec![w(1, 1), w(1, 1), w(1, 1)])
}

#[test]
fn two_variables_two_checks_round_trip() {
    // Nodes 0 and 1 are variables; nodes 2 and 3 are checks.
    let mut x0 = BinVariableNode::new(3);
    let mut x1 = BinVariableNode::new(3);
    assert!(x0.set_prior(&uniform3()).is_ok());
    assert!(x1.set_prior(&uniform3()).is_ok());
    assert!(x0.initialize(vec![2, 3]).is_ok());
    assert!(x1.initialize(vec![2, 3]).is_ok());
    let mut le = CheckNode::new(3, vec![1, 1], 0, CmpOperator::SmallerEq, 8, None);
    let mut ge = CheckNode::new(3, vec![1, -1], 0, CmpOperator::GreaterEq, 8, None);
    assert!(le.initialize(vec![0, 1]).is_ok());
    assert!(ge.initialize(vec![0, 1]).is_ok());

    // Round zero: the variables broadcast their priors.
    assert_eq!(x0.is_ready(&vec![], 0), Ok(true));
    let from_x0 = x0.node_function(vec![]).unwrap();
    let from_x1 = x1.node_function(vec![]).unwrap();
    assert_eq!(from_x0[0].0, 2);
    assert_eq!(from_x0[1].0, 3);

    // The checks answer with one belief per variable.
    let le_inbox = vec![(0usize, from_x0[0].1.dup_msg()), (1usize, from_x1[0].1.dup_msg())];
    let ge_inbox = vec![(0usize, from_x0[1].1.dup_msg()), (1usize, from_x1[1].1.dup_msg())];
    let from_le = le.node_function(le_inbox).unwrap();
    let from_ge = ge.node_function(ge_inbox).unwrap();
    // x0 + x1 <= 0 favors small values; x0 - x1 >= 0 favors large x0.
    let le_to_x0 = &from_le[0].1;
    assert!(le_to_x0.data[0].eqv(&w(1, 1)));
    assert!(le_to_x0.data[1].eqv(&w(2, 3)));
    assert!(le_to_x0.data[2].eqv(&w(1, 3)));
    let ge_to_x0 = &from_ge[0].1;
    assert!(ge_to_x0.data[0].eqv(&w(1, 3)));
    assert!(ge_to_x0.data[1].eqv(&w(2, 3)));
    assert!(ge_to_x0.data[2].eqv(&w(1, 1)));

    // The next variable round excludes each check's own evidence.
    let x0_inbox = vec![(2usize, le_to_x0.dup_msg()), (3usize, ge_to_x0.dup_msg())];
    let out = x0.node_function(x0_inbox).unwrap();
    assert_eq!(out[0].0, 2);
    // Back to the first check goes only the second check's evidence.
    assert!(out[0].1.data[0].eqv(&w(1, 3)));
    assert!(out[0].1.data[1].eqv(&w(2, 3)));
    assert!(out[0].1.data[2].eqv(&w(1, 1)));
    assert!(out[1].1.data[0].eqv(&w(1, 1)));
    assert!(out[1].1.data[1].eqv(&w(2, 3)));
    assert!(out[1].1.data[2].eqv(&w(1, 3)));

    // Read-out: the posterior combines the prior with all evidence and
    // rescales to a probability distribution.
    let mut posterior = x0.get_prior().unwrap();
    posterior.mult_msg(le_to_x0);
    posterior.mult_msg(ge_to_x0);
    assert!(posterior.to_probabilities().is_ok());
    assert!(posterior.data[0].eqv(&w(3, 10)));
    assert!(posterior.data[1].eqv(&w(4, 10)));
    assert!(posterior.data[2].eqv(&w(3, 10)));
}
