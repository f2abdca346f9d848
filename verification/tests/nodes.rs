//! Variable and check nodes: lifecycle, control messages, leave-one-out
//! combination, the inequality derivation, and every error kind.

use check_bp::bin_var_node::{BinVariableNode, CtrlMsg, CtrlMsgA};
use check_bp::check_msg::CheckMsg;
use check_bp::check_node::{CheckNode, CmpOperator, pdf_g, pdf_ge, pdf_l, pdf_le};
use check_bp::errors::NodeError;
use check_bp::weight::Weight;

fn w(num: i64, den: u64) -> Weight {
    Weight { num, den }
}

fn msg(entries: &[i64]) -> CheckMsg {
    let mut data: Vec<Weight> = Vec::new();
    for e in entries {
        data.push(w(*e, 1));
    }
    CheckMsg::from_data(data)
}

fn uniform3() -> CheckMsg {
    msg(&[1, 1, 1])
}

#[test]
fn variable_node_lifecycle_errors() {
    let mut n = BinVariableNode::new(3);
    // Initialization demands a prior.
    assert_eq!(n.initialize(vec![7, 8]), Err(NodeError::NotInitialized));
    // A round before initialization is refused.
    assert!(matches!(n.node_function(vec![]), Err(NodeError::NotInitialized)));
    assert_eq!(n.is_ready(&vec![], 0), Err(NodeError::NotInitialized));
    assert!(n.set_prior(&uniform3()).is_ok());
    // The prior may be set only once.
    assert_eq!(n.set_prior(&uniform3()), Err(NodeError::AlreadySet));
    assert!(n.initialize(vec![7, 8]).is_ok());
    assert_eq!(n.is_ready(&vec![], 0), Ok(true));
    assert_eq!(n.is_ready(&vec![], 3), Ok(false));
    assert_eq!(n.number_inputs(), Some(2));
    assert!(!n.is_factor());
}

#[test]
fn variable_node_first_round_broadcasts_prior() {
    let mut n = BinVariableNode::new(3);
    assert!(n.set_prior(&msg(&[1, 2, 1])).is_ok());
    assert!(n.initialize(vec![7, 8, 9]).is_ok());
    let out = n.node_function(vec![]).unwrap();
    assert_eq!(out.len(), 3);
    let ids: Vec<usize> = out.iter().map(|p| p.0).collect();
    assert_eq!(ids, vec![7, 8, 9]);
    for (_, m) in &out {
        assert_eq!(m.entries(), msg(&[1, 2, 1]).entries());
    }
}

#[test]
fn variable_node_combines_all_but_one() {
    let mut n = BinVariableNode::new(3);
    assert!(n.set_prior(&msg(&[1, 1, 1])).is_ok());
    assert!(n.initialize(vec![1, 2]).is_ok());
    let _ = n.node_function(vec![]).unwrap();
    // Two neighbors: each outgoing message is prior times the other's.
    let inbox = vec![(1usize, msg(&[1, 2, 4])), (2usize, msg(&[8, 2, 1]))];
    let out = n.node_function(inbox).unwrap();
    assert_eq!(out.len(), 2);
    assert_eq!(out[0].0, 1);
    // To neighbor 1: normalize([8, 2, 1]) = [1, 1/4, 1/8].
    assert!(out[0].1.data[0].eqv(&w(1, 1)));
    assert!(out[0].1.data[1].eqv(&w(1, 4)));
    assert!(out[0].1.data[2].eqv(&w(1, 8)));
    assert_eq!(out[1].0, 2);
    // To neighbor 2: normalize([1, 2, 4]) = [1/4, 1/2, 1].
    assert!(out[1].1.data[0].eqv(&w(1, 4)));
    assert!(out[1].1.data[1].eqv(&w(1, 2)));
    assert!(out[1].1.data[2].eqv(&w(1, 1)));
}

#[test]
fn variable_node_degenerate_product_fails() {
    // Three neighbors whose complementary product is all zero: the round
    // must end in a normalization failure, not a panic.
    let mut n = BinVariableNode::new(3);
    assert!(n.set_prior(&uniform3()).is_ok());
    assert!(n.initialize(vec![1, 2, 3]).is_ok());
    let _ = n.node_function(vec![]).unwrap();
    let inbox = vec![
        (1usize, msg(&[1, 1, 1])),
        (2usize, msg(&[1, 0, 0])),
        (3usize, msg(&[0, 0, 1])),
    ];
    assert!(matches!(n.node_function(inbox), Err(NodeError::NormalizationFailure)));
}

#[test]
fn variable_node_rejects_invalid_message() {
    let mut n = BinVariableNode::new(3);
    assert!(n.set_prior(&uniform3()).is_ok());
    assert!(n.initialize(vec![4, 5]).is_ok());
    let _ = n.node_function(vec![]).unwrap();
    let bad = CheckMsg::from_data(vec![w(1, 1), w(0, 0), w(1, 1)]);
    let inbox = vec![(4usize, uniform3()), (5usize, bad)];
    assert!(matches!(n.node_function(inbox), Err(NodeError::InvalidMessage(5))));
}

#[test]
fn fixed_override_ignores_inbox() {
    let mut n = BinVariableNode::new(3);
    assert!(n.set_prior(&uniform3()).is_ok());
    assert!(n.initialize(vec![4, 5]).is_ok());
    assert_eq!(n.send_control_message(CtrlMsg::GetFixed), Ok(CtrlMsgA::Fixed(false)));
    assert_eq!(n.send_control_message(CtrlMsg::SetFixed(1)), Ok(CtrlMsgA::Ack));
    assert_eq!(n.send_control_message(CtrlMsg::GetFixed), Ok(CtrlMsgA::Fixed(true)));
    // Whatever arrives, every round now broadcasts a point mass at 1.
    let inboxes = vec![
        vec![],
        vec![(4usize, msg(&[9, 9, 9])), (5usize, msg(&[0, 0, 0]))],
    ];
    for inbox in inboxes {
        let out = n.node_function(inbox).unwrap();
        assert_eq!(out.len(), 2);
        assert_eq!(out[0].0, 4);
        assert_eq!(out[1].0, 5);
        for (_, m) in &out {
            assert_eq!(m.entries(), vec![(-1, w(0, 1)), (0, w(0, 1)), (1, w(1, 1))]);
        }
    }
}

#[test]
fn reset_clears_prior_but_not_override() {
    let mut n = BinVariableNode::new(3);
    assert!(n.set_prior(&uniform3()).is_ok());
    assert!(n.initialize(vec![4]).is_ok());
    assert_eq!(n.send_control_message(CtrlMsg::SetFixed(0)), Ok(CtrlMsgA::Ack));
    assert!(n.reset().is_ok());
    assert!(n.get_prior().is_none());
    assert_eq!(n.send_control_message(CtrlMsg::GetFixed), Ok(CtrlMsgA::Fixed(true)));
    // A fresh prior may be set after the reset.
    assert!(n.set_prior(&uniform3()).is_ok());
}

#[test]
fn check_node_connection_count() {
    let mut c = CheckNode::new(3, vec![1, 1], 0, CmpOperator::SmallerEq, 8, None);
    assert_eq!(c.initialize(vec![0]), Err(NodeError::WrongConnectionCount));
    assert!(c.initialize(vec![0, 1]).is_ok());
    assert_eq!(c.number_inputs(), Some(2));
    assert!(c.is_factor());
    assert!(c.get_prior().is_none());
    assert!(c.reset().is_ok());
    assert_eq!(c.is_ready(&vec![], 0), Ok(false));
}

fn check_outputs(op: CmpOperator, prob: Option<Weight>) -> Vec<(usize, CheckMsg)> {
    let mut c = CheckNode::new(3, vec![1, 1], 0, op, 8, prob);
    assert!(c.initialize(vec![0, 1]).is_ok());
    let inbox = vec![(0usize, uniform3()), (1usize, uniform3())];
    c.node_function(inbox).unwrap()
}

#[test]
fn check_node_end_to_end() {
    // Two variables over {-1, 0, 1}, constraint x0 + x1 <= 0, uniform
    // beliefs: brute force counts the partners each candidate admits.
    let mut admitted = vec![0i64; 3];
    for v0 in -1i64..=1 {
        for v1 in -1i64..=1 {
            if v0 + v1 <= 0 {
                admitted[(v0 + 1) as usize] += 1;
            }
        }
    }
    assert_eq!(admitted, vec![3, 2, 1]);
    let out = check_outputs(CmpOperator::SmallerEq, None);
    assert_eq!(out.len(), 2);
    for (id, m) in out.iter() {
        assert!(*id == 0 || *id == 1);
        // [3, 2, 1] rescaled by its maximum.
        assert!(m.data[0].eqv(&w(1, 1)));
        assert!(m.data[1].eqv(&w(2, 3)));
        assert!(m.data[2].eqv(&w(1, 3)));
    }
}

#[test]
fn check_node_strict_smaller() {
    let out = check_outputs(CmpOperator::Smaller, None);
    for (_, m) in out.iter() {
        // [2, 1, 0] rescaled.
        assert!(m.data[0].eqv(&w(1, 1)));
        assert!(m.data[1].eqv(&w(1, 2)));
        assert!(m.data[2].eqv(&w(0, 1)));
    }
}

#[test]
fn check_node_strict_greater() {
    let out = check_outputs(CmpOperator::Greater, None);
    for (_, m) in out.iter() {
        // [0, 1, 2] rescaled.
        assert!(m.data[0].eqv(&w(0, 1)));
        assert!(m.data[1].eqv(&w(1, 2)));
        assert!(m.data[2].eqv(&w(1, 1)));
    }
}

#[test]
fn check_node_noisy_oracle_blends_tails() {
    // prob_correct = 3/4 blends the two closed tails: the derived weights
    // are [10/4, 2, 6/4], rescaled to [1, 4/5, 3/5].
    let out = check_outputs(CmpOperator::SmallerEq, Some(w(3, 4)));
    for (_, m) in out.iter() {
        assert!(m.data[0].eqv(&w(1, 1)));
        assert!(m.data[1].eqv(&w(4, 5)));
        assert!(m.data[2].eqv(&w(3, 5)));
    }
}

#[test]
fn check_node_all_zero_message_fails() {
    let mut c = CheckNode::new(3, vec![1, 1], 0, CmpOperator::SmallerEq, 8, None);
    assert!(c.initialize(vec![0, 1]).is_ok());
    let inbox = vec![(0usize, msg(&[0, 0, 0])), (1usize, uniform3())];
    assert!(matches!(c.node_function(inbox), Err(NodeError::NormalizationFailure)));
}

#[test]
fn check_node_three_variables_convolves() {
    // Three variables over {-1, 0, 1}, constraint x0 + x1 + x2 <= 0,
    // uniform beliefs.  Brute force: each candidate value of one variable
    // admits [8, 6, 3] of the nine partner pairs.
    let mut admitted = vec![0i64; 3];
    for v0 in -1i64..=1 {
        for v1 in -1i64..=1 {
            for v2 in -1i64..=1 {
                if v0 + v1 + v2 <= 0 {
                    admitted[(v0 + 1) as usize] += 1;
                }
            }
        }
    }
    assert_eq!(admitted, vec![8, 6, 3]);
    let mut c = CheckNode::new(3, vec![1, 1, 1], 0, CmpOperator::SmallerEq, 8, None);
    assert!(c.initialize(vec![0, 1, 2]).is_ok());
    let inbox = vec![(0usize, uniform3()), (1usize, uniform3()), (2usize, uniform3())];
    let out = c.node_function(inbox).unwrap();
    assert_eq!(out.len(), 3);
    for (_, m) in out.iter() {
        assert!(m.data[0].eqv(&w(1, 1)));
        assert!(m.data[1].eqv(&w(3, 4)));
        assert!(m.data[2].eqv(&w(3, 8)));
    }
}

#[test]
fn operator_from_flags() {
    assert_eq!(CmpOperator::from_flags(true, true), CmpOperator::SmallerEq);
    assert_eq!(CmpOperator::from_flags(true, false), CmpOperator::Smaller);
    assert_eq!(CmpOperator::from_flags(false, true), CmpOperator::GreaterEq);
    assert_eq!(CmpOperator::from_flags(false, false), CmpOperator::Greater);
}

#[test]
fn pdf_sums_on_concrete_window() {
    let dist = vec![w(1, 1), w(2, 1), w(3, 1), w(4, 1)];
    // Window length 4: value v sits at position v + 2.
    assert_eq!(pdf_le(&dist, 0), w(6, 1));
    assert_eq!(pdf_ge(&dist, 0), w(7, 1));
    assert_eq!(pdf_le(&dist, -1), w(3, 1));
    assert_eq!(pdf_ge(&dist, 1), w(4, 1));
    assert_eq!(pdf_l(&dist, 0), w(3, 1));
    assert_eq!(pdf_g(&dist, 0), w(4, 1));
    assert_eq!(pdf_l(&dist, -2), w(0, 1));
    assert_eq!(pdf_g(&dist, 1), w(0, 1));
}
