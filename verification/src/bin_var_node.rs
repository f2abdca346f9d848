//! The variable node: one unknown small-integer coefficient.
//!
//! A variable node owns a prior belief and an optional fixed-value
//! override.  Once fixed, it broadcasts a point mass and ignores its inbox.
//! On its first round it broadcasts the prior unchanged; afterwards it
//! combines the prior with all incoming messages but one, through the
//! leave-one-out engine under pointwise multiplication, and normalizes and
//! validates every outgoing message.

use vstd::prelude::*;

use crate::bin_tree::{Combine, compute_llo_products, llo_with_prior_at, views};
use crate::check_msg::{CheckMsg, in_domain, point_mass};
use crate::errors::NodeError;
use crate::weight::{Weight, normalize_fails, normalize_seq, seq_all_valid};

verus! {

/// The scheduler's control requests to a variable node.
#[derive(Clone, Copy, PartialEq, Eq, Structural, Debug)]
pub enum CtrlMsg {
    /// Record that the variable's value is known from outside evidence.
    SetFixed(i64),
    /// Ask whether an override is set.
    GetFixed,
}

/// The node's answers to control requests.
#[derive(Clone, Copy, PartialEq, Eq, Structural, Debug)]
pub enum CtrlMsgA {
    /// Whether an override is set.
    Fixed(bool),
    /// The plain acknowledgement.
    Ack,
}

impl Default for CtrlMsgA {
    fn default() -> (r: CtrlMsgA)
        ensures
            r == CtrlMsgA::Ack,
    {
        CtrlMsgA::Ack
    }
}

/// The message views of an inbox.
pub open spec fn msgs_of(inbox: Seq<(usize, CheckMsg)>) -> Seq<Seq<Weight>> {
    inbox.map_values(|p: (usize, CheckMsg)| p.1@)
}

/// The position of the first sequence with an entry that is not a number;
/// the length when there is none.
pub open spec fn first_invalid(ms: Seq<Seq<Weight>>) -> int
    decreases ms.len(),
{
    if ms.len() == 0 {
        0
    } else if !seq_all_valid(ms[0]) {
        0
    } else {
        1 + first_invalid(ms.drop_first())
    }
}

proof fn lemma_first_invalid(ms: Seq<Seq<Weight>>, k: int)
    requires
        0 <= k < ms.len(),
        !seq_all_valid(ms[k]),
        forall|j: int| 0 <= j < k ==> seq_all_valid(#[trigger] ms[j]),
    ensures
        first_invalid(ms) == k,
    decreases k,
{
    if k == 0 {
    } else {
        let rest = ms.drop_first();
        assert(forall|j: int| 0 <= j < rest.len() ==> rest[j] == ms[j + 1]);
        lemma_first_invalid(rest, k - 1);
    }
}

/// Outgoing message `k` before normalization: the prior combined with all
/// inbox messages except the one at position `k`.
pub open spec fn var_raw_out(ms: Seq<Seq<Weight>>, prior: Seq<Weight>, k: int) -> Seq<Weight> {
    llo_with_prior_at::<CheckMsg>(ms, prior, k)
}

/// Outgoing message `k` after normalization.
pub open spec fn var_out_at(ms: Seq<Seq<Weight>>, prior: Seq<Weight>, k: int) -> Seq<Weight> {
    normalize_seq(var_raw_out(ms, prior, k))
}

/// A variable node.
pub struct BinVariableNode {
    /// The size of the value domain; messages hold one weight per value.
    pub domain: usize,
    /// The neighbor ids, set once at initialization.
    pub connections: Option<Vec<usize>>,
    /// The prior belief, set exactly once before initialization.
    pub prior: Option<CheckMsg>,
    /// Whether the node has broadcast its prior once.
    pub has_propagated: bool,
    /// The fixed-value override.
    pub is_fixed: Option<i64>,
}

/// What `node_function` must be handed: a fixed or first-round node takes
/// any inbox; afterwards the leave-one-out pass needs at least two
/// messages, and an override must lie in the domain.
pub open spec fn var_node_args_ok(n: BinVariableNode, inbox: Seq<(usize, CheckMsg)>) -> bool {
    &&& (n.is_fixed is None && n.has_propagated) ==> inbox.len() >= 2
    &&& (n.is_fixed is Some) ==> in_domain(n.domain as int, n.is_fixed->Some_0 as int)
}

/// The outcome of one variable-node round, as a value: the outgoing
/// `(neighbor id, message)` pairs, or the error that aborts the round.
pub open spec fn var_node_spec(n: BinVariableNode, inbox: Seq<(usize, CheckMsg)>) -> Result<
    Seq<(usize, Seq<Weight>)>,
    NodeError,
> {
    let ms = msgs_of(inbox);
    if n.connections is None {
        Err(NodeError::NotInitialized)
    } else {
        let conns = n.connections->Some_0@;
        if n.is_fixed is Some {
            Ok(
                Seq::new(
                    conns.len(),
                    |j: int| (conns[j], point_mass(n.domain as nat, n.is_fixed->Some_0 as int)),
                ),
            )
        } else if !n.has_propagated {
            if n.prior is None {
                Err(NodeError::NotInitialized)
            } else {
                Ok(Seq::new(conns.len(), |j: int| (conns[j], n.prior->Some_0@)))
            }
        } else if exists|k: int| 0 <= k < ms.len() && !seq_all_valid(#[trigger] ms[k]) {
            Err(NodeError::InvalidMessage(inbox[first_invalid(ms)].0))
        } else if n.prior is None {
            Err(NodeError::NotInitialized)
        } else if exists|k: int|
            0 <= k < ms.len() && normalize_fails(#[trigger] var_raw_out(ms, n.prior->Some_0@, k)) {
            Err(NodeError::NormalizationFailure)
        } else if exists|k: int|
            0 <= k < ms.len() && !seq_all_valid(#[trigger] var_out_at(ms, n.prior->Some_0@, k)) {
            Err(
                NodeError::InvalidMessage(
                    inbox[first_invalid(
                        Seq::new(ms.len(), |k: int| var_out_at(ms, n.prior->Some_0@, k)),
                    )].0,
                ),
            )
        } else {
            Ok(Seq::new(ms.len(), |k: int| (inbox[k].0, var_out_at(ms, n.prior->Some_0@, k))))
        }
    }
}

/// Fixed-value override: once an override is installed, a round's outcome
/// ignores the inbox entirely and hands a point mass at the override to
/// every neighbor, whatever the round.
pub proof fn lemma_fixed_override(
    n: BinVariableNode,
    inbox1: Seq<(usize, CheckMsg)>,
    inbox2: Seq<(usize, CheckMsg)>,
)
    requires
        n.connections is Some,
        n.is_fixed is Some,
    ensures
        var_node_spec(n, inbox1) is Ok,
        var_node_spec(n, inbox1) == var_node_spec(n, inbox2),
        var_node_spec(n, inbox1)->Ok_0.len() == n.connections->Some_0@.len(),
        forall|j: int|
            0 <= j < n.connections->Some_0@.len() ==> #[trigger] var_node_spec(
                n,
                inbox1,
            )->Ok_0[j] == (
                n.connections->Some_0@[j],
                point_mass(n.domain as nat, n.is_fixed->Some_0 as int),
            ),
{
    assert(var_node_spec(n, inbox1)->Ok_0 =~= var_node_spec(n, inbox2)->Ok_0);
}

impl BinVariableNode {
    /// A fresh node over a domain of `domain` values: no connections, no
    /// prior, no override, nothing broadcast yet.
    pub fn new(domain: usize) -> (r: BinVariableNode)
        ensures
            r.domain == domain,
            r.connections is None,
            r.prior is None,
            !r.has_propagated,
            r.is_fixed is None,
    {
        BinVariableNode {
            domain,
            connections: None,
            prior: None,
            has_propagated: false,
            is_fixed: None,
        }
    }

    /// Install or clear the fixed-value override.  An installed value must
    /// lie in the domain.
    pub fn set_fixed(&mut self, value: Option<i64>)
        requires
            value is Some ==> in_domain(old(self).domain as int, value->Some_0 as int),
        ensures
            final(self).is_fixed == value,
            final(self).domain == old(self).domain,
            final(self).connections == old(self).connections,
            final(self).prior == old(self).prior,
            final(self).has_propagated == old(self).has_propagated,
    {
        self.is_fixed = value;
    }

    /// Record the prior belief; it may be set only once.
    pub fn set_prior(&mut self, prior: &CheckMsg) -> (r: Result<(), NodeError>)
        ensures
            old(self).prior is Some ==> r == Err::<(), NodeError>(NodeError::AlreadySet) && *final(self) == *old(self),
            old(self).prior is None ==> r == Ok::<(), NodeError>(()) && final(self).prior is Some
                && final(self).prior->Some_0@ == prior@,
            final(self).domain == old(self).domain,
            final(self).connections == old(self).connections,
            final(self).has_propagated == old(self).has_propagated,
            final(self).is_fixed == old(self).is_fixed,
    {
        if self.prior.is_some() {
            return Err(NodeError::AlreadySet);
        }
        self.prior = Some(prior.dup_msg());
        Ok(())
    }

    /// The prior, if one is set.
    pub fn get_prior(&self) -> (r: Option<CheckMsg>)
        ensures
            r is Some <==> self.prior is Some,
            r is Some ==> r->Some_0@ == self.prior->Some_0@,
    {
        match &self.prior {
            Some(p) => Some(p.dup_msg()),
            None => None,
        }
    }

    /// Record the neighbor list.  A prior must have been configured first.
    pub fn initialize(&mut self, connections: Vec<usize>) -> (r: Result<(), NodeError>)
        ensures
            old(self).prior is None ==> r == Err::<(), NodeError>(NodeError::NotInitialized)
                && *final(self) == *old(self),
            old(self).prior is Some ==> r == Ok::<(), NodeError>(()) && final(self).connections
                == Some(connections),
            final(self).domain == old(self).domain,
            final(self).prior == old(self).prior,
            final(self).has_propagated == old(self).has_propagated,
            final(self).is_fixed == old(self).is_fixed,
    {
        if self.prior.is_none() {
            return Err(NodeError::NotInitialized);
        }
        self.connections = Some(connections);
        Ok(())
    }

    /// One propagation round: see `var_node_spec` for the exact outcome.
    /// Beyond the returned messages, the only state change is that a
    /// successful first broadcast records that the prior went out.
    #[verifier::loop_isolation(false)]
    pub fn node_function(&mut self, inbox: Vec<(usize, CheckMsg)>) -> (r: Result<
        Vec<(usize, CheckMsg)>,
        NodeError,
    >)
        requires
            var_node_args_ok(*old(self), inbox@),
        ensures
            final(self).domain == old(self).domain,
            final(self).connections == old(self).connections,
            final(self).prior == old(self).prior,
            final(self).is_fixed == old(self).is_fixed,
            final(self).has_propagated == (old(self).has_propagated || (
            old(self).connections is Some && old(self).is_fixed is None && old(self).prior is Some)),
            r is Err ==> var_node_spec(*old(self), inbox@) == Err::<
                Seq<(usize, Seq<Weight>)>,
                NodeError,
            >(r->Err_0),
            r is Ok ==> var_node_spec(*old(self), inbox@) is Ok && {
                let out = var_node_spec(*old(self), inbox@)->Ok_0;
                &&& r->Ok_0@.len() == out.len()
                &&& forall|k: int|
                    0 <= k < out.len() ==> (#[trigger] r->Ok_0@[k]).0 == out[k].0
                        && r->Ok_0@[k].1@ == out[k].1
            },
    {
        let ghost n0 = *old(self);
        let ghost ms = msgs_of(inbox@);
        proof {
            assert(forall|k: int| 0 <= k < inbox@.len() ==> ms[k] == (#[trigger] inbox@[k]).1@);
        }
        let conns: &Vec<usize> = match &self.connections {
            Some(c) => c,
            None => {
                return Err(NodeError::NotInitialized);
            },
        };
        // A fixed node broadcasts a point mass to every neighbor and
        // ignores its inbox.
        if let Some(v) = self.is_fixed {
            let mut out: Vec<(usize, CheckMsg)> = Vec::new();
            let mut j: usize = 0;
            while j < conns.len()
                invariant
                    0 <= j <= conns@.len(),
                    self.domain == n0.domain,
                    in_domain(n0.domain as int, v as int),
                    out@.len() == j,
                    forall|i: int|
                        0 <= i < j ==> (#[trigger] out@[i]).0 == conns@[i] && out@[i].1@
                            == point_mass(n0.domain as nat, v as int),
                decreases conns@.len() - j,
            {
                let mut msg = CheckMsg::new(self.domain);
                msg.set_fixed_value(v);
                out.push((conns[j], msg));
                j += 1;
            }
            return Ok(out);
        }
        // The first successful round broadcasts the prior unchanged.
        if !self.has_propagated {
            let prior: &CheckMsg = match &self.prior {
                Some(p) => p,
                None => {
                    return Err(NodeError::NotInitialized);
                },
            };
            let mut out: Vec<(usize, CheckMsg)> = Vec::new();
            let mut j: usize = 0;
            while j < conns.len()
                invariant
                    0 <= j <= conns@.len(),
                    out@.len() == j,
                    forall|i: int|
                        0 <= i < j ==> (#[trigger] out@[i]).0 == conns@[i] && out@[i].1@
                            == prior@,
                decreases conns@.len() - j,
            {
                out.push((conns[j], prior.dup_msg()));
                j += 1;
            }
            self.has_propagated = true;
            return Ok(out);
        }
        // Validate the inbox: the first message with a value that is not a
        // number aborts the round.
        let mut k: usize = 0;
        while k < inbox.len()
            invariant
                0 <= k <= inbox@.len(),
                ms == msgs_of(inbox@),
                ms.len() == inbox@.len(),
                forall|k2: int| 0 <= k2 < inbox@.len() ==> ms[k2] == (#[trigger] inbox@[k2]).1@,
                forall|j: int| 0 <= j < k ==> seq_all_valid(#[trigger] ms[j]),
            decreases inbox@.len() - k,
        {
            if !inbox[k].1.is_valid() {
                proof {
                    lemma_first_invalid(ms, k as int);
                }
                return Err(NodeError::InvalidMessage(inbox[k].0));
            }
            k += 1;
        }
        let prior: &CheckMsg = match &self.prior {
            Some(p) => p,
            None => {
                return Err(NodeError::NotInitialized);
            },
        };
        let ghost pv = prior@;
        // Combine through the leave-one-out engine under pointwise
        // multiplication, with the prior as the extra operand.
        let mut leafs: Vec<CheckMsg> = Vec::new();
        let mut indices: Vec<usize> = Vec::new();
        let mut k: usize = 0;
        while k < inbox.len()
            invariant
                0 <= k <= inbox@.len(),
                leafs@.len() == k,
                indices@.len() == k,
                forall|j: int| 0 <= j < k ==> (#[trigger] leafs@[j])@ == inbox@[j].1@,
                forall|j: int| 0 <= j < k ==> indices@[j] == (#[trigger] inbox@[j]).0,
            decreases inbox@.len() - k,
        {
            leafs.push(inbox[k].1.dup_msg());
            indices.push(inbox[k].0);
            k += 1;
        }
        proof {
            assert(views(leafs@) =~= ms);
        }
        let prods0 = compute_llo_products(leafs);
        let mut prods: Vec<CheckMsg> = Vec::new();
        let mut k: usize = 0;
        while k < prods0.len()
            invariant
                0 <= k <= prods0@.len(),
                prods@.len() == k,
                forall|j: int|
                    0 <= j < k ==> (#[trigger] prods@[j])@ == var_raw_out(ms, pv, j),
            decreases prods0@.len() - k,
        {
            prods.push(prior.combine(&prods0[k]));
            k += 1;
        }
        // Normalize every outgoing message; a degenerate one aborts the
        // round.
        let mut out: Vec<(usize, CheckMsg)> = Vec::new();
        let mut k: usize = 0;
        while k < prods.len()
            invariant
                0 <= k <= prods@.len(),
                prods@.len() == ms.len(),
                indices@.len() == ms.len(),
                ms == msgs_of(inbox@),
                forall|k2: int| 0 <= k2 < ms.len() ==> ms[k2] == (#[trigger] inbox@[k2]).1@,
                forall|j: int| 0 <= j < ms.len() ==> indices@[j] == (#[trigger] inbox@[j]).0,
                forall|j: int|
                    0 <= j < prods@.len() ==> (#[trigger] prods@[j])@ == var_raw_out(ms, pv, j),
                out@.len() == k,
                forall|j: int| 0 <= j < k ==> !normalize_fails(#[trigger] var_raw_out(ms, pv, j)),
                forall|j: int|
                    0 <= j < k ==> (#[trigger] out@[j]).0 == inbox@[j].0 && out@[j].1@
                        == var_out_at(ms, pv, j),
            decreases prods@.len() - k,
        {
            let mut msg = prods[k].dup_msg();
            match msg.normalize() {
                Ok(()) => {},
                Err(e) => {
                    return Err(e);
                },
            }
            out.push((indices[k], msg));
            k += 1;
        }
        // Validate every outgoing message before returning it.
        let ghost outs = Seq::new(ms.len(), |k: int| var_out_at(ms, pv, k));
        let mut k: usize = 0;
        while k < out.len()
            invariant
                0 <= k <= out@.len(),
                out@.len() == ms.len(),
                outs == Seq::new(ms.len(), |k: int| var_out_at(ms, pv, k)),
                forall|k2: int| 0 <= k2 < ms.len() ==> ms[k2] == (#[trigger] inbox@[k2]).1@,
                forall|j: int|
                    0 <= j < ms.len() ==> (#[trigger] out@[j]).0 == inbox@[j].0 && out@[j].1@
                        == var_out_at(ms, pv, j),
                forall|j: int| 0 <= j < k ==> seq_all_valid(#[trigger] outs[j]),
            decreases out@.len() - k,
        {
            if !out[k].1.is_valid() {
                proof {
                    lemma_first_invalid(outs, k as int);
                }
                return Err(NodeError::InvalidMessage(out[k].0));
            }
            k += 1;
        }
        proof {
            let spec_r = var_node_spec(n0, inbox@);
            assert(!(exists|k2: int| 0 <= k2 < ms.len() && !seq_all_valid(#[trigger] ms[k2])));
            assert(!(exists|k2: int|
                0 <= k2 < ms.len() && normalize_fails(
                    #[trigger] var_raw_out(ms, n0.prior->Some_0@, k2),
                )));
            assert forall|k2: int| 0 <= k2 < ms.len() implies seq_all_valid(
                #[trigger] var_out_at(ms, n0.prior->Some_0@, k2),
            ) by {
                assert(outs[k2] == var_out_at(ms, pv, k2));
                assert(seq_all_valid(outs[k2]));
            };
            assert(spec_r is Ok);
            assert(forall|k2: int|
                0 <= k2 < ms.len() ==> #[trigger] spec_r->Ok_0[k2] == (
                    inbox@[k2].0,
                    var_out_at(ms, pv, k2),
                ));
        }
        Ok(out)
    }

    /// Clear the prior for a fresh run; connections and the fixed override
    /// are kept.
    pub fn reset(&mut self) -> (r: Result<(), NodeError>)
        ensures
            r == Ok::<(), NodeError>(()),
            final(self).prior is None,
            final(self).domain == old(self).domain,
            final(self).connections == old(self).connections,
            final(self).has_propagated == old(self).has_propagated,
            final(self).is_fixed == old(self).is_fixed,
    {
        self.prior = None;
        Ok(())
    }

    /// A variable node is not a factor.
    pub fn is_factor(&self) -> (r: bool)
        ensures
            r == false,
    {
        false
    }

    /// The number of neighbors, once initialized.
    pub fn number_inputs(&self) -> (r: Option<usize>)
        ensures
            self.connections is None ==> r is None,
            self.connections is Some ==> r == Some(self.connections->Some_0@.len() as usize),
    {
        match &self.connections {
            Some(c) => Some(c.len()),
            None => None,
        }
    }

    /// Handle a control request: install an override, or report whether
    /// one is installed.
    pub fn send_control_message(&mut self, ctrl_msg: CtrlMsg) -> (r: Result<CtrlMsgA, NodeError>)
        requires
            ctrl_msg is SetFixed ==> in_domain(
                old(self).domain as int,
                ctrl_msg->SetFixed_0 as int,
            ),
        ensures
            final(self).domain == old(self).domain,
            final(self).connections == old(self).connections,
            final(self).prior == old(self).prior,
            final(self).has_propagated == old(self).has_propagated,
            ctrl_msg is GetFixed ==> r == Ok::<CtrlMsgA, NodeError>(
                CtrlMsgA::Fixed(old(self).is_fixed is Some),
            ) && final(self).is_fixed == old(self).is_fixed,
            ctrl_msg is SetFixed ==> r == Ok::<CtrlMsgA, NodeError>(CtrlMsgA::Ack) && final(self).is_fixed == Some(ctrl_msg->SetFixed_0),
    {
        match ctrl_msg {
            CtrlMsg::GetFixed => Ok(CtrlMsgA::Fixed(self.is_fixed.is_some())),
            CtrlMsg::SetFixed(v) => {
                self.set_fixed(Some(v));
                Ok(CtrlMsgA::Ack)
            },
        }
    }

    /// Ready when the inbox holds one message per neighbor, or on round
    /// zero, whose first broadcast tolerates an empty inbox.
    pub fn is_ready(&self, recv_from: &Vec<(usize, CheckMsg)>, current_step: usize) -> (r: Result<
        bool,
        NodeError,
    >)
        ensures
            self.connections is None ==> r == Err::<bool, NodeError>(NodeError::NotInitialized),
            self.connections is Some ==> r == Ok::<bool, NodeError>(
                recv_from@.len() == self.connections->Some_0@.len() || current_step == 0,
            ),
    {
        match &self.connections {
            Some(c) => Ok(recv_from.len() == c.len() || current_step == 0),
            None => Err(NodeError::NotInitialized),
        }
    }
}

} // verus!
