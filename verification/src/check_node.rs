//! The check (factor) node: one linear inequality over several variables.
//!
//! The node holds a coefficient per connected variable, a comparison
//! operator, a threshold, and a window length `N`.  Each round it spreads
//! every neighbor's message into an `N`-slot window scaled by that
//! neighbor's coefficient, combines all windows but one through the
//! leave-one-out engine under renormalized circular convolution, re-centers
//! each combination into a partial-sum distribution, and integrates that
//! distribution against the shifted threshold to produce one outgoing
//! belief per neighbor.  An optional `prob_correct` models a noisy oracle
//! by blending the two tail sums instead of hard-gating.

use vstd::prelude::*;

use crate::bin_tree::{compute_llo_products, llo_at, views};
use crate::check_msg::CheckMsg;
use crate::errors::NodeError;
use crate::sum_dist::{
    SumDist, lemma_llo_len, lemma_scale_fits, recenter_seq, spread,
};
use crate::weight::{
    Weight, normalize_entries, normalize_fails, normalize_seq, w_add, w_mul, w_one, w_sub,
    w_valid, w_zero,
};

verus! {

/// The comparison a check node enforces between the weighted sum and the
/// threshold.
#[derive(Clone, Copy, PartialEq, Eq, Structural, Debug)]
pub enum CmpOperator {
    SmallerEq,
    GreaterEq,
    Smaller,
    Greater,
}

impl CmpOperator {
    /// The operator picked by the host's two flags: strict or not, smaller
    /// or greater.
    pub fn from_flags(is_smaller: bool, is_equal: bool) -> (r: CmpOperator)
        ensures
            r == if is_smaller {
                if is_equal {
                    CmpOperator::SmallerEq
                } else {
                    CmpOperator::Smaller
                }
            } else {
                if is_equal {
                    CmpOperator::GreaterEq
                } else {
                    CmpOperator::Greater
                }
            },
    {
        if is_smaller {
            if is_equal {
                CmpOperator::SmallerEq
            } else {
                CmpOperator::Smaller
            }
        } else {
            if is_equal {
                CmpOperator::GreaterEq
            } else {
                CmpOperator::Greater
            }
        }
    }
}

/// Left-to-right sum of the entries in `[lo, hi)`.
pub open spec fn sum_range(s: Seq<Weight>, lo: int, hi: int) -> Weight
    decreases hi - lo,
{
    if hi <= lo {
        w_zero()
    } else {
        w_add(sum_range(s, lo, hi - 1), s[hi - 1])
    }
}

/// The sum of the entries in `[lo, hi)`.
pub fn sum_range_exec(v: &Vec<Weight>, lo: usize, hi: usize) -> (r: Weight)
    requires
        lo <= hi <= v@.len(),
    ensures
        r == sum_range(v@, lo as int, hi as int),
{
    let mut acc = Weight { num: 0, den: 1 };
    let mut i: usize = lo;
    while i < hi
        invariant
            lo <= i <= hi,
            hi <= v@.len(),
            acc == sum_range(v@, lo as int, i as int),
        decreases hi - i,
    {
        acc = acc.plus(&v[i]);
        i += 1;
    }
    acc
}

/// The cumulative weight of sum values at most `value`: the entries up to
/// and including position `value + N/2`.
pub fn pdf_le(data: &Vec<Weight>, value: i64) -> (r: Weight)
    requires
        0 <= value + data@.len() as int / 2 < data@.len(),
    ensures
        r == sum_range(data@, 0, value + data@.len() as int / 2 + 1),
{
    let idx: i128 = (value as i128) + (data.len() / 2) as i128;
    sum_range_exec(data, 0, (idx + 1) as usize)
}

/// The tail weight of sum values at least `value`.
pub fn pdf_ge(data: &Vec<Weight>, value: i64) -> (r: Weight)
    requires
        0 <= value + data@.len() as int / 2 <= data@.len(),
    ensures
        r == sum_range(data@, value + data@.len() as int / 2, data@.len() as int),
{
    let idx: i128 = (value as i128) + (data.len() / 2) as i128;
    sum_range_exec(data, idx as usize, data.len())
}

/// The cumulative weight of sum values strictly below `value`.
pub fn pdf_l(data: &Vec<Weight>, value: i64) -> (r: Weight)
    requires
        0 <= value + data@.len() as int / 2 <= data@.len(),
    ensures
        r == sum_range(data@, 0, value + data@.len() as int / 2),
{
    let idx: i128 = (value as i128) + (data.len() / 2) as i128;
    sum_range_exec(data, 0, idx as usize)
}

/// The tail weight of sum values strictly above `value`.
pub fn pdf_g(data: &Vec<Weight>, value: i64) -> (r: Weight)
    requires
        0 <= 1 + value + data@.len() as int / 2 <= data@.len(),
    ensures
        r == sum_range(data@, 1 + value + data@.len() as int / 2, data@.len() as int),
{
    let idx: i128 = 1 + (value as i128) + (data.len() / 2) as i128;
    sum_range_exec(data, idx as usize, data.len())
}

/// The position in a partial-sum distribution of `N` slots that the
/// threshold takes for candidate value `v`: the distribution is read at
/// `value - coeff·v`, which sits at slot `value - coeff·v + N/2`.
pub open spec fn shifted_index(dist_len: int, value: int, coeff: int, v: int) -> int {
    value - coeff * v + dist_len / 2
}

/// The weight the inequality assigns to candidate value `v`: a cumulative
/// or tail sum of the partial-sum distribution selected by the operator,
/// with closed or open boundary exactly matching it; under a noisy oracle,
/// the blend of the two closed tails weighted by `prob_correct` and its
/// complement.
pub open spec fn derive_weight(
    dist: Seq<Weight>,
    op: CmpOperator,
    prob: Option<Weight>,
    value: int,
    coeff: int,
    v: int,
) -> Weight {
    let n = dist.len() as int;
    let idx = shifted_index(n, value, coeff, v);
    if prob is Some {
        let pc = prob->Some_0;
        let p_le = sum_range(dist, 0, idx + 1);
        let p_ge = sum_range(dist, idx, n);
        match op {
            CmpOperator::SmallerEq => w_add(w_mul(pc, p_le), w_mul(w_sub(w_one(), pc), p_ge)),
            CmpOperator::Smaller => w_add(w_mul(pc, p_le), w_mul(w_sub(w_one(), pc), p_ge)),
            CmpOperator::GreaterEq => w_add(w_mul(w_sub(w_one(), pc), p_le), w_mul(pc, p_ge)),
            CmpOperator::Greater => w_add(w_mul(w_sub(w_one(), pc), p_le), w_mul(pc, p_ge)),
        }
    } else {
        match op {
            CmpOperator::SmallerEq => sum_range(dist, 0, idx + 1),
            CmpOperator::GreaterEq => sum_range(dist, idx, n),
            CmpOperator::Smaller => sum_range(dist, 0, idx),
            CmpOperator::Greater => sum_range(dist, idx + 1, n),
        }
    }
}

/// The whole outgoing message before normalization: one derived weight per
/// domain value.
pub open spec fn derive_msg(
    dist: Seq<Weight>,
    op: CmpOperator,
    prob: Option<Weight>,
    value: int,
    coeff: int,
    d: nat,
) -> Seq<Weight> {
    Seq::new(d, |i: int| derive_weight(dist, op, prob, value, coeff, i - d / 2))
}

/// The window is long enough that every shifted threshold position the
/// derivation reads lies inside it: the counterpart of choosing `N` large
/// enough to avoid wrap-around.
pub open spec fn derive_shift_ok(
    dist_len: int,
    op: CmpOperator,
    has_prob: bool,
    value: int,
    coeff: int,
    d: int,
) -> bool {
    forall|v: int|
        #![trigger shifted_index(dist_len, value, coeff, v)]
        -(d / 2) <= v < d - d / 2 ==> {
            let idx = shifted_index(dist_len, value, coeff, v);
            if has_prob {
                0 <= idx < dist_len
            } else {
                match op {
                    CmpOperator::SmallerEq => 0 <= idx < dist_len,
                    CmpOperator::GreaterEq => 0 <= idx <= dist_len,
                    CmpOperator::Smaller => 0 <= idx <= dist_len,
                    CmpOperator::Greater => 0 <= idx + 1 <= dist_len,
                }
            }
        }
}

/// Derive the outgoing belief for one neighbor from its partial-sum
/// distribution, and normalize it; a degenerate result aborts the round.
pub fn derive_from_inequality(
    dist: &Vec<Weight>,
    op: CmpOperator,
    prob_correct: Option<Weight>,
    value: i64,
    coeff: i64,
    domain: usize,
) -> (r: Result<CheckMsg, NodeError>)
    requires
        derive_shift_ok(
            dist@.len() as int,
            op,
            prob_correct is Some,
            value as int,
            coeff as int,
            domain as int,
        ),
    ensures
        r is Ok <==> !normalize_fails(
            derive_msg(dist@, op, prob_correct, value as int, coeff as int, domain as nat),
        ),
        r is Ok ==> r->Ok_0@ == normalize_seq(
            derive_msg(dist@, op, prob_correct, value as int, coeff as int, domain as nat),
        ),
        r is Err ==> r->Err_0 == NodeError::NormalizationFailure,
{
    let n = dist.len();
    let half: usize = domain / 2;
    let mut data: Vec<Weight> = Vec::new();
    let mut i: usize = 0;
    while i < domain
        invariant
            0 <= i <= domain,
            half == domain as int / 2,
            n == dist@.len(),
            derive_shift_ok(
                n as int,
                op,
                prob_correct is Some,
                value as int,
                coeff as int,
                domain as int,
            ),
            data@.len() == i,
            forall|j: int|
                0 <= j < i ==> data@[j] == derive_weight(
                    dist@,
                    op,
                    prob_correct,
                    value as int,
                    coeff as int,
                    j - domain as int / 2,
                ),
        decreases domain - i,
    {
        let v: i128 = (i as i128) - (half as i128);
        proof {
            lemma_scale_fits(coeff as int, v as int);
            assert(shifted_index(n as int, value as int, coeff as int, v as int) == value
                - coeff * (i - domain as int / 2) + n as int / 2);
        }
        let idx: i128 = (value as i128) - (coeff as i128) * v + (n / 2) as i128;
        let w: Weight = match prob_correct {
            Some(pc) => {
                let p_le = sum_range_exec(dist, 0, (idx + 1) as usize);
                let p_ge = sum_range_exec(dist, idx as usize, n);
                let pi = Weight { num: 1, den: 1 }.minus(&pc);
                match op {
                    CmpOperator::SmallerEq => pc.times(&p_le).plus(&pi.times(&p_ge)),
                    CmpOperator::Smaller => pc.times(&p_le).plus(&pi.times(&p_ge)),
                    CmpOperator::GreaterEq => pi.times(&p_le).plus(&pc.times(&p_ge)),
                    CmpOperator::Greater => pi.times(&p_le).plus(&pc.times(&p_ge)),
                }
            },
            None => match op {
                CmpOperator::SmallerEq => sum_range_exec(dist, 0, (idx + 1) as usize),
                CmpOperator::GreaterEq => sum_range_exec(dist, idx as usize, n),
                CmpOperator::Smaller => sum_range_exec(dist, 0, idx as usize),
                CmpOperator::Greater => sum_range_exec(dist, (idx + 1) as usize, n),
            },
        };
        data.push(w);
        i += 1;
    }
    proof {
        assert(data@ =~= derive_msg(
            dist@,
            op,
            prob_correct,
            value as int,
            coeff as int,
            domain as nat,
        ));
    }
    let mut msg = CheckMsg::from_data(data);
    match msg.normalize() {
        Ok(()) => Ok(msg),
        Err(e) => Err(e),
    }
}

/// A check node: immutable per-constraint configuration.
pub struct CheckNode {
    /// The size of the neighbors' value domain.
    pub domain: usize,
    /// One signed coefficient per connected variable.
    pub coeffs: Vec<i64>,
    /// The threshold of the inequality.
    pub value: i64,
    /// The comparison between the weighted sum and the threshold.
    pub op: CmpOperator,
    /// The window length for partial-sum distributions.
    pub n: usize,
    /// When present, the probability that the observed inequality is
    /// correct; the derivation then blends both tails.
    pub prob_correct: Option<Weight>,
    /// The neighbor ids, set at initialization.
    pub connections: Vec<usize>,
}

/// The scaled windows of all inbox messages.
pub open spec fn check_bufs(c: CheckNode, inbox: Seq<(usize, CheckMsg)>) -> Seq<Seq<Weight>> {
    Seq::new(
        inbox.len() as nat,
        |k: int| spread(inbox[k].1@, c.coeffs@[inbox[k].0 as int] as int, c.n as nat),
    )
}

/// The re-centered combination of all windows except neighbor `k`'s: the
/// distribution of the sum of the other scaled variables, before its final
/// rescale.
pub open spec fn check_raw_part(c: CheckNode, inbox: Seq<(usize, CheckMsg)>, k: int) -> Seq<
    Weight,
> {
    recenter_seq(llo_at::<SumDist>(check_bufs(c, inbox), k))
}

/// The partial-sum distribution for neighbor `k`, rescaled to greatest
/// magnitude one.
pub open spec fn check_part(c: CheckNode, inbox: Seq<(usize, CheckMsg)>, k: int) -> Seq<Weight> {
    normalize_seq(check_raw_part(c, inbox, k))
}

/// The outgoing message for neighbor `k` before its final normalization.
pub open spec fn check_out_raw(c: CheckNode, inbox: Seq<(usize, CheckMsg)>, k: int) -> Seq<
    Weight,
> {
    derive_msg(
        check_part(c, inbox, k),
        c.op,
        c.prob_correct,
        c.value as int,
        c.coeffs@[inbox[k].0 as int] as int,
        c.domain as nat,
    )
}

/// The outcome of one check-node round, as a value: the outgoing
/// `(neighbor id, message)` pairs, or the normalization failure that
/// aborts the round.
pub open spec fn check_node_spec(c: CheckNode, inbox: Seq<(usize, CheckMsg)>) -> Result<
    Seq<(usize, Seq<Weight>)>,
    NodeError,
> {
    if exists|k: int| 0 <= k < inbox.len() && normalize_fails(#[trigger] check_raw_part(c, inbox, k)) {
        Err(NodeError::NormalizationFailure)
    } else if exists|k: int|
        0 <= k < inbox.len() && normalize_fails(#[trigger] check_out_raw(c, inbox, k)) {
        Err(NodeError::NormalizationFailure)
    } else {
        Ok(
            Seq::new(
                inbox.len() as nat,
                |k: int| (inbox[k].0, normalize_seq(check_out_raw(c, inbox, k))),
            ),
        )
    }
}

/// What `node_function` must be handed: at least two messages for the
/// engine, ids that index the coefficient vector, and a window long enough
/// for every shifted threshold position.
pub open spec fn check_node_args_ok(c: CheckNode, inbox: Seq<(usize, CheckMsg)>) -> bool {
    &&& inbox.len() >= 2
    &&& c.n >= 2
    &&& forall|k: int| 0 <= k < inbox.len() ==> (#[trigger] inbox[k]).0 < c.coeffs@.len()
    &&& forall|k: int|
        0 <= k < inbox.len() ==> derive_shift_ok(
            c.n as int,
            c.op,
            c.prob_correct is Some,
            c.value as int,
            c.coeffs@[(#[trigger] inbox[k]).0 as int] as int,
            c.domain as int,
        )
}

impl CheckNode {
    /// A check node for one inequality.  The window length must be even
    /// and at least two; a noise probability must lie strictly between
    /// zero and one.
    pub fn new(
        domain: usize,
        coeffs: Vec<i64>,
        value: i64,
        op: CmpOperator,
        n: usize,
        prob_correct: Option<Weight>,
    ) -> (r: CheckNode)
        requires
            n >= 2,
            n % 2 == 0,
            prob_correct is Some ==> w_valid(prob_correct->Some_0) && 0
                < prob_correct->Some_0.num < prob_correct->Some_0.den,
        ensures
            r.domain == domain,
            r.coeffs == coeffs,
            r.value == value,
            r.op == op,
            r.n == n,
            r.prob_correct == prob_correct,
            r.connections@.len() == 0,
    {
        CheckNode { domain, coeffs, value, op, n, prob_correct, connections: Vec::new() }
    }

    /// Record the neighbor list; its length must match the coefficient
    /// vector.
    pub fn initialize(&mut self, connections: Vec<usize>) -> (r: Result<(), NodeError>)
        ensures
            connections@.len() != old(self).coeffs@.len() ==> r == Err::<(), NodeError>(
                NodeError::WrongConnectionCount,
            ) && *final(self) == *old(self),
            connections@.len() == old(self).coeffs@.len() ==> r == Ok::<(), NodeError>(())
                && final(self).connections == connections,
            final(self).domain == old(self).domain,
            final(self).coeffs == old(self).coeffs,
            final(self).value == old(self).value,
            final(self).op == old(self).op,
            final(self).n == old(self).n,
            final(self).prob_correct == old(self).prob_correct,
    {
        if connections.len() != self.coeffs.len() {
            return Err(NodeError::WrongConnectionCount);
        }
        self.connections = connections;
        Ok(())
    }

    /// One round: see `check_node_spec` for the exact outcome.  The node's
    /// configuration never changes.
    #[verifier::loop_isolation(false)]
    pub fn node_function(&mut self, inbox: Vec<(usize, CheckMsg)>) -> (r: Result<
        Vec<(usize, CheckMsg)>,
        NodeError,
    >)
        requires
            check_node_args_ok(*old(self), inbox@),
        ensures
            *final(self) == *old(self),
            r is Err ==> check_node_spec(*old(self), inbox@) == Err::<
                Seq<(usize, Seq<Weight>)>,
                NodeError,
            >(r->Err_0),
            r is Ok ==> check_node_spec(*old(self), inbox@) is Ok && {
                let out = check_node_spec(*old(self), inbox@)->Ok_0;
                &&& r->Ok_0@.len() == out.len()
                &&& forall|k: int|
                    0 <= k < out.len() ==> (#[trigger] r->Ok_0@[k]).0 == out[k].0
                        && r->Ok_0@[k].1@ == out[k].1
            },
    {
        let ghost c0 = *old(self);
        let ghost bufs_spec = check_bufs(c0, inbox@);
        let len = inbox.len();
        // Spread every message into a window scaled by its coefficient.
        let mut bufs: Vec<SumDist> = Vec::new();
        let mut k: usize = 0;
        while k < len
            invariant
                0 <= k <= len,
                bufs@.len() == k,
                forall|j: int| 0 <= j < k ==> (#[trigger] bufs@[j])@ == bufs_spec[j],
            decreases len - k,
        {
            let id = inbox[k].0;
            let b = SumDist::from_scaled(&inbox[k].1, self.coeffs[id], self.n);
            bufs.push(b);
            k += 1;
        }
        proof {
            assert(views(bufs@) =~= bufs_spec);
            assert forall|j: int| 0 <= j < bufs_spec.len() implies (#[trigger] bufs_spec[j]).len()
                == c0.n as nat by {
                crate::sum_dist::lemma_spread_rec_len(
                    inbox@[j].1@,
                    c0.coeffs@[inbox@[j].0 as int] as int,
                    c0.n as nat,
                    inbox@[j].1@.len() as int,
                );
            };
        }
        // Combine all windows but one, per neighbor.
        let prods = compute_llo_products(bufs);
        // Re-center each combination and rescale it to a partial-sum
        // distribution; a degenerate one aborts the round.
        let mut partials: Vec<Vec<Weight>> = Vec::new();
        let mut k: usize = 0;
        while k < len
            invariant
                0 <= k <= len,
                prods@.len() == len,
                forall|j: int|
                    0 <= j < len ==> (#[trigger] prods@[j])@ == llo_at::<SumDist>(bufs_spec, j),
                partials@.len() == k,
                forall|j: int| 0 <= j < k ==> !normalize_fails(check_raw_part(c0, inbox@, j)),
                forall|j: int|
                    0 <= j < k ==> (#[trigger] partials@[j])@ == check_part(c0, inbox@, j),
        decreases len - k,
        {
            proof {
                lemma_llo_len(bufs_spec, c0.n as nat, k as int);
            }
            let mut part = prods[k].recenter();
            let ghost raw = part@;
            proof {
                assert(raw == check_raw_part(c0, inbox@, k as int));
            }
            if !normalize_entries(&mut part) {
                proof {
                    assert(normalize_fails(check_raw_part(c0, inbox@, k as int)));
                }
                return Err(NodeError::NormalizationFailure);
            }
            partials.push(part);
            k += 1;
        }
        // Integrate each distribution against the shifted threshold.
        let mut out: Vec<(usize, CheckMsg)> = Vec::new();
        let mut k: usize = 0;
        while k < len
            invariant
                0 <= k <= len,
                partials@.len() == len,
                forall|j: int| 0 <= j < len ==> !normalize_fails(check_raw_part(c0, inbox@, j)),
                forall|j: int|
                    0 <= j < len ==> (#[trigger] partials@[j])@ == check_part(c0, inbox@, j),
                out@.len() == k,
                forall|j: int| 0 <= j < k ==> !normalize_fails(check_out_raw(c0, inbox@, j)),
                forall|j: int|
                    0 <= j < k ==> (#[trigger] out@[j]).0 == inbox@[j].0 && out@[j].1@
                        == normalize_seq(check_out_raw(c0, inbox@, j)),
            decreases len - k,
        {
            let id = inbox[k].0;
            let msg = match derive_from_inequality(
                &partials[k],
                self.op,
                self.prob_correct,
                self.value,
                self.coeffs[id],
                self.domain,
            ) {
                Ok(m) => m,
                Err(e) => {
                    proof {
                        assert(normalize_fails(check_out_raw(c0, inbox@, k as int)));
                        assert(!(exists|k2: int|
                            0 <= k2 < inbox@.len() && normalize_fails(
                                #[trigger] check_raw_part(c0, inbox@, k2),
                            )));
                    }
                    return Err(e);
                },
            };
            out.push((id, msg));
            k += 1;
        }
        proof {
            let spec_r = check_node_spec(c0, inbox@);
            assert(!(exists|k2: int|
                0 <= k2 < inbox@.len() && normalize_fails(
                    #[trigger] check_raw_part(c0, inbox@, k2),
                )));
            assert(!(exists|k2: int|
                0 <= k2 < inbox@.len() && normalize_fails(
                    #[trigger] check_out_raw(c0, inbox@, k2),
                )));
            assert(spec_r is Ok);
        }
        Ok(out)
    }

    /// The number of connected variables.
    pub fn number_inputs(&self) -> (r: Option<usize>)
        ensures
            r == Some(self.coeffs@.len() as usize),
    {
        Some(self.coeffs.len())
    }

    /// A check node is a factor.
    pub fn is_factor(&self) -> (r: bool)
        ensures
            r == true,
    {
        true
    }

    /// A check node has no prior.
    pub fn get_prior(&self) -> (r: Option<CheckMsg>)
        ensures
            r is None,
    {
        None
    }

    /// A check node keeps no per-run state.
    pub fn reset(&mut self) -> (r: Result<(), NodeError>)
        ensures
            r == Ok::<(), NodeError>(()),
            *final(self) == *old(self),
    {
        Ok(())
    }

    /// Ready when the inbox holds one message per connected variable.
    pub fn is_ready(&self, recv_from: &Vec<(usize, CheckMsg)>, _current_step: usize) -> (r:
        Result<bool, NodeError>)
        ensures
            r == Ok::<bool, NodeError>(recv_from@.len() == self.connections@.len()),
    {
        Ok(recv_from.len() == self.connections.len())
    }
}

} // verus!
