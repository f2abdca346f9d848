//! The leave-one-out product engine.
//!
//! For leaves `L[0..n)` under a binary operator, the engine returns the list
//! whose entry `i` is the combination of all leaves except `L[i]`,
//! optionally folded with an extra prior operand.  It is shared by the
//! variable node (pointwise message product) and the check node (circular
//! convolution of scaled distributions).
//!
//! The engine runs a linear two-pass prefix/suffix product.  Its contract
//! pins down the exact combination order; `lemma_exclusion_correct` then
//! shows that for a commutative and associative operator every entry equals
//! the fold of the leaves with one left out.

use vstd::prelude::*;

use crate::weight::{Weight, mul_zip_trunc, normalize_entries, normalize_fails, normalize_seq};

verus! {

/// Pointwise product of two weight vectors over their common length,
/// rescaled to greatest magnitude one: the engine operator the host uses
/// on plain weight lists.  The caller must hand vectors whose product has
/// a usable scale.
pub fn pointwise_mult(op0: &Vec<Weight>, op1: &Vec<Weight>) -> (res: Vec<Weight>)
    requires
        !normalize_fails(mul_zip_trunc(op0@, op1@)),
    ensures
        res@ == normalize_seq(mul_zip_trunc(op0@, op1@)),
{
    let end: usize = if op0.len() <= op1.len() {
        op0.len()
    } else {
        op1.len()
    };
    let mut res: Vec<Weight> = Vec::new();
    let mut i: usize = 0;
    while i < end
        invariant
            0 <= i <= end,
            end == if op0@.len() <= op1@.len() {
                op0@.len() as int
            } else {
                op1@.len() as int
            },
            res@.len() == i,
            forall|j: int| 0 <= j < i ==> res@[j] == crate::weight::w_mul(op0@[j], op1@[j]),
        decreases end - i,
    {
        res.push(op0[i].times(&op1[i]));
        i += 1;
    }
    proof {
        assert(res@ =~= mul_zip_trunc(op0@, op1@));
    }
    let ok = normalize_entries(&mut res);
    assert(ok);
    res
}

/// The capability the engine needs from its elements: a binary operator,
/// described exactly on the elements' views by the spec-level `sop`, and
/// duplication.
pub trait Combine: View + Sized {
    /// The mathematical meaning of the operator, on views.
    spec fn sop(a: Self::V, b: Self::V) -> Self::V;

    /// Apply the operator.
    fn combine(&self, other: &Self) -> (r: Self)
        ensures
            r@ == Self::sop(self@, other@),
    ;

    /// Duplicate the value.
    fn dup(&self) -> (r: Self)
        ensures
            r@ == self@,
    ;
}

/// The views of a sequence of elements.
pub open spec fn views<T: View>(s: Seq<T>) -> Seq<<T as View>::V> {
    s.map_values(|x: T| x@)
}

/// Left fold of a nonempty sequence:
/// `(...((s[0] ⊗ s[1]) ⊗ s[2]) ... ) ⊗ s[n-1]`.
pub open spec fn prod_fold<T: Combine>(s: Seq<<T as View>::V>) -> <T as View>::V
    decreases s.len(),
{
    if s.len() <= 1 {
        s[0]
    } else {
        T::sop(prod_fold::<T>(s.drop_last()), s.last())
    }
}

/// Fold of the first `i` entries; meaningful for `1 <= i <= s.len()`.
pub open spec fn prefix_fold<T: Combine>(s: Seq<<T as View>::V>, i: int) -> <T as View>::V
    decreases i,
{
    if i <= 1 {
        s[0]
    } else {
        T::sop(prefix_fold::<T>(s, i - 1), s[i - 1])
    }
}

/// Fold of the entries from `i` to the end, combined right to left:
/// `(...(s[n-1] ⊗ s[n-2]) ... ) ⊗ s[i]`; meaningful for `0 <= i < s.len()`.
pub open spec fn suffix_fold<T: Combine>(s: Seq<<T as View>::V>, i: int) -> <T as View>::V
    decreases s.len() - i,
{
    if i >= s.len() - 1 {
        s[s.len() - 1]
    } else {
        T::sop(suffix_fold::<T>(s, i + 1), s[i])
    }
}

/// What the engine computes at position `i`: the combination of all leaves
/// except `s[i]`, in the two-pass order.
pub open spec fn llo_at<T: Combine>(s: Seq<<T as View>::V>, i: int) -> <T as View>::V {
    if i == 0 {
        suffix_fold::<T>(s, 1)
    } else if i == s.len() - 1 {
        prefix_fold::<T>(s, i)
    } else {
        T::sop(prefix_fold::<T>(s, i), suffix_fold::<T>(s, i + 1))
    }
}

/// Position `i` of the engine's output with a prior folded in.
pub open spec fn llo_with_prior_at<T: Combine>(
    s: Seq<<T as View>::V>,
    prior: <T as View>::V,
    i: int,
) -> <T as View>::V {
    T::sop(prior, llo_at::<T>(s, i))
}

/// Compute, for every index, the combination of all leaves except that one,
/// by a forward prefix pass and a backward suffix pass.
pub fn compute_llo_products<T: Combine>(leafs: Vec<T>) -> (r: Vec<T>)
    requires
        leafs.len() >= 2,
    ensures
        r@.len() == leafs@.len(),
        forall|i: int| 0 <= i < r@.len() ==> (#[trigger] r@[i])@ == llo_at::<T>(views(leafs@), i),
{
    let ghost vs = views(leafs@);
    proof {
        assert(forall|j: int| 0 <= j < leafs@.len() ==> vs[j] == (#[trigger] leafs@[j])@);
    }
    let n = leafs.len();
    let mut result: Vec<T> = Vec::new();
    // Placeholder for position 0; the backward pass overwrites it.
    result.push(leafs[0].dup());
    let mut acc = leafs[0].dup();
    let mut i: usize = 1;
    while i < n
        invariant
            1 <= i <= n,
            n == leafs@.len(),
            vs == views(leafs@),
            vs.len() == n,
            forall|j: int| 0 <= j < n ==> vs[j] == (#[trigger] leafs@[j])@,
            result@.len() == i,
            acc@ == prefix_fold::<T>(vs, i as int),
            forall|j: int| 1 <= j < i ==> (#[trigger] result@[j])@ == prefix_fold::<T>(vs, j),
        decreases n - i,
    {
        result.push(acc.dup());
        acc = acc.combine(&leafs[i]);
        i += 1;
    }
    let mut acc2 = leafs[n - 1].dup();
    let mut idx: usize = n - 1;
    while idx > 1
        invariant
            1 <= idx <= n - 1,
            n == leafs@.len(),
            vs == views(leafs@),
            vs.len() == n,
            forall|j: int| 0 <= j < n ==> vs[j] == (#[trigger] leafs@[j])@,
            result@.len() == n,
            acc2@ == suffix_fold::<T>(vs, idx as int),
            (result@[n - 1int])@ == prefix_fold::<T>(vs, n as int - 1),
            forall|j: int| 1 <= j < idx ==> (#[trigger] result@[j])@ == prefix_fold::<T>(vs, j),
            forall|j: int|
                idx <= j < n - 1 ==> (#[trigger] result@[j])@ == T::sop(
                    prefix_fold::<T>(vs, j),
                    suffix_fold::<T>(vs, j + 1),
                ),
        decreases idx,
    {
        idx -= 1;
        let combined = result[idx].combine(&acc2);
        result[idx] = combined;
        acc2 = acc2.combine(&leafs[idx]);
    }
    result[0] = acc2;
    result
}

/// The leave-one-out engine over an even-length list of leaves.  Building it
/// records the leaves; `calculate` and `calculate_with_prior` consume it.
pub struct BinMultTree<T: Combine> {
    pub leaves: Vec<T>,
}

impl<T: Combine> BinMultTree<T> {
    /// Record an even-length list of at least two leaves.
    pub fn new(leaves: Vec<T>) -> (r: Self)
        requires
            leaves.len() >= 2,
            leaves.len() % 2 == 0,
        ensures
            r.leaves == leaves,
    {
        BinMultTree { leaves }
    }

    /// The combination of all leaves except each one in turn.
    pub fn calculate(self) -> (r: Vec<T>)
        requires
            self.leaves.len() >= 2,
        ensures
            r@.len() == self.leaves@.len(),
            forall|i: int|
                0 <= i < r@.len() ==> (#[trigger] r@[i])@ == llo_at::<T>(views(self.leaves@), i),
    {
        compute_llo_products(self.leaves)
    }

    /// As `calculate`, with the prior folded into every entry.
    pub fn calculate_with_prior(self, prior: &T) -> (r: Vec<T>)
        requires
            self.leaves.len() >= 2,
        ensures
            r@.len() == self.leaves@.len(),
            forall|i: int|
                0 <= i < r@.len() ==> (#[trigger] r@[i])@ == llo_with_prior_at::<T>(
                    views(self.leaves@),
                    prior@,
                    i,
                ),
    {
        let ghost vs = views(self.leaves@);
        let prods = compute_llo_products(self.leaves);
        let mut result: Vec<T> = Vec::new();
        let mut i: usize = 0;
        while i < prods.len()
            invariant
                0 <= i <= prods.len(),
                prods@.len() == vs.len(),
                forall|j: int|
                    0 <= j < prods@.len() ==> (#[trigger] prods@[j])@ == llo_at::<T>(vs, j),
                result@.len() == i,
                forall|j: int|
                    0 <= j < i ==> (#[trigger] result@[j])@ == llo_with_prior_at::<T>(
                        vs,
                        prior@,
                        j,
                    ),
            decreases prods.len() - i,
        {
            result.push(prior.combine(&prods[i]));
            i += 1;
        }
        result
    }
}

/// The operator premises of the exclusion law: commutativity and
/// associativity of the spec-level operator.
pub open spec fn sop_commutative<T: Combine>() -> bool {
    forall|a: <T as View>::V, b: <T as View>::V| #[trigger] T::sop(a, b) == T::sop(b, a)
}

pub open spec fn sop_associative<T: Combine>() -> bool {
    forall|a: <T as View>::V, b: <T as View>::V, c: <T as View>::V|
        #[trigger] T::sop(T::sop(a, b), c) == T::sop(a, T::sop(b, c))
}

/// Folding distributes over concatenation of nonempty sequences, for an
/// associative operator.
proof fn lemma_fold_append<T: Combine>(a: Seq<<T as View>::V>, b: Seq<<T as View>::V>)
    requires
        a.len() >= 1,
        b.len() >= 1,
        sop_associative::<T>(),
    ensures
        prod_fold::<T>(a + b) == T::sop(prod_fold::<T>(a), prod_fold::<T>(b)),
    decreases b.len(),
{
    if b.len() == 1 {
        assert((a + b).drop_last() =~= a);
        assert((a + b).last() == b[0]);
        assert(prod_fold::<T>(a + b) == T::sop(prod_fold::<T>(a), b[0]));
    } else {
        let b0 = b.drop_last();
        lemma_fold_append::<T>(a, b0);
        assert((a + b).drop_last() =~= a + b0);
        assert((a + b).last() == b.last());
        assert(prod_fold::<T>(a + b) == T::sop(
            T::sop(prod_fold::<T>(a), prod_fold::<T>(b0)),
            b.last(),
        ));
        assert(T::sop(T::sop(prod_fold::<T>(a), prod_fold::<T>(b0)), b.last()) == T::sop(
            prod_fold::<T>(a),
            T::sop(prod_fold::<T>(b0), b.last()),
        ));
        assert(T::sop(prod_fold::<T>(b0), b.last()) == prod_fold::<T>(b));
    }
}

/// The forward pass computes the fold of the first `i` leaves.
proof fn lemma_prefix_is_fold<T: Combine>(s: Seq<<T as View>::V>, i: int)
    requires
        1 <= i <= s.len(),
    ensures
        prefix_fold::<T>(s, i) == prod_fold::<T>(s.take(i)),
    decreases i,
{
    if i == 1 {
        assert(prod_fold::<T>(s.take(1)) == s.take(1)[0]);
    } else {
        lemma_prefix_is_fold::<T>(s, i - 1);
        assert(s.take(i).drop_last() =~= s.take(i - 1));
        assert(s.take(i).last() == s[i - 1]);
    }
}

/// The backward pass computes the fold of the leaves from `i` on, for a
/// commutative and associative operator.
proof fn lemma_suffix_is_fold<T: Combine>(s: Seq<<T as View>::V>, i: int)
    requires
        0 <= i < s.len(),
        sop_commutative::<T>(),
        sop_associative::<T>(),
    ensures
        suffix_fold::<T>(s, i) == prod_fold::<T>(s.subrange(i, s.len() as int)),
    decreases s.len() - i,
{
    let n = s.len() as int;
    if i == n - 1 {
        assert(s.subrange(i, n).len() == 1);
        assert(prod_fold::<T>(s.subrange(i, n)) == s[n - 1]);
    } else {
        lemma_suffix_is_fold::<T>(s, i + 1);
        let rest = s.subrange(i + 1, n);
        let one = seq![s[i]];
        lemma_fold_append::<T>(one, rest);
        assert(one + rest =~= s.subrange(i, n));
        assert(prod_fold::<T>(one) == s[i]);
        assert(suffix_fold::<T>(s, i) == T::sop(prod_fold::<T>(rest), s[i]));
        assert(T::sop(prod_fold::<T>(rest), s[i]) == T::sop(s[i], prod_fold::<T>(rest)));
    }
}

/// Exclusion correctness: for a commutative and associative operator, entry
/// `i` of the engine's output is the fold of all leaves with `s[i]` removed.
pub proof fn lemma_exclusion_correct<T: Combine>(s: Seq<<T as View>::V>, i: int)
    requires
        s.len() >= 2,
        0 <= i < s.len(),
        sop_commutative::<T>(),
        sop_associative::<T>(),
    ensures
        llo_at::<T>(s, i) == prod_fold::<T>(s.remove(i)),
{
    let n = s.len() as int;
    if i == 0 {
        lemma_suffix_is_fold::<T>(s, 1);
        assert(s.subrange(1, n) =~= s.remove(0));
    } else if i == n - 1 {
        lemma_prefix_is_fold::<T>(s, i);
        assert(s.take(i) =~= s.remove(i));
    } else {
        lemma_prefix_is_fold::<T>(s, i);
        lemma_suffix_is_fold::<T>(s, i + 1);
        lemma_fold_append::<T>(s.take(i), s.subrange(i + 1, n));
        assert(s.take(i) + s.subrange(i + 1, n) =~= s.remove(i));
    }
}

/// Prior folding: entry `i` of `calculate_with_prior` is the prior combined
/// with the fold of all leaves except `s[i]`.
pub proof fn lemma_prior_folding<T: Combine>(s: Seq<<T as View>::V>, prior: <T as View>::V, i: int)
    requires
        s.len() >= 2,
        0 <= i < s.len(),
        sop_commutative::<T>(),
        sop_associative::<T>(),
    ensures
        llo_with_prior_at::<T>(s, prior, i) == T::sop(prior, prod_fold::<T>(s.remove(i))),
{
    lemma_exclusion_correct::<T>(s, i);
}

/// An integer leaf: the engine's plain integer instance, under saturating
/// multiplication.  Saturation keeps the operator total, and it stays
/// associative and commutative, so the exclusion law holds of this
/// instance without any hypothesis.
#[derive(Clone, Copy, PartialEq, Eq, Structural, Debug)]
pub struct IntLeaf {
    pub val: u64,
}

impl View for IntLeaf {
    type V = u64;

    open spec fn view(&self) -> u64 {
        self.val
    }
}

/// The product clamped to the representable range.
pub open spec fn sat_mul(a: u64, b: u64) -> u64 {
    if a * b > u64::MAX {
        u64::MAX
    } else {
        (a * b) as u64
    }
}

impl Combine for IntLeaf {
    open spec fn sop(a: u64, b: u64) -> u64 {
        sat_mul(a, b)
    }

    fn combine(&self, other: &Self) -> (r: Self)
        ensures
            r@ == sat_mul(self@, other@),
    {
        match self.val.checked_mul(other.val) {
            Some(v) => IntLeaf { val: v },
            None => IntLeaf { val: u64::MAX },
        }
    }

    fn dup(&self) -> (r: Self)
        ensures
            r@ == self@,
    {
        IntLeaf { val: self.val }
    }
}

/// Saturating multiplication is commutative.
pub proof fn lemma_int_leaf_commutative()
    ensures
        sop_commutative::<IntLeaf>(),
{
    assert forall|a: u64, b: u64| #[trigger] IntLeaf::sop(a, b) == IntLeaf::sop(b, a) by {
        assert(a * b == b * a) by (nonlinear_arith);
    };
}

/// Clamping the inner product does not change the clamped triple product.
proof fn lemma_sat_mul_left(a: u64, b: u64, c: u64)
    ensures
        sat_mul(sat_mul(a, b), c) == if a * b * c > u64::MAX {
            u64::MAX
        } else {
            (a * b * c) as u64
        },
{
    if a * b > u64::MAX {
        if c == 0 {
            assert(sat_mul(u64::MAX as u64, 0) == 0) by (nonlinear_arith);
            assert(a * b * c == 0) by (nonlinear_arith)
                requires
                    c == 0,
            ;
        } else {
            assert(u64::MAX * c >= u64::MAX) by (nonlinear_arith)
                requires
                    c >= 1,
            ;
            assert(a * b * c > u64::MAX) by (nonlinear_arith)
                requires
                    a * b > u64::MAX,
                    c >= 1,
            ;
        }
    }
}

/// Saturating multiplication is associative.
pub proof fn lemma_int_leaf_associative()
    ensures
        sop_associative::<IntLeaf>(),
{
    assert forall|a: u64, b: u64, c: u64|
        #[trigger] IntLeaf::sop(IntLeaf::sop(a, b), c) == IntLeaf::sop(a, IntLeaf::sop(b, c)) by {
        lemma_sat_mul_left(a, b, c);
        lemma_sat_mul_left(c, b, a);
        assert(c * b * a == a * b * c) by (nonlinear_arith);
        assert(sat_mul(c, b) == sat_mul(b, c)) by {
            assert(c * b == b * c) by (nonlinear_arith);
        };
        assert(sat_mul(a, sat_mul(b, c)) == sat_mul(sat_mul(c, b), a)) by {
            assert(a * sat_mul(b, c) == sat_mul(c, b) * a) by (nonlinear_arith)
                requires
                    sat_mul(b, c) == sat_mul(c, b),
            ;
        };
    };
}

/// Exclusion correctness for the integer instance, with no hypotheses:
/// every entry of the engine's output equals the saturating product of all
/// leaves except one.
pub proof fn lemma_exclusion_correct_int(s: Seq<u64>, i: int)
    requires
        s.len() >= 2,
        0 <= i < s.len(),
    ensures
        llo_at::<IntLeaf>(s, i) == prod_fold::<IntLeaf>(s.remove(i)),
{
    lemma_int_leaf_commutative();
    lemma_int_leaf_associative();
    lemma_exclusion_correct::<IntLeaf>(s, i);
}

} // verus!
