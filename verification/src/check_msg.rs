//! Belief messages.
//!
//! A message holds one weight per value of a symmetric integer domain of
//! size `D`: value `v` lives at position `v + D/2`, so the values run from
//! `-(D/2)` up to the top of the vector.  A message is valid when every
//! entry is a number; `normalize` rescales it so the greatest magnitude is
//! exactly one, and `to_probabilities` rescales it to sum one for read-out.

use vstd::prelude::*;

use crate::bin_tree::Combine;
use crate::errors::NodeError;
use crate::weight::{
    Weight, abs_int, copy_entries, lemma_seq_max_abs_props, lemma_seq_max_abs_zero, mul_zip,
    mult_entries, normalize_entries, normalize_fails, normalize_seq, prob_seq,
    rescale_to_probabilities, seq_all_valid, seq_all_zero, seq_max_abs, to_prob_fails, w_abs_ge,
    w_div_abs, w_eqv, w_one, w_valid, w_zero,
};

verus! {

/// A belief message: one weight per domain value.
pub struct CheckMsg {
    pub data: Vec<Weight>,
}

impl View for CheckMsg {
    type V = Seq<Weight>;

    open spec fn view(&self) -> Seq<Weight> {
        self.data@
    }
}

/// The position of domain value `v` in a message of `len` entries.
pub open spec fn value_index(len: int, v: int) -> int {
    v + len / 2
}

/// Whether domain value `v` lies inside a message of `len` entries.
pub open spec fn in_domain(len: int, v: int) -> bool {
    0 <= value_index(len, v) < len
}

/// The point-mass message of `len` entries: weight one at value `v`, zero
/// everywhere else.
pub open spec fn point_mass(len: nat, v: int) -> Seq<Weight> {
    Seq::new(len, |i: int| if i == value_index(len as int, v) {
            w_one()
        } else {
            w_zero()
        })
}

impl CheckMsg {
    /// An all-zero message over a domain of `len` values.
    pub fn new(len: usize) -> (r: CheckMsg)
        ensures
            r@.len() == len,
            forall|i: int| 0 <= i < len ==> r@[i] == w_zero(),
    {
        let mut data: Vec<Weight> = Vec::new();
        let mut i: usize = 0;
        while i < len
            invariant
                0 <= i <= len,
                data@.len() == i,
                forall|j: int| 0 <= j < i ==> data@[j] == w_zero(),
            decreases len - i,
        {
            data.push(Weight { num: 0, den: 1 });
            i += 1;
        }
        CheckMsg { data }
    }

    /// A message owning the given weights.
    pub fn from_data(data: Vec<Weight>) -> (r: CheckMsg)
        ensures
            r@ == data@,
    {
        CheckMsg { data }
    }

    /// The domain size.
    pub fn len(&self) -> (r: usize)
        ensures
            r == self@.len(),
    {
        self.data.len()
    }

    /// The weight at domain value `index`, or `None` outside the domain.
    pub fn get(&self, index: i64) -> (r: Option<Weight>)
        ensures
            r == if in_domain(self@.len() as int, index as int) {
                Some(self@[value_index(self@.len() as int, index as int)])
            } else {
                None::<Weight>
            },
    {
        let half: usize = self.data.len() / 2;
        let pos: i128 = (index as i128) + (half as i128);
        if 0 <= pos && pos < self.data.len() as i128 {
            Some(self.data[pos as usize])
        } else {
            None
        }
    }

    /// Store weight `p` at domain value `value`, which must be in the
    /// domain.
    pub fn insert(&mut self, value: i64, p: Weight)
        requires
            in_domain(old(self)@.len() as int, value as int),
        ensures
            final(self)@ == old(self)@.update(
                value_index(old(self)@.len() as int, value as int),
                p,
            ),
    {
        let half: usize = self.data.len() / 2;
        let pos: i128 = (value as i128) + (half as i128);
        self.data[pos as usize] = p;
    }

    /// Make the message a point mass: zero everywhere, weight one at
    /// `value`, which must be in the domain.
    pub fn set_fixed_value(&mut self, value: i64)
        requires
            in_domain(old(self)@.len() as int, value as int),
        ensures
            final(self)@ == point_mass(old(self)@.len(), value as int),
    {
        let len = self.data.len();
        let mut i: usize = 0;
        while i < len
            invariant
                0 <= i <= len,
                self@.len() == len,
                forall|j: int| 0 <= j < i ==> self@[j] == w_zero(),
            decreases len - i,
        {
            self.data[i] = Weight { num: 0, den: 1 };
            i += 1;
        }
        let half: usize = len / 2;
        let pos: i128 = (value as i128) + (half as i128);
        self.data[pos as usize] = Weight { num: 1, den: 1 };
        proof {
            assert(self@ =~= point_mass(old(self)@.len(), value as int));
        }
    }

    /// True iff every entry is a number.
    pub fn is_valid(&self) -> (r: bool)
        ensures
            r == seq_all_valid(self@),
    {
        crate::weight::all_entries_valid(&self.data)
    }

    /// Pointwise product with another message, in place, over the common
    /// prefix of the two domains.
    pub fn mult_msg(&mut self, other: &CheckMsg)
        ensures
            final(self)@ == mul_zip(old(self)@, other@),
    {
        mult_entries(&mut self.data, &other.data);
    }

    /// Rescale so the entry of greatest magnitude becomes exactly one.
    /// Fails, leaving the message unchanged, when the message is empty, has
    /// an entry that is not a number, or is all zero.
    pub fn normalize(&mut self) -> (r: Result<(), NodeError>)
        ensures
            r is Ok <==> !normalize_fails(old(self)@),
            r is Ok ==> final(self)@ == normalize_seq(old(self)@),
            r is Err ==> final(self)@ == old(self)@ && r == Err::<(), NodeError>(
                NodeError::NormalizationFailure,
            ),
    {
        if normalize_entries(&mut self.data) {
            Ok(())
        } else {
            Err(NodeError::NormalizationFailure)
        }
    }

    /// Rescale so the entries sum to one: the read-out step.  Fails,
    /// leaving the message unchanged, when the sum is zero or not a number.
    pub fn to_probabilities(&mut self) -> (r: Result<(), NodeError>)
        ensures
            r is Ok <==> !to_prob_fails(old(self)@),
            r is Ok ==> final(self)@ == prob_seq(old(self)@),
            r is Err ==> final(self)@ == old(self)@ && r == Err::<(), NodeError>(
                NodeError::NormalizationFailure,
            ),
    {
        if rescale_to_probabilities(&mut self.data) {
            Ok(())
        } else {
            Err(NodeError::NormalizationFailure)
        }
    }

    /// The `(value, weight)` pairs of the message, in increasing value
    /// order.
    pub fn entries(&self) -> (r: Vec<(i64, Weight)>)
        ensures
            r@.len() == self@.len(),
            forall|k: int|
                0 <= k < r@.len() ==> #[trigger] r@[k] == (
                    (k - self@.len() as int / 2) as i64,
                    self@[k],
                ),
    {
        let len = self.data.len();
        let half: usize = len / 2;
        let mut r: Vec<(i64, Weight)> = Vec::new();
        let mut k: usize = 0;
        while k < len
            invariant
                0 <= k <= len,
                len == self@.len(),
                half == len / 2,
                r@.len() == k,
                forall|j: int|
                    0 <= j < k ==> #[trigger] r@[j] == ((j - len as int / 2) as i64, self@[j]),
            decreases len - k,
        {
            let value: i128 = (k as i128) - (half as i128);
            r.push((value as i64, self.data[k]));
            k += 1;
        }
        r
    }

    /// A copy of the message.
    pub fn dup_msg(&self) -> (r: CheckMsg)
        ensures
            r@ == self@,
    {
        CheckMsg { data: copy_entries(&self.data) }
    }
}

/// The weight stands for a rational of magnitude exactly one.
pub open spec fn w_abs_one(m: Weight) -> bool {
    w_valid(m) && abs_int(m.num as int) == m.den
}

/// Magnitudes multiply: `|x * y| == |x| * |y|`.
proof fn lemma_abs_mul(x: int, y: int)
    by (nonlinear_arith)
    ensures
        abs_int(x * y) == abs_int(x) * abs_int(y),
{
}

/// Normalization idempotence: for a message with at least one finite
/// nonzero entry, normalizing a second time changes no entry's value, and
/// the normalized message's entry of greatest magnitude stands for a
/// rational of magnitude exactly one.  The two validity premises exclude
/// exactly the inputs whose quotients leave the representable range.
pub proof fn lemma_normalize_idempotent(s: Seq<Weight>)
    requires
        !normalize_fails(s),
        seq_all_valid(normalize_seq(s)),
        seq_all_valid(normalize_seq(normalize_seq(s))),
    ensures
        !normalize_fails(normalize_seq(s)),
        w_abs_one(seq_max_abs(normalize_seq(s))),
        forall|i: int|
            0 <= i < s.len() ==> w_eqv(
                #[trigger] normalize_seq(normalize_seq(s))[i],
                normalize_seq(s)[i],
            ),
{
    let b = normalize_seq(s);
    let m = seq_max_abs(s);
    lemma_seq_max_abs_props(s);
    lemma_seq_max_abs_zero(s);
    assert(m.num != 0);
    let k0 = choose|k: int| 0 <= k < s.len() && m == s[k];
    // The image of the old maximal entry has magnitude exactly one.
    assert(b[k0] == w_div_abs(s[k0], m));
    assert(w_valid(b[k0]));
    assert(b[k0].num == m.num * m.den && b[k0].den == m.den * abs_int(m.num as int));
    assert(w_abs_one(b[k0])) by {
        lemma_abs_mul(m.num as int, m.den as int);
    };
    assert(b[k0].num != 0) by {
        lemma_abs_mul(m.num as int, m.den as int);
        assert(abs_int(m.num as int) >= 1);
        assert(abs_int(m.num as int) * m.den >= 1) by (nonlinear_arith)
            requires
                abs_int(m.num as int) >= 1,
                m.den >= 1,
        ;
    };
    assert(!seq_all_zero(b));
    assert(!normalize_fails(b));
    // The scan maximum of the normalized message also has magnitude one.
    lemma_seq_max_abs_props(b);
    let mb = seq_max_abs(b);
    let j = choose|k: int| 0 <= k < b.len() && mb == b[k];
    assert(w_abs_ge(mb, b[k0]));
    assert(w_abs_ge(m, s[j]));
    assert(b[j].num == s[j].num * m.den && b[j].den == s[j].den * abs_int(m.num as int));
    // Upper bound: |b[j]| <= 1, i.e. |b[j].num| <= b[j].den.
    assert(abs_int(b[j].num as int) <= b[j].den) by (nonlinear_arith)
        requires
            b[j].num == s[j].num * m.den,
            b[j].den == s[j].den * abs_int(m.num as int),
            abs_int(m.num as int) * s[j].den >= abs_int(s[j].num as int) * m.den,
            m.den >= 0,
    ;
    // Lower bound via w_abs_ge(mb, b[k0]) and |b[k0].num| == b[k0].den.
    assert(abs_int(mb.num as int) * b[k0].den >= abs_int(b[k0].num as int) * mb.den);
    assert(abs_int(mb.num as int) >= mb.den) by (nonlinear_arith)
        requires
            abs_int(mb.num as int) * b[k0].den >= abs_int(b[k0].num as int) * mb.den,
            abs_int(b[k0].num as int) == b[k0].den,
            b[k0].den >= 1,
    ;
    assert(abs_int(mb.num as int) <= mb.den);
    assert(w_abs_one(mb));
    // Dividing by a weight of magnitude one leaves every value unchanged.
    let c = normalize_seq(b);
    assert forall|i: int| 0 <= i < s.len() implies w_eqv(#[trigger] c[i], b[i]) by {
        assert(c[i] == w_div_abs(b[i], mb));
        assert(w_valid(c[i]));
        assert(c[i].num == b[i].num * mb.den && c[i].den == b[i].den * abs_int(mb.num as int));
        assert(c[i].num * b[i].den == b[i].num * c[i].den) by (nonlinear_arith)
            requires
                c[i].num == b[i].num * mb.den,
                c[i].den == b[i].den * abs_int(mb.num as int),
                abs_int(mb.num as int) == mb.den,
        ;
    };
}

/// The variable node combines evidence by pointwise multiplication of
/// messages.
impl Combine for CheckMsg {
    open spec fn sop(a: Seq<Weight>, b: Seq<Weight>) -> Seq<Weight> {
        mul_zip(a, b)
    }

    fn combine(&self, other: &Self) -> (r: Self)
        ensures
            r@ == mul_zip(self@, other@),
    {
        let mut data = copy_entries(&self.data);
        mult_entries(&mut data, &other.data);
        CheckMsg { data }
    }

    fn dup(&self) -> (r: Self)
        ensures
            r@ == self@,
    {
        CheckMsg { data: copy_entries(&self.data) }
    }
}

} // verus!
