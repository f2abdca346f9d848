//! Exact rational belief weights.
//!
//! A weight is the rational number `num / den`.  A zero denominator marks a
//! value that is not a number: it plays the role that NaN and overflow play
//! in a floating-point implementation.  Arithmetic whose exact result leaves
//! the `i64` / `u64` ranges yields the marker, and the marker propagates
//! through every operation, so a degenerate computation is always visible in
//! its result.

use vstd::prelude::*;

verus! {

/// The rational number `num / den`; `den == 0` marks "not a number".
#[derive(Clone, Copy, PartialEq, Eq, Structural, Debug)]
pub struct Weight {
    pub num: i64,
    pub den: u64,
}

pub open spec fn w_valid(w: Weight) -> bool {
    w.den != 0
}

pub open spec fn w_invalid() -> Weight {
    Weight { num: 0, den: 0 }
}

pub open spec fn w_zero() -> Weight {
    Weight { num: 0, den: 1 }
}

pub open spec fn w_one() -> Weight {
    Weight { num: 1, den: 1 }
}

pub open spec fn w_is_zero(w: Weight) -> bool {
    w_valid(w) && w.num == 0
}

pub open spec fn abs_int(x: int) -> int {
    if x < 0 {
        -x
    } else {
        x
    }
}

pub open spec fn fits_num(x: int) -> bool {
    i64::MIN <= x <= i64::MAX
}

pub open spec fn fits_den(x: int) -> bool {
    x <= u64::MAX
}

/// Two weights stand for the same rational number.
pub open spec fn w_eqv(a: Weight, b: Weight) -> bool {
    w_valid(a) && w_valid(b) && a.num * b.den == b.num * a.den
}

/// `|a| >= |b|`, compared as rationals; meaningful for valid weights.
pub open spec fn w_abs_ge(a: Weight, b: Weight) -> bool {
    abs_int(a.num as int) * b.den >= abs_int(b.num as int) * a.den
}

/// The exact product, or the marker when an operand is the marker or the
/// result leaves the representable range.
pub open spec fn w_mul(a: Weight, b: Weight) -> Weight {
    if !w_valid(a) || !w_valid(b) {
        w_invalid()
    } else if fits_num(a.num * b.num) && fits_den(a.den * b.den) {
        Weight { num: (a.num * b.num) as i64, den: (a.den * b.den) as u64 }
    } else {
        w_invalid()
    }
}

/// The exact sum, with the same marker discipline as `w_mul`.
pub open spec fn w_add(a: Weight, b: Weight) -> Weight {
    if !w_valid(a) || !w_valid(b) {
        w_invalid()
    } else if fits_num(a.num * b.den + b.num * a.den) && fits_den(a.den * b.den) {
        Weight {
            num: (a.num * b.den + b.num * a.den) as i64,
            den: (a.den * b.den) as u64,
        }
    } else {
        w_invalid()
    }
}

/// The exact difference `a - b`, with the same marker discipline.
pub open spec fn w_sub(a: Weight, b: Weight) -> Weight {
    if !w_valid(a) || !w_valid(b) {
        w_invalid()
    } else if fits_num(a.num * b.den - b.num * a.den) && fits_den(a.den * b.den) {
        Weight {
            num: (a.num * b.den - b.num * a.den) as i64,
            den: (a.den * b.den) as u64,
        }
    } else {
        w_invalid()
    }
}

/// The exact quotient `a / |m|`: the scaling step of normalization, which
/// divides by the magnitude of the maximal entry.  The marker results when
/// an operand is the marker, `m` is zero, or the result does not fit.
pub open spec fn w_div_abs(a: Weight, m: Weight) -> Weight {
    if !w_valid(a) || !w_valid(m) || m.num == 0 {
        w_invalid()
    } else if fits_num(a.num * m.den) && fits_den(a.den * abs_int(m.num as int)) {
        Weight { num: (a.num * m.den) as i64, den: (a.den * abs_int(m.num as int)) as u64 }
    } else {
        w_invalid()
    }
}

/// The exact signed quotient `a / s`, used when rescaling by a sum.
pub open spec fn w_div(a: Weight, s: Weight) -> Weight {
    if !w_valid(a) || !w_valid(s) || s.num == 0 {
        w_invalid()
    } else {
        let n = if s.num < 0 {
            -(a.num * s.den)
        } else {
            a.num * s.den
        };
        if fits_num(n) && fits_den(a.den * abs_int(s.num as int)) {
            Weight { num: n as i64, den: (a.den * abs_int(s.num as int)) as u64 }
        } else {
            w_invalid()
        }
    }
}

/// A product of two numerator-sized factors stays inside `i128`.
proof fn lemma_nn_prod_fits(x: int, y: int)
    by (nonlinear_arith)
    requires
        -0x8000_0000_0000_0000 <= x <= 0x8000_0000_0000_0000,
        -0x8000_0000_0000_0000 <= y <= 0x8000_0000_0000_0000,
    ensures
        -0x4000_0000_0000_0000_0000_0000_0000_0000 <= x * y,
        x * y <= 0x4000_0000_0000_0000_0000_0000_0000_0000,
{
}

/// A product of a numerator-sized factor and a denominator-sized factor
/// stays inside `i128`.
proof fn lemma_nd_prod_fits(x: int, y: int)
    by (nonlinear_arith)
    requires
        -0x8000_0000_0000_0000 <= x <= 0x8000_0000_0000_0000,
        0 <= y <= 0xffff_ffff_ffff_ffff,
    ensures
        -(0x8000_0000_0000_0000_0000_0000_0000_0000 - 0x8000_0000_0000_0000) <= x * y,
        x * y <= 0x8000_0000_0000_0000_0000_0000_0000_0000 - 0x8000_0000_0000_0000,
{
}

/// A product of two denominator-sized factors stays inside `u128`.
proof fn lemma_dd_prod_fits(x: int, y: int)
    by (nonlinear_arith)
    requires
        0 <= x <= 0xffff_ffff_ffff_ffff,
        0 <= y <= 0xffff_ffff_ffff_ffff,
    ensures
        0 <= x * y,
        x * y <= 0xffff_ffff_ffff_ffff_ffff_ffff_ffff_ffff,
{
}

impl Weight {
    /// The weight standing for the integer 0.
    pub fn zero() -> (r: Weight)
        ensures
            r == w_zero(),
    {
        Weight { num: 0, den: 1 }
    }

    /// The weight standing for the integer 1.
    pub fn one() -> (r: Weight)
        ensures
            r == w_one(),
    {
        Weight { num: 1, den: 1 }
    }

    /// The "not a number" marker.
    pub fn not_a_number() -> (r: Weight)
        ensures
            r == w_invalid(),
    {
        Weight { num: 0, den: 0 }
    }

    pub fn is_valid(&self) -> (r: bool)
        ensures
            r == w_valid(*self),
    {
        self.den != 0
    }

    pub fn is_zero(&self) -> (r: bool)
        ensures
            r == w_is_zero(*self),
    {
        self.den != 0 && self.num == 0
    }

    /// Exact product.
    pub fn times(&self, other: &Weight) -> (r: Weight)
        ensures
            r == w_mul(*self, *other),
    {
        if self.den == 0 || other.den == 0 {
            return Weight { num: 0, den: 0 };
        }
        proof {
            lemma_nn_prod_fits(self.num as int, other.num as int);
            lemma_dd_prod_fits(self.den as int, other.den as int);
        }
        let n: i128 = (self.num as i128) * (other.num as i128);
        let d: u128 = (self.den as u128) * (other.den as u128);
        if n < i64::MIN as i128 || n > i64::MAX as i128 || d > u64::MAX as u128 {
            Weight { num: 0, den: 0 }
        } else {
            Weight { num: n as i64, den: d as u64 }
        }
    }

    /// Exact sum.
    pub fn plus(&self, other: &Weight) -> (r: Weight)
        ensures
            r == w_add(*self, *other),
    {
        if self.den == 0 || other.den == 0 {
            return Weight { num: 0, den: 0 };
        }
        proof {
            lemma_nd_prod_fits(self.num as int, other.den as int);
            lemma_nd_prod_fits(other.num as int, self.den as int);
            lemma_dd_prod_fits(self.den as int, other.den as int);
        }
        let n1: i128 = (self.num as i128) * (other.den as i128);
        let n2: i128 = (other.num as i128) * (self.den as i128);
        let d: u128 = (self.den as u128) * (other.den as u128);
        let n: i128 = match n1.checked_add(n2) {
            Some(v) => v,
            None => {
                return Weight { num: 0, den: 0 };
            },
        };
        if n < i64::MIN as i128 || n > i64::MAX as i128 || d > u64::MAX as u128 {
            Weight { num: 0, den: 0 }
        } else {
            Weight { num: n as i64, den: d as u64 }
        }
    }

    /// Exact difference `self - other`.
    pub fn minus(&self, other: &Weight) -> (r: Weight)
        ensures
            r == w_sub(*self, *other),
    {
        if self.den == 0 || other.den == 0 {
            return Weight { num: 0, den: 0 };
        }
        proof {
            lemma_nd_prod_fits(self.num as int, other.den as int);
            lemma_nd_prod_fits(other.num as int, self.den as int);
            lemma_dd_prod_fits(self.den as int, other.den as int);
        }
        let n1: i128 = (self.num as i128) * (other.den as i128);
        let n2: i128 = (other.num as i128) * (self.den as i128);
        let d: u128 = (self.den as u128) * (other.den as u128);
        let n: i128 = match n1.checked_sub(n2) {
            Some(v) => v,
            None => {
                return Weight { num: 0, den: 0 };
            },
        };
        if n < i64::MIN as i128 || n > i64::MAX as i128 || d > u64::MAX as u128 {
            Weight { num: 0, den: 0 }
        } else {
            Weight { num: n as i64, den: d as u64 }
        }
    }

    /// Exact quotient `self / |m|`.
    pub fn over_abs(&self, m: &Weight) -> (r: Weight)
        ensures
            r == w_div_abs(*self, *m),
    {
        if self.den == 0 || m.den == 0 || m.num == 0 {
            return Weight { num: 0, den: 0 };
        }
        proof {
            lemma_nd_prod_fits(self.num as int, m.den as int);
            lemma_dd_prod_fits(self.den as int, abs_int(m.num as int));
        }
        let m_abs: u128 = if m.num < 0 {
            (-(m.num as i128)) as u128
        } else {
            m.num as u128
        };
        let n: i128 = (self.num as i128) * (m.den as i128);
        let d: u128 = (self.den as u128) * m_abs;
        if n < i64::MIN as i128 || n > i64::MAX as i128 || d > u64::MAX as u128 {
            Weight { num: 0, den: 0 }
        } else {
            Weight { num: n as i64, den: d as u64 }
        }
    }

    /// Exact signed quotient `self / s`.
    pub fn over(&self, s: &Weight) -> (r: Weight)
        ensures
            r == w_div(*self, *s),
    {
        if self.den == 0 || s.den == 0 || s.num == 0 {
            return Weight { num: 0, den: 0 };
        }
        proof {
            lemma_nd_prod_fits(self.num as int, s.den as int);
            lemma_dd_prod_fits(self.den as int, abs_int(s.num as int));
        }
        let s_abs: u128 = if s.num < 0 {
            (-(s.num as i128)) as u128
        } else {
            s.num as u128
        };
        let n0: i128 = (self.num as i128) * (s.den as i128);
        let n: i128 = if s.num < 0 {
            -n0
        } else {
            n0
        };
        let d: u128 = (self.den as u128) * s_abs;
        if n < i64::MIN as i128 || n > i64::MAX as i128 || d > u64::MAX as u128 {
            Weight { num: 0, den: 0 }
        } else {
            Weight { num: n as i64, den: d as u64 }
        }
    }

    /// `|self| >= |other|` as rationals; both weights must be numbers.
    pub fn abs_ge(&self, other: &Weight) -> (r: bool)
        requires
            w_valid(*self),
            w_valid(*other),
        ensures
            r == w_abs_ge(*self, *other),
    {
        proof {
            lemma_nd_prod_fits(abs_int(self.num as int), other.den as int);
            lemma_nd_prod_fits(abs_int(other.num as int), self.den as int);
        }
        let a_abs: i128 = if self.num < 0 {
            -(self.num as i128)
        } else {
            self.num as i128
        };
        let b_abs: i128 = if other.num < 0 {
            -(other.num as i128)
        } else {
            other.num as i128
        };
        a_abs * (other.den as i128) >= b_abs * (self.den as i128)
    }

    /// The two weights stand for the same rational number.
    pub fn eqv(&self, other: &Weight) -> (r: bool)
        ensures
            r == w_eqv(*self, *other),
    {
        if self.den == 0 || other.den == 0 {
            return false;
        }
        proof {
            lemma_nd_prod_fits(self.num as int, other.den as int);
            lemma_nd_prod_fits(other.num as int, self.den as int);
        }
        (self.num as i128) * (other.den as i128) == (other.num as i128) * (self.den as i128)
    }
}

// ---------------------------------------------------------------------------
// The algebra of weight vectors, shared by belief messages and by the check
// node's partial-sum distributions.
// ---------------------------------------------------------------------------

pub open spec fn seq_all_valid(s: Seq<Weight>) -> bool {
    forall|i: int| 0 <= i < s.len() ==> w_valid(#[trigger] s[i])
}

pub open spec fn seq_all_zero(s: Seq<Weight>) -> bool {
    forall|i: int| 0 <= i < s.len() ==> (#[trigger] s[i]).num == 0
}

/// The entry of greatest magnitude; among equals, the later one, as a
/// left-to-right scan keeps it.
pub open spec fn seq_max_abs(s: Seq<Weight>) -> Weight
    decreases s.len(),
{
    if s.len() <= 1 {
        s[0]
    } else if w_abs_ge(s.last(), seq_max_abs(s.drop_last())) {
        s.last()
    } else {
        seq_max_abs(s.drop_last())
    }
}

/// Normalization has no useful scale when the vector is empty, contains a
/// value that is not a number, or is all zero.
pub open spec fn normalize_fails(s: Seq<Weight>) -> bool {
    s.len() == 0 || !seq_all_valid(s) || seq_all_zero(s)
}

/// Every entry divided by the magnitude of the maximal entry.
pub open spec fn normalize_seq(s: Seq<Weight>) -> Seq<Weight> {
    Seq::new(s.len(), |i: int| w_div_abs(s[i], seq_max_abs(s)))
}

/// Left-to-right sum of all entries.
pub open spec fn sum_seq(s: Seq<Weight>) -> Weight
    decreases s.len(),
{
    if s.len() == 0 {
        w_zero()
    } else {
        w_add(sum_seq(s.drop_last()), s.last())
    }
}

/// Rescaling to a probability distribution fails when the sum is zero or is
/// not a number.
pub open spec fn to_prob_fails(s: Seq<Weight>) -> bool {
    !w_valid(sum_seq(s)) || sum_seq(s).num == 0
}

/// Every entry divided by the sum of all entries.
pub open spec fn prob_seq(s: Seq<Weight>) -> Seq<Weight> {
    Seq::new(s.len(), |i: int| w_div(s[i], sum_seq(s)))
}

/// Pointwise product truncated to the shorter of the two vectors.
pub open spec fn mul_zip_trunc(a: Seq<Weight>, b: Seq<Weight>) -> Seq<Weight> {
    Seq::new(if a.len() <= b.len() {
            a.len()
        } else {
            b.len()
        }, |i: int| w_mul(a[i], b[i]))
}

/// Pointwise product over the common prefix; entries of `a` beyond the end
/// of `b` are kept unchanged.
pub open spec fn mul_zip(a: Seq<Weight>, b: Seq<Weight>) -> Seq<Weight> {
    Seq::new(a.len(), |i: int| if i < b.len() {
            w_mul(a[i], b[i])
        } else {
            a[i]
        })
}

/// Magnitude comparison of valid weights is transitive.
proof fn lemma_abs_ge_trans(a: Weight, b: Weight, c: Weight)
    by (nonlinear_arith)
    requires
        w_valid(a),
        w_valid(b),
        w_valid(c),
        w_abs_ge(a, b),
        w_abs_ge(b, c),
    ensures
        w_abs_ge(a, c),
{
}

/// A nonnegative number with a positive multiple bounded by zero is zero.
proof fn lemma_nonneg_factor_zero(x: int, d: int)
    by (nonlinear_arith)
    requires
        x >= 0,
        d >= 1,
        x * d <= 0,
    ensures
        x == 0,
{
}

/// The scan maximum is an entry of the vector, is a number when all entries
/// are, and its magnitude bounds every entry.
pub proof fn lemma_seq_max_abs_props(s: Seq<Weight>)
    requires
        s.len() > 0,
        seq_all_valid(s),
    ensures
        w_valid(seq_max_abs(s)),
        exists|k: int| 0 <= k < s.len() && seq_max_abs(s) == s[k],
        forall|k: int| 0 <= k < s.len() ==> w_abs_ge(seq_max_abs(s), #[trigger] s[k]),
    decreases s.len(),
{
    if s.len() == 1 {
        assert(seq_max_abs(s) == s[0]);
    } else {
        let t = s.drop_last();
        assert(seq_all_valid(t)) by {
            assert(forall|i: int| 0 <= i < t.len() ==> t[i] == s[i]);
        };
        lemma_seq_max_abs_props(t);
        let m = seq_max_abs(t);
        let last = s.last();
        if w_abs_ge(last, m) {
            assert(seq_max_abs(s) == last);
            assert forall|k: int| 0 <= k < s.len() implies w_abs_ge(last, #[trigger] s[k]) by {
                if k < s.len() - 1 {
                    assert(w_abs_ge(m, t[k]));
                    lemma_abs_ge_trans(last, m, s[k]);
                }
            };
        } else {
            assert(seq_max_abs(s) == m);
            assert(w_abs_ge(m, last));
            assert forall|k: int| 0 <= k < s.len() implies w_abs_ge(m, #[trigger] s[k]) by {
                if k < s.len() - 1 {
                    assert(w_abs_ge(m, t[k]));
                }
            };
            let j = choose|j: int| 0 <= j < t.len() && m == t[j];
            assert(m == s[j]);
        }
    }
}

/// When the scan maximum is zero, every entry is zero; when some entry is
/// nonzero, so is the scan maximum.
pub proof fn lemma_seq_max_abs_zero(s: Seq<Weight>)
    requires
        s.len() > 0,
        seq_all_valid(s),
    ensures
        seq_max_abs(s).num == 0 <==> seq_all_zero(s),
{
    lemma_seq_max_abs_props(s);
    let m = seq_max_abs(s);
    if m.num == 0 {
        assert forall|k: int| 0 <= k < s.len() implies (#[trigger] s[k]).num == 0 by {
            assert(w_abs_ge(m, s[k]));
            assert(abs_int(m.num as int) * s[k].den == 0) by (nonlinear_arith)
                requires
                    m.num == 0,
            ;
            lemma_nonneg_factor_zero(abs_int(s[k].num as int), m.den as int);
        };
    } else {
        let k = choose|k: int| 0 <= k < s.len() && m == s[k];
        assert(s[k].num != 0);
    }
}

/// All entries are numbers.
pub fn all_entries_valid(v: &Vec<Weight>) -> (r: bool)
    ensures
        r == seq_all_valid(v@),
{
    let mut i: usize = 0;
    while i < v.len()
        invariant
            0 <= i <= v.len(),
            forall|j: int| 0 <= j < i ==> w_valid(#[trigger] v@[j]),
        decreases v.len() - i,
    {
        if v[i].den == 0 {
            return false;
        }
        i += 1;
    }
    true
}

/// The entry of greatest magnitude (the later one among equals).
pub fn max_abs_entry(v: &Vec<Weight>) -> (r: Weight)
    requires
        v.len() > 0,
        seq_all_valid(v@),
    ensures
        r == seq_max_abs(v@),
{
    let mut m: Weight = v[0];
    let mut i: usize = 1;
    while i < v.len()
        invariant
            1 <= i <= v.len(),
            seq_all_valid(v@),
            w_valid(m),
            m == seq_max_abs(v@.take(i as int)),
        decreases v.len() - i,
    {
        proof {
            let t = v@.take(i as int + 1);
            assert(t.drop_last() =~= v@.take(i as int));
            assert(t.last() == v@[i as int]);
        }
        if v[i].abs_ge(&m) {
            m = v[i];
        }
        i += 1;
    }
    proof {
        assert(v@.take(v@.len() as int) =~= v@);
    }
    m
}

/// Scale every entry so that the greatest magnitude becomes exactly one.
/// Reports `false`, leaving the vector unchanged, when there is no useful
/// scale: an empty vector, a vector with a value that is not a number, or an
/// all-zero vector.
pub fn normalize_entries(v: &mut Vec<Weight>) -> (ok: bool)
    ensures
        ok == !normalize_fails(old(v)@),
        ok ==> final(v)@ == normalize_seq(old(v)@),
        !ok ==> final(v)@ == old(v)@,
{
    if v.len() == 0 {
        return false;
    }
    if !all_entries_valid(v) {
        return false;
    }
    let m = max_abs_entry(v);
    proof {
        lemma_seq_max_abs_zero(v@);
    }
    if m.num == 0 {
        return false;
    }
    let ghost orig = v@;
    let mut i: usize = 0;
    while i < v.len()
        invariant
            0 <= i <= v.len(),
            v@.len() == orig.len(),
            m == seq_max_abs(orig),
            forall|j: int| 0 <= j < i ==> v@[j] == w_div_abs(orig[j], m),
            forall|j: int| i <= j < v@.len() ==> v@[j] == orig[j],
        decreases v.len() - i,
    {
        let scaled = v[i].over_abs(&m);
        v[i] = scaled;
        i += 1;
    }
    proof {
        assert(v@ =~= normalize_seq(orig));
    }
    true
}

/// The sum of all entries.
pub fn sum_entries(v: &Vec<Weight>) -> (r: Weight)
    ensures
        r == sum_seq(v@),
{
    let mut acc = Weight { num: 0, den: 1 };
    let mut i: usize = 0;
    while i < v.len()
        invariant
            0 <= i <= v.len(),
            acc == sum_seq(v@.take(i as int)),
        decreases v.len() - i,
    {
        proof {
            let t = v@.take(i as int + 1);
            assert(t.drop_last() =~= v@.take(i as int));
            assert(t.last() == v@[i as int]);
        }
        acc = acc.plus(&v[i]);
        i += 1;
    }
    proof {
        assert(v@.take(v@.len() as int) =~= v@);
    }
    acc
}

/// Rescale so the entries sum to one: the read-out step that turns a belief
/// into a probability distribution.  Reports `false`, leaving the vector
/// unchanged, when the sum is zero or not a number.
pub fn rescale_to_probabilities(v: &mut Vec<Weight>) -> (ok: bool)
    ensures
        ok == !to_prob_fails(old(v)@),
        ok ==> final(v)@ == prob_seq(old(v)@),
        !ok ==> final(v)@ == old(v)@,
{
    let s = sum_entries(v);
    if s.den == 0 || s.num == 0 {
        return false;
    }
    let ghost orig = v@;
    let mut i: usize = 0;
    while i < v.len()
        invariant
            0 <= i <= v.len(),
            v@.len() == orig.len(),
            s == sum_seq(orig),
            forall|j: int| 0 <= j < i ==> v@[j] == w_div(orig[j], s),
            forall|j: int| i <= j < v@.len() ==> v@[j] == orig[j],
        decreases v.len() - i,
    {
        let scaled = v[i].over(&s);
        v[i] = scaled;
        i += 1;
    }
    proof {
        assert(v@ =~= prob_seq(orig));
    }
    true
}

/// Pointwise product in place over the common prefix.
pub fn mult_entries(v: &mut Vec<Weight>, other: &Vec<Weight>)
    ensures
        final(v)@ == mul_zip(old(v)@, other@),
{
    let ghost orig = v@;
    let end: usize = if v.len() < other.len() {
        v.len()
    } else {
        other.len()
    };
    let mut i: usize = 0;
    while i < end
        invariant
            0 <= i <= end,
            end == if orig.len() < other@.len() {
                orig.len() as int
            } else {
                other@.len() as int
            },
            v@.len() == orig.len(),
            forall|j: int| 0 <= j < i ==> v@[j] == w_mul(orig[j], other@[j]),
            forall|j: int| i <= j < v@.len() ==> v@[j] == orig[j],
        decreases end - i,
    {
        let p = v[i].times(&other[i]);
        v[i] = p;
        i += 1;
    }
    proof {
        assert(v@ =~= mul_zip(orig, other@));
    }
}

/// A copy of the entries.
pub fn copy_entries(v: &Vec<Weight>) -> (r: Vec<Weight>)
    ensures
        r@ == v@,
{
    let mut r: Vec<Weight> = Vec::new();
    let mut i: usize = 0;
    while i < v.len()
        invariant
            0 <= i <= v.len(),
            r@ =~= v@.take(i as int),
        decreases v.len() - i,
    {
        r.push(v[i]);
        i += 1;
    }
    proof {
        assert(v@.take(v@.len() as int) =~= v@);
    }
    r
}

} // verus!
