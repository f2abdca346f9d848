//! Partial-sum distributions for the check node.
//!
//! A check node reasons about the distribution of `Σ coeff_k · x_k` over a
//! wrap-around window of `N` slots.  Each neighbor's belief message is
//! spread into such a window (value `v` lands at slot `coeff·v mod N`), and
//! the window of a sum of independent variables is the circular convolution
//! of their windows.  An external numeric backend may compute the same
//! object through forward transforms and pointwise products; this module
//! computes it exactly.
//!
//! The combination of two windows renormalizes by the entry of greatest
//! magnitude, as the transform-domain pipeline does to keep values in
//! range; a combination with no usable scale poisons the window with
//! not-a-number markers, which the check node later reports as a
//! normalization failure.

use vstd::prelude::*;

use vstd::arithmetic::div_mod::{
    lemma_fundamental_div_mod, lemma_mod_add_multiples_vanish, lemma_mod_multiples_vanish,
    lemma_small_mod,
};

use crate::bin_tree::Combine;
use crate::check_msg::CheckMsg;
use crate::weight::{
    Weight, copy_entries, normalize_fails, normalize_seq, w_add, w_invalid, w_mul, w_zero,
};

verus! {

/// A window of `N` weights over sum values modulo `N`.
pub struct SumDist {
    pub data: Vec<Weight>,
}

impl View for SumDist {
    type V = Seq<Weight>;

    open spec fn view(&self) -> Seq<Weight> {
        self.data@
    }
}

/// A window of not-a-number markers: the poisoned result of a combination
/// that had no usable scale.
pub open spec fn poison(len: nat) -> Seq<Weight> {
    Seq::new(len, |i: int| w_invalid())
}

/// One term of a circular-convolution entry.
pub open spec fn conv_term(a: Seq<Weight>, b: Seq<Weight>, t: int, u: int) -> Weight {
    w_mul(a[u], b[(t - u) % (a.len() as int)])
}

/// The first `u` terms of entry `t` of the circular convolution.
pub open spec fn conv_partial(a: Seq<Weight>, b: Seq<Weight>, t: int, u: int) -> Weight
    decreases u,
{
    if u <= 0 {
        w_zero()
    } else {
        w_add(conv_partial(a, b, t, u - 1), conv_term(a, b, t, u - 1))
    }
}

/// Entry `t` of the circular convolution of two equal-length windows.
pub open spec fn conv_at(a: Seq<Weight>, b: Seq<Weight>, t: int) -> Weight {
    conv_partial(a, b, t, a.len() as int)
}

/// The circular convolution of two equal-length windows.
pub open spec fn conv_seq(a: Seq<Weight>, b: Seq<Weight>) -> Seq<Weight> {
    Seq::new(a.len(), |t: int| conv_at(a, b, t))
}

/// The check node's combination step: convolve, then renormalize by the
/// entry of greatest magnitude; poison the window when the lengths differ
/// or no scale exists.
pub open spec fn conv_norm(a: Seq<Weight>, b: Seq<Weight>) -> Seq<Weight> {
    if a.len() != b.len() || a.len() == 0 {
        poison(a.len())
    } else {
        let c = conv_seq(a, b);
        if normalize_fails(c) {
            poison(a.len())
        } else {
            normalize_seq(c)
        }
    }
}

/// The re-centered window: slot `j` shows the weight of sum value
/// `j - N/2`, so the zero sum sits at the midpoint.
pub open spec fn recenter_seq(s: Seq<Weight>) -> Seq<Weight> {
    Seq::new(s.len(), |j: int| s[(j + s.len() / 2) % (s.len() as int)])
}

/// The slot of a scaled value in a window of `n` slots.
pub open spec fn slot_of(scalar: int, v: int, n: int) -> int {
    (scalar * v) % n
}

/// The window after spreading the first `j` entries of a message: entry
/// `j - 1` holds the weight of value `j - 1 - D/2`, added into the slot of
/// its scaled value.
pub open spec fn spread_rec(msg: Seq<Weight>, scalar: int, n: nat, j: int) -> Seq<Weight>
    decreases j,
{
    if j <= 0 {
        Seq::new(n, |i: int| w_zero())
    } else {
        let prev = spread_rec(msg, scalar, n, j - 1);
        let t = slot_of(scalar, j - 1 - msg.len() / 2, n as int);
        prev.update(t, w_add(prev[t], msg[j - 1]))
    }
}

/// The whole message spread into a window of `n` slots with its values
/// scaled by `scalar`.
pub open spec fn spread(msg: Seq<Weight>, scalar: int, n: nat) -> Seq<Weight> {
    spread_rec(msg, scalar, n, msg.len() as int)
}

/// Wrapping a value already inside `(-n, n)` into `[0, n)`.
proof fn lemma_wrap_small(x: int, n: int)
    requires
        n > 0,
        -n <= x < n,
    ensures
        x % n == if x >= 0 {
            x
        } else {
            x + n
        },
{
    if x >= 0 {
        lemma_small_mod(x as nat, n as nat);
    } else {
        lemma_mod_add_multiples_vanish(x, n);
        lemma_small_mod((x + n) as nat, n as nat);
    }
}

/// Wrapping a value in `[n, 2n)` into `[0, n)`.
proof fn lemma_wrap_high(x: int, n: int)
    requires
        n > 0,
        n <= x < n + n,
    ensures
        x % n == x - n,
{
    lemma_mod_add_multiples_vanish(x - n, n);
    lemma_small_mod((x - n) as nat, n as nat);
}

/// The remainder of a negative value, from the remainder of its negation.
proof fn lemma_wrap_neg(x: int, n: int)
    requires
        n > 0,
        x < 0,
    ensures
        x % n == if (-x) % n == 0 {
            0int
        } else {
            n - ((-x) % n)
        },
{
    let y = -x;
    let q = y / n;
    let r = y % n;
    lemma_fundamental_div_mod(y, n);
    vstd::arithmetic::mul::lemma_mul_unary_negation(n, q);
    assert(x == n * (-q) + (-r));
    lemma_mod_multiples_vanish(-q, -r, n);
    assert(x % n == (-r) % n);
    if r == 0 {
        lemma_small_mod(0nat, n as nat);
    } else {
        lemma_wrap_small(-r, n);
    }
}

/// A coefficient-sized factor times a window-index-sized factor stays
/// inside `i128`.
pub(crate) proof fn lemma_scale_fits(x: int, y: int)
    by (nonlinear_arith)
    requires
        -0x8000_0000_0000_0000 <= x <= 0x7fff_ffff_ffff_ffff,
        -0xffff_ffff_ffff_ffff <= y <= 0xffff_ffff_ffff_ffff,
    ensures
        -(0x8000_0000_0000_0000_0000_0000_0000_0000 - 0x8000_0000_0000_0000) <= x * y,
        x * y <= 0x7fff_ffff_ffff_ffff_ffff_ffff_ffff_ffff,
{
}

impl SumDist {
    /// A window holding the given weights.
    pub fn from_data(data: Vec<Weight>) -> (r: SumDist)
        ensures
            r@ == data@,
    {
        SumDist { data }
    }

    /// The window of one neighbor's message with its values scaled by the
    /// neighbor's coefficient: each `(v, w)` pair of the message adds `w`
    /// at slot `coeff·v mod n`.
    pub fn from_scaled(msg: &CheckMsg, scalar: i64, size: usize) -> (r: SumDist)
        requires
            size >= 1,
        ensures
            r@ == spread(msg@, scalar as int, size as nat),
    {
        let d = msg.len();
        let half: usize = d / 2;
        let mut data: Vec<Weight> = Vec::new();
        let mut i: usize = 0;
        while i < size
            invariant
                0 <= i <= size,
                data@.len() == i,
                forall|t: int| 0 <= t < i ==> data@[t] == w_zero(),
            decreases size - i,
        {
            data.push(Weight { num: 0, den: 1 });
            i += 1;
        }
        proof {
            assert(data@ =~= spread_rec(msg@, scalar as int, size as nat, 0));
        }
        let mut j: usize = 0;
        while j < d
            invariant
                0 <= j <= d,
                d == msg@.len(),
                half == d / 2,
                size >= 1,
                data@.len() == size,
                data@ == spread_rec(msg@, scalar as int, size as nat, j as int),
            decreases d - j,
        {
            let v: i128 = (j as i128) - (half as i128);
            proof {
                lemma_scale_fits(scalar as int, v as int);
            }
            let prod: i128 = (scalar as i128) * v;
            let nw: u128 = size as u128;
            let slot: usize = if prod >= 0 {
                proof {
                    vstd::arithmetic::div_mod::lemma_mod_bound(prod as int, size as int);
                }
                ((prod as u128) % nw) as usize
            } else {
                let m: u128 = ((-prod) as u128) % nw;
                proof {
                    vstd::arithmetic::div_mod::lemma_mod_bound(-(prod as int), size as int);
                    lemma_wrap_neg(prod as int, size as int);
                }
                if m == 0 {
                    0
                } else {
                    (nw - m) as usize
                }
            };
            proof {
                assert(slot == slot_of(scalar as int, j - half, size as int));
            }
            let w = msg.data[j];
            let updated = data[slot].plus(&w);
            data[slot] = updated;
            proof {
                assert(data@ =~= spread_rec(msg@, scalar as int, size as nat, j as int + 1));
            }
            j += 1;
        }
        SumDist { data }
    }

    /// The re-centered window, with the zero sum at the midpoint.
    pub fn recenter(&self) -> (r: Vec<Weight>)
        requires
            self@.len() >= 1,
        ensures
            r@ == recenter_seq(self@),
    {
        let n = self.data.len();
        let half: usize = n / 2;
        let mut r: Vec<Weight> = Vec::new();
        let mut j: usize = 0;
        while j < n
            invariant
                0 <= j <= n,
                n == self@.len(),
                half == n / 2,
                r@.len() == j,
                forall|i: int| 0 <= i < j ==> r@[i] == self@[(i + n / 2) % (n as int)],
            decreases n - j,
        {
            let idx: usize = if j < n - half {
                proof {
                    lemma_wrap_small(j + half, n as int);
                }
                j + half
            } else {
                proof {
                    lemma_wrap_high(j as int + half, n as int);
                }
                j - (n - half)
            };
            r.push(self.data[idx]);
            j += 1;
        }
        proof {
            assert(r@ =~= recenter_seq(self@));
        }
        r
    }
}

/// The check node combines windows by renormalized circular convolution.
impl Combine for SumDist {
    open spec fn sop(a: Seq<Weight>, b: Seq<Weight>) -> Seq<Weight> {
        conv_norm(a, b)
    }

    fn combine(&self, other: &Self) -> (r: Self)
        ensures
            r@ == conv_norm(self@, other@),
    {
        let n = self.data.len();
        if n != other.data.len() || n == 0 {
            let mut data: Vec<Weight> = Vec::new();
            let mut i: usize = 0;
            while i < n
                invariant
                    0 <= i <= n,
                    data@.len() == i,
                    forall|t: int| 0 <= t < i ==> data@[t] == w_invalid(),
                decreases n - i,
            {
                data.push(Weight { num: 0, den: 0 });
                i += 1;
            }
            proof {
                assert(data@ =~= poison(self@.len()));
            }
            return SumDist { data };
        }
        let mut conv: Vec<Weight> = Vec::new();
        let mut t: usize = 0;
        while t < n
            invariant
                0 <= t <= n,
                n == self@.len(),
                n == other@.len(),
                n >= 1,
                conv@.len() == t,
                forall|s: int| 0 <= s < t ==> conv@[s] == conv_at(self@, other@, s),
            decreases n - t,
        {
            let mut acc = Weight { num: 0, den: 1 };
            let mut u: usize = 0;
            while u < n
                invariant
                    0 <= u <= n,
                    0 <= t < n,
                    n == self@.len(),
                    n == other@.len(),
                    acc == conv_partial(self@, other@, t as int, u as int),
                decreases n - u,
            {
                let idx: usize = if t >= u {
                    proof {
                        lemma_wrap_small(t - u, n as int);
                    }
                    t - u
                } else {
                    proof {
                        lemma_wrap_small(t as int - u as int, n as int);
                    }
                    n - (u - t)
                };
                let term = self.data[u].times(&other.data[idx]);
                acc = acc.plus(&term);
                u += 1;
            }
            conv.push(acc);
            t += 1;
        }
        proof {
            assert(conv@ =~= conv_seq(self@, other@));
        }
        let ghost raw = conv@;
        if crate::weight::normalize_entries(&mut conv) {
            proof {
                assert(conv@ == normalize_seq(raw));
                assert(conv@ == conv_norm(self@, other@));
            }
            SumDist { data: conv }
        } else {
            let mut data: Vec<Weight> = Vec::new();
            let mut i: usize = 0;
            while i < n
                invariant
                    0 <= i <= n,
                    data@.len() == i,
                    forall|t2: int| 0 <= t2 < i ==> data@[t2] == w_invalid(),
                decreases n - i,
            {
                data.push(Weight { num: 0, den: 0 });
                i += 1;
            }
            proof {
                assert(data@ =~= poison(self@.len()));
            }
            SumDist { data }
        }
    }

    fn dup(&self) -> (r: Self)
        ensures
            r@ == self@,
    {
        SumDist { data: copy_entries(&self.data) }
    }
}

/// A spread window always has `n` slots.
pub proof fn lemma_spread_rec_len(msg: Seq<Weight>, scalar: int, n: nat, j: int)
    requires
        n >= 1,
    ensures
        spread_rec(msg, scalar, n, j).len() == n,
    decreases j,
{
    if j > 0 {
        lemma_spread_rec_len(msg, scalar, n, j - 1);
        vstd::arithmetic::div_mod::lemma_mod_bound(
            scalar * (j - 1 - msg.len() / 2),
            n as int,
        );
    }
}

/// Combining windows of `n` slots yields a window of `n` slots, so the
/// engine's prefix folds keep the window length.
pub proof fn lemma_prefix_fold_len(s: Seq<Seq<Weight>>, n: nat, i: int)
    requires
        forall|j: int| 0 <= j < s.len() ==> (#[trigger] s[j]).len() == n,
        1 <= i <= s.len(),
    ensures
        crate::bin_tree::prefix_fold::<SumDist>(s, i).len() == n,
    decreases i,
{
    if i > 1 {
        lemma_prefix_fold_len(s, n, i - 1);
    }
}

/// As `lemma_prefix_fold_len`, for the suffix folds.
pub proof fn lemma_suffix_fold_len(s: Seq<Seq<Weight>>, n: nat, i: int)
    requires
        forall|j: int| 0 <= j < s.len() ==> (#[trigger] s[j]).len() == n,
        0 <= i < s.len(),
    ensures
        crate::bin_tree::suffix_fold::<SumDist>(s, i).len() == n,
    decreases s.len() - i,
{
    if i < s.len() - 1 {
        lemma_suffix_fold_len(s, n, i + 1);
    }
}

/// The engine's leave-one-out combination of `n`-slot windows is an
/// `n`-slot window.
pub proof fn lemma_llo_len(s: Seq<Seq<Weight>>, n: nat, i: int)
    requires
        forall|j: int| 0 <= j < s.len() ==> (#[trigger] s[j]).len() == n,
        s.len() >= 2,
        0 <= i < s.len(),
    ensures
        crate::bin_tree::llo_at::<SumDist>(s, i).len() == n,
{
    if i == 0 {
        lemma_suffix_fold_len(s, n, 1);
    } else if i == s.len() - 1 {
        lemma_prefix_fold_len(s, n, i);
    } else {
        lemma_prefix_fold_len(s, n, i);
        lemma_suffix_fold_len(s, n, i + 1);
    }
}

} // verus!
