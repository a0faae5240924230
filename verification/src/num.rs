//! Exact decimal numbers.
//!
//! The language stores every numeric literal as a decimal fraction
//! `mant / 10^scale` with an explicit sign.  Compile-time folding is exact:
//! where a result cannot be represented (the mantissa would overflow, or the
//! scale would pass [`MAX_SCALE`]), folding is declined rather than rounded.

use vstd::prelude::*;

use vstd::arithmetic::mul::{
    lemma_mul_by_zero_is_zero, lemma_mul_strictly_positive, lemma_mul_unary_negation,
};
use vstd::arithmetic::power2::{
    lemma2_to64, lemma2_to64_rest, lemma_pow2_adds, lemma_pow2_pos, pow2,
};
use vstd::layout::unsigned_int_max_values;

verus! {

/// Largest number of fractional digits a decimal may carry.
pub const MAX_SCALE: u32 = 18;

/// A signed decimal fraction: `mant / 10^scale`, negative when `neg` is set.
#[derive(Clone, Copy, PartialEq, Eq, Structural, Debug)]
pub struct Decimal {
    pub neg: bool,
    pub mant: u64,
    pub scale: u32,
}

/// `10^e`.
pub open spec fn pow10(e: nat) -> nat
    decreases e,
{
    if e == 0 {
        1
    } else {
        10 * pow10((e - 1) as nat)
    }
}

/// `10^e` is positive.
pub proof fn lemma_pow10_pos(e: nat)
    ensures
        0 < pow10(e),
    decreases e,
{
    if e > 0 {
        lemma_pow10_pos((e - 1) as nat);
    }
}

/// `10^e` grows with `e`.
pub proof fn lemma_pow10_mono(e1: nat, e2: nat)
    requires
        e1 <= e2,
    ensures
        pow10(e1) <= pow10(e2),
    decreases e2 - e1,
{
    lemma_pow10_pos(e1);
    if e1 < e2 {
        lemma_pow10_mono(e1, (e2 - 1) as nat);
    }
}

/// The concrete sizes of the powers of ten at the edge of the scale range.
pub proof fn lemma_pow10_vals()
    ensures
        pow10(18) == 1_000_000_000_000_000_000,
        pow10(19) == 10_000_000_000_000_000_000,
{
    reveal_with_fuel(pow10, 20);
}

/// `10^e`, executable for small exponents.
pub fn pow10_u64(e: u32) -> (r: u64)
    requires
        e <= 19,
    ensures
        r == pow10(e as nat),
{
    let mut r: u64 = 1;
    let mut i: u32 = 0;
    while i < e
        invariant
            i <= e <= 19,
            r == pow10(i as nat),
        decreases e - i,
    {
        proof {
            lemma_pow10_vals();
            lemma_pow10_mono(i as nat + 1, 19);
        }
        r = r * 10;
        i += 1;
    }
    r
}

impl Decimal {
    /// A decimal is well formed when its scale is in range, its fraction is
    /// fully reduced with respect to powers of ten, and zero is written one
    /// way only.
    pub open spec fn wf(self) -> bool {
        &&& self.scale <= MAX_SCALE
        &&& (self.scale > 0 ==> self.mant % 10 != 0)
        &&& (self.mant == 0 ==> !self.neg && self.scale == 0)
    }

    /// The signed numerator of the fraction.
    pub open spec fn num(self) -> int {
        if self.neg {
            -(self.mant as int)
        } else {
            self.mant as int
        }
    }

    /// The value of the decimal, as the integer numerator it would have over
    /// the common denominator `10^MAX_SCALE`.  Total: a scale beyond the
    /// range counts as `MAX_SCALE`.
    pub open spec fn val(self) -> int {
        self.num() * pow10(if self.scale <= MAX_SCALE {
            (MAX_SCALE - self.scale) as nat
        } else {
            0
        })
    }

    /// The decimal zero.
    pub fn zero() -> (d: Decimal)
        ensures
            d.wf(),
            d.val() == 0,
    {
        Decimal { neg: false, mant: 0, scale: 0 }
    }

    /// The decimal for a whole number that fits a machine word.
    pub fn from_usize(n: usize) -> (d: Decimal)
        ensures
            d.wf(),
            d.val() == n * pow10(MAX_SCALE as nat),
            d.neg == false,
            d.mant == n,
            d.scale == 0,
    {
        Decimal { neg: false, mant: n as u64, scale: 0 }
    }

    /// Is the value nonzero?  This is the boolean meaning of a number in the
    /// source language.
    pub fn is_nonzero(&self) -> (r: bool)
        ensures
            r == (self.val() != 0),
    {
        proof {
            lemma_val_decomp(*self);
        }
        self.mant > 0
    }
}

/// The value of a decimal is its magnitude over the common denominator,
/// negated where the sign says so; the magnitude vanishes with the mantissa.
pub proof fn lemma_val_decomp(d: Decimal)
    ensures
        ({
            let e = if d.scale <= MAX_SCALE {
                (MAX_SCALE - d.scale) as nat
            } else {
                0
            };
            let m = (d.mant * pow10(e)) as int;
            &&& d.val() == if d.neg {
                -m
            } else {
                m
            }
            &&& m >= 0
            &&& (d.mant > 0 <==> m > 0)
        }),
{
    let e = if d.scale <= MAX_SCALE {
        (MAX_SCALE - d.scale) as nat
    } else {
        0
    };
    lemma_pow10_pos(e);
    if d.neg {
        lemma_mul_unary_negation(d.mant as int, pow10(e) as int);
    }
    if d.mant > 0 {
        lemma_mul_strictly_positive(d.mant as int, pow10(e) as int);
    } else {
        lemma_mul_by_zero_is_zero(pow10(e) as int);
    }
}

/// The magnitude of an in-range decimal stays well under the width of the
/// wide words the arithmetic uses.
pub proof fn lemma_magnitude_bound(mant: u64, e: nat)
    requires
        e <= MAX_SCALE,
    ensures
        mant * pow10(e) < pow2(124),
        pow2(124) + pow2(124) <= u128::MAX,
        u64::MAX < pow2(124),
{
    vstd::arithmetic::power2::lemma_pow2_strictly_increases(64, 124);
    lemma2_to64();
    lemma2_to64_rest();
    lemma_pow10_vals();
    lemma_pow10_mono(e, 18);
    lemma_pow10_pos(e);
    unsigned_int_max_values();
    let a = pow2(64) as int;
    let b = pow2(60) as int;
    assert(pow10(e) < b);
    assert((mant as int) < a);
    assert(mant * pow10(e) < a * b) by (nonlinear_arith)
        requires
            (mant as int) >= 0,
            (mant as int) < a,
            (pow10(e) as int) > 0,
            (pow10(e) as int) < b,
    ;
    lemma_pow2_adds(64, 60);
    lemma_pow2_adds(124, 4);
    lemma_pow2_pos(124);
    assert(pow2(4) == 16);
    assert(pow2(128) == pow2(124) * 16);
    assert(u128::MAX == pow2(128) - 1);
}

/// The magnitude of a decimal brought to the common denominator, as wide
/// unsigned arithmetic.
pub fn magnitude(d: &Decimal) -> (m: u128)
    requires
        d.scale <= MAX_SCALE,
    ensures
        m == d.mant * pow10((MAX_SCALE - d.scale) as nat),
        d.val() == if d.neg {
            -(m as int)
        } else {
            m as int
        },
        d.mant > 0 <==> m > 0,
        m < pow2(124),
        pow2(124) + pow2(124) <= u128::MAX,
{
    let p = pow10_u64(MAX_SCALE - d.scale);
    proof {
        lemma_val_decomp(*d);
        lemma_magnitude_bound(d.mant, (MAX_SCALE - d.scale) as nat);
    }
    (d.mant as u128) * (p as u128)
}

/// Strips factors of ten from a magnitude/scale pair: the reduced pair.
pub open spec fn reduce(m: nat, s: nat) -> (nat, nat)
    decreases s,
{
    if s > 0 && m % 10 == 0 {
        reduce(m / 10, (s - 1) as nat)
    } else {
        (m, s)
    }
}

/// Reduction keeps the represented value: `m / 10^s` is unchanged.
pub proof fn lemma_reduce_val(m: nat, s: nat)
    requires
        s <= MAX_SCALE,
    ensures
        reduce(m, s).1 <= s,
        reduce(m, s).0 * pow10((MAX_SCALE - reduce(m, s).1) as nat) == m * pow10(
            (MAX_SCALE - s) as nat,
        ),
        m == 0 ==> reduce(m, s) == (0nat, 0nat),
        reduce(m, s).1 > 0 ==> reduce(m, s).0 % 10 != 0,
    decreases s,
{
    if s > 0 && m % 10 == 0 {
        lemma_reduce_val(m / 10, (s - 1) as nat);
        assert(pow10((MAX_SCALE - (s - 1)) as nat) == 10 * pow10((MAX_SCALE - s) as nat));
        assert(m == 10 * (m / 10));
        assert((m / 10) * (10 * pow10((MAX_SCALE - s) as nat)) == (10 * (m / 10)) * pow10(
            (MAX_SCALE - s) as nat,
        )) by (nonlinear_arith);
    }
}

/// Builds the reduced, well-formed decimal for a signed magnitude over
/// `10^MAX_SCALE`, where it fits a mantissa word.
pub fn build_reduced(neg: bool, m: u128) -> (r: Option<Decimal>)
    ensures
        match r {
            Some(d) => {
                &&& d.wf()
                &&& d == spec_canon(neg, m as nat)
                &&& d.val() == if neg {
                    -(m as int)
                } else {
                    m as int
                }
                &&& reduce(m as nat, MAX_SCALE as nat).0 <= u64::MAX
            },
            None => reduce(m as nat, MAX_SCALE as nat).0 > u64::MAX,
        },
{
    let mut mm: u128 = m;
    let mut s: u32 = MAX_SCALE;
    proof {
        assert(pow10((MAX_SCALE - MAX_SCALE) as nat) == 1);
    }
    while s > 0 && mm % 10 == 0
        invariant
            s <= MAX_SCALE,
            reduce(mm as nat, s as nat) == reduce(m as nat, MAX_SCALE as nat),
            mm as nat * pow10((MAX_SCALE - s) as nat) == m as nat,
        decreases s,
    {
        proof {
            assert(pow10((MAX_SCALE - (s - 1)) as nat) == 10 * pow10((MAX_SCALE - s) as nat));
            assert((mm as nat / 10) * (10 * pow10((MAX_SCALE - s) as nat)) == (10 * (mm as nat
                / 10)) * pow10((MAX_SCALE - s) as nat)) by (nonlinear_arith);
        }
        mm = mm / 10;
        s = s - 1;
    }
    proof {
        lemma_reduce_val(m as nat, MAX_SCALE as nat);
    }
    if mm > u64::MAX as u128 {
        return None;
    }
    let neg_out = if mm == 0 {
        false
    } else {
        neg
    };
    let s_out = if mm == 0 {
        0
    } else {
        s
    };
    let d = Decimal { neg: neg_out, mant: mm as u64, scale: s_out };
    proof {
        if mm != 0 && neg {
            lemma_mul_unary_negation(mm as int, pow10((MAX_SCALE - s) as nat) as int);
        }
    }
    Some(d)
}

/// The canonical decimal for a signed magnitude over `10^MAX_SCALE`,
/// meaningful where the reduced magnitude fits a mantissa word.
pub open spec fn spec_canon(neg: bool, m: nat) -> Decimal {
    let r = reduce(m, MAX_SCALE as nat);
    Decimal {
        neg: if r.0 == 0 {
            false
        } else {
            neg
        },
        mant: r.0 as u64,
        scale: r.1 as u32,
    }
}

/// The exact sum of two decimals, canonically represented; `None` where the
/// reduced mantissa would not fit a word.
pub open spec fn add_vals(a: Decimal, b: Decimal) -> Option<Decimal> {
    if reduce(abs_sum(a, b), MAX_SCALE as nat).0 <= u64::MAX {
        Some(spec_canon(a.val() + b.val() < 0, abs_sum(a, b)))
    } else {
        None
    }
}

/// The same value with the scale clamped into range; the value is unchanged
/// because an out-of-range scale already counts as the largest one.
pub fn dec_clamp(a: &Decimal) -> (r: Decimal)
    ensures
        r.val() == a.val(),
        r.scale == if a.scale <= MAX_SCALE {
            a.scale
        } else {
            MAX_SCALE
        },
        r.neg == a.neg,
        r.mant == a.mant,
{
    if a.scale > MAX_SCALE {
        Decimal { neg: a.neg, mant: a.mant, scale: MAX_SCALE }
    } else {
        *a
    }
}

/// The canonical decimal of a signed magnitude has that very value, where
/// the reduced mantissa fits.
pub proof fn lemma_canon_val(neg: bool, m: nat)
    requires
        reduce(m, MAX_SCALE as nat).0 <= u64::MAX,
    ensures
        spec_canon(neg, m).wf(),
        spec_canon(neg, m).val() == if neg {
            -(m as int)
        } else {
            m as int
        },
{
    lemma_reduce_val(m, MAX_SCALE as nat);
    let d = spec_canon(neg, m);
    let r = reduce(m, MAX_SCALE as nat);
    assert(pow10(0) == 1);
    vstd::arithmetic::mul::lemma_mul_basics(m as int);
    assert(r.0 * pow10((MAX_SCALE - r.1) as nat) == m);
    if d.neg {
        lemma_mul_unary_negation(d.mant as int, pow10((MAX_SCALE - d.scale) as nat) as int);
    }
}

/// The negated decimal: zero keeps its canonical form.
pub open spec fn dec_neg_spec(d: Decimal) -> Decimal {
    if d.mant == 0 {
        Decimal { neg: false, mant: 0, scale: d.scale }
    } else {
        Decimal { neg: !d.neg, mant: d.mant, scale: d.scale }
    }
}

/// Negation flips the value.
pub proof fn lemma_dec_neg_val(d: Decimal)
    ensures
        dec_neg_spec(d).val() == -d.val(),
{
    lemma_val_decomp(d);
    lemma_val_decomp(dec_neg_spec(d));
}

/// The exact difference of two decimals, canonically represented.
pub open spec fn sub_vals(a: Decimal, b: Decimal) -> Option<Decimal> {
    add_vals(a, dec_neg_spec(b))
}

/// Subtracts two decimals exactly; `None` where the reduced result does not
/// fit a mantissa word.
pub fn dec_sub(a: &Decimal, b: &Decimal) -> (r: Option<Decimal>)
    ensures
        r == sub_vals(*a, *b),
        match r {
            Some(d) => d.wf() && d.val() == a.val() - b.val(),
            None => true,
        },
{
    let nb = dec_neg(b);
    proof {
        lemma_dec_neg_val(*b);
        assert(nb == dec_neg_spec(*b));
    }
    dec_add(a, &nb)
}

/// Outcome of a three-way comparison.
#[derive(Clone, Copy, PartialEq, Eq, Structural, Debug)]
pub enum Cmp {
    Less,
    Equal,
    Greater,
}

/// Compares two decimals by value.
pub fn dec_cmp(a: &Decimal, b: &Decimal) -> (r: Cmp)
    ensures
        r == (if a.val() < b.val() {
            Cmp::Less
        } else if a.val() == b.val() {
            Cmp::Equal
        } else {
            Cmp::Greater
        }),
{
    let ac = dec_clamp(a);
    let bc = dec_clamp(b);
    let a = &ac;
    let b = &bc;
    let ma = magnitude(a);
    let mb = magnitude(b);
    let va_neg = a.neg && ma > 0;
    let vb_neg = b.neg && mb > 0;
    let c = if va_neg && !vb_neg {
        Cmp::Less
    } else if !va_neg && vb_neg {
        Cmp::Greater
    } else if !va_neg && !vb_neg {
        if ma < mb {
            Cmp::Less
        } else if ma == mb {
            Cmp::Equal
        } else {
            Cmp::Greater
        }
    } else {
        if ma < mb {
            Cmp::Greater
        } else if ma == mb {
            Cmp::Equal
        } else {
            Cmp::Less
        }
    };
    c
}

/// The magnitude of the sum of two in-range decimals, over the common
/// denominator.
pub open spec fn abs_sum(a: Decimal, b: Decimal) -> nat {
    if a.val() + b.val() >= 0 {
        (a.val() + b.val()) as nat
    } else {
        (-(a.val() + b.val())) as nat
    }
}

/// Adds two decimals exactly; `None` where the reduced result does not fit
/// a mantissa word.
pub fn dec_add(a: &Decimal, b: &Decimal) -> (r: Option<Decimal>)
    ensures
        r == add_vals(*a, *b),
        match r {
            Some(d) => d.wf() && d.val() == a.val() + b.val(),
            None => reduce(abs_sum(*a, *b), MAX_SCALE as nat).0 > u64::MAX,
        },
{
    let ghost a0 = *a;
    let ghost b0 = *b;
    let ac = dec_clamp(a);
    let bc = dec_clamp(b);
    let a = &ac;
    let b = &bc;
    proof {
        assert(abs_sum(ac, bc) == abs_sum(a0, b0));
    }
    let ma = magnitude(a);
    let mb = magnitude(b);
    let (neg, m) = if a.neg == b.neg {
        (a.neg, ma + mb)
    } else if ma >= mb {
        (a.neg, ma - mb)
    } else {
        (b.neg, mb - ma)
    };
    proof {
        assert(m == abs_sum(*a, *b));
        assert(a.val() + b.val() == if neg {
            -(m as int)
        } else {
            m as int
        });
    }
    let r = build_reduced(neg, m);
    proof {
        match r {
            Some(d) => {
                assert(d == spec_canon(neg, m as nat));
                if !(neg == (a0.val() + b0.val() < 0)) {
                    assert(m == 0 || (a0.val() + b0.val() == 0 && neg));
                    lemma_reduce_val(0nat, MAX_SCALE as nat);
                    assert(spec_canon(neg, m as nat) == spec_canon(
                        a0.val() + b0.val() < 0,
                        m as nat,
                    ));
                }
            },
            None => {},
        }
    }
    r
}

/// The same decimal with its sign turned around; zero stays zero.
pub fn dec_neg(a: &Decimal) -> (r: Decimal)
    ensures
        r == dec_neg_spec(*a),
        r.val() == -a.val(),
        a.wf() ==> r.wf(),
        r.scale == a.scale,
{
    let r = if a.mant == 0 {
        Decimal { neg: false, mant: 0, scale: a.scale }
    } else {
        Decimal { neg: !a.neg, mant: a.mant, scale: a.scale }
    };
    proof {
        lemma_val_decomp(*a);
        lemma_val_decomp(r);
    }
    r
}

/// The whole-number part of a decimal, truncated toward zero: its sign and
/// magnitude.
pub open spec fn spec_trunc(a: Decimal) -> (bool, nat) {
    let s = if a.scale <= MAX_SCALE {
        a.scale as nat
    } else {
        MAX_SCALE as nat
    };
    (a.neg, a.mant as nat / pow10(s))
}

/// Truncates a decimal toward zero: its sign and whole-number magnitude.
pub fn dec_trunc(a: &Decimal) -> (r: (bool, u64))
    ensures
        (r.0, r.1 as nat) == spec_trunc(*a),
{
    let ac = dec_clamp(a);
    let p = pow10_u64(ac.scale);
    proof {
        lemma_pow10_pos(ac.scale as nat);
        assert(ac.scale as nat == if a.scale <= MAX_SCALE {
            a.scale as nat
        } else {
            MAX_SCALE as nat
        });
        assert(spec_trunc(*a).1 == ac.mant as nat / pow10(ac.scale as nat));
    }
    (ac.neg, ac.mant / p)
}

} // verus!
