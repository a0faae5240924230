//! Reading and writing decimal numbers as text.

use vstd::prelude::*;

use crate::num::{
    build_reduced, lemma_pow10_pos, lemma_pow10_vals, lemma_val_decomp, pow10, pow10_u64, Decimal,
    MAX_SCALE,
};

verus! {

/// The digit character for one decimal digit.
pub open spec fn digit_char(d: nat) -> char {
    ((48 + d) as u8) as char
}

/// The decimal digits of a whole number, most significant first.
pub open spec fn digits_of(n: nat) -> Seq<char>
    decreases n,
{
    if n < 10 {
        seq![digit_char(n)]
    } else {
        digits_of(n / 10).push(digit_char(n % 10))
    }
}

/// Is this a decimal digit character?
pub open spec fn is_digit(c: char) -> bool {
    48 <= c as u32 <= 57
}

/// The numeric value of one digit character.
pub open spec fn digit_val(c: char) -> nat {
    (c as u32 - 48) as nat
}

/// The whole number a digit string denotes, read left to right.
pub open spec fn digits_val(s: Seq<char>) -> nat
    decreases s.len(),
{
    if s.len() == 0 {
        0
    } else {
        digits_val(s.drop_last()) * 10 + digit_val(s.last())
    }
}

/// Every character of the string is a digit.
pub open spec fn all_digits(s: Seq<char>) -> bool {
    forall|i: int| 0 <= i < s.len() ==> is_digit(s[i])
}

/// The digit characters of a whole number.
pub fn u64_digits(n: u64) -> (r: Vec<char>)
    ensures
        r@ == digits_of(n as nat),
        r@.len() >= 1,
    decreases n,
{
    if n < 10 {
        let mut r: Vec<char> = Vec::new();
        r.push((48 + (n as u8)) as char);
        proof {
            assert(r@ =~= digits_of(n as nat));
        }
        r
    } else {
        let mut r = u64_digits(n / 10);
        r.push((48 + ((n % 10) as u8)) as char);
        r
    }
}

/// Splits a numeric text at its first point character: the whole-number
/// digits and the fraction digits.
pub open spec fn split_at_dot(t: Seq<char>) -> (Seq<char>, Seq<char>)
    decreases t.len(),
{
    if t.len() == 0 {
        (Seq::empty(), Seq::empty())
    } else if t[0] == '.' {
        (Seq::empty(), t.drop_first())
    } else {
        let rest = split_at_dot(t.drop_first());
        (seq![t[0]] + rest.0, rest.1)
    }
}

/// The sign of a numeric text and the text after the sign.
pub open spec fn strip_sign(t: Seq<char>) -> (bool, Seq<char>) {
    if t.len() > 0 && t[0] == '-' {
        (true, t.drop_first())
    } else {
        (false, t)
    }
}

/// Is the text a numeric literal: an optional minus, whole-number digits,
/// and an optional fraction, all digits?
pub open spec fn num_shape(t: Seq<char>) -> bool {
    let (_, u) = strip_sign(t);
    let (ip, fp) = split_at_dot(u);
    ip.len() > 0 && all_digits(ip) && all_digits(fp)
}

/// The mantissa a numeric text denotes when its fraction digits are kept:
/// whole part and fraction read together as one whole number.
pub open spec fn combined_mant(t: Seq<char>) -> nat {
    let (_, u) = strip_sign(t);
    let (ip, fp) = split_at_dot(u);
    digits_val(ip) * pow10(fp.len()) + digits_val(fp)
}

/// The exact value a numeric text denotes, over the common denominator
/// `10^MAX_SCALE`; fractions longer than the scale range give zero.
pub open spec fn num_text_val(t: Seq<char>) -> int {
    let (neg, u) = strip_sign(t);
    let (_, fp) = split_at_dot(u);
    if fp.len() <= MAX_SCALE {
        let m = combined_mant(t) * pow10((MAX_SCALE - fp.len()) as nat);
        if neg {
            -(m as int)
        } else {
            m as int
        }
    } else {
        0
    }
}

/// A digit string's value grows (weakly) as digits are appended.
proof fn lemma_digits_val_prefix_le(s: Seq<char>, i: int)
    requires
        0 <= i <= s.len(),
    ensures
        digits_val(s.take(i)) <= digits_val(s),
    decreases s.len() - i,
{
    if i < s.len() {
        lemma_digits_val_prefix_le(s, i + 1);
        assert(s.take(i + 1).drop_last() =~= s.take(i));
        assert(digits_val(s.take(i)) <= digits_val(s.take(i + 1)));
    } else {
        assert(s.take(i) =~= s);
    }
}

/// Reads a digit string as a whole number; `None` where a character is not a
/// digit or the value would not fit a mantissa word.
fn parse_digits(t: &Vec<char>, from: usize, to: usize) -> (r: Option<u64>)
    requires
        from <= to <= t@.len(),
    ensures
        match r {
            Some(m) => all_digits(t@.subrange(from as int, to as int)) && m == digits_val(
                t@.subrange(from as int, to as int),
            ),
            None => !all_digits(t@.subrange(from as int, to as int)) || digits_val(
                t@.subrange(from as int, to as int),
            ) > u64::MAX,
        },
{
    let ghost whole = t@.subrange(from as int, to as int);
    let mut m: u64 = 0;
    let mut i: usize = from;
    while i < to
        invariant
            from <= i <= to <= t@.len(),
            whole == t@.subrange(from as int, to as int),
            all_digits(whole.take(i - from)),
            m == digits_val(whole.take(i - from)),
        decreases to - i,
    {
        let c = t[i];
        let code = c as u32;
        if code < 48 || code > 57 {
            proof {
                assert(whole[i - from] == c);
            }
            return None;
        }
        let d = (code - 48) as u64;
        if m > (u64::MAX - d) / 10 {
            proof {
                assert(whole.take(i - from + 1).drop_last() =~= whole.take(i - from));
                assert(digits_val(whole.take(i - from + 1)) == m * 10 + d);
                lemma_digits_val_prefix_le(whole, i - from + 1);
            }
            return None;
        }
        m = m * 10 + d;
        i += 1;
        proof {
            assert(whole.take(i - from).drop_last() =~= whole.take(i - from - 1));
            assert(whole.take(i - from).last() == whole[i - from - 1]);
        }
    }
    proof {
        assert(whole.take(to - from) =~= whole);
    }
    Some(m)
}

/// Reads a numeric literal: an optional minus, whole-number digits, an
/// optional point and fraction.  `None` where the text is not such a
/// literal, the fraction is longer than the scale range, or the mantissa
/// would not fit a word.
pub fn parse_decimal(t: &Vec<char>) -> (r: Option<Decimal>)
    ensures
        match r {
            Some(d) => {
                &&& num_shape(t@)
                &&& split_at_dot(strip_sign(t@).1).1.len() <= MAX_SCALE
                &&& combined_mant(t@) <= u64::MAX
                &&& d.wf()
                &&& d.val() == num_text_val(t@)
            },
            None => !num_shape(t@) || split_at_dot(strip_sign(t@).1).1.len() > MAX_SCALE
                || combined_mant(t@) > u64::MAX,
        },
{
    let ghost gt = t@;
    let (neg, start): (bool, usize) = if t.len() > 0 && t[0] == '-' {
        (true, 1)
    } else {
        (false, 0)
    };
    let ghost u = strip_sign(gt).1;
    proof {
        assert(u =~= gt.subrange(start as int, gt.len() as int));
    }
    // find the dot, if any
    let mut dot: usize = start;
    while dot < t.len() && t[dot] != '.'
        invariant
            start <= dot <= t@.len(),
            forall|j: int| start <= j < dot ==> t@[j] != '.',
        decreases t@.len() - dot,
    {
        dot += 1;
    }
    let ghost ip = split_at_dot(u).0;
    let ghost fp = split_at_dot(u).1;
    proof {
        lemma_split_at_dot_structure(gt, start as int, dot as int);
    }
    if dot == start {
        // no whole-number digits before the point, or an empty text
        return None;
    }
    let int_m = match parse_digits(t, start, dot) {
        Some(m) => m,
        None => {
            proof {
                if all_digits(ip) {
                    lemma_pow10_pos(fp.len());
                    assert(digits_val(ip) * pow10(fp.len()) >= digits_val(ip) * 1)
                        by (nonlinear_arith)
                        requires
                            pow10(fp.len()) >= 1,
                    ;
                }
            }
            return None;
        },
    };
    let (frac_from, frac_len): (usize, usize) = if dot < t.len() {
        (dot + 1, t.len() - dot - 1)
    } else {
        (dot, 0)
    };
    if frac_len > MAX_SCALE as usize {
        return None;
    }
    let frac_m = match parse_digits(t, frac_from, t.len()) {
        Some(m) => m,
        None => {
            proof {
                if all_digits(fp) {
                    lemma_digits_val_bound(fp);
                    lemma_pow10_vals();
                    crate::num::lemma_pow10_mono(fp.len(), MAX_SCALE as nat);
                }
            }
            return None;
        },
    };
    let p = pow10_u64(frac_len as u32);
    proof {
        lemma_combined_fits(int_m, frac_m, frac_len as nat);
    }
    let combined: u128 = (int_m as u128) * (p as u128) + (frac_m as u128);
    if combined > u64::MAX as u128 {
        return None;
    }
    let e = MAX_SCALE - (frac_len as u32);
    let q = pow10_u64(e);
    proof {
        crate::num::lemma_magnitude_bound(combined as u64, e as nat);
    }
    let mag: u128 = combined * (q as u128);
    proof {
        lemma_reduce_fits(combined as nat, e as nat);
    }
    let d = match build_reduced(neg, mag) {
        Some(d) => d,
        None => {
            proof {
                assert(false);
            }
            return None;
        },
    };
    Some(d)
}

/// The value of a digit string is under `10^len`.
proof fn lemma_digits_val_bound(s: Seq<char>)
    requires
        all_digits(s),
    ensures
        digits_val(s) < pow10(s.len()),
    decreases s.len(),
{
    if s.len() > 0 {
        assert(all_digits(s.drop_last())) by {
            assert(forall|i: int| 0 <= i < s.len() - 1 ==> s.drop_last()[i] == s[i]);
        }
        lemma_digits_val_bound(s.drop_last());
        assert(pow10(s.len()) == 10 * pow10((s.len() - 1) as nat));
        assert(is_digit(s.last()));
        assert(digit_val(s.last()) < 10);
        assert(digits_val(s.drop_last()) * 10 + 10 <= pow10(s.len())) by (nonlinear_arith)
            requires
                digits_val(s.drop_last()) < pow10((s.len() - 1) as nat),
                pow10(s.len()) == 10 * pow10((s.len() - 1) as nat),
        ;
    }
}

/// Where the text from `start` has no point before `dot` and either ends or
/// has a point at `dot`, splitting gives exactly those two ranges.
proof fn lemma_split_at_dot_structure(t: Seq<char>, start: int, dot: int)
    requires
        0 <= start <= dot <= t.len(),
        forall|j: int| start <= j < dot ==> t[j] != '.',
        dot < t.len() ==> t[dot] == '.',
    ensures
        split_at_dot(t.subrange(start, t.len() as int)).0 == t.subrange(start, dot),
        split_at_dot(t.subrange(start, t.len() as int)).1 == if dot < t.len() {
            t.subrange(dot + 1, t.len() as int)
        } else {
            Seq::<char>::empty()
        },
    decreases dot - start,
{
    let u = t.subrange(start, t.len() as int);
    if start == dot {
        if dot < t.len() {
            assert(u[0] == '.');
            assert(u.drop_first() =~= t.subrange(dot + 1, t.len() as int));
            assert(split_at_dot(u).0 =~= t.subrange(start, dot));
        } else {
            assert(u =~= Seq::<char>::empty());
            assert(split_at_dot(u).0 =~= t.subrange(start, dot));
            assert(split_at_dot(u).1 =~= Seq::<char>::empty());
        }
    } else {
        assert(u[0] != '.');
        lemma_split_at_dot_structure(t, start + 1, dot);
        assert(u.drop_first() =~= t.subrange(start + 1, t.len() as int));
        assert(seq![u[0]] + t.subrange(start + 1, dot) =~= t.subrange(start, dot));
    }
}

/// A mantissa word times a power of ten in scale range, plus a fraction
/// word, stays within wide-word range.
proof fn lemma_combined_fits(int_m: u64, frac_m: u64, flen: nat)
    requires
        flen <= MAX_SCALE,
    ensures
        int_m * pow10(flen) + frac_m <= u128::MAX,
{
    crate::num::lemma_magnitude_bound(int_m, flen);
}

/// Reduction never grows a mantissa: what fits before fits after.
proof fn lemma_reduce_fits(m: nat, e: nat)
    requires
        m <= u64::MAX,
        e <= MAX_SCALE,
    ensures
        crate::num::reduce(m * pow10(e), MAX_SCALE as nat).0 <= u64::MAX,
{
    lemma_reduce_le_start(m, e, MAX_SCALE as nat);
}

/// Reducing `m * 10^e` at a scale of at least `e` strips at least the
/// `10^e` factor: the reduced mantissa is at most `m`.
proof fn lemma_reduce_le_start(m: nat, e: nat, s: nat)
    requires
        e <= s,
    ensures
        crate::num::reduce(m * pow10(e), s).0 <= m,
    decreases e,
{
    if e == 0 {
        assert(pow10(0) == 1);
        assert(m * 1 == m);
        lemma_reduce_le(m, s);
    } else {
        assert(pow10(e) == 10 * pow10((e - 1) as nat));
        assert(m * (10 * pow10((e - 1) as nat)) == (m * pow10((e - 1) as nat)) * 10)
            by (nonlinear_arith);
        let inner = m * pow10((e - 1) as nat);
        assert((inner * 10) % 10 == 0) by (nonlinear_arith);
        assert((inner * 10) / 10 == inner) by (nonlinear_arith);
        if s > 0 {
            lemma_reduce_le_start(m, (e - 1) as nat, (s - 1) as nat);
        }
    }
}

/// The reduced mantissa never exceeds the one reduction started from.
proof fn lemma_reduce_le(m: nat, s: nat)
    ensures
        crate::num::reduce(m, s).0 <= m,
    decreases s,
{
    if s > 0 && m % 10 == 0 {
        lemma_reduce_le(m / 10, (s - 1) as nat);
    }
}

/// The canonical display text of a decimal: the shortest decimal form, with
/// no point when the number is whole.
pub open spec fn dec_display(d: Decimal) -> Seq<char> {
    let sign: Seq<char> = if d.neg {
        seq!['-']
    } else {
        Seq::empty()
    };
    if d.scale == 0 {
        sign + digits_of(d.mant as nat)
    } else {
        let ipart = d.mant as nat / pow10(d.scale as nat);
        let fpart = d.mant as nat % pow10(d.scale as nat);
        sign + digits_of(ipart) + seq!['.'] + pad_zeros(digits_of(fpart), d.scale as nat)
    }
}

/// The source-literal text of a decimal in the target language: always with
/// a point, so the target reads it as a floating literal.
pub open spec fn dec_literal(d: Decimal) -> Seq<char> {
    if d.scale == 0 {
        dec_display(d) + seq!['.', '0']
    } else {
        dec_display(d)
    }
}

/// Left-pads a digit string with zeros to the given width.
pub open spec fn pad_zeros(s: Seq<char>, width: nat) -> Seq<char>
    decreases width,
{
    if s.len() >= width {
        s
    } else {
        seq!['0'] + pad_zeros(s, (width - 1) as nat)
    }
}

/// Writes the display text of a decimal.
pub fn display_decimal(d: &Decimal) -> (r: Vec<char>)
    requires
        d.scale <= MAX_SCALE,
    ensures
        r@ == dec_display(*d),
{
    let mut r: Vec<char> = Vec::new();
    if d.neg {
        r.push('-');
    }
    proof {
        assert(r@ =~= if d.neg {
            seq!['-']
        } else {
            Seq::<char>::empty()
        });
    }
    if d.scale == 0 {
        let digs = u64_digits(d.mant);
        crate::chars::push_chars(&mut r, &digs);
        return r;
    }
    let p = pow10_u64(d.scale);
    proof {
        lemma_pow10_pos(d.scale as nat);
    }
    let ipart = d.mant / p;
    let fpart = d.mant % p;
    let idigs = u64_digits(ipart);
    crate::chars::push_chars(&mut r, &idigs);
    r.push('.');
    let fdigs = u64_digits(fpart);
    // left-pad the fraction to the full scale width
    let mut pad: usize = 0;
    let want = d.scale as usize;
    let have = fdigs.len();
    let ghost mid = r@;
    proof {
        assert(mid + zero_seq(0nat) =~= mid);
    }
    while have < want && pad < want - have
        invariant
            have == fdigs@.len(),
            have < want ==> pad <= want - have,
            have >= want ==> pad == 0,
            r@ == mid + zero_seq(pad as nat),
        decreases want - have - pad,
    {
        r.push('0');
        pad += 1;
        proof {
            assert(mid + zero_seq((pad - 1) as nat) + seq!['0'] =~= mid + zero_seq(pad as nat));
        }
    }
    crate::chars::push_chars(&mut r, &fdigs);
    proof {
        lemma_pad_zero_seq(fdigs@, d.scale as nat);
        assert(r@ =~= dec_display(*d));
    }
    r
}

/// A run of zero characters.
pub open spec fn zero_seq(n: nat) -> Seq<char>
    decreases n,
{
    if n == 0 {
        Seq::empty()
    } else {
        zero_seq((n - 1) as nat) + seq!['0']
    }
}

/// A zero prepended to a zero run is the next longer zero run.
proof fn lemma_zero_seq_prepend(n: nat)
    ensures
        seq!['0'] + zero_seq(n) == zero_seq(n + 1),
    decreases n,
{
    if n == 0 {
        assert(seq!['0'] + zero_seq(0) =~= zero_seq(1));
    } else {
        lemma_zero_seq_prepend((n - 1) as nat);
        assert(seq!['0'] + zero_seq(n) =~= (seq!['0'] + zero_seq((n - 1) as nat)) + seq!['0']);
    }
}

/// Padding is a zero run followed by the digits.
proof fn lemma_pad_zero_seq(s: Seq<char>, width: nat)
    ensures
        pad_zeros(s, width) == if s.len() >= width {
            s
        } else {
            zero_seq((width - s.len()) as nat) + s
        },
    decreases width,
{
    if s.len() < width {
        lemma_pad_zero_seq(s, (width - 1) as nat);
        if s.len() == width - 1 {
            assert(zero_seq(0) =~= Seq::<char>::empty());
            assert(zero_seq(1) =~= seq!['0'] + zero_seq(0));
            assert(pad_zeros(s, width) =~= zero_seq(1) + s);
        } else {
            lemma_zero_seq_prepend((width - 1 - s.len()) as nat);
            assert(pad_zeros(s, width) =~= (seq!['0'] + zero_seq((width - 1 - s.len()) as nat))
                + s);
        }
    }
}

/// Writes the literal text of a decimal for the generated program.
pub fn literal_decimal(d: &Decimal) -> (r: Vec<char>)
    requires
        d.scale <= MAX_SCALE,
    ensures
        r@ == dec_literal(*d),
{
    let mut r = display_decimal(d);
    if d.scale == 0 {
        r.push('.');
        r.push('0');
        proof {
            assert(r@ =~= dec_literal(*d));
        }
    }
    r
}

} // verus!
