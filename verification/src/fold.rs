//! The constant evaluator: compile-time meaning of static values.
//!
//! A node is *static* when it is a literal, or an array or block made only
//! of statics.  For such nodes the evaluator knows the runtime casts to
//! number and boolean, structural equality, and the display text, and can
//! fold an operator node to its literal result at build time.

use vstd::prelude::*;

use crate::num::{dec_clamp, dec_cmp, Cmp, Decimal, MAX_SCALE};
use crate::value::LogicOp;
use crate::numfmt::dec_display;
use crate::value::{clone_value, views, vview, MathOp, Value, ValueView};

verus! {

/// Is every element of the sequence static?
pub open spec fn static_seq(xs: Seq<ValueView>) -> bool
    decreases xs, 0int,
{
    forall|i: int| 0 <= i < xs.len() ==> is_static_v(#[trigger] xs[i])
}

/// Is the node fully known at build time?
pub open spec fn is_static_v(v: ValueView) -> bool
    decreases v, 1int,
{
    match v {
        ValueView::Number(_) => true,
        ValueView::String(_) => true,
        ValueView::Boolean(_) => true,
        ValueView::Undefined => true,
        ValueView::Array(xs) => static_seq(xs),
        ValueView::Block(xs) => static_seq(xs),
        _ => false,
    }
}

/// The numeric value a static node casts to at runtime, over the common
/// denominator `10^MAX_SCALE`: a number is itself; a string, array or
/// dictionary is its length; a boolean is one or zero; a block is its
/// final value.
pub open spec fn cast_num_val(v: ValueView) -> Option<int>
    decreases v,
{
    match v {
        ValueView::Number(d) => Some(d.val()),
        ValueView::String(s) => Some((s.len() * crate::num::pow10(MAX_SCALE as nat)) as int),
        ValueView::Boolean(b) => Some(
            if b {
                crate::num::pow10(MAX_SCALE as nat) as int
            } else {
                0
            },
        ),
        ValueView::Array(xs) => if static_seq(xs) {
            Some((xs.len() * crate::num::pow10(MAX_SCALE as nat)) as int)
        } else {
            None
        },
        ValueView::Block(xs) => if static_seq(xs) && xs.len() > 0 {
            cast_num_val(xs.last())
        } else {
            None
        },
        _ => None,
    }
}

/// The boolean a static node casts to at runtime: nonzero, non-empty, or
/// itself.
pub open spec fn cast_bool_val(v: ValueView) -> Option<bool>
    decreases v,
{
    match v {
        ValueView::Number(d) => Some(d.val() != 0),
        ValueView::String(s) => Some(s.len() > 0),
        ValueView::Boolean(b) => Some(b),
        ValueView::Array(xs) => if static_seq(xs) {
            Some(xs.len() > 0)
        } else {
            None
        },
        ValueView::Block(xs) => if static_seq(xs) && xs.len() > 0 {
            cast_bool_val(xs.last())
        } else {
            None
        },
        _ => None,
    }
}

/// Structural equality of two static values, with numbers compared by
/// value.
pub open spec fn sem_eq(a: ValueView, b: ValueView) -> bool
    decreases a, 1int,
{
    match (a, b) {
        (ValueView::Number(x), ValueView::Number(y)) => x.val() == y.val(),
        (ValueView::String(x), ValueView::String(y)) => x == y,
        (ValueView::Boolean(x), ValueView::Boolean(y)) => x == y,
        (ValueView::Undefined, ValueView::Undefined) => true,
        (ValueView::Array(xs), ValueView::Array(ys)) => sem_eq_seq(xs, ys),
        (ValueView::Block(xs), ValueView::Block(ys)) => sem_eq_seq(xs, ys),
        _ => false,
    }
}

/// Elementwise semantic equality of two sequences.
pub open spec fn sem_eq_seq(xs: Seq<ValueView>, ys: Seq<ValueView>) -> bool
    decreases xs, 0int,
{
    xs.len() == ys.len() && (forall|i: int|
        0 <= i < xs.len() ==> sem_eq(#[trigger] xs[i], ys[i]))
}

/// The display text of a value: what the runtime prints for it.  Numbers
/// show their shortest decimal form, arrays bracket their elements, blocks
/// show their final value, references show what they refer to.
pub open spec fn disp(v: ValueView) -> Seq<char>
    decreases v, 2int,
{
    match v {
        ValueView::String(s) => s,
        ValueView::Number(d) => dec_display(clamped(d)),
        ValueView::Boolean(b) => if b {
            seq!['t', 'r', 'u', 'e']
        } else {
            seq!['f', 'a', 'l', 's', 'e']
        },
        ValueView::Array(xs) => seq!['['] + disp_items(xs, 0) + seq![']'],
        ValueView::Block(xs) => if xs.len() > 0 {
            disp(xs.last())
        } else {
            Seq::empty()
        },
        ValueView::Ref(x) => disp(*x),
        _ => seq!['u', 'n', 'd', 'e', 'f', 'i', 'n', 'e', 'd'],
    }
}

/// A string shown inside an array: quotes and backslashes escaped, as the
/// runtime's quoted display writes them.
pub open spec fn esc_shown(s: Seq<char>) -> Seq<char>
    decreases s.len(),
{
    if s.len() == 0 {
        Seq::empty()
    } else {
        esc_shown(s.drop_last()) + (if s.last() == '"' {
            seq!['\\', '"']
        } else if s.last() == '\\' {
            seq!['\\', '\\']
        } else {
            seq![s.last()]
        })
    }
}

/// The display text of one array element: strings are quoted there, their
/// quotes and backslashes escaped.
pub open spec fn disp_elem(v: ValueView) -> Seq<char>
    decreases v, 3int,
{
    match v {
        ValueView::String(s) => seq!['"'] + esc_shown(s) + seq!['"'],
        _ => disp(v),
    }
}

/// The elements of an array from `i` on, displayed and comma-separated.
pub open spec fn disp_items(xs: Seq<ValueView>, i: int) -> Seq<char>
    decreases xs, 4int, xs.len() - i,
{
    if i < 0 || i >= xs.len() {
        Seq::empty()
    } else if i == xs.len() - 1 {
        disp_elem(xs[i])
    } else {
        disp_elem(xs[i]) + seq![',', ' '] + disp_items(xs, i + 1)
    }
}

/// The elements joined by a separator, in their display forms.
pub open spec fn join_disp(xs: Seq<ValueView>, sep: Seq<char>, i: int) -> Seq<char>
    decreases xs, 4int, xs.len() - i,
{
    if i < 0 || i >= xs.len() {
        Seq::empty()
    } else if i == xs.len() - 1 {
        disp(xs[i])
    } else {
        disp(xs[i]) + sep + join_disp(xs, sep, i + 1)
    }
}

/// A decimal with its scale clamped into range; same value.
pub open spec fn clamped(d: Decimal) -> Decimal {
    if d.scale <= MAX_SCALE {
        d
    } else {
        Decimal { neg: d.neg, mant: d.mant, scale: MAX_SCALE }
    }
}

impl Value {
    /// Is this node fully known at build time?
    pub fn is_static(&self) -> (r: bool)
        ensures
            r == is_static_v(self@),
        decreases self,
    {
        match self {
            Value::Number(_) => true,
            Value::String(_) => true,
            Value::Boolean(_) => true,
            Value::Undefined => true,
            Value::Array(xs) => is_static_array(xs),
            Value::Block(xs) => is_static_array(xs),
            _ => false,
        }
    }

    /// The decimal a static node casts to at runtime; `None` where the node
    /// is not static.
    pub fn cast_num_static(&self) -> (r: Option<Decimal>)
        ensures
            (r is Some) == (cast_num_val(self@) is Some),
            r matches Some(d) ==> cast_num_val(self@) matches Some(x) && x == d.val(),
        decreases self,
    {
        match self {
            Value::Number(d) => {
                proof {
                    assert(self@ is Number);
                    assert(cast_num_val(self@) == Some((*d).val()));
                }
                Some(*d)
            },
            Value::String(s) => {
                let d = Decimal::from_usize(s.len());
                proof {
                    assert(cast_num_val(self@) == Some(d.val()));
                }
                Some(d)
            },
            Value::Boolean(b) => {
                let d = if *b {
                    Decimal { neg: false, mant: 1, scale: 0 }
                } else {
                    Decimal { neg: false, mant: 0, scale: 0 }
                };
                proof {
                    vstd::arithmetic::mul::lemma_mul_basics(
                        crate::num::pow10(MAX_SCALE as nat) as int,
                    );
                    assert(cast_num_val(self@) == Some(d.val()));
                }
                Some(d)
            },
            Value::Array(xs) => {
                if is_static_array(xs) {
                    Some(Decimal::from_usize(xs.len()))
                } else {
                    None
                }
            },
            Value::Block(xs) => {
                if is_static_array(xs) && xs.len() > 0 {
                    let r = xs[xs.len() - 1].cast_num_static();
                    proof {
                        assert(views(xs@).last() == vview(xs@[xs@.len() - 1]));
                    }
                    r
                } else {
                    None
                }
            },
            _ => None,
        }
    }

    /// The boolean a static node casts to at runtime; `None` where the node
    /// is not static.
    pub fn cast_bool_static(&self) -> (r: Option<bool>)
        ensures
            r == cast_bool_val(self@),
        decreases self,
    {
        match self {
            Value::Number(d) => {
                let d2 = *d;
                Some(d2.is_nonzero())
            },
            Value::String(s) => Some(s.len() > 0),
            Value::Boolean(b) => Some(*b),
            Value::Array(xs) => {
                if is_static_array(xs) {
                    Some(xs.len() > 0)
                } else {
                    None
                }
            },
            Value::Block(xs) => {
                if is_static_array(xs) && xs.len() > 0 {
                    let r = xs[xs.len() - 1].cast_bool_static();
                    proof {
                        assert(views(xs@).last() == vview(xs@[xs@.len() - 1]));
                    }
                    r
                } else {
                    None
                }
            },
            _ => None,
        }
    }
}

/// Is every node of the vector static?
pub fn is_static_array(a: &Vec<Value>) -> (r: bool)
    ensures
        r == static_seq(views(a@)),
    decreases a,
{
    let mut i: usize = 0;
    while i < a.len()
        invariant
            i <= a@.len(),
            forall|j: int| 0 <= j < i ==> is_static_v(#[trigger] views(a@)[j]),
        decreases a@.len() - i,
    {
        if !a[i].is_static() {
            proof {
                assert(views(a@)[i as int] == vview(a@[i as int]));
            }
            return false;
        }
        i += 1;
        proof {
            assert(views(a@)[i - 1] == vview(a@[i - 1]));
        }
    }
    true
}

/// Structural equality of two static values, numbers by value.
pub fn value_eq(a: &Value, b: &Value) -> (r: bool)
    requires
        is_static_v(a@),
        is_static_v(b@),
    ensures
        r == sem_eq(a@, b@),
    decreases a,
{
    match (a, b) {
        (Value::Number(x), Value::Number(y)) => {
            let c = dec_cmp(x, y);
            matches!(c, Cmp::Equal)
        },
        (Value::String(x), Value::String(y)) => crate::chars::chars_eq(x, y),
        (Value::Boolean(x), Value::Boolean(y)) => x == y,
        (Value::Undefined, Value::Undefined) => true,
        (Value::Array(xs), Value::Array(ys)) => value_eq_seq(xs, ys),
        (Value::Block(xs), Value::Block(ys)) => value_eq_seq(xs, ys),
        _ => false,
    }
}

/// Elementwise semantic equality of two static vectors.
pub fn value_eq_seq(xs: &Vec<Value>, ys: &Vec<Value>) -> (r: bool)
    requires
        static_seq(views(xs@)),
        static_seq(views(ys@)),
    ensures
        r == sem_eq_seq(views(xs@), views(ys@)),
    decreases xs,
{
    if xs.len() != ys.len() {
        return false;
    }
    let mut i: usize = 0;
    while i < xs.len()
        invariant
            i <= xs@.len(),
            xs@.len() == ys@.len(),
            static_seq(views(xs@)),
            static_seq(views(ys@)),
            forall|j: int| 0 <= j < i ==> sem_eq(#[trigger] views(xs@)[j], views(ys@)[j]),
        decreases xs@.len() - i,
    {
        proof {
            assert(views(xs@)[i as int] == vview(xs@[i as int]));
            assert(views(ys@)[i as int] == vview(ys@[i as int]));
        }
        if !value_eq(&xs[i], &ys[i]) {
            return false;
        }
        i += 1;
    }
    true
}

/// Writes the display text of a value.
pub fn display_value(v: &Value) -> (r: Vec<char>)
    ensures
        r@ == disp(v@),
    decreases v, 0int,
{
    match v {
        Value::String(s) => crate::chars::copy_chars(s),
        Value::Number(d) => {
            let c = dec_clamp(d);
            proof {
                assert(c == clamped(*d));
            }
            crate::numfmt::display_decimal(&c)
        },
        Value::Boolean(b) => {
            let mut r: Vec<char> = Vec::new();
            if *b {
                crate::chars::push_str(&mut r, "true");
                proof {
                    reveal_strlit("true");
                    assert(r@ =~= disp(v@));
                }
            } else {
                crate::chars::push_str(&mut r, "false");
                proof {
                    reveal_strlit("false");
                    assert(r@ =~= disp(v@));
                }
            }
            r
        },
        Value::Array(xs) => {
            let mut r: Vec<char> = Vec::new();
            r.push('[');
            proof {
                assert(r@ =~= seq!['[']);
            }
            let items = display_items(xs);
            crate::chars::push_chars(&mut r, &items);
            r.push(']');
            proof {
                assert(r@ =~= disp(v@));
            }
            r
        },
        Value::Block(xs) => {
            if xs.len() > 0 {
                let r = display_value(&xs[xs.len() - 1]);
                proof {
                    assert(views(xs@).last() == vview(xs@[xs@.len() - 1]));
                }
                r
            } else {
                Vec::new()
            }
        },
        Value::Ref(x) => display_value(&*x),
        _ => {
            let mut r: Vec<char> = Vec::new();
            crate::chars::push_str(&mut r, "undefined");
            proof {
                reveal_strlit("undefined");
                assert(r@ =~= disp(v@));
            }
            r
        },
    }
}

/// Writes the bracketless element list of an array display.
pub fn display_items(xs: &Vec<Value>) -> (r: Vec<char>)
    ensures
        r@ == disp_items(views(xs@), 0),
    decreases xs, 0int,
{
    let mut r: Vec<char> = Vec::new();
    let mut i: usize = 0;
    proof {
        assert(r@ =~= disp_prefix(views(xs@), 0));
    }
    while i < xs.len()
        invariant
            i <= xs@.len(),
            r@ == disp_prefix(views(xs@), i as int),
        decreases xs@.len() - i,
    {
        proof {
            assert(views(xs@)[i as int] == vview(xs@[i as int]));
        }
        if i > 0 {
            r.push(',');
            r.push(' ');
        }
        let e = display_elem(&xs[i]);
        crate::chars::push_chars(&mut r, &e);
        i += 1;
        proof {
            assert(r@ =~= disp_prefix(views(xs@), i as int));
        }
    }
    proof {
        lemma_disp_prefix_all(views(xs@));
    }
    r
}

/// Writes the display text of one array element, strings quoted.
pub fn display_elem(v: &Value) -> (r: Vec<char>)
    ensures
        r@ == disp_elem(v@),
    decreases v, 1int,
{
    match v {
        Value::String(s) => {
            let mut r: Vec<char> = Vec::new();
            r.push('"');
            push_escaped(&mut r, s);
            r.push('"');
            proof {
                assert(r@ =~= disp_elem(v@));
            }
            r
        },
        _ => display_value(v),
    }
}

/// Writes a string with its quotes and backslashes escaped.
fn push_escaped(out: &mut Vec<char>, s: &Vec<char>)
    ensures
        final(out)@ == old(out)@ + esc_shown(s@),
{
    let mut i: usize = 0;
    proof {
        assert(old(out)@ + esc_shown(s@.take(0)) =~= old(out)@);
    }
    while i < s.len()
        invariant
            i <= s@.len(),
            out@ == old(out)@ + esc_shown(s@.take(i as int)),
        decreases s@.len() - i,
    {
        let c = s[i];
        if c == '"' {
            out.push('\\');
            out.push('"');
        } else if c == '\\' {
            out.push('\\');
            out.push('\\');
        } else {
            out.push(c);
        }
        i += 1;
        proof {
            assert(s@.take(i as int).drop_last() =~= s@.take(i - 1));
            assert(s@.take(i as int).last() == s@[i - 1]);
            assert(out@ =~= old(out)@ + esc_shown(s@.take(i as int)));
        }
    }
    proof {
        assert(s@.take(s@.len() as int) =~= s@);
    }
}

/// The first `i` elements of an array display, comma-separated, without the
/// brackets.
pub open spec fn disp_prefix(xs: Seq<ValueView>, i: int) -> Seq<char>
    decreases i,
{
    if i <= 0 || i > xs.len() {
        Seq::empty()
    } else if i == 1 {
        disp_elem(xs[0])
    } else {
        disp_prefix(xs, i - 1) + seq![',', ' '] + disp_elem(xs[i - 1])
    }
}

/// The whole prefix display is the item display.
proof fn lemma_disp_prefix_all(xs: Seq<ValueView>)
    ensures
        disp_prefix(xs, xs.len() as int) == disp_items(xs, 0),
{
    lemma_disp_parts(xs, 0);
    if xs.len() > 0 {
        assert(disp_prefix(xs, 0) + Seq::<char>::empty() + disp_items(xs, 0) =~= disp_items(
            xs,
            0,
        ));
    } else {
        assert(disp_prefix(xs, 0) =~= disp_items(xs, 0));
    }
}

/// The whole prefix display splits at `i`: the first `i` elements, then a
/// separator where elements stand on both sides, then the items from `i`.
proof fn lemma_disp_parts(xs: Seq<ValueView>, i: int)
    requires
        0 <= i <= xs.len(),
    ensures
        i == xs.len() ==> disp_prefix(xs, xs.len() as int) == disp_prefix(xs, i),
        i < xs.len() ==> disp_prefix(xs, xs.len() as int) == disp_prefix(xs, i) + (if i == 0 {
            Seq::<char>::empty()
        } else {
            seq![',', ' ']
        }) + disp_items(xs, i),
    decreases xs.len() - i,
{
    let sep_i: Seq<char> = if i == 0 {
        Seq::empty()
    } else {
        seq![',', ' ']
    };
    if i < xs.len() {
        lemma_disp_parts(xs, i + 1);
        if i == xs.len() - 1 {
            if i == 0 {
                assert(disp_prefix(xs, 1) =~= disp_prefix(xs, 0) + sep_i + disp_items(xs, 0));
            } else {
                assert(disp_prefix(xs, i + 1) =~= disp_prefix(xs, i) + sep_i + disp_items(xs, i));
            }
        } else {
            assert(disp_prefix(xs, xs.len() as int) == disp_prefix(xs, i + 1) + seq![',', ' ']
                + disp_items(xs, i + 1));
            assert(disp_prefix(xs, i + 1) == disp_prefix(xs, i) + sep_i + disp_elem(xs[i]));
            assert(disp_prefix(xs, i) + sep_i + disp_elem(xs[i]) + seq![',', ' '] + disp_items(
                xs,
                i + 1,
            ) =~= disp_prefix(xs, i) + sep_i + disp_items(xs, i));
        }
    }
}


/// A length as a whole-number decimal.
pub open spec fn len_dec(n: nat) -> Decimal {
    Decimal { neg: false, mant: n as u64, scale: 0 }
}

/// A folded number, or a declined fold.
pub open spec fn num_or_none(o: Option<Decimal>) -> Option<ValueView> {
    match o {
        Some(d) => Some(ValueView::Number(d)),
        None => None,
    }
}

/// The first `i` elements, displayed and joined by the separator.
pub open spec fn join_pre(xs: Seq<ValueView>, sep: Seq<char>, i: int) -> Seq<char>
    decreases xs, 4int, i,
{
    if i <= 0 || i > xs.len() {
        Seq::empty()
    } else if i == 1 {
        disp(xs[0])
    } else {
        join_pre(xs, sep, i - 1) + sep + disp(xs[i - 1])
    }
}

/// A string with every occurrence of a pattern removed, scanning left to
/// right; the empty pattern removes nothing.
pub open spec fn remove_occ(s: Seq<char>, pat: Seq<char>) -> Seq<char>
    decreases s.len(),
{
    if pat.len() == 0 || s.len() == 0 {
        s
    } else if s.len() >= pat.len() && s.take(pat.len() as int) == pat {
        remove_occ(s.skip(pat.len() as int), pat)
    } else {
        seq![s[0]] + remove_occ(s.drop_first(), pat)
    }
}

/// Does every elementwise addition of the broadcast succeed?
pub open spec fn bc_add_ok(xs: Seq<ValueView>, ys: Seq<ValueView>) -> bool
    decreases xs, 0int,
{
    forall|i: int|
        0 <= i < xs.len() && i < ys.len() ==> add_sp(#[trigger] xs[i], ys[i]) is Some
}

/// The broadcast sum: elementwise where both sides reach, the longer tail
/// kept unchanged.
pub open spec fn bc_add_map(xs: Seq<ValueView>, ys: Seq<ValueView>) -> Seq<ValueView>
    decreases xs, 0int,
{
    Seq::new(
        if xs.len() >= ys.len() {
            xs.len()
        } else {
            ys.len()
        },
        |i: int|
            if 0 <= i < xs.len() && i < ys.len() {
                add_sp(xs[i], ys[i]).unwrap()
            } else if 0 <= i < xs.len() {
                xs[i]
            } else if 0 <= i < ys.len() {
                ys[i]
            } else {
                ValueView::Undefined
            },
    )
}

/// Compile-time addition, mirroring the runtime's heterogeneous rules:
/// arrays broadcast, arrays and strings join, strings concatenate, numbers
/// and lengths add; unmatched shapes fall back to an unfolded operator node,
/// and `None` declines the fold where a number cannot be represented.
pub open spec fn add_sp(a: ValueView, b: ValueView) -> Option<ValueView>
    decreases a, 1int,
{
    match a {
        ValueView::Array(xs) => match b {
            ValueView::Array(ys) => if bc_add_ok(xs, ys) {
                Some(ValueView::Array(bc_add_map(xs, ys)))
            } else {
                None
            },
            ValueView::Number(d) => num_or_none(crate::num::add_vals(len_dec(xs.len()), d)),
            ValueView::String(t) => Some(ValueView::String(join_pre(xs, t, xs.len() as int))),
            _ => Some(ValueView::NumOp(Box::new(a), Box::new(b), MathOp::Add)),
        },
        ValueView::Number(d) => match b {
            ValueView::Number(e) => num_or_none(crate::num::add_vals(d, e)),
            ValueView::Array(ys) => num_or_none(crate::num::add_vals(d, len_dec(ys.len()))),
            ValueView::String(t) => num_or_none(crate::num::add_vals(d, len_dec(t.len()))),
            _ => Some(ValueView::NumOp(Box::new(a), Box::new(b), MathOp::Add)),
        },
        ValueView::String(t) => match b {
            ValueView::Number(e) => num_or_none(crate::num::add_vals(len_dec(t.len()), e)),
            ValueView::String(u) => Some(ValueView::String(t + u)),
            ValueView::Array(ys) => Some(ValueView::String(join_pre(ys, t, ys.len() as int))),
            _ => Some(ValueView::NumOp(Box::new(a), Box::new(b), MathOp::Add)),
        },
        _ => Some(ValueView::NumOp(Box::new(a), Box::new(b), MathOp::Add)),
    }
}

/// Does every elementwise subtraction of the broadcast succeed?
pub open spec fn bc_sub_ok(xs: Seq<ValueView>, ys: Seq<ValueView>) -> bool
    decreases xs, 0int,
{
    forall|i: int|
        0 <= i < xs.len() && i < ys.len() ==> sub_sp(#[trigger] xs[i], ys[i]) is Some
}

/// The broadcast difference, the longer tail kept unchanged.
pub open spec fn bc_sub_map(xs: Seq<ValueView>, ys: Seq<ValueView>) -> Seq<ValueView>
    decreases xs, 0int,
{
    Seq::new(
        if xs.len() >= ys.len() {
            xs.len()
        } else {
            ys.len()
        },
        |i: int|
            if 0 <= i < xs.len() && i < ys.len() {
                sub_sp(xs[i], ys[i]).unwrap()
            } else if 0 <= i < xs.len() {
                xs[i]
            } else if 0 <= i < ys.len() {
                ys[i]
            } else {
                ValueView::Undefined
            },
    )
}

/// Compile-time subtraction: arrays broadcast, a string drops every
/// occurrence of the subtracted string, numbers and lengths subtract.
pub open spec fn sub_sp(a: ValueView, b: ValueView) -> Option<ValueView>
    decreases a, 1int,
{
    match a {
        ValueView::Array(xs) => match b {
            ValueView::Array(ys) => if bc_sub_ok(xs, ys) {
                Some(ValueView::Array(bc_sub_map(xs, ys)))
            } else {
                None
            },
            ValueView::Number(d) => num_or_none(crate::num::sub_vals(len_dec(xs.len()), d)),
            _ => Some(ValueView::NumOp(Box::new(a), Box::new(b), MathOp::Sub)),
        },
        ValueView::Number(d) => match b {
            ValueView::Number(e) => num_or_none(crate::num::sub_vals(d, e)),
            ValueView::Array(ys) => num_or_none(crate::num::sub_vals(d, len_dec(ys.len()))),
            ValueView::String(t) => num_or_none(crate::num::sub_vals(d, len_dec(t.len()))),
            _ => Some(ValueView::NumOp(Box::new(a), Box::new(b), MathOp::Sub)),
        },
        ValueView::String(t) => match b {
            ValueView::Number(e) => num_or_none(crate::num::sub_vals(len_dec(t.len()), e)),
            ValueView::String(u) => Some(ValueView::String(remove_occ(t, u))),
            _ => Some(ValueView::NumOp(Box::new(a), Box::new(b), MathOp::Sub)),
        },
        _ => Some(ValueView::NumOp(Box::new(a), Box::new(b), MathOp::Sub)),
    }
}

/// Writes the elements joined by the separator, in display form.
pub fn join_display(xs: &Vec<Value>, sep: &Vec<char>) -> (r: Vec<char>)
    ensures
        r@ == join_pre(views(xs@), sep@, xs@.len() as int),
    decreases xs, 0int,
{
    let mut r: Vec<char> = Vec::new();
    let mut i: usize = 0;
    while i < xs.len()
        invariant
            i <= xs@.len(),
            r@ == join_pre(views(xs@), sep@, i as int),
        decreases xs@.len() - i,
    {
        proof {
            assert(views(xs@)[i as int] == vview(xs@[i as int]));
        }
        if i > 0 {
            crate::chars::push_chars(&mut r, sep);
        }
        let e = display_value(&xs[i]);
        crate::chars::push_chars(&mut r, &e);
        i += 1;
        proof {
            assert(r@ =~= join_pre(views(xs@), sep@, i as int));
        }
    }
    r
}

/// Does the pattern occur in `s` exactly at position `i`?
fn starts_at(s: &Vec<char>, i: usize, pat: &Vec<char>) -> (r: bool)
    requires
        i <= s@.len(),
    ensures
        r == (i + pat@.len() <= s@.len() && s@.skip(i as int).take(pat@.len() as int) == pat@),
{
    let ghost suf = s@.skip(i as int);
    if pat.len() > s.len() - i {
        return false;
    }
    let mut k: usize = 0;
    while k < pat.len()
        invariant
            k <= pat@.len(),
            i + pat@.len() <= s@.len() <= usize::MAX,
            suf == s@.skip(i as int),
            forall|j: int| 0 <= j < k ==> s@[i + j] == pat@[j],
        decreases pat@.len() - k,
    {
        if s[i + k] != pat[k] {
            proof {
                assert(suf.take(pat@.len() as int)[k as int] == s@[i + k]);
            }
            return false;
        }
        k += 1;
    }
    proof {
        assert(suf.take(pat@.len() as int) =~= pat@);
    }
    true
}

/// Removes every occurrence of a pattern from a string, scanning left to
/// right.
pub fn remove_occurrences(s: &Vec<char>, pat: &Vec<char>) -> (r: Vec<char>)
    ensures
        r@ == remove_occ(s@, pat@),
{
    let mut r: Vec<char> = Vec::new();
    if pat.len() == 0 {
        return crate::chars::copy_chars(s);
    }
    let mut i: usize = 0;
    proof {
        assert(s@.skip(0) =~= s@);
        assert(r@ + remove_occ(s@, pat@) =~= remove_occ(s@, pat@));
    }
    while i < s.len()
        invariant
            i <= s@.len(),
            pat@.len() >= 1,
            remove_occ(s@, pat@) == r@ + remove_occ(s@.skip(i as int), pat@),
        decreases s@.len() - i,
    {
        let ghost suf = s@.skip(i as int);
        let matches_here = starts_at(s, i, pat);
        if matches_here {
            i += pat.len();
            proof {
                assert(suf.skip(pat@.len() as int) =~= s@.skip(i as int));
            }
        } else {
            proof {
                if suf.len() >= pat@.len() {
                    assert(suf.take(pat@.len() as int) != pat@);
                }
            }
            r.push(s[i]);
            i += 1;
            proof {
                assert(suf.drop_first() =~= s@.skip(i as int));
                assert(suf[0] == s@[i - 1]);
                assert(r@.drop_last() + (seq![s@[i - 1]] + remove_occ(s@.skip(i as int), pat@))
                    =~= r@ + remove_occ(s@.skip(i as int), pat@));
            }
        }
    }
    proof {
        assert(s@.skip(s@.len() as int) =~= Seq::<char>::empty());
        assert(r@ + Seq::<char>::empty() =~= r@);
    }
    r
}

/// Folds an addition of two values; `None` declines where a number result
/// cannot be represented.
#[verifier::rlimit(100)]
pub fn static_add(a: &Value, b: &Value) -> (r: Option<Value>)
    ensures
        (r is Some) == (add_sp(a@, b@) is Some),
        r matches Some(v) ==> add_sp(a@, b@) == Some(v@),
    decreases a, 1int,
{
    match (a, b) {
        (Value::Array(xs), Value::Array(ys)) => {
            match bc_add_exec(xs, ys) {
                Some(res) => {
                    proof {
                        assert(add_sp(a@, b@) == Some(
                            ValueView::Array(bc_add_map(views(xs@), views(ys@))),
                        ));
                        assert(vview(Value::Array(res)) == ValueView::Array(views(res@)));
                    }
                    Some(Value::Array(res))
                },
                None => None,
            }
        },
        (Value::Array(xs), Value::Number(d)) => {
            let ld = Decimal::from_usize(xs.len());
            proof {
                assert(ld == len_dec(views(xs@).len()));
                assert(add_sp(a@, b@) == num_or_none(crate::num::add_vals(ld, *d)));
            }
            match crate::num::dec_add(&ld, d) {
                Some(z) => Some(Value::Number(z)),
                None => None,
            }
        },
        (Value::Array(xs), Value::String(t)) => {
            let j = join_display(xs, t);
            proof {
                assert(add_sp(a@, b@) == Some(ValueView::String(j@)));
            }
            Some(Value::String(j))
        },
        (Value::Number(d), Value::Number(e)) => {
            proof {
                assert(add_sp(a@, b@) == num_or_none(crate::num::add_vals(*d, *e)));
            }
            match crate::num::dec_add(d, e) {
                Some(z) => Some(Value::Number(z)),
                None => None,
            }
        },
        (Value::Number(d), Value::Array(ys)) => {
            let ld = Decimal::from_usize(ys.len());
            proof {
                assert(ld == len_dec(views(ys@).len()));
                assert(add_sp(a@, b@) == num_or_none(crate::num::add_vals(*d, ld)));
            }
            match crate::num::dec_add(d, &ld) {
                Some(z) => Some(Value::Number(z)),
                None => None,
            }
        },
        (Value::Number(d), Value::String(t)) => {
            let ld = Decimal::from_usize(t.len());
            proof {
                assert(ld == len_dec(t@.len()));
                assert(add_sp(a@, b@) == num_or_none(crate::num::add_vals(*d, ld)));
            }
            match crate::num::dec_add(d, &ld) {
                Some(z) => Some(Value::Number(z)),
                None => None,
            }
        },
        (Value::String(t), Value::Number(e)) => {
            let ld = Decimal::from_usize(t.len());
            proof {
                assert(ld == len_dec(t@.len()));
                assert(add_sp(a@, b@) == num_or_none(crate::num::add_vals(ld, *e)));
            }
            match crate::num::dec_add(&ld, e) {
                Some(z) => Some(Value::Number(z)),
                None => None,
            }
        },
        (Value::String(t), Value::String(u)) => {
            let mut out = crate::chars::copy_chars(t);
            crate::chars::push_chars(&mut out, u);
            proof {
                assert(add_sp(a@, b@) == Some(ValueView::String(out@)));
            }
            Some(Value::String(out))
        },
        (Value::String(t), Value::Array(ys)) => {
            let j = join_display(ys, t);
            proof {
                assert(add_sp(a@, b@) == Some(ValueView::String(j@)));
            }
            Some(Value::String(j))
        },
        _ => {
            let out = Value::NumOp(Box::new(clone_value(a)), Box::new(clone_value(b)), MathOp::Add);
            proof {
                assert(vview(out) == ValueView::NumOp(Box::new(a@), Box::new(b@), MathOp::Add));
                assert(add_sp(a@, b@) == Some(vview(out)));
            }
            Some(out)
        },
    }
}

/// Folds a subtraction of two values; `None` declines where a number result
/// cannot be represented.
#[verifier::rlimit(100)]
pub fn static_sub(a: &Value, b: &Value) -> (r: Option<Value>)
    ensures
        (r is Some) == (sub_sp(a@, b@) is Some),
        r matches Some(v) ==> sub_sp(a@, b@) == Some(v@),
    decreases a, 1int,
{
    match (a, b) {
        (Value::Array(xs), Value::Array(ys)) => {
            match bc_sub_exec(xs, ys) {
                Some(res) => {
                    proof {
                        assert(sub_sp(a@, b@) == Some(
                            ValueView::Array(bc_sub_map(views(xs@), views(ys@))),
                        ));
                    }
                    Some(Value::Array(res))
                },
                None => None,
            }
        },
        (Value::Array(xs), Value::Number(d)) => {
            let ld = Decimal::from_usize(xs.len());
            proof {
                assert(ld == len_dec(views(xs@).len()));
                assert(sub_sp(a@, b@) == num_or_none(crate::num::sub_vals(ld, *d)));
            }
            match crate::num::dec_sub(&ld, d) {
                Some(z) => Some(Value::Number(z)),
                None => None,
            }
        },
        (Value::Number(d), Value::Number(e)) => {
            proof {
                assert(sub_sp(a@, b@) == num_or_none(crate::num::sub_vals(*d, *e)));
            }
            match crate::num::dec_sub(d, e) {
                Some(z) => Some(Value::Number(z)),
                None => None,
            }
        },
        (Value::Number(d), Value::Array(ys)) => {
            let ld = Decimal::from_usize(ys.len());
            proof {
                assert(ld == len_dec(views(ys@).len()));
                assert(sub_sp(a@, b@) == num_or_none(crate::num::sub_vals(*d, ld)));
            }
            match crate::num::dec_sub(d, &ld) {
                Some(z) => Some(Value::Number(z)),
                None => None,
            }
        },
        (Value::Number(d), Value::String(t)) => {
            let ld = Decimal::from_usize(t.len());
            proof {
                assert(ld == len_dec(t@.len()));
                assert(sub_sp(a@, b@) == num_or_none(crate::num::sub_vals(*d, ld)));
            }
            match crate::num::dec_sub(d, &ld) {
                Some(z) => Some(Value::Number(z)),
                None => None,
            }
        },
        (Value::String(t), Value::Number(e)) => {
            let ld = Decimal::from_usize(t.len());
            proof {
                assert(ld == len_dec(t@.len()));
                assert(sub_sp(a@, b@) == num_or_none(crate::num::sub_vals(ld, *e)));
            }
            match crate::num::dec_sub(&ld, e) {
                Some(z) => Some(Value::Number(z)),
                None => None,
            }
        },
        (Value::String(t), Value::String(u)) => {
            let out = remove_occurrences(t, u);
            proof {
                assert(sub_sp(a@, b@) == Some(ValueView::String(out@)));
            }
            Some(Value::String(out))
        },
        _ => {
            let out = Value::NumOp(Box::new(clone_value(a)), Box::new(clone_value(b)), MathOp::Sub);
            proof {
                assert(vview(out) == ValueView::NumOp(Box::new(a@), Box::new(b@), MathOp::Sub));
                assert(sub_sp(a@, b@) == Some(vview(out)));
            }
            Some(out)
        },
    }
}


/// The executable broadcast sum of two element vectors; `None` where an
/// element fold declines.
fn bc_add_exec(xs: &Vec<Value>, ys: &Vec<Value>) -> (r: Option<Vec<Value>>)
    ensures
        match r {
            Some(res) => bc_add_ok(views(xs@), views(ys@)) && views(res@) == bc_add_map(
                views(xs@),
                views(ys@),
            ),
            None => !bc_add_ok(views(xs@), views(ys@)),
        },
    decreases xs, 0int,
{
    let n = if xs.len() >= ys.len() {
        xs.len()
    } else {
        ys.len()
    };
    let mut res: Vec<Value> = Vec::new();
    let mut i: usize = 0;
    while i < n
        invariant
            i <= n,
            n == if xs@.len() >= ys@.len() {
                xs@.len()
            } else {
                ys@.len()
            },
            res@.len() == i,
            forall|j: int|
                0 <= j < i && j < xs@.len() && j < ys@.len() ==> add_sp(
                    #[trigger] views(xs@)[j],
                    views(ys@)[j],
                ) is Some,
            forall|j: int|
                0 <= j < i ==> vview(#[trigger] res@[j]) == bc_add_map(views(xs@), views(ys@))[j],
        decreases n - i,
    {
        proof {
            if i < xs@.len() {
                assert(views(xs@)[i as int] == vview(xs@[i as int]));
            }
            if i < ys@.len() {
                assert(views(ys@)[i as int] == vview(ys@[i as int]));
            }
        }
        if i < xs.len() && i < ys.len() {
            match static_add(&xs[i], &ys[i]) {
                Some(z) => {
                    res.push(z);
                },
                None => {
                    proof {
                        assert(!bc_add_ok(views(xs@), views(ys@))) by {
                            assert(add_sp(views(xs@)[i as int], views(ys@)[i as int]) is None);
                        }
                    }
                    return None;
                },
            }
        } else if i < xs.len() {
            res.push(clone_value(&xs[i]));
        } else {
            res.push(clone_value(&ys[i]));
        }
        i += 1;
    }
    proof {
        assert(bc_add_ok(views(xs@), views(ys@)));
        assert(views(res@) =~= bc_add_map(views(xs@), views(ys@)));
    }
    Some(res)
}

/// The executable broadcast difference of two element vectors.
fn bc_sub_exec(xs: &Vec<Value>, ys: &Vec<Value>) -> (r: Option<Vec<Value>>)
    ensures
        match r {
            Some(res) => bc_sub_ok(views(xs@), views(ys@)) && views(res@) == bc_sub_map(
                views(xs@),
                views(ys@),
            ),
            None => !bc_sub_ok(views(xs@), views(ys@)),
        },
    decreases xs, 0int,
{
    let n = if xs.len() >= ys.len() {
        xs.len()
    } else {
        ys.len()
    };
    let mut res: Vec<Value> = Vec::new();
    let mut i: usize = 0;
    while i < n
        invariant
            i <= n,
            n == if xs@.len() >= ys@.len() {
                xs@.len()
            } else {
                ys@.len()
            },
            res@.len() == i,
            forall|j: int|
                0 <= j < i && j < xs@.len() && j < ys@.len() ==> sub_sp(
                    #[trigger] views(xs@)[j],
                    views(ys@)[j],
                ) is Some,
            forall|j: int|
                0 <= j < i ==> vview(#[trigger] res@[j]) == bc_sub_map(views(xs@), views(ys@))[j],
        decreases n - i,
    {
        proof {
            if i < xs@.len() {
                assert(views(xs@)[i as int] == vview(xs@[i as int]));
            }
            if i < ys@.len() {
                assert(views(ys@)[i as int] == vview(ys@[i as int]));
            }
        }
        if i < xs.len() && i < ys.len() {
            match static_sub(&xs[i], &ys[i]) {
                Some(z) => {
                    res.push(z);
                },
                None => {
                    proof {
                        assert(!bc_sub_ok(views(xs@), views(ys@))) by {
                            assert(sub_sp(views(xs@)[i as int], views(ys@)[i as int]) is None);
                        }
                    }
                    return None;
                },
            }
        } else if i < xs.len() {
            res.push(clone_value(&xs[i]));
        } else {
            res.push(clone_value(&ys[i]));
        }
        i += 1;
    }
    proof {
        assert(bc_sub_ok(views(xs@), views(ys@)));
        assert(views(res@) =~= bc_sub_map(views(xs@), views(ys@)));
    }
    Some(res)
}


/// A block operand contributes its final value to arithmetic folding.
pub open spec fn unblock(v: ValueView) -> ValueView {
    match v {
        ValueView::Block(xs) => if xs.len() > 0 {
            xs.last()
        } else {
            v
        },
        _ => v,
    }
}

/// Takes the final value out of a block operand, copying it.
pub fn unblock_ref(v: &Value) -> (r: Value)
    ensures
        r@ == unblock(v@),
{
    match v {
        Value::Block(xs) => {
            if xs.len() > 0 {
                let r = clone_value(&xs[xs.len() - 1]);
                proof {
                    assert(views(xs@).last() == vview(xs@[xs@.len() - 1]));
                }
                r
            } else {
                clone_value(v)
            }
        },
        _ => clone_value(v),
    }
}

/// Does every gathered index land?
pub open spec fn pick_ok(arr: ValueView, ys: Seq<ValueView>) -> bool
    decreases ys, 0int,
{
    forall|i: int| 0 <= i < ys.len() ==> pick_sp(arr, #[trigger] ys[i]) is Some
}

/// The gathered sub-array of the picks at every listed index.
pub open spec fn pick_map(arr: ValueView, ys: Seq<ValueView>) -> Seq<ValueView>
    decreases ys, 0int,
{
    Seq::new(
        ys.len(),
        |i: int|
            if 0 <= i < ys.len() {
                pick_sp(arr, ys[i]).unwrap()
            } else {
                ValueView::Undefined
            },
    )
}

/// The position a numeric index resolves to in a container of the given
/// length: a negative index counts from the end, and any index out of range
/// is a fatal error (`None`).
pub open spec fn pick_index(d: Decimal, len: nat) -> Option<nat> {
    let t = crate::num::spec_trunc(d);
    if t.0 && t.1 > 0 {
        if t.1 > len {
            None
        } else {
            Some((len - t.1) as nat)
        }
    } else {
        if t.1 >= len {
            None
        } else {
            Some(t.1)
        }
    }
}

/// Compile-time indexing of a static container.  A numeric index counts
/// from the end when negative, and out of range on either side it is a
/// fatal error (`None`); a string yields the indexed character.  An array
/// index gathers the picks at every listed position.  Any other index, and
/// any other container, gives the undefined value.
pub open spec fn pick_sp(arr: ValueView, idx: ValueView) -> Option<ValueView>
    decreases idx, 1int,
{
    match arr {
        ValueView::Array(xs) => match idx {
            ValueView::Number(d) => match pick_index(d, xs.len()) {
                Some(k) => Some(xs[k as int]),
                None => None,
            },
            ValueView::Array(ys) => if pick_ok(arr, ys) {
                Some(ValueView::Array(pick_map(arr, ys)))
            } else {
                None
            },
            _ => Some(ValueView::Undefined),
        },
        ValueView::String(s) => match idx {
            ValueView::Number(d) => match pick_index(d, s.len()) {
                Some(k) => Some(ValueView::String(seq![s[k as int]])),
                None => None,
            },
            ValueView::Array(ys) => if pick_ok(arr, ys) {
                Some(ValueView::Array(pick_map(arr, ys)))
            } else {
                None
            },
            _ => Some(ValueView::Undefined),
        },
        _ => Some(ValueView::Undefined),
    }
}

/// Resolves a numeric index against a container length.
fn resolve_index(d: &Decimal, len: usize) -> (r: Option<usize>)
    ensures
        match r {
            Some(k) => pick_index(*d, len as nat) == Some(k as nat) && k < len,
            None => pick_index(*d, len as nat) is None,
        },
{
    let (neg, mag) = crate::num::dec_trunc(d);
    if neg && mag > 0 {
        if mag > len as u64 {
            None
        } else {
            Some(len - (mag as usize))
        }
    } else {
        if mag >= len as u64 {
            None
        } else {
            Some(mag as usize)
        }
    }
}

/// Folds an indexing of a static container; `None` is the fatal
/// out-of-range case.
pub fn static_pick(arr: &Value, idx: &Value) -> (r: Option<Value>)
    ensures
        (r is Some) == (pick_sp(arr@, idx@) is Some),
        r matches Some(v) ==> pick_sp(arr@, idx@) == Some(v@),
    decreases idx, 1int,
{
    match (arr, idx) {
        (Value::Array(xs), Value::Number(d)) => {
            match resolve_index(d, xs.len()) {
                Some(k) => {
                    let out = clone_value(&xs[k]);
                    proof {
                        assert(views(xs@)[k as int] == vview(xs@[k as int]));
                    }
                    Some(out)
                },
                None => None,
            }
        },
        (Value::String(s), Value::Number(d)) => {
            match resolve_index(d, s.len()) {
                Some(k) => {
                    let mut one: Vec<char> = Vec::new();
                    one.push(s[k]);
                    proof {
                        assert(one@ =~= seq![s@[k as int]]);
                    }
                    Some(Value::String(one))
                },
                None => None,
            }
        },
        (Value::Array(_), Value::Array(ys)) | (Value::String(_), Value::Array(ys)) => {
            match pick_gather(arr, ys) {
                Some(res) => {
                    proof {
                        assert(pick_sp(arr@, idx@) == Some(
                            ValueView::Array(pick_map(arr@, views(ys@))),
                        ));
                    }
                    Some(Value::Array(res))
                },
                None => {
                    proof {
                        assert(pick_sp(arr@, idx@) is None);
                    }
                    None
                },
            }
        },
        _ => Some(Value::Undefined),
    }
}

/// Gathers the picks at every index of an index array; `None` where one is
/// fatally out of range.
fn pick_gather(arr: &Value, ys: &Vec<Value>) -> (r: Option<Vec<Value>>)
    ensures
        match r {
            Some(res) => pick_ok(arr@, views(ys@)) && views(res@) == pick_map(arr@, views(ys@)),
            None => !pick_ok(arr@, views(ys@)),
        },
    decreases ys, 0int,
{
    let mut res: Vec<Value> = Vec::new();
    let mut i: usize = 0;
    while i < ys.len()
        invariant
            i <= ys@.len(),
            res@.len() == i,
            forall|j: int| 0 <= j < i ==> pick_sp(arr@, #[trigger] views(ys@)[j]) is Some,
            forall|j: int|
                0 <= j < i ==> vview(#[trigger] res@[j]) == pick_map(arr@, views(ys@))[j],
        decreases ys@.len() - i,
    {
        proof {
            assert(views(ys@)[i as int] == vview(ys@[i as int]));
        }
        match static_pick(arr, &ys[i]) {
            Some(z) => {
                res.push(z);
            },
            None => {
                proof {
                    assert(!pick_ok(arr@, views(ys@))) by {
                        assert(pick_sp(arr@, views(ys@)[i as int]) is None);
                    }
                }
                return None;
            },
        }
        i += 1;
    }
    proof {
        assert(pick_ok(arr@, views(ys@)));
        assert(views(res@) =~= pick_map(arr@, views(ys@)));
    }
    Some(res)
}

impl Value {
    /// Folds an operator node whose operands are static: comparisons and
    /// connectives become booleans, additions and subtractions their exact
    /// results.  Every other node, and any fold that would lose exactness,
    /// comes back unchanged.
    pub fn process(self) -> (r: Value)
        ensures
            r@ == process_spec(self@),
    {
        match self {
            Value::LogOp(a, b, op) => {
                if a.is_static() && b.is_static() {
                    match op {
                        LogicOp::More | LogicOp::Less | LogicOp::MoreEq | LogicOp::LessEq => {
                            let x = a.cast_num_static();
                            let y = b.cast_num_static();
                            match (x, y) {
                                (Some(dx), Some(dy)) => {
                                    let c = dec_cmp(&dx, &dy);
                                    let res = match op {
                                        LogicOp::More => matches!(c, Cmp::Greater),
                                        LogicOp::Less => matches!(c, Cmp::Less),
                                        LogicOp::MoreEq => !matches!(c, Cmp::Less),
                                        _ => !matches!(c, Cmp::Greater),
                                    };
                                    Value::Boolean(res)
                                },
                                _ => Value::LogOp(a, b, op),
                            }
                        },
                        LogicOp::Eq => Value::Boolean(value_eq(&a, &b)),
                        LogicOp::NotEq => Value::Boolean(!value_eq(&a, &b)),
                        LogicOp::Or | LogicOp::And => {
                            let x = a.cast_bool_static();
                            let y = b.cast_bool_static();
                            match (x, y) {
                                (Some(p), Some(q)) => Value::Boolean(
                                    if matches!(op, LogicOp::Or) {
                                        p || q
                                    } else {
                                        p && q
                                    },
                                ),
                                _ => Value::LogOp(a, b, op),
                            }
                        },
                    }
                } else {
                    Value::LogOp(a, b, op)
                }
            },
            Value::Not(x) => {
                if x.is_static() {
                    match x.cast_bool_static() {
                        Some(p) => Value::Boolean(!p),
                        None => Value::Not(x),
                    }
                } else {
                    Value::Not(x)
                }
            },
            Value::NumOp(a, b, op) => {
                if a.is_static() && b.is_static() {
                    match op {
                        MathOp::Add => {
                            let ua = unblock_ref(&a);
                            let ub = unblock_ref(&b);
                            match static_add(&ua, &ub) {
                                Some(r) => r,
                                None => Value::NumOp(a, b, op),
                            }
                        },
                        MathOp::Sub => {
                            let ua = unblock_ref(&a);
                            let ub = unblock_ref(&b);
                            match static_sub(&ua, &ub) {
                                Some(r) => r,
                                None => Value::NumOp(a, b, op),
                            }
                        },
                        _ => Value::NumOp(a, b, op),
                    }
                } else {
                    Value::NumOp(a, b, op)
                }
            },
            other => other,
        }
    }
}

/// The compile-time fold of one node: operators on static operands become
/// their results; everything else stands.
pub open spec fn process_spec(v: ValueView) -> ValueView {
    match v {
        ValueView::LogOp(a, b, op) => if is_static_v(*a) && is_static_v(*b) {
            match op {
                LogicOp::More | LogicOp::Less | LogicOp::MoreEq | LogicOp::LessEq => {
                    match (cast_num_val(*a), cast_num_val(*b)) {
                        (Some(x), Some(y)) => ValueView::Boolean(
                            match op {
                                LogicOp::More => x > y,
                                LogicOp::Less => x < y,
                                LogicOp::MoreEq => x >= y,
                                _ => x <= y,
                            },
                        ),
                        _ => v,
                    }
                },
                LogicOp::Eq => ValueView::Boolean(sem_eq(*a, *b)),
                LogicOp::NotEq => ValueView::Boolean(!sem_eq(*a, *b)),
                LogicOp::Or | LogicOp::And => {
                    match (cast_bool_val(*a), cast_bool_val(*b)) {
                        (Some(p), Some(q)) => ValueView::Boolean(
                            if op == LogicOp::Or {
                                p || q
                            } else {
                                p && q
                            },
                        ),
                        _ => v,
                    }
                },
            }
        } else {
            v
        },
        ValueView::Not(x) => if is_static_v(*x) {
            match cast_bool_val(*x) {
                Some(p) => ValueView::Boolean(!p),
                None => v,
            }
        } else {
            v
        },
        ValueView::NumOp(a, b, op) => if is_static_v(*a) && is_static_v(*b) {
            match op {
                MathOp::Add => match add_sp(unblock(*a), unblock(*b)) {
                    Some(r) => r,
                    None => v,
                },
                MathOp::Sub => match sub_sp(unblock(*a), unblock(*b)) {
                    Some(r) => r,
                    None => v,
                },
                _ => v,
            }
        } else {
            v
        },
        _ => v,
    }
}


/// Constant folding of a comparison is sound: where both operands are
/// static and cast to numbers, the folded boolean is exactly the ordering
/// of those numeric values, as the runtime would compute it.
pub proof fn lemma_fold_compare(a: ValueView, b: ValueView, op: LogicOp)
    requires
        is_static_v(a),
        is_static_v(b),
        cast_num_val(a) is Some,
        cast_num_val(b) is Some,
        op == LogicOp::More || op == LogicOp::Less || op == LogicOp::MoreEq || op
            == LogicOp::LessEq,
    ensures
        process_spec(ValueView::LogOp(Box::new(a), Box::new(b), op)) == ValueView::Boolean(
            match op {
                LogicOp::More => cast_num_val(a).unwrap() > cast_num_val(b).unwrap(),
                LogicOp::Less => cast_num_val(a).unwrap() < cast_num_val(b).unwrap(),
                LogicOp::MoreEq => cast_num_val(a).unwrap() >= cast_num_val(b).unwrap(),
                _ => cast_num_val(a).unwrap() <= cast_num_val(b).unwrap(),
            },
        ),
{
}

/// Constant folding of equality is sound: the folded boolean is structural
/// equality of the static operands, numbers compared by value.
pub proof fn lemma_fold_equality(a: ValueView, b: ValueView)
    requires
        is_static_v(a),
        is_static_v(b),
    ensures
        process_spec(ValueView::LogOp(Box::new(a), Box::new(b), LogicOp::Eq))
            == ValueView::Boolean(sem_eq(a, b)),
        process_spec(ValueView::LogOp(Box::new(a), Box::new(b), LogicOp::NotEq))
            == ValueView::Boolean(!sem_eq(a, b)),
{
}

/// Constant folding of the boolean connectives is sound with respect to the
/// runtime boolean cast of the operands.
pub proof fn lemma_fold_connectives(a: ValueView, b: ValueView)
    requires
        is_static_v(a),
        is_static_v(b),
        cast_bool_val(a) is Some,
        cast_bool_val(b) is Some,
    ensures
        process_spec(ValueView::LogOp(Box::new(a), Box::new(b), LogicOp::And))
            == ValueView::Boolean(cast_bool_val(a).unwrap() && cast_bool_val(b).unwrap()),
        process_spec(ValueView::LogOp(Box::new(a), Box::new(b), LogicOp::Or))
            == ValueView::Boolean(cast_bool_val(a).unwrap() || cast_bool_val(b).unwrap()),
{
}

/// Constant folding of negation is sound.
pub proof fn lemma_fold_negation(a: ValueView)
    requires
        is_static_v(a),
        cast_bool_val(a) is Some,
    ensures
        process_spec(ValueView::Not(Box::new(a))) == ValueView::Boolean(
            !cast_bool_val(a).unwrap(),
        ),
{
}

/// Constant folding of numeric addition and subtraction is exact: where the
/// folded node is a number, its value is the exact sum or difference of the
/// operand values.
pub proof fn lemma_fold_arith(x: Decimal, y: Decimal)
    ensures
        crate::num::add_vals(x, y) matches Some(d) ==> process_spec(
            ValueView::NumOp(
                Box::new(ValueView::Number(x)),
                Box::new(ValueView::Number(y)),
                MathOp::Add,
            ),
        ) == ValueView::Number(d) && d.val() == x.val() + y.val(),
        crate::num::sub_vals(x, y) matches Some(d) ==> process_spec(
            ValueView::NumOp(
                Box::new(ValueView::Number(x)),
                Box::new(ValueView::Number(y)),
                MathOp::Sub,
            ),
        ) == ValueView::Number(d) && d.val() == x.val() - y.val(),
{
    if crate::num::add_vals(x, y) is Some {
        crate::num::lemma_canon_val(x.val() + y.val() < 0, crate::num::abs_sum(x, y));
    }
    if crate::num::sub_vals(x, y) is Some {
        crate::num::lemma_dec_neg_val(y);
        crate::num::lemma_canon_val(
            x.val() + crate::num::dec_neg_spec(y).val() < 0,
            crate::num::abs_sum(x, crate::num::dec_neg_spec(y)),
        );
    }
}

/// Array addition broadcasts: the sum has the longer length, sums the
/// elements where both sides reach, and keeps the longer tail unchanged.
pub proof fn lemma_broadcast_add(xs: Seq<ValueView>, ys: Seq<ValueView>)
    requires
        bc_add_ok(xs, ys),
    ensures
        add_sp(ValueView::Array(xs), ValueView::Array(ys)) matches Some(r) && r matches
            ValueView::Array(zs) && zs.len() == (if xs.len() >= ys.len() {
            xs.len()
        } else {
            ys.len()
        }) && (forall|i: int|
            0 <= i < xs.len() && i < ys.len() ==> zs[i] == add_sp(
                #[trigger] xs[i],
                ys[i],
            ).unwrap()) && (forall|i: int|
            ys.len() <= i < xs.len() ==> zs[i] == #[trigger] xs[i]) && (forall|i: int|
            xs.len() <= i < ys.len() ==> zs[i] == #[trigger] ys[i]),
{
}

/// Adding a string to an array joins the array's displayed elements with
/// the string as the separator, and symmetrically.
pub proof fn lemma_join_string(xs: Seq<ValueView>, sep: Seq<char>)
    ensures
        add_sp(ValueView::String(sep), ValueView::Array(xs)) == Some(
            ValueView::String(join_pre(xs, sep, xs.len() as int)),
        ),
        add_sp(ValueView::Array(xs), ValueView::String(sep)) == Some(
            ValueView::String(join_pre(xs, sep, xs.len() as int)),
        ),
{
}

/// A negative index counts from the end: minus one picks the last element,
/// and an index below the start of the array is a fatal error.
pub proof fn lemma_negative_indexing(xs: Seq<ValueView>, d: Decimal)
    requires
        crate::num::spec_trunc(d).0,
        crate::num::spec_trunc(d).1 > 0,
    ensures
        crate::num::spec_trunc(d).1 <= xs.len() ==> pick_sp(
            ValueView::Array(xs),
            ValueView::Number(d),
        ) == Some(xs[xs.len() - crate::num::spec_trunc(d).1]),
        crate::num::spec_trunc(d).1 > xs.len() ==> pick_sp(
            ValueView::Array(xs),
            ValueView::Number(d),
        ) is None,
{
}

/// An index at or past the end of the array is a fatal error at the
/// container level, like the below-start side.
pub proof fn lemma_index_past_end(xs: Seq<ValueView>, d: Decimal)
    requires
        !(crate::num::spec_trunc(d).0 && crate::num::spec_trunc(d).1 > 0),
        crate::num::spec_trunc(d).1 >= xs.len(),
    ensures
        pick_sp(ValueView::Array(xs), ValueView::Number(d)) is None,
{
}

} // verus!

