//! The code generator.
//!
//! Lowers a finished instruction sequence to source text of the target
//! language, against a dynamic tagged-value runtime.  An emission mode says
//! how a computed value surfaces: pushed on the runtime operand stack,
//! returned from a function, assigned to an accumulator, breaking a labelled
//! block, or standing bare inside an enclosing expression.  A generator-local
//! kind table tells plain bindings, read by copy, from reference bindings,
//! read and written through a lock; every declared function parameter is a
//! reference binding, which is what makes argument mutation visible to the
//! caller.

use vstd::prelude::*;

use crate::chars::{chars_eq, chars_eq_str, copy_chars, push_chars, push_str};
use crate::fold::is_static_array;
use crate::numfmt::{dec_literal, literal_decimal};
use crate::value::{views, vview, LogicOp, MathOp, Value, ValueView};

verus! {

/// How a lowered value surfaces.
#[derive(Clone, Copy, PartialEq, Eq, Structural, Debug)]
pub enum EmitMode {
    /// Pushed onto the runtime operand stack as a statement.
    Push,
    /// Returned from the enclosing generated function.
    Return,
    /// Assigned into the accumulator variable.
    Assign,
    /// Breaks the enclosing labelled block with the value.
    BlockExit,
    /// A bare nested expression.
    Bare,
}

/// What kind of storage a generated binding has.
#[derive(Clone, Copy, PartialEq, Eq, Structural, Debug)]
pub enum BindKind {
    /// A by-value local.
    Plain,
    /// A shared, lock-guarded cell; function parameters are these.
    Reference,
    /// A declared function.
    Function,
}

/// The generator-local table of binding kinds.
pub struct KindTable {
    entries: Vec<(Vec<char>, BindKind)>,
}

/// The mapping a kind list denotes: entries applied left to right.
pub open spec fn kind_map_of(entries: Seq<(Vec<char>, BindKind)>) -> Map<Seq<char>, BindKind>
    decreases entries.len(),
{
    if entries.len() == 0 {
        Map::empty()
    } else {
        kind_map_of(entries.drop_last()).insert(entries.last().0@, entries.last().1)
    }
}

impl View for KindTable {
    type V = Map<Seq<char>, BindKind>;

    closed spec fn view(&self) -> Map<Seq<char>, BindKind> {
        kind_map_of(self.entries@)
    }
}

/// Keys and meanings of a kind list: a key is present exactly when some
/// entry carries it, and the last such entry gives its kind.
proof fn lemma_kind_map(entries: Seq<(Vec<char>, BindKind)>, k: Seq<char>)
    ensures
        kind_map_of(entries).dom().contains(k) <==> exists|j: int|
            0 <= j < entries.len() && entries[j].0@ == k,
        forall|j: int|
            0 <= j < entries.len() && entries[j].0@ == k && (forall|l: int|
                j < l < entries.len() ==> entries[l].0@ != k) ==> kind_map_of(entries)[k]
                == entries[j].1,
    decreases entries.len(),
{
    if entries.len() > 0 {
        let prefix = entries.drop_last();
        lemma_kind_map(prefix, k);
        if entries.last().0@ == k {
            assert(entries[entries.len() - 1].0@ == k);
        } else {
            if kind_map_of(entries).dom().contains(k) {
                let j = choose|j: int| 0 <= j < prefix.len() && prefix[j].0@ == k;
                assert(entries[j].0@ == k);
            }
            if exists|j: int| 0 <= j < entries.len() && entries[j].0@ == k {
                let j = choose|j: int| 0 <= j < entries.len() && entries[j].0@ == k;
                assert(prefix[j].0@ == k);
            }
        }
        assert forall|j: int|
            0 <= j < entries.len() && entries[j].0@ == k && (forall|l: int|
                j < l < entries.len() ==> entries[l].0@ != k) implies kind_map_of(entries)[k]
            == entries[j].1 by {
            if j < entries.len() - 1 {
                assert(entries[entries.len() - 1].0@ != k);
                assert(prefix[j].0@ == k);
                assert(forall|l: int| j < l < prefix.len() ==> prefix[l].0@ != k);
            }
        }
    }
}

impl KindTable {
    /// An empty table.
    pub fn new() -> (t: KindTable)
        ensures
            t@ == Map::<Seq<char>, BindKind>::empty(),
    {
        KindTable { entries: Vec::new() }
    }

    /// Looks a name up; the latest entry wins.
    pub fn get(&self, name: &Vec<char>) -> (r: Option<BindKind>)
        ensures
            match r {
                Some(k) => self@.dom().contains(name@) && k == self@[name@],
                None => !self@.dom().contains(name@),
            },
    {
        let mut i: usize = self.entries.len();
        while i > 0
            invariant
                i <= self.entries@.len(),
                forall|l: int| i <= l < self.entries@.len() ==> self.entries@[l].0@ != name@,
            decreases i,
        {
            i -= 1;
            if chars_eq(&self.entries[i].0, name) {
                proof {
                    lemma_kind_map(self.entries@, name@);
                }
                return Some(self.entries[i].1);
            }
        }
        proof {
            lemma_kind_map(self.entries@, name@);
        }
        None
    }

    /// Binds a name to a kind.
    pub fn insert(&mut self, name: Vec<char>, kind: BindKind)
        ensures
            final(self)@ == old(self)@.insert(name@, kind),
    {
        self.entries.push((name, kind));
        proof {
            assert(self.entries@.drop_last() =~= old(self).entries@);
        }
    }

    /// A copy for a nested scope, so inner declarations stay inner.
    pub fn child(&self) -> (t: KindTable)
        ensures
            t@ == self@,
    {
        let mut entries: Vec<(Vec<char>, BindKind)> = Vec::new();
        let mut i: usize = 0;
        while i < self.entries.len()
            invariant
                i <= self.entries@.len(),
                entries@.len() == i,
                forall|j: int|
                    0 <= j < i ==> entries@[j].0@ == self.entries@[j].0@ && entries@[j].1
                        == self.entries@[j].1,
            decreases self.entries@.len() - i,
        {
            entries.push((copy_chars(&self.entries[i].0), self.entries[i].1));
            i += 1;
        }
        let t = KindTable { entries };
        proof {
            lemma_kind_map_congruence(t.entries@, self.entries@);
        }
        t
    }
}

/// Kind lists whose entries agree pointwise denote the same mapping.
proof fn lemma_kind_map_congruence(a: Seq<(Vec<char>, BindKind)>, b: Seq<(Vec<char>, BindKind)>)
    requires
        a.len() == b.len(),
        forall|j: int| 0 <= j < a.len() ==> a[j].0@ == b[j].0@ && a[j].1 == b[j].1,
    ensures
        kind_map_of(a) == kind_map_of(b),
    decreases a.len(),
{
    if a.len() > 0 {
        lemma_kind_map_congruence(a.drop_last(), b.drop_last());
    }
}

/// The text of a target-language number literal carrying this value.
pub open spec fn number_literal_text(d: crate::num::Decimal) -> Seq<char> {
    "Value::Number("@ + dec_literal(crate::fold::clamped(d)) + ")"@
}

/// The reference-read expression of a parameter or reference binding: the
/// cell is cloned out rather than moved, so every holder keeps the cell.
pub open spec fn ref_arg_text(name: Seq<char>) -> Seq<char> {
    "_v_"@ + name + ".clone_ref()"@
}

/// The lock-guarded write statement of a reference binding: the cell is
/// reopened and its contents replaced, so the caller sees the new value.
pub open spec fn ref_assign_text(name: Seq<char>, value: Seq<char>) -> Seq<char> {
    "*_v_"@ + name + ".lock() = "@ + value + ";"@
}

/// The name under a reference-to-binding node, if that is what this is.
pub open spec fn ref_get_name(v: ValueView) -> Option<Seq<char>> {
    match v {
        ValueView::Ref(inner) => match *inner {
            ValueView::Get(n) => Some(n),
            _ => None,
        },
        _ => None,
    }
}

/// The name a reference assignment writes to.
pub open spec fn ref_assign_name(v: ValueView) -> Seq<char> {
    match v {
        ValueView::RefAssign(n, _) => n,
        _ => Seq::empty(),
    }
}

/// Writes a number as a target literal expression.
fn emit_number(d: &crate::num::Decimal) -> (r: Vec<char>)
    ensures
        r@ == number_literal_text(*d),
{
    let mut out: Vec<char> = Vec::new();
    push_str(&mut out, "Value::Number(");
    let c = crate::num::dec_clamp(d);
    proof {
        assert(c == crate::fold::clamped(*d));
    }
    let lit = literal_decimal(&c);
    push_chars(&mut out, &lit);
    push_str(&mut out, ")");
    proof {
        assert(out@ =~= number_literal_text(*d));
    }
    out
}

/// Writes the argument expression a call passes for one operand: a
/// reference to a named binding is passed by cloning the reference, and
/// anything else is wrapped into a fresh cell.
pub fn parse_value_as_ref(v: &Value, binds: &mut KindTable) -> (r: Vec<char>)
    ensures
        r@ == arg_text(v@, old(binds)@),
        ref_get_name(v@) is Some ==> r@ == ref_arg_text(ref_get_name(v@).unwrap()),
        final(binds)@ == old(binds)@,
    decreases v, 2int,
{
    let ghost m0 = binds@;
    match v {
        Value::Ref(inner) => match &**inner {
            Value::Get(name) => {
                let mut out: Vec<char> = Vec::new();
                push_str(&mut out, "_v_");
                push_chars(&mut out, name);
                push_str(&mut out, ".clone_ref()");
                proof {
                    assert(v@ == ValueView::Ref(Box::new(vview(**inner))));
                    assert(vview(**inner) == ValueView::Get(name@));
                    assert(out@ =~= ref_arg_text(name@));
                    assert(out@ == arg_text(v@, m0));
                }
                out
            },
            _ => {
                let mut out: Vec<char> = Vec::new();
                push_str(&mut out, "nvar!(");
                let t = unwrap_typed(v, binds);
                push_chars(&mut out, &t);
                push_str(&mut out, ")");
                proof {
                    assert(out@ =~= arg_text(v@, m0));
                }
                out
            },
        },
        _ => {
            let mut out: Vec<char> = Vec::new();
            push_str(&mut out, "nvar!(");
            let t = unwrap_typed(v, binds);
            push_chars(&mut out, &t);
            push_str(&mut out, ")");
            proof {
                assert(out@ =~= arg_text(v@, m0));
            }
            out
        },
    }
}

/// Writes an expression that reads a value as a number of the host
/// language.
pub fn convert_number(v: &Value, binds: &mut KindTable) -> (r: Vec<char>)
    ensures
        r@ == num_text(v@, old(binds)@),
        final(binds)@ == old(binds)@,
    decreases v, 2int,
{
    let ghost m0 = binds@;
    match v {
        Value::NumOp(_, _, _) | Value::Number(_) => {
            let r = match unwrap_instruction(v, binds) {
                Some(t) => t,
                None => Vec::new(),
            };
            proof {
                assert(r@ =~= num_text(v@, m0));
            }
            r
        },
        Value::String(_) | Value::Array(_) => {
            let mut out: Vec<char> = Vec::new();
            match unwrap_instruction(v, binds) {
                Some(t) => {
                    push_chars(&mut out, &t);
                },
                None => {},
            }
            push_str(&mut out, ".len() as f64");
            proof {
                assert(out@ =~= num_text(v@, m0));
            }
            out
        },
        _ => {
            let mut out = unwrap_typed(v, binds);
            push_str(&mut out, ".cast_float()");
            proof {
                assert(out@ =~= num_text(v@, m0));
            }
            out
        },
    }
}

/// The text of one operator of the target language.
fn math_op_str(op: &MathOp) -> (r: &'static str)
    ensures
        r@ == math_op_text(*op),
{
    match op {
        MathOp::Add => "+",
        MathOp::Sub => "-",
        MathOp::Div => "/",
        MathOp::Mul => "*",
        MathOp::Mod => "%",
        MathOp::BitShiftLeft => "<<",
        MathOp::BitShiftRight => ">>",
    }
}

/// The text of one comparison or connective of the target language.
fn logic_op_str(op: &LogicOp) -> (r: &'static str)
    ensures
        r@ == logic_op_text(*op),
{
    match op {
        LogicOp::More => ">",
        LogicOp::Less => "<",
        LogicOp::MoreEq => ">=",
        LogicOp::LessEq => "<=",
        LogicOp::NotEq => "!=",
        LogicOp::Eq => "==",
        LogicOp::Or => "||",
        LogicOp::And => "&&",
    }
}

/// Writes a value as a bare host expression, untagged where the host type
/// is plain.
pub fn unwrap_instruction(v: &Value, binds: &mut KindTable) -> (r: Option<Vec<char>>)
    ensures
        (r is Some) == (bare_text(v@, old(binds)@) is Some),
        r matches Some(t) ==> t@ == bare_text(v@, old(binds)@).unwrap(),
        final(binds)@ == old(binds)@,
    decreases v, 0int,
{
    let ghost m0 = binds@;
    match v {
        Value::Number(d) => {
            let c = crate::num::dec_clamp(d);
            proof {
                assert(c == crate::fold::clamped(*d));
            }
            Some(literal_decimal(&c))
        },
        Value::String(s) => {
            let mut out: Vec<char> = Vec::new();
            out.push('"');
            push_chars(&mut out, s);
            push_str(&mut out, "\".to_string()");
            proof {
                assert(out@ =~= bare_text(v@, m0).unwrap());
            }
            Some(out)
        },
        Value::Boolean(b) => {
            let mut out: Vec<char> = Vec::new();
            if *b {
                push_str(&mut out, "true");
            } else {
                push_str(&mut out, "false");
            }
            proof {
                assert(out@ =~= bare_text(v@, m0).unwrap());
            }
            Some(out)
        },
        Value::NumOp(a, b, op) => {
            let mut out: Vec<char> = Vec::new();
            let is_shift = matches!(op, MathOp::BitShiftLeft | MathOp::BitShiftRight);
            let ta = convert_number(a, binds);
            let tb = convert_number(b, binds);
            if is_shift {
                push_str(&mut out, "(((");
                push_chars(&mut out, &ta);
                push_str(&mut out, " as i64) ");
                push_str(&mut out, math_op_str(op));
                push_str(&mut out, " (");
                push_chars(&mut out, &tb);
                push_str(&mut out, " as i64)) as f64)");
            } else {
                out.push('(');
                push_chars(&mut out, &ta);
                out.push(' ');
                push_str(&mut out, math_op_str(op));
                out.push(' ');
                push_chars(&mut out, &tb);
                out.push(')');
            }
            proof {
                assert(out@ =~= bare_text(v@, m0).unwrap());
            }
            Some(out)
        },
        Value::LogOp(a, b, op) => {
            let numeric = matches!(
                op,
                LogicOp::More | LogicOp::Less | LogicOp::MoreEq | LogicOp::LessEq,
            );
            let ta = if numeric {
                convert_number(a, binds)
            } else {
                unwrap_typed(a, binds)
            };
            let tb = if numeric {
                convert_number(b, binds)
            } else {
                unwrap_typed(b, binds)
            };
            let mut out: Vec<char> = Vec::new();
            out.push('(');
            push_chars(&mut out, &ta);
            out.push(' ');
            push_str(&mut out, logic_op_str(op));
            out.push(' ');
            push_chars(&mut out, &tb);
            out.push(')');
            proof {
                assert(out@ =~= bare_text(v@, m0).unwrap());
            }
            Some(out)
        },
        Value::Not(a) => {
            let mut out: Vec<char> = Vec::new();
            push_str(&mut out, "!(");
            match unwrap_instruction(a, binds) {
                Some(t) => {
                    push_chars(&mut out, &t);
                },
                None => {},
            }
            out.push(')');
            proof {
                assert(out@ =~= bare_text(v@, m0).unwrap());
            }
            Some(out)
        },
        Value::Get(name) => {
            let mut out: Vec<char> = Vec::new();
            push_str(&mut out, "_v_");
            push_chars(&mut out, name);
            proof {
                assert(out@ =~= bare_text(v@, m0).unwrap());
            }
            Some(out)
        },
        Value::Ref(x) => {
            if let Value::Get(name) = &**x {
                let mut out: Vec<char> = Vec::new();
                push_str(&mut out, "_v_");
                push_chars(&mut out, name);
                proof {
                    assert(vview(**x) == ValueView::Get(name@));
                    assert(out@ =~= bare_text(v@, m0).unwrap());
                }
                Some(out)
            } else {
                let mut out: Vec<char> = Vec::new();
                push_str(&mut out, "nvar!(");
                let inner = unwrap_typed(x, binds);
                push_chars(&mut out, &inner);
                out.push(')');
                proof {
                    assert(out@ =~= bare_text(v@, m0).unwrap());
                }
                Some(out)
            }
        },
        Value::Call(name, args) => {
            let mut out: Vec<char> = Vec::new();
            push_str(&mut out, "_f_");
            push_chars(&mut out, name);
            out.push('(');
            emit_call_args(&mut out, args, binds);
            out.push(')');
            proof {
                assert(out@ =~= bare_text(v@, m0).unwrap());
            }
            Some(out)
        },
        Value::Array(body) => {
            let out = emit_array_bare(body, binds);
            proof {
                assert(out@ == bare_text(v@, m0).unwrap());
            }
            Some(out)
        },
        Value::Type(a) => {
            let mut out = unwrap_typed(a, binds);
            push_str(&mut out, ".cast_type()");
            proof {
                assert(out@ =~= bare_text(v@, m0).unwrap());
            }
            Some(out)
        },
        _ => None,
    }
}

/// Writes a value as a tagged host expression.
pub fn unwrap_typed(v: &Value, binds: &mut KindTable) -> (r: Vec<char>)
    ensures
        r@ == typed_text(v@, old(binds)@),
        final(binds)@ == old(binds)@,
    decreases v, 1int,
{
    let ghost m0 = binds@;
    match v {
        Value::Number(d) => emit_number(d),
        Value::String(_) => {
            let mut out: Vec<char> = Vec::new();
            push_str(&mut out, "Value::String(");
            match unwrap_instruction(v, binds) {
                Some(t) => {
                    push_chars(&mut out, &t);
                },
                None => {},
            }
            out.push(')');
            proof {
                assert(out@ =~= typed_text(v@, m0));
            }
            out
        },
        Value::Boolean(_) => {
            let mut out: Vec<char> = Vec::new();
            push_str(&mut out, "Value::Boolean(");
            match unwrap_instruction(v, binds) {
                Some(t) => {
                    push_chars(&mut out, &t);
                },
                None => {},
            }
            out.push(')');
            proof {
                assert(out@ =~= typed_text(v@, m0));
            }
            out
        },
        Value::Get(name) => {
            let mut out: Vec<char> = Vec::new();
            push_str(&mut out, "_v_");
            push_chars(&mut out, name);
            push_str(&mut out, ".clone()");
            proof {
                assert(out@ =~= typed_text(v@, m0));
            }
            out
        },
        Value::LogOp(_, _, _) | Value::Not(_) => {
            let mut out: Vec<char> = Vec::new();
            push_str(&mut out, "Value::Boolean(");
            match unwrap_instruction(v, binds) {
                Some(t) => {
                    push_chars(&mut out, &t);
                },
                None => {},
            }
            out.push(')');
            proof {
                assert(out@ =~= typed_text(v@, m0));
            }
            out
        },
        Value::NumOp(a, b, op) => {
            let bare_a = matches!(
                &**a,
                Value::Get(_) | Value::NumOp(_, _, _) | Value::LogOp(_, _, _),
            );
            let bare_b = matches!(
                &**b,
                Value::Get(_) | Value::NumOp(_, _, _) | Value::LogOp(_, _, _),
            );
            proof {
                assert(bare_a == bare_kind(vview(**a)));
                assert(bare_b == bare_kind(vview(**b)));
            }
            if bare_a || bare_b {
                let mut out: Vec<char> = Vec::new();
                out.push('(');
                let ta = unwrap_typed(a, binds);
                push_chars(&mut out, &ta);
                out.push(' ');
                push_str(&mut out, math_op_str(op));
                out.push(' ');
                let tb = unwrap_typed(b, binds);
                push_chars(&mut out, &tb);
                out.push(')');
                proof {
                    assert(out@ =~= typed_text(v@, m0));
                }
                out
            } else {
                let mut out: Vec<char> = Vec::new();
                push_str(&mut out, "Value::Number(");
                match unwrap_instruction(v, binds) {
                    Some(t) => {
                        push_chars(&mut out, &t);
                    },
                    None => {},
                }
                out.push(')');
                proof {
                    assert(out@ =~= typed_text(v@, m0));
                }
                out
            }
        },
        Value::Array(body) => {
            let is_static = is_static_array(body);
            let t = emit_array_bare(body, binds);
            let mut out: Vec<char> = Vec::new();
            if is_static {
                push_str(&mut out, "Value::Arr(");
                push_chars(&mut out, &t);
                out.push(')');
            } else {
                push_chars(&mut out, &t);
            }
            proof {
                assert(out@ =~= typed_text(v@, m0));
            }
            out
        },
        Value::Call(_, _) => {
            let r = match unwrap_instruction(v, binds) {
                Some(t) => t,
                None => Vec::new(),
            };
            proof {
                assert(r@ =~= typed_text(v@, m0));
            }
            r
        },
        Value::Block(body) => {
            let mut out: Vec<char> = Vec::new();
            push_str(&mut out, "'block: { ");
            let mut child = binds.child();
            let items = instructions_to_code(body, &mut child, EmitMode::BlockExit);
            push_joined(&mut out, &items, "\n");
            push_str(&mut out, " break 'block Value::Empty; }");
            proof {
                assert(out@ =~= typed_text(v@, m0));
            }
            out
        },
        Value::Dict(ks, vs) => {
            let mut out: Vec<char> = Vec::new();
            push_str(&mut out, "Value::Dict(dict(");
            let ka = emit_array_bare(ks, binds);
            push_chars(&mut out, &ka);
            push_str(&mut out, ", ");
            let va = emit_array_bare(vs, binds);
            push_chars(&mut out, &va);
            push_str(&mut out, "))");
            proof {
                assert(out@ =~= typed_text(v@, m0));
            }
            out
        },
        Value::Pick(arr, index) => {
            let mut out = unwrap_typed(arr, binds);
            out.push('[');
            let ti = unwrap_typed(index, binds);
            push_chars(&mut out, &ti);
            push_str(&mut out, "].clone()");
            proof {
                assert(out@ =~= typed_text(v@, m0));
            }
            out
        },
        Value::Type(_) => {
            let mut out: Vec<char> = Vec::new();
            push_str(&mut out, "Value::String(");
            match unwrap_instruction(v, binds) {
                Some(t) => {
                    push_chars(&mut out, &t);
                },
                None => {},
            }
            out.push(')');
            proof {
                assert(out@ =~= typed_text(v@, m0));
            }
            out
        },
        Value::RustReturnableBinding(parts) => {
            let mut out: Vec<char> = Vec::new();
            push_str(&mut out, "{ ");
            let mut child = binds.child();
            let t = convert_rust_binding(parts, &mut child);
            push_chars(&mut out, &t);
            push_str(&mut out, " }");
            proof {
                assert(out@ =~= typed_text(v@, m0));
            }
            out
        },
        Value::Ref(x) => {
            if let Value::Get(name) = &**x {
                let mut out: Vec<char> = Vec::new();
                push_str(&mut out, "Value::Ref(_v_");
                push_chars(&mut out, name);
                push_str(&mut out, ".clone_ref())");
                proof {
                    assert(vview(**x) == ValueView::Get(name@));
                    assert(out@ =~= typed_text(v@, m0));
                }
                out
            } else {
                let mut out: Vec<char> = Vec::new();
                push_str(&mut out, "Value::Ref(nvar!(");
                let t = unwrap_typed(x, binds);
                push_chars(&mut out, &t);
                push_str(&mut out, "))");
                proof {
                    assert(out@ =~= typed_text(v@, m0));
                }
                out
            }
        },
        _ => {
            let mut out: Vec<char> = Vec::new();
            push_str(&mut out, "Value::Undefined");
            proof {
                assert(out@ =~= typed_text(v@, m0));
            }
            out
        },
    }
}

/// Writes an array as a bare host expression: a literal vector where every
/// element is static, else a stack-collecting block.
fn emit_array_bare(body: &Vec<Value>, binds: &mut KindTable) -> (r: Vec<char>)
    ensures
        r@ == array_bare_text(views(body@), old(binds)@),
        final(binds)@ == old(binds)@,
    decreases body, 5int,
{
    let ghost m0 = binds@;
    let mut out: Vec<char> = Vec::new();
    if is_static_array(body) {
        push_str(&mut out, "vec![");
        let mut child = binds.child();
        let items = instructions_to_code(body, &mut child, EmitMode::Bare);
        push_joined(&mut out, &items, ", ");
        out.push(']');
        proof {
            assert(out@ =~= array_bare_text(views(body@), m0));
        }
    } else {
        push_str(&mut out, "{ let mut stack: Vec<Value> = vec![]; ");
        let mut child = binds.child();
        let items = instructions_to_code(body, &mut child, EmitMode::Push);
        push_joined(&mut out, &items, "\n");
        push_str(&mut out, " stack }");
        proof {
            assert(out@ =~= array_bare_text(views(body@), m0));
        }
    }
    out
}

/// Writes the comma-separated argument expressions of a generated call.
fn emit_call_args(out: &mut Vec<char>, args: &Vec<Value>, binds: &mut KindTable)
    ensures
        final(out)@ == old(out)@ + call_args_text(views(args@), old(binds)@, args@.len() as int),
        final(binds)@ == old(binds)@,
    decreases args, 3int,
{
    let ghost av = views(args@);
    let ghost m0 = binds@;
    let mut i: usize = 0;
    proof {
        assert(out@ + call_args_text(av, m0, 0) =~= out@);
    }
    while i < args.len()
        invariant
            i <= args@.len(),
            av == views(args@),
            m0 == old(binds)@,
            binds@ == m0,
            out@ == old(out)@ + call_args_text(av, m0, i as int),
        decreases args@.len() - i,
    {
        proof {
            assert(av[i as int] == vview(args@[i as int]));
        }
        if i > 0 {
            push_str(out, ", ");
        }
        let t = parse_value_as_ref(&args[i], binds);
        push_chars(out, &t);
        i += 1;
        proof {
            assert(out@ =~= old(out)@ + call_args_text(av, m0, i as int));
        }
    }
}

/// Joins text pieces with a separator.
fn push_joined(out: &mut Vec<char>, items: &Vec<Vec<char>>, sep: &str)
    ensures
        final(out)@ == old(out)@ + joined_pre(crate::value::name_views(items@), sep@),
{
    let ghost iv = crate::value::name_views(items@);
    let mut i: usize = 0;
    proof {
        assert(out@ + joined_k(iv, sep@, 0) =~= out@);
    }
    while i < items.len()
        invariant
            i <= items@.len(),
            iv == crate::value::name_views(items@),
            out@ == old(out)@ + joined_k(iv, sep@, i as int),
        decreases items@.len() - i,
    {
        proof {
            assert(iv[i as int] == items@[i as int]@);
        }
        if i > 0 {
            push_str(out, sep);
        }
        push_chars(out, &items[i]);
        i += 1;
        proof {
            assert(out@ =~= old(out)@ + joined_k(iv, sep@, i as int));
        }
    }
}

/// Writes the text of a string literal unescaped back into host code.
fn push_unescaped(out: &mut Vec<char>, a: &Vec<char>)
    ensures
        final(out)@ == old(out)@ + unesc(a@),
{
    let mut k: usize = 0;
    proof {
        assert(a@.skip(0) =~= a@);
    }
    while k < a.len()
        invariant
            k <= a@.len(),
            old(out)@ + unesc(a@) == out@ + unesc(a@.skip(k as int)),
        decreases a@.len() - k,
    {
        let ghost suf = a@.skip(k as int);
        if a[k] == '\\' && k + 1 < a.len() && a[k + 1] == '"' {
            out.push('"');
            k += 2;
            proof {
                assert(suf.skip(2) =~= a@.skip(k as int));
                assert(out@ + unesc(a@.skip(k as int)) =~= out@.drop_last() + unesc(suf));
            }
        } else {
            out.push(a[k]);
            k += 1;
            proof {
                assert(suf.skip(1) =~= a@.skip(k as int));
                assert(out@ + unesc(a@.skip(k as int)) =~= out@.drop_last() + unesc(suf));
            }
        }
    }
    proof {
        assert(a@.skip(a@.len() as int) =~= Seq::<char>::empty());
        assert(out@ + Seq::<char>::empty() =~= out@);
        assert(old(out)@ + unesc(a@) =~= out@ + unesc(a@.skip(a@.len() as int)));
    }
}

/// Writes the inline parts of an escape-to-host binding.
pub fn convert_rust_binding(parts: &Vec<Value>, binds: &mut KindTable) -> (r: Vec<char>)
    ensures
        r@ == rb_lower(views(parts@), old(binds)@, 0).0,
        final(binds)@ == rb_lower(views(parts@), old(binds)@, 0).1,
    decreases parts, 4int,
{
    let ghost pv = views(parts@);
    let ghost m0 = binds@;
    let mut out: Vec<char> = Vec::new();
    let mut i: usize = 0;
    proof {
        assert(out@ + rb_lower(pv, m0, 0).0 =~= rb_lower(pv, m0, 0).0);
    }
    while i < parts.len()
        invariant
            i <= parts@.len(),
            pv == views(parts@),
            m0 == old(binds)@,
            rb_lower(pv, m0, 0).0 == out@ + rb_lower(pv, binds@, i as int).0,
            rb_lower(pv, m0, 0).1 == rb_lower(pv, binds@, i as int).1,
        decreases parts@.len() - i,
    {
        let ghost mi = binds@;
        proof {
            assert(pv[i as int] == vview(parts@[i as int]));
        }
        match &parts[i] {
            Value::String(a) => {
                // the escaped quotes go back to plain quotes in host code
                push_unescaped(&mut out, a);
            },
            Value::Get(name) => {
                push_str(&mut out, "_v_");
                push_chars(&mut out, name);
            },
            Value::Ref(inner) => {
                if let Value::String(x) = &**inner {
                    out.push('"');
                    push_chars(&mut out, x);
                    out.push('"');
                    proof {
                        assert(vview(**inner) == ValueView::String(x@));
                    }
                } else {
                    match instruction_to_code(inner, binds, EmitMode::Bare) {
                        Some(t) => {
                            push_chars(&mut out, &t);
                        },
                        None => {},
                    }
                }
            },
            other => {
                match instruction_to_code(other, binds, EmitMode::Bare) {
                    Some(t) => {
                        push_chars(&mut out, &t);
                    },
                    None => {},
                }
            },
        }
        i += 1;
        proof {
            assert(rb_lower(pv, m0, 0).0 =~= out@ + rb_lower(pv, binds@, i as int).0);
        }
    }
    proof {
        assert(out@ + rb_lower(pv, binds@, parts@.len() as int).0 =~= out@);
    }
    out
}

/// Lowers one instruction to a statement or expression of the target
/// language; value-positioned nodes surface as the mode directs.
pub fn instruction_to_code(v: &Value, binds: &mut KindTable, mode: EmitMode) -> (r: Option<
    Vec<char>,
>)
    ensures
        (r is Some) == (stmt_text(v@, old(binds)@, mode) is Some),
        r matches Some(t) ==> t@ == stmt_text(v@, old(binds)@, mode).unwrap(),
        final(binds)@ == stmt_binds(v@, old(binds)@),
    decreases v, 3int,
{
    let ghost m0 = binds@;
    match v {
        Value::Array(_) | Value::Number(_) | Value::String(_) | Value::Get(_) | Value::NumOp(
            _,
            _,
            _,
        ) | Value::Not(_) | Value::LogOp(_, _, _) | Value::Ref(_) | Value::Call(_, _)
            | Value::Boolean(_) | Value::Dict(_, _) | Value::Pick(_, _) | Value::Type(_)
            | Value::RustReturnableBinding(_) => {
            let t = unwrap_typed(v, binds);
            let mut out: Vec<char> = Vec::new();
            match mode {
                EmitMode::BlockExit => {
                    push_str(&mut out, "break 'block ");
                    push_chars(&mut out, &t);
                    out.push(';');
                },
                EmitMode::Assign => {
                    push_str(&mut out, "result = ");
                    push_chars(&mut out, &t);
                    out.push(';');
                },
                EmitMode::Return => {
                    push_str(&mut out, "return ");
                    push_chars(&mut out, &t);
                    out.push(';');
                },
                EmitMode::Push => {
                    push_str(&mut out, "push(&mut stack, ");
                    push_chars(&mut out, &t);
                    push_str(&mut out, ");");
                },
                EmitMode::Bare => {
                    push_chars(&mut out, &t);
                },
            }
            proof {
                assert(expression_kind(v@));
                assert(out@ =~= stmt_text(v@, m0, mode).unwrap());
            }
            Some(out)
        },
        Value::Block(body) => {
            let mut out: Vec<char> = Vec::new();
            push_str(&mut out, "{ ");
            let mut child = binds.child();
            let items = instructions_to_code(body, &mut child, mode);
            push_joined(&mut out, &items, "\n");
            push_str(&mut out, " }");
            proof {
                assert(out@ =~= stmt_text(v@, m0, mode).unwrap());
            }
            Some(out)
        },
        Value::RefAssign(name, value) => {
            proof {
                assert(v@ == ValueView::RefAssign(name@, Box::new(vview(**value))));
            }
            let tv = unwrap_typed(value, binds);
            let existing = binds.get(name);
            if matches!(existing, Some(BindKind::Plain) | Some(BindKind::Reference)) {
                let mut out: Vec<char> = Vec::new();
                push_str(&mut out, "*_v_");
                push_chars(&mut out, name);
                push_str(&mut out, ".lock() = ");
                push_chars(&mut out, &tv);
                out.push(';');
                proof {
                    reveal_strlit(";");
                    assert(out@ =~= ref_assign_text(name@, tv@));
                    assert(out@ == stmt_text(v@, m0, mode).unwrap());
                }
                Some(out)
            } else {
                binds.insert(copy_chars(name), BindKind::Plain);
                let mut out: Vec<char> = Vec::new();
                push_str(&mut out, "let mut _v_");
                push_chars(&mut out, name);
                push_str(&mut out, " = nvar!(");
                push_chars(&mut out, &tv);
                push_str(&mut out, ");");
                proof {
                    assert(out@ =~= "let mut _v_"@ + name@ + " = nvar!("@ + tv@ + ");"@);
                    assert(out@ == stmt_text(v@, m0, mode).unwrap());
                }
                Some(out)
            }
        },
        Value::Var(name, value) => {
            proof {
                assert(v@ == ValueView::Var(name@, Box::new(vview(**value))));
            }
            if chars_eq_str(name, "_") {
                let mut out: Vec<char> = Vec::new();
                push_str(&mut out, "let _ = ");
                let t = unwrap_typed(value, binds);
                push_chars(&mut out, &t);
                out.push(';');
                proof {
                    assert(out@ =~= stmt_text(v@, m0, mode).unwrap());
                }
                return Some(out);
            }
            let existing = binds.get(name);
            if matches!(existing, Some(BindKind::Plain) | Some(BindKind::Reference)) {
                let mut out: Vec<char> = Vec::new();
                push_str(&mut out, "*_v_");
                push_chars(&mut out, name);
                push_str(&mut out, ".lock() = ");
                let t = unwrap_typed(value, binds);
                push_chars(&mut out, &t);
                out.push(';');
                proof {
                    reveal_strlit(";");
                    assert(out@ =~= ref_assign_text(name@, t@));
                    assert(out@ == stmt_text(v@, m0, mode).unwrap());
                }
                Some(out)
            } else {
                binds.insert(copy_chars(name), BindKind::Plain);
                let mut out: Vec<char> = Vec::new();
                push_str(&mut out, "let mut _v_");
                push_chars(&mut out, name);
                push_str(&mut out, " = ");
                let t = parse_value_as_ref(value, binds);
                push_chars(&mut out, &t);
                out.push(';');
                proof {
                    assert(out@ =~= stmt_text(v@, m0, mode).unwrap());
                }
                Some(out)
            }
        },
        Value::SetItem(arr, index, value) => {
            let mut out: Vec<char> = Vec::new();
            push_str(&mut out, "{let index = ");
            let ti = unwrap_typed(index, binds);
            push_chars(&mut out, &ti);
            push_str(&mut out, "; let value = ");
            let tval = unwrap_typed(value, binds);
            push_chars(&mut out, &tval);
            push_str(&mut out, "; set(");
            let ta = parse_value_as_ref(arr, binds);
            push_chars(&mut out, &ta);
            push_str(&mut out, ", index, value); }");
            proof {
                assert(out@ =~= stmt_text(v@, m0, mode).unwrap());
            }
            Some(out)
        },
        Value::Push(arr, value) => {
            let mut out: Vec<char> = Vec::new();
            push_str(&mut out, "{ let value = ");
            let tval = unwrap_typed(value, binds);
            push_chars(&mut out, &tval);
            push_str(&mut out, "; let _ = ");
            let ta = unwrap_typed(arr, binds);
            push_chars(&mut out, &ta);
            push_str(&mut out, ".push(value); }");
            proof {
                assert(out@ =~= stmt_text(v@, m0, mode).unwrap());
            }
            Some(out)
        },
        Value::If(condition, body) => {
            let mut out: Vec<char> = Vec::new();
            push_str(&mut out, "if ");
            emit_condition(&mut out, condition, binds);
            push_str(&mut out, " { ");
            let mut child = binds.child();
            let items = instructions_to_code(body, &mut child, mode);
            push_joined(&mut out, &items, "\n");
            push_str(&mut out, " }");
            proof {
                assert(out@ =~= stmt_text(v@, m0, mode).unwrap());
            }
            Some(out)
        },
        Value::ElseIf(condition, body) => {
            let mut out: Vec<char> = Vec::new();
            push_str(&mut out, "else if ");
            emit_condition(&mut out, condition, binds);
            push_str(&mut out, " { ");
            let mut child = binds.child();
            let items = instructions_to_code(body, &mut child, mode);
            push_joined(&mut out, &items, "\n");
            push_str(&mut out, " }");
            proof {
                assert(out@ =~= stmt_text(v@, m0, mode).unwrap());
            }
            Some(out)
        },
        Value::Else(body) => {
            let mut out: Vec<char> = Vec::new();
            push_str(&mut out, "else { ");
            let mut child = binds.child();
            let items = instructions_to_code(body, &mut child, mode);
            push_joined(&mut out, &items, "\n");
            push_str(&mut out, " }");
            proof {
                assert(out@ =~= stmt_text(v@, m0, mode).unwrap());
            }
            Some(out)
        },
        Value::Loop(body) => {
            let mut out: Vec<char> = Vec::new();
            push_str(&mut out, "loop {");
            let mut child = binds.child();
            let items = instructions_to_code(body, &mut child, mode);
            push_joined(&mut out, &items, "\n");
            out.push('}');
            proof {
                assert(out@ =~= stmt_text(v@, m0, mode).unwrap());
            }
            Some(out)
        },
        Value::Break => {
            let mut out: Vec<char> = Vec::new();
            push_str(&mut out, "break;");
            proof {
                assert(out@ =~= "break;"@);
            }
            Some(out)
        },
        Value::Continue => {
            let mut out: Vec<char> = Vec::new();
            push_str(&mut out, "continue;");
            proof {
                assert(out@ =~= "continue;"@);
            }
            Some(out)
        },
        Value::Println(a) => {
            let mut out: Vec<char> = Vec::new();
            push_str(&mut out, "println!(\"{}\", ");
            let t = unwrap_typed(a, binds);
            push_chars(&mut out, &t);
            push_str(&mut out, ");");
            proof {
                assert(out@ =~= stmt_text(v@, m0, mode).unwrap());
            }
            Some(out)
        },
        Value::Fn(name, params, body) => {
            proof {
                assert(v@ == ValueView::Fn(
                    name@,
                    crate::value::name_views(params@),
                    views(body@),
                ));
            }
            binds.insert(copy_chars(name), BindKind::Function);
            let mut child = binds.child();
            let ghost base = child@;
            let ghost psv = crate::value::name_views(params@);
            let mut out: Vec<char> = Vec::new();
            push_str(&mut out, "fn _f_");
            push_chars(&mut out, name);
            push_str(&mut out, " (");
            let ghost head = out@;
            let mut i: usize = 0;
            proof {
                assert(head + params_text(psv, 0) =~= head);
            }
            while i < params.len()
                invariant
                    i <= params@.len(),
                    psv == crate::value::name_views(params@),
                    out@ == head + params_text(psv, i as int),
                    child@ == fn_params_table(base, psv, i as int),
                decreases params@.len() - i,
            {
                proof {
                    assert(psv[i as int] == params@[i as int]@);
                }
                if i > 0 {
                    push_str(&mut out, ", ");
                }
                push_str(&mut out, "mut _v_");
                push_chars(&mut out, &params[i]);
                push_str(&mut out, ": Covered");
                child.insert(copy_chars(&params[i]), BindKind::Reference);
                i += 1;
                proof {
                    assert(out@ =~= head + params_text(psv, i as int));
                }
            }
            push_str(&mut out, ") -> Value { ");
            let items = instructions_to_code(body, &mut child, EmitMode::Return);
            push_joined(&mut out, &items, "\n");
            push_str(&mut out, " Value::Empty }");
            proof {
                assert(out@ =~= stmt_text(v@, m0, mode).unwrap());
            }
            Some(out)
        },
        Value::Mov(into) => {
            if chars_eq_str(into, "_") {
                let mut out: Vec<char> = Vec::new();
                push_str(&mut out, "let _ = pop(&mut stack);");
                proof {
                    assert(out@ =~= stmt_text(v@, m0, mode).unwrap());
                }
                return Some(out);
            }
            binds.insert(copy_chars(into), BindKind::Plain);
            let mut out: Vec<char> = Vec::new();
            push_str(&mut out, "let _v_");
            push_chars(&mut out, into);
            push_str(&mut out, " = pop(&mut stack);");
            proof {
                assert(out@ =~= stmt_text(v@, m0, mode).unwrap());
            }
            Some(out)
        },
        Value::RustBinding(parts) => Some(convert_rust_binding(parts, binds)),
        _ => None,
    }
}

/// Writes the condition of a generated branch: boolean expressions stand
/// bare, anything else is cast.
fn emit_condition(out: &mut Vec<char>, condition: &Value, binds: &mut KindTable)
    ensures
        final(out)@ == old(out)@ + cond_text(condition@, old(binds)@),
        final(binds)@ == old(binds)@,
    decreases condition, 2int,
{
    let ghost m0 = binds@;
    match condition {
        Value::LogOp(_, _, _) | Value::Boolean(_) => {
            match unwrap_instruction(condition, binds) {
                Some(t) => {
                    push_chars(out, &t);
                },
                None => {},
            }
            proof {
                assert(out@ =~= old(out)@ + cond_text(condition@, m0));
            }
        },
        _ => {
            let t = unwrap_typed(condition, binds);
            push_chars(out, &t);
            push_str(out, ".cast_bool()");
            proof {
                assert(out@ =~= old(out)@ + cond_text(condition@, m0));
            }
        },
    }
}

/// Lowers an instruction sequence to the statements of the target language.
pub fn instructions_to_code(instructions: &Vec<Value>, binds: &mut KindTable, mode: EmitMode) -> (r:
    Vec<Vec<char>>)
    ensures
        crate::value::name_views(r@) == lower_seq(
            views(instructions@),
            old(binds)@,
            mode,
            0,
        ).0,
        final(binds)@ == lower_seq(views(instructions@), old(binds)@, mode, 0).1,
    decreases instructions, 4int,
{
    let ghost vs = views(instructions@);
    let ghost m0 = binds@;
    let mut parts: Vec<Vec<char>> = Vec::new();
    let mut i: usize = 0;
    proof {
        assert(crate::value::name_views(parts@) + lower_seq(vs, m0, mode, 0).0 =~= lower_seq(
            vs,
            m0,
            mode,
            0,
        ).0);
    }
    while i < instructions.len()
        invariant
            i <= instructions@.len(),
            vs == views(instructions@),
            m0 == old(binds)@,
            lower_seq(vs, m0, mode, 0).0 == crate::value::name_views(parts@) + lower_seq(
                vs,
                binds@,
                mode,
                i as int,
            ).0,
            lower_seq(vs, m0, mode, 0).1 == lower_seq(vs, binds@, mode, i as int).1,
        decreases instructions@.len() - i,
    {
        let ghost mi = binds@;
        let ghost prev = crate::value::name_views(parts@);
        proof {
            assert(vs[i as int] == vview(instructions@[i as int]));
        }
        match instruction_to_code(&instructions[i], binds, mode) {
            Some(t) => {
                let ghost tv = t@;
                parts.push(t);
                proof {
                    assert(crate::value::name_views(parts@) =~= prev + seq![tv]);
                    assert(prev + (seq![tv] + lower_seq(vs, binds@, mode, i + 1).0) =~= (prev
                        + seq![tv]) + lower_seq(vs, binds@, mode, i + 1).0);
                }
            },
            None => {},
        }
        i += 1;
    }
    proof {
        assert(crate::value::name_views(parts@) + lower_seq(
            vs,
            binds@,
            mode,
            instructions@.len() as int,
        ).0 =~= crate::value::name_views(parts@));
    }
    parts
}

/// Lowers a complete program: the generated statements inside the fixed
/// frame of the target program, which links against the tagged-value
/// runtime.
pub fn transpile(instructions: &Vec<Value>, binds: &mut KindTable) -> (r: Vec<char>)
    ensures
        r@ == program_text(views(instructions@), old(binds)@),
        final(binds)@ == lower_seq(views(instructions@), old(binds)@, EmitMode::Push, 0).1,
{
    let ghost m0 = binds@;
    let mut out: Vec<char> = Vec::new();
    push_str(&mut out, "\n#![allow(warnings, unused)]\nmod alt;\nuse std::sync::{Arc, Mutex};\n\n");
    push_str(
        &mut out,
        "use alt::{ value::*, display::*, stack::{ pop, push }, collections::{ dict }, ops::{ set }, r#ref::{Ref, Covered} };\n\nfn main () {\n    let mut stack: Vec<Value> = vec![];\n\n",
    );
    let items = instructions_to_code(instructions, binds, EmitMode::Push);
    push_joined(&mut out, &items, "\n");
    push_str(&mut out, "\n    println!(\"{:?}\", Value::Arr(stack));\n}\n");
    proof {
        assert(out@ =~= program_text(views(instructions@), m0));
    }
    out
}


/// The text of an option, or nothing.
pub open spec fn opt_text(o: Option<Seq<char>>) -> Seq<char> {
    match o {
        Some(t) => t,
        None => Seq::empty(),
    }
}

/// The text of one arithmetic operator.
pub open spec fn math_op_text(op: MathOp) -> Seq<char> {
    match op {
        MathOp::Add => "+"@,
        MathOp::Sub => "-"@,
        MathOp::Div => "/"@,
        MathOp::Mul => "*"@,
        MathOp::Mod => "%"@,
        MathOp::BitShiftLeft => "<<"@,
        MathOp::BitShiftRight => ">>"@,
    }
}

/// The text of one comparison or connective.
pub open spec fn logic_op_text(op: LogicOp) -> Seq<char> {
    match op {
        LogicOp::More => ">"@,
        LogicOp::Less => "<"@,
        LogicOp::MoreEq => ">="@,
        LogicOp::LessEq => "<="@,
        LogicOp::NotEq => "!="@,
        LogicOp::Eq => "=="@,
        LogicOp::Or => "||"@,
        LogicOp::And => "&&"@,
    }
}

/// Does this operand stand bare inside a tagged operator chain?
pub open spec fn bare_kind(v: ValueView) -> bool {
    v is Get || v is NumOp || v is LogOp
}

/// The bare host expression of a value, untagged where the host type is
/// plain; `None` for a node with no expression form.
pub open spec fn bare_text(v: ValueView, m: Map<Seq<char>, BindKind>) -> Option<Seq<char>>
    decreases v, 0int,
{
    match v {
        ValueView::Number(d) => Some(dec_literal(crate::fold::clamped(d))),
        ValueView::String(s) => Some(seq!['"'] + s + "\".to_string()"@),
        ValueView::Boolean(b) => Some(
            if b {
                "true"@
            } else {
                "false"@
            },
        ),
        ValueView::NumOp(a, b, op) => if op == MathOp::BitShiftLeft || op
            == MathOp::BitShiftRight {
            Some(
                "((("@ + num_text(*a, m) + " as i64) "@ + math_op_text(op) + " ("@ + num_text(
                    *b,
                    m,
                ) + " as i64)) as f64)"@,
            )
        } else {
            Some(
                seq!['('] + num_text(*a, m) + seq![' '] + math_op_text(op) + seq![' '] + num_text(
                    *b,
                    m,
                ) + seq![')'],
            )
        },
        ValueView::LogOp(a, b, op) => {
            let numeric = op == LogicOp::More || op == LogicOp::Less || op == LogicOp::MoreEq || op
                == LogicOp::LessEq;
            let ta = if numeric {
                num_text(*a, m)
            } else {
                typed_text(*a, m)
            };
            let tb = if numeric {
                num_text(*b, m)
            } else {
                typed_text(*b, m)
            };
            Some(seq!['('] + ta + seq![' '] + logic_op_text(op) + seq![' '] + tb + seq![')'])
        },
        ValueView::Not(a) => Some("!("@ + opt_text(bare_text(*a, m)) + seq![')']),
        ValueView::Get(n) => Some("_v_"@ + n),
        ValueView::Ref(x) => match *x {
            ValueView::Get(n) => Some("_v_"@ + n),
            _ => Some("nvar!("@ + typed_text(*x, m) + seq![')']),
        },
        ValueView::Call(n, args) => Some(
            "_f_"@ + n + seq!['('] + call_args_text(args, m, args.len() as int) + seq![')'],
        ),
        ValueView::Array(xs) => Some(array_bare_text(xs, m)),
        ValueView::Type(a) => Some(typed_text(*a, m) + ".cast_type()"@),
        _ => None,
    }
}

/// The first `k` call arguments, comma-separated.
pub open spec fn call_args_text(args: Seq<ValueView>, m: Map<Seq<char>, BindKind>, k: int) -> Seq<
    char,
>
    decreases args, 3int, k,
{
    if k <= 0 || k > args.len() {
        Seq::empty()
    } else if k == 1 {
        arg_text(args[0], m)
    } else {
        call_args_text(args, m, k - 1) + ", "@ + arg_text(args[k - 1], m)
    }
}

/// The tagged host expression of a value.
pub open spec fn typed_text(v: ValueView, m: Map<Seq<char>, BindKind>) -> Seq<char>
    decreases v, 1int,
{
    match v {
        ValueView::Number(d) => number_literal_text(d),
        ValueView::String(_) => "Value::String("@ + opt_text(bare_text(v, m)) + seq![')'],
        ValueView::Boolean(_) => "Value::Boolean("@ + opt_text(bare_text(v, m)) + seq![')'],
        ValueView::Get(n) => "_v_"@ + n + ".clone()"@,
        ValueView::LogOp(_, _, _) => "Value::Boolean("@ + opt_text(bare_text(v, m)) + seq![')'],
        ValueView::Not(_) => "Value::Boolean("@ + opt_text(bare_text(v, m)) + seq![')'],
        ValueView::NumOp(a, b, op) => if bare_kind(*a) || bare_kind(*b) {
            seq!['('] + typed_text(*a, m) + seq![' '] + math_op_text(op) + seq![' '] + typed_text(
                *b,
                m,
            ) + seq![')']
        } else {
            "Value::Number("@ + opt_text(bare_text(v, m)) + seq![')']
        },
        ValueView::Array(xs) => if crate::fold::static_seq(xs) {
            "Value::Arr("@ + array_bare_text(xs, m) + seq![')']
        } else {
            array_bare_text(xs, m)
        },
        ValueView::Call(_, _) => opt_text(bare_text(v, m)),
        ValueView::Block(body) => "'block: { "@ + joined_pre(
            lower_seq(body, m, EmitMode::BlockExit, 0).0,
            "\n"@,
        ) + " break 'block Value::Empty; }"@,
        ValueView::Dict(ks, vs) => "Value::Dict(dict("@ + array_bare_text(ks, m) + ", "@
            + array_bare_text(vs, m) + "))"@,
        ValueView::Pick(arr, idx) => typed_text(*arr, m) + seq!['['] + typed_text(*idx, m)
            + "].clone()"@,
        ValueView::Type(_) => "Value::String("@ + opt_text(bare_text(v, m)) + seq![')'],
        ValueView::RustReturnableBinding(parts) => "{ "@ + rb_lower(parts, m, 0).0 + " }"@,
        ValueView::Ref(x) => match *x {
            ValueView::Get(n) => "Value::Ref(_v_"@ + n + ".clone_ref())"@,
            _ => "Value::Ref(nvar!("@ + typed_text(*x, m) + "))"@,
        },
        _ => "Value::Undefined"@,
    }
}

/// The host expression reading a value as a number.
pub open spec fn num_text(v: ValueView, m: Map<Seq<char>, BindKind>) -> Seq<char>
    decreases v, 2int,
{
    match v {
        ValueView::NumOp(_, _, _) => opt_text(bare_text(v, m)),
        ValueView::Number(_) => opt_text(bare_text(v, m)),
        ValueView::String(_) => opt_text(bare_text(v, m)) + ".len() as f64"@,
        ValueView::Array(_) => opt_text(bare_text(v, m)) + ".len() as f64"@,
        _ => typed_text(v, m) + ".cast_float()"@,
    }
}

/// The argument expression a generated call passes for one operand.
pub open spec fn arg_text(v: ValueView, m: Map<Seq<char>, BindKind>) -> Seq<char>
    decreases v, 2int,
{
    match ref_get_name(v) {
        Some(n) => ref_arg_text(n),
        None => "nvar!("@ + typed_text(v, m) + ")"@,
    }
}

/// The condition expression of a generated branch.
pub open spec fn cond_text(v: ValueView, m: Map<Seq<char>, BindKind>) -> Seq<char>
    decreases v, 2int,
{
    match v {
        ValueView::LogOp(_, _, _) => opt_text(bare_text(v, m)),
        ValueView::Boolean(_) => opt_text(bare_text(v, m)),
        _ => typed_text(v, m) + ".cast_bool()"@,
    }
}

/// The bare host expression of an array: a literal vector where every
/// element is static, else a stack-collecting block.
pub open spec fn array_bare_text(xs: Seq<ValueView>, m: Map<Seq<char>, BindKind>) -> Seq<char>
    decreases xs, 5int,
{
    if crate::fold::static_seq(xs) {
        "vec!["@ + joined_pre(lower_seq(xs, m, EmitMode::Bare, 0).0, ", "@) + seq![']']
    } else {
        "{ let mut stack: Vec<Value> = vec![]; "@ + joined_pre(
            lower_seq(xs, m, EmitMode::Push, 0).0,
            "\n"@,
        ) + " stack }"@
    }
}

/// Text pieces joined by a separator.
pub open spec fn joined_k(items: Seq<Seq<char>>, sep: Seq<char>, k: int) -> Seq<char>
    decreases k,
{
    if k <= 0 || k > items.len() {
        Seq::empty()
    } else if k == 1 {
        items[0]
    } else {
        joined_k(items, sep, k - 1) + sep + items[k - 1]
    }
}

/// All the text pieces joined by a separator.
pub open spec fn joined_pre(items: Seq<Seq<char>>, sep: Seq<char>) -> Seq<char> {
    joined_k(items, sep, items.len() as int)
}

/// A string literal's text unescaped back into host code: an escaped quote
/// becomes a plain quote.
pub open spec fn unesc(s: Seq<char>) -> Seq<char>
    decreases s.len(),
{
    if s.len() == 0 {
        Seq::empty()
    } else if s[0] == '\\' && s.len() >= 2 && s[1] == '"' {
        seq!['"'] + unesc(s.skip(2))
    } else {
        seq![s[0]] + unesc(s.skip(1))
    }
}

/// The inline parts of an escape-to-host binding, from `i` on, with the
/// kind table as the nested lowerings leave it.
pub open spec fn rb_lower(parts: Seq<ValueView>, m: Map<Seq<char>, BindKind>, i: int) -> (
    Seq<char>,
    Map<Seq<char>, BindKind>,
)
    decreases parts, 6int, parts.len() - i,
{
    if i < 0 || i >= parts.len() {
        (Seq::empty(), m)
    } else {
        let part = parts[i];
        let step: (Seq<char>, Map<Seq<char>, BindKind>) = match part {
            ValueView::String(a) => (unesc(a), m),
            ValueView::Get(n) => ("_v_"@ + n, m),
            ValueView::Ref(inner) => match *inner {
                ValueView::String(x) => (seq!['"'] + x + seq!['"'], m),
                _ => (
                    opt_text(stmt_text(*inner, m, EmitMode::Bare)),
                    stmt_binds(*inner, m),
                ),
            },
            _ => (opt_text(stmt_text(part, m, EmitMode::Bare)), stmt_binds(part, m)),
        };
        let rest = rb_lower(parts, step.1, i + 1);
        (step.0 + rest.0, rest.1)
    }
}

/// Does the node lower as a value in expression position?
pub open spec fn expression_kind(v: ValueView) -> bool {
    ||| v is Array
    ||| v is Number
    ||| v is String
    ||| v is Get
    ||| v is NumOp
    ||| v is Not
    ||| v is LogOp
    ||| v is Ref
    ||| v is Call
    ||| v is Boolean
    ||| v is Dict
    ||| v is Pick
    ||| v is Type
    ||| v is RustReturnableBinding
}

/// The statement or expression one instruction lowers to; `None` for a node
/// with no lowering, such as a leftover sentinel.
pub open spec fn stmt_text(v: ValueView, m: Map<Seq<char>, BindKind>, mode: EmitMode) -> Option<
    Seq<char>,
>
    decreases v, 3int,
{
    if expression_kind(v) {
        let t = typed_text(v, m);
        Some(
            match mode {
                EmitMode::BlockExit => "break 'block "@ + t + seq![';'],
                EmitMode::Assign => "result = "@ + t + seq![';'],
                EmitMode::Return => "return "@ + t + seq![';'],
                EmitMode::Push => "push(&mut stack, "@ + t + ");"@,
                EmitMode::Bare => t,
            },
        )
    } else {
        match v {
            ValueView::Block(body) => Some(
                "{ "@ + joined_pre(lower_seq(body, m, mode, 0).0, "\n"@) + " }"@,
            ),
            ValueView::RefAssign(name, value) => {
                let tv = typed_text(*value, m);
                if m.dom().contains(name) && (m[name] == BindKind::Plain || m[name]
                    == BindKind::Reference) {
                    Some(ref_assign_text(name, tv))
                } else {
                    Some("let mut _v_"@ + name + " = nvar!("@ + tv + ");"@)
                }
            },
            ValueView::Var(name, value) => if name == "_"@ {
                Some("let _ = "@ + typed_text(*value, m) + seq![';'])
            } else if m.dom().contains(name) && (m[name] == BindKind::Plain || m[name]
                == BindKind::Reference) {
                Some(ref_assign_text(name, typed_text(*value, m)))
            } else {
                Some(
                    "let mut _v_"@ + name + " = "@ + arg_text(
                        *value,
                        m.insert(name, BindKind::Plain),
                    ) + seq![';'],
                )
            },
            ValueView::SetItem(arr, idx, val) => Some(
                "{let index = "@ + typed_text(*idx, m) + "; let value = "@ + typed_text(*val, m)
                    + "; set("@ + arg_text(*arr, m) + ", index, value); }"@,
            ),
            ValueView::Push(arr, val) => Some(
                "{ let value = "@ + typed_text(*val, m) + "; let _ = "@ + typed_text(*arr, m)
                    + ".push(value); }"@,
            ),
            ValueView::If(c, body) => Some(
                "if "@ + cond_text(*c, m) + " { "@ + joined_pre(
                    lower_seq(body, m, mode, 0).0,
                    "\n"@,
                ) + " }"@,
            ),
            ValueView::ElseIf(c, body) => Some(
                "else if "@ + cond_text(*c, m) + " { "@ + joined_pre(
                    lower_seq(body, m, mode, 0).0,
                    "\n"@,
                ) + " }"@,
            ),
            ValueView::Else(body) => Some(
                "else { "@ + joined_pre(lower_seq(body, m, mode, 0).0, "\n"@) + " }"@,
            ),
            ValueView::Loop(body) => Some(
                "loop {"@ + joined_pre(lower_seq(body, m, mode, 0).0, "\n"@) + seq!['}'],
            ),
            ValueView::Break => Some("break;"@),
            ValueView::Continue => Some("continue;"@),
            ValueView::Println(a) => Some(
                "println!(\"{}\", "@ + typed_text(*a, m) + ");"@,
            ),
            ValueView::Fn(name, params, body) => Some(
                "fn _f_"@ + name + " ("@ + params_text(params, params.len() as int)
                    + ") -> Value { "@ + joined_pre(
                    lower_seq(
                        body,
                        fn_params_table(
                            m.insert(name, BindKind::Function),
                            params,
                            params.len() as int,
                        ),
                        EmitMode::Return,
                        0,
                    ).0,
                    "\n"@,
                ) + " Value::Empty }"@,
            ),
            ValueView::Mov(into) => if into == "_"@ {
                Some("let _ = pop(&mut stack);"@)
            } else {
                Some("let _v_"@ + into + " = pop(&mut stack);"@)
            },
            ValueView::RustBinding(parts) => Some(rb_lower(parts, m, 0).0),
            _ => None,
        }
    }
}

/// The kind table after one instruction is lowered: declarations register
/// their names, everything else leaves the table alone; nested bodies work
/// on their own copies.
pub open spec fn stmt_binds(v: ValueView, m: Map<Seq<char>, BindKind>) -> Map<Seq<char>, BindKind>
    decreases v, 3int,
{
    match v {
        ValueView::Var(name, _) => if name == "_"@ {
            m
        } else if m.dom().contains(name) && (m[name] == BindKind::Plain || m[name]
            == BindKind::Reference) {
            m
        } else {
            m.insert(name, BindKind::Plain)
        },
        ValueView::RefAssign(name, _) => if m.dom().contains(name) && (m[name] == BindKind::Plain
            || m[name] == BindKind::Reference) {
            m
        } else {
            m.insert(name, BindKind::Plain)
        },
        ValueView::Mov(into) => if into == "_"@ {
            m
        } else {
            m.insert(into, BindKind::Plain)
        },
        ValueView::Fn(name, _, _) => m.insert(name, BindKind::Function),
        ValueView::RustBinding(parts) => rb_lower(parts, m, 0).1,
        _ => m,
    }
}

/// The first `k` parameter declarations of a generated function.
pub open spec fn params_text(params: Seq<Seq<char>>, k: int) -> Seq<char>
    decreases k,
{
    if k <= 0 || k > params.len() {
        Seq::empty()
    } else if k == 1 {
        "mut _v_"@ + params[0] + ": Covered"@
    } else {
        params_text(params, k - 1) + ", "@ + "mut _v_"@ + params[k - 1] + ": Covered"@
    }
}

/// The kind table of a generated function body: the first `k` parameters
/// bound as references.
pub open spec fn fn_params_table(
    m: Map<Seq<char>, BindKind>,
    params: Seq<Seq<char>>,
    k: int,
) -> Map<Seq<char>, BindKind>
    decreases k,
{
    if k <= 0 || k > params.len() {
        m
    } else {
        fn_params_table(m, params, k - 1).insert(params[k - 1], BindKind::Reference)
    }
}

/// The statements an instruction sequence lowers to from position `i`, and
/// the kind table it leaves: the nodes that lower, in order, threaded
/// through the evolving table.
pub open spec fn lower_seq(
    vs: Seq<ValueView>,
    m: Map<Seq<char>, BindKind>,
    mode: EmitMode,
    i: int,
) -> (Seq<Seq<char>>, Map<Seq<char>, BindKind>)
    decreases vs, 4int, vs.len() - i,
{
    if i < 0 || i >= vs.len() {
        (Seq::empty(), m)
    } else {
        let t = stmt_text(vs[i], m, mode);
        let m1 = stmt_binds(vs[i], m);
        let rest = lower_seq(vs, m1, mode, i + 1);
        (
            match t {
                Some(x) => seq![x] + rest.0,
                None => rest.0,
            },
            rest.1,
        )
    }
}

/// The whole generated program: the fixed frame around the lowered
/// statements, pushed onto the runtime operand stack.
pub open spec fn program_text(vs: Seq<ValueView>, m: Map<Seq<char>, BindKind>) -> Seq<char> {
    "\n#![allow(warnings, unused)]\nmod alt;\nuse std::sync::{Arc, Mutex};\n\n"@
        + "use alt::{ value::*, display::*, stack::{ pop, push }, collections::{ dict }, ops::{ set }, r#ref::{Ref, Covered} };\n\nfn main () {\n    let mut stack: Vec<Value> = vec![];\n\n"@
        + joined_pre(lower_seq(vs, m, EmitMode::Push, 0).0, "\n"@) + "\n    println!(\"{:?}\", Value::Arr(stack));\n}\n"@
}

} // verus!
