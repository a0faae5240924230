//! The instruction representation: a tagged tree of compile-time values.
//!
//! The builder appends nodes of [`Value`] to a growing sequence; operators and
//! keywords consume earlier nodes from its tail.  Each node owns its children,
//! and the ghost image of a node is a [`ValueView`] over `Seq`.

use vstd::prelude::*;

use crate::num::Decimal;
use crate::token::{Token, TokenView};

verus! {

/// An arithmetic operator of the source language.
#[derive(Clone, Copy, PartialEq, Eq, Structural, Debug)]
pub enum MathOp {
    Add,
    Sub,
    Div,
    Mul,
    Mod,
    BitShiftLeft,
    BitShiftRight,
}

/// A comparison or boolean operator of the source language.
#[derive(Clone, Copy, PartialEq, Eq, Structural, Debug)]
pub enum LogicOp {
    More,
    Less,
    MoreEq,
    LessEq,
    NotEq,
    Eq,
    Or,
    And,
}

/// One instruction node.
#[derive(Debug)]
pub enum Value {
    Number(Decimal),
    String(Vec<char>),
    Boolean(bool),
    /// An uncompiled token capture, guarded against immediate splicing.
    Raw(Box<Value>),
    /// The set of active parse-context tags, stored in the binding table.
    ParseModes(Vec<Vec<char>>),
    Var(Vec<char>, Box<Value>),
    Get(Vec<char>),
    /// Declared-arity marker of a bound function.
    TCall(Vec<char>, usize),
    Call(Vec<char>, Vec<Value>),
    NumOp(Box<Value>, Box<Value>, MathOp),
    LogOp(Box<Value>, Box<Value>, LogicOp),
    Pow(Box<Value>, Box<Value>),
    Not(Box<Value>),
    If(Box<Value>, Vec<Value>),
    ElseIf(Box<Value>, Vec<Value>),
    Else(Vec<Value>),
    /// Sentinel left by an `if` whose condition folded to true.
    PassedIf,
    /// Sentinel left by an `if` whose condition folded to false.
    FailedIf,
    Loop(Vec<Value>),
    Break,
    Continue,
    /// A raw token buffer with its wrap flag.
    Do(Vec<Token>, bool),
    Fn(Vec<char>, Vec<Vec<char>>, Vec<Value>),
    Array(Vec<Value>),
    Dict(Vec<Value>, Vec<Value>),
    Mov(Vec<char>),
    Println(Box<Value>),
    Undefined,
    Block(Vec<Value>),
    Pick(Box<Value>, Box<Value>),
    SetItem(Box<Value>, Box<Value>, Box<Value>),
    Type(Box<Value>),
    Push(Box<Value>, Box<Value>),
    Ref(Box<Value>),
    RefAssign(Vec<char>, Box<Value>),
    RustBinding(Vec<Value>),
    RustReturnableBinding(Vec<Value>),
}

/// Mathematical image of a [`Value`].
pub enum ValueView {
    Number(Decimal),
    String(Seq<char>),
    Boolean(bool),
    Raw(Box<ValueView>),
    ParseModes(Seq<Seq<char>>),
    Var(Seq<char>, Box<ValueView>),
    Get(Seq<char>),
    TCall(Seq<char>, nat),
    Call(Seq<char>, Seq<ValueView>),
    NumOp(Box<ValueView>, Box<ValueView>, MathOp),
    LogOp(Box<ValueView>, Box<ValueView>, LogicOp),
    Pow(Box<ValueView>, Box<ValueView>),
    Not(Box<ValueView>),
    If(Box<ValueView>, Seq<ValueView>),
    ElseIf(Box<ValueView>, Seq<ValueView>),
    Else(Seq<ValueView>),
    PassedIf,
    FailedIf,
    Loop(Seq<ValueView>),
    Break,
    Continue,
    Do(Seq<TokenView>, bool),
    Fn(Seq<char>, Seq<Seq<char>>, Seq<ValueView>),
    Array(Seq<ValueView>),
    Dict(Seq<ValueView>, Seq<ValueView>),
    Mov(Seq<char>),
    Println(Box<ValueView>),
    Undefined,
    Block(Seq<ValueView>),
    Pick(Box<ValueView>, Box<ValueView>),
    SetItem(Box<ValueView>, Box<ValueView>, Box<ValueView>),
    Type(Box<ValueView>),
    Push(Box<ValueView>, Box<ValueView>),
    Ref(Box<ValueView>),
    RefAssign(Seq<char>, Box<ValueView>),
    RustBinding(Seq<ValueView>),
    RustReturnableBinding(Seq<ValueView>),
}

/// The views of all elements of an instruction vector.
pub open spec fn views(vs: Seq<Value>) -> Seq<ValueView>
    decreases vs, 0int,
{
    Seq::new(vs.len(), |i: int| if 0 <= i < vs.len() { vview(vs[i]) } else { ValueView::Undefined })
}

/// The views of all elements of a token vector.
pub open spec fn token_views(ts: Seq<Token>) -> Seq<TokenView> {
    Seq::new(ts.len(), |i: int| ts[i]@)
}

/// The views of a vector of names.
pub open spec fn name_views(ns: Seq<Vec<char>>) -> Seq<Seq<char>> {
    Seq::new(ns.len(), |i: int| ns[i]@)
}

/// Mathematical image of one instruction node.
pub open spec fn vview(v: Value) -> ValueView
    decreases v, 1int,
{
    match v {
        Value::Number(d) => ValueView::Number(d),
        Value::String(s) => ValueView::String(s@),
        Value::Boolean(b) => ValueView::Boolean(b),
        Value::Raw(v) => ValueView::Raw(Box::new(vview(*v))),
        Value::ParseModes(ms) => ValueView::ParseModes(name_views(ms@)),
        Value::Var(n, v) => ValueView::Var(n@, Box::new(vview(*v))),
        Value::Get(n) => ValueView::Get(n@),
        Value::TCall(n, a) => ValueView::TCall(n@, a as nat),
        Value::Call(n, args) => ValueView::Call(n@, views(args@)),
        Value::NumOp(a, b, op) => ValueView::NumOp(Box::new(vview(*a)), Box::new(vview(*b)), op),
        Value::LogOp(a, b, op) => ValueView::LogOp(Box::new(vview(*a)), Box::new(vview(*b)), op),
        Value::Pow(a, b) => ValueView::Pow(Box::new(vview(*a)), Box::new(vview(*b))),
        Value::Not(v) => ValueView::Not(Box::new(vview(*v))),
        Value::If(c, body) => ValueView::If(Box::new(vview(*c)), views(body@)),
        Value::ElseIf(c, body) => ValueView::ElseIf(Box::new(vview(*c)), views(body@)),
        Value::Else(body) => ValueView::Else(views(body@)),
        Value::PassedIf => ValueView::PassedIf,
        Value::FailedIf => ValueView::FailedIf,
        Value::Loop(body) => ValueView::Loop(views(body@)),
        Value::Break => ValueView::Break,
        Value::Continue => ValueView::Continue,
        Value::Do(ts, wrap) => ValueView::Do(token_views(ts@), wrap),
        Value::Fn(n, params, body) => ValueView::Fn(n@, name_views(params@), views(body@)),
        Value::Array(body) => ValueView::Array(views(body@)),
        Value::Dict(ks, binds) => ValueView::Dict(views(ks@), views(binds@)),
        Value::Mov(n) => ValueView::Mov(n@),
        Value::Println(v) => ValueView::Println(Box::new(vview(*v))),
        Value::Undefined => ValueView::Undefined,
        Value::Block(body) => ValueView::Block(views(body@)),
        Value::Pick(a, i) => ValueView::Pick(Box::new(vview(*a)), Box::new(vview(*i))),
        Value::SetItem(a, i, v) => ValueView::SetItem(Box::new(vview(*a)), Box::new(vview(*i)), Box::new(vview(*v))),
        Value::Type(v) => ValueView::Type(Box::new(vview(*v))),
        Value::Push(a, v) => ValueView::Push(Box::new(vview(*a)), Box::new(vview(*v))),
        Value::Ref(v) => ValueView::Ref(Box::new(vview(*v))),
        Value::RefAssign(n, v) => ValueView::RefAssign(n@, Box::new(vview(*v))),
        Value::RustBinding(parts) => ValueView::RustBinding(views(parts@)),
        Value::RustReturnableBinding(parts) => ValueView::RustReturnableBinding(views(parts@)),
    }
}

impl View for Value {
    type V = ValueView;

    open spec fn view(&self) -> ValueView {
        vview(*self)
    }
}


/// Is this node a finished value that the tail-popping discipline hands out
/// directly?  The conditional chain and a few statement forms are not.
pub open spec fn is_value_kind(v: ValueView) -> bool {
    match v {
        ValueView::Array(_) => true,
        ValueView::Number(_) => true,
        ValueView::String(_) => true,
        ValueView::Boolean(_) => true,
        ValueView::NumOp(_, _, _) => true,
        ValueView::LogOp(_, _, _) => true,
        ValueView::Get(_) => true,
        ValueView::Call(_, _) => true,
        ValueView::Dict(_, _) => true,
        ValueView::Pick(_, _) => true,
        ValueView::Block(_) => true,
        ValueView::Type(_) => true,
        ValueView::RustReturnableBinding(_) => true,
        ValueView::Ref(_) => true,
        ValueView::Undefined => true,
        _ => false,
    }
}

/// Walks down from an `Else` node, gathering the arms of a conditional chain
/// until the opening `If`; the chain becomes one block, in source order.
pub open spec fn else_collect(s: Seq<ValueView>, block: Seq<ValueView>) -> Option<
    (Seq<ValueView>, ValueView),
>
    decreases s.len(),
{
    if s.len() == 0 {
        None
    } else {
        let v = s.last();
        let block2 = block.push(v);
        if v is If {
            Some((s.drop_last(), ValueView::Block(block2.reverse())))
        } else {
            else_collect(s.drop_last(), block2)
        }
    }
}

/// What the sequence holds after a failed pop: the nodes scanned over are
/// restored, but a conditional chain drained in search of its `If` is gone.
pub open spec fn popv_fail_state(s: Seq<ValueView>) -> Seq<ValueView>
    decreases s.len(),
{
    if s.len() == 0 {
        s
    } else {
        let x = s.last();
        if x is Else {
            Seq::empty()
        } else if is_value_kind(x) {
            s
        } else {
            popv_fail_state(s.drop_last()).push(x)
        }
    }
}

/// The tail-popping discipline: the topmost finished value is removed and
/// returned, nodes above it staying in place; an `Else` on the way gathers
/// its whole conditional chain into one block.
pub open spec fn popv_spec(s: Seq<ValueView>) -> Option<(Seq<ValueView>, ValueView)>
    decreases s.len(),
{
    if s.len() == 0 {
        None
    } else {
        let x = s.last();
        if x is Else {
            else_collect(s.drop_last(), seq![x])
        } else if is_value_kind(x) {
            Some((s.drop_last(), x))
        } else {
            match popv_spec(s.drop_last()) {
                Some(p) => Some((p.0.push(x), p.1)),
                None => None,
            }
        }
    }
}

/// Pops the topmost finished value off the instruction tail; `None` where
/// none is there to pop.
pub fn popv(instructions: &mut Vec<Value>) -> (r: Option<Value>)
    ensures
        match r {
            Some(v) => popv_spec(views(old(instructions)@)) == Some(
                (views(final(instructions)@), v@),
            ),
            None => popv_spec(views(old(instructions)@)) is None && views(final(instructions)@)
                == popv_fail_state(views(old(instructions)@)),
        },
    decreases old(instructions)@.len(),
{
    let ghost s0 = views(instructions@);
    let x = match instructions.pop() {
        Some(x) => x,
        None => {
            return None;
        },
    };
    proof {
        assert(views(instructions@) =~= s0.drop_last());
        assert(s0.last() == x@);
    }
    let keep_direct = match &x {
        Value::Array(_) | Value::Number(_) | Value::String(_) | Value::Boolean(_)
        | Value::NumOp(_, _, _) | Value::LogOp(_, _, _) | Value::Get(_) | Value::Call(_, _)
        | Value::Dict(_, _) | Value::Pick(_, _) | Value::Block(_) | Value::Type(_)
        | Value::RustReturnableBinding(_) | Value::Ref(_) | Value::Undefined => true,
        _ => false,
    };
    if matches!(&x, Value::Else(_)) {
        proof {
            assert(s0.last() is Else);
        }
        let mut block: Vec<Value> = vec![x];
        proof {
            assert(views(block@) =~= seq![s0.last()]);
        }
        loop
            invariant
                s0 == views(old(instructions)@),
                s0.len() > 0 && s0.last() is Else,
                block@.len() >= 1,
                else_collect(views(instructions@), views(block@)) == else_collect(
                    s0.drop_last(),
                    seq![s0.last()],
                ),
                popv_spec(s0) == else_collect(s0.drop_last(), seq![s0.last()]),
            decreases instructions@.len(),
        {
            let ghost si = views(instructions@);
            let ghost ob = views(block@);
            let v = match instructions.pop() {
                Some(v) => v,
                None => {
                    proof {
                        assert(si.len() == 0);
                        assert(else_collect(si, ob) is None);
                        assert(popv_spec(s0) is None);
                        assert(views(instructions@) =~= popv_fail_state(s0));
                    }
                    return None;
                },
            };
            proof {
                assert(views(instructions@) =~= si.drop_last());
                assert(si.last() == v@);
            }
            let is_if = matches!(&v, Value::If(_, _));
            proof {
                assert((v@ is If) == is_if);
            }
            block.push(v);
            proof {
                assert(views(block@) =~= ob.push(si.last()));
            }
            if is_if {
                let mut rev: Vec<Value> = Vec::new();
                let mut k: usize = block.len();
                while k > 0
                    invariant
                        k <= block@.len(),
                        rev@.len() == block@.len() - k,
                        forall|j: int|
                            0 <= j < rev@.len() ==> vview(rev@[j]) == vview(
                                block@[block@.len() - 1 - j],
                            ),
                    decreases k,
                {
                    k -= 1;
                    rev.push(clone_value(&block[k]));
                }
                proof {
                    assert(views(rev@) =~= views(block@).reverse());
                    assert(else_collect(si, ob) == Some(
                        (si.drop_last(), ValueView::Block(ob.push(si.last()).reverse())),
                    ));
                    assert(popv_spec(s0) == Some(
                        (views(instructions@), ValueView::Block(views(block@).reverse())),
                    ));
                }
                return Some(Value::Block(rev));
            }
        }
    }
    if keep_direct {
        return Some(x);
    }
    let inner = popv(instructions);
    let ghost mid = views(instructions@);
    instructions.push(x);
    proof {
        assert(views(instructions@) =~= mid.push(s0.last()));
    }
    inner
}

/// Copies a token, preserving its image.
pub fn copy_token(t: &Token) -> (r: Token)
    ensures
        r@ == t@,
{
    Token { typ: t.typ, value: crate::chars::copy_chars(&t.value), line: t.line, col: t.col }
}

/// Copies a token vector, preserving the image of every element.
pub fn copy_tokens(ts: &Vec<Token>) -> (r: Vec<Token>)
    ensures
        token_views(r@) == token_views(ts@),
{
    let mut r: Vec<Token> = Vec::new();
    let mut i: usize = 0;
    while i < ts.len()
        invariant
            i <= ts.len(),
            r@.len() == i,
            forall|j: int| 0 <= j < i ==> r@[j]@ == ts@[j]@,
        decreases ts.len() - i,
    {
        r.push(copy_token(&ts[i]));
        i += 1;
    }
    proof {
        assert(token_views(r@) =~= token_views(ts@));
    }
    r
}

/// Copies a vector of names, preserving the image of every element.
pub fn copy_names(ns: &Vec<Vec<char>>) -> (r: Vec<Vec<char>>)
    ensures
        name_views(r@) == name_views(ns@),
{
    let mut r: Vec<Vec<char>> = Vec::new();
    let mut i: usize = 0;
    while i < ns.len()
        invariant
            i <= ns.len(),
            r@.len() == i,
            forall|j: int| 0 <= j < i ==> r@[j]@ == ns@[j]@,
        decreases ns.len() - i,
    {
        r.push(crate::chars::copy_chars(&ns[i]));
        i += 1;
    }
    proof {
        assert(name_views(r@) =~= name_views(ns@));
    }
    r
}

/// Copies one instruction node, preserving its image.
pub fn clone_value(v: &Value) -> (r: Value)
    ensures
        r@ == v@,
    decreases v,
{
    match v {
        Value::Number(d) => Value::Number(*d),
        Value::String(s) => Value::String(crate::chars::copy_chars(s)),
        Value::Boolean(b) => Value::Boolean(*b),
        Value::Raw(x) => Value::Raw(Box::new(clone_value(x))),
        Value::ParseModes(ms) => Value::ParseModes(copy_names(ms)),
        Value::Var(n, x) => Value::Var(crate::chars::copy_chars(n), Box::new(clone_value(x))),
        Value::Get(n) => Value::Get(crate::chars::copy_chars(n)),
        Value::TCall(n, a) => Value::TCall(crate::chars::copy_chars(n), *a),
        Value::Call(n, args) => Value::Call(crate::chars::copy_chars(n), clone_values(args)),
        Value::NumOp(a, b, op) => Value::NumOp(Box::new(clone_value(a)), Box::new(clone_value(b)), *op),
        Value::LogOp(a, b, op) => Value::LogOp(Box::new(clone_value(a)), Box::new(clone_value(b)), *op),
        Value::Pow(a, b) => Value::Pow(Box::new(clone_value(a)), Box::new(clone_value(b))),
        Value::Not(x) => Value::Not(Box::new(clone_value(x))),
        Value::If(c, body) => Value::If(Box::new(clone_value(c)), clone_values(body)),
        Value::ElseIf(c, body) => Value::ElseIf(Box::new(clone_value(c)), clone_values(body)),
        Value::Else(body) => Value::Else(clone_values(body)),
        Value::PassedIf => Value::PassedIf,
        Value::FailedIf => Value::FailedIf,
        Value::Loop(body) => Value::Loop(clone_values(body)),
        Value::Break => Value::Break,
        Value::Continue => Value::Continue,
        Value::Do(ts, wrap) => Value::Do(copy_tokens(ts), *wrap),
        Value::Fn(n, params, body) => Value::Fn(
            crate::chars::copy_chars(n),
            copy_names(params),
            clone_values(body),
        ),
        Value::Array(body) => Value::Array(clone_values(body)),
        Value::Dict(ks, vs) => Value::Dict(clone_values(ks), clone_values(vs)),
        Value::Mov(n) => Value::Mov(crate::chars::copy_chars(n)),
        Value::Println(x) => Value::Println(Box::new(clone_value(x))),
        Value::Undefined => Value::Undefined,
        Value::Block(body) => Value::Block(clone_values(body)),
        Value::Pick(a, i) => Value::Pick(Box::new(clone_value(a)), Box::new(clone_value(i))),
        Value::SetItem(a, i, x) => Value::SetItem(
            Box::new(clone_value(a)),
            Box::new(clone_value(i)),
            Box::new(clone_value(x)),
        ),
        Value::Type(x) => Value::Type(Box::new(clone_value(x))),
        Value::Push(a, x) => Value::Push(Box::new(clone_value(a)), Box::new(clone_value(x))),
        Value::Ref(x) => Value::Ref(Box::new(clone_value(x))),
        Value::RefAssign(n, x) => Value::RefAssign(
            crate::chars::copy_chars(n),
            Box::new(clone_value(x)),
        ),
        Value::RustBinding(parts) => Value::RustBinding(clone_values(parts)),
        Value::RustReturnableBinding(parts) => Value::RustReturnableBinding(clone_values(parts)),
    }
}

/// Copies a vector of instruction nodes, preserving every image.
pub fn clone_values(vs: &Vec<Value>) -> (r: Vec<Value>)
    ensures
        views(r@) == views(vs@),
    decreases vs,
{
    let mut r: Vec<Value> = Vec::new();
    let mut i: usize = 0;
    while i < vs.len()
        invariant
            i <= vs.len(),
            r@.len() == i,
            forall|j: int| 0 <= j < i ==> vview(r@[j]) == vview(vs@[j]),
        decreases vs.len() - i,
    {
        r.push(clone_value(&vs[i]));
        i += 1;
    }
    proof {
        assert(views(r@) =~= views(vs@));
    }
    r
}

} // verus!

