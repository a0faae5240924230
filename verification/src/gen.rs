//! The instruction builder.
//!
//! One recursive procedure reads the token stream left to right.  Operators
//! and most keywords take their operands by popping the tail of the
//! instruction sequence already built; bracketed bodies are compiled against
//! a cloned binding table, so names bound inside them stay inside.  A depth
//! budget bounds macro expansion and inclusion, which otherwise could feed
//! the builder forever.

use vstd::prelude::*;

use crate::chars::{chars_eq_str, copy_chars, str_chars};
use crate::env::Env;
use crate::fold::{is_static_array, static_pick};
use crate::lexer::lex_chars;
use crate::num::Decimal;
use crate::numfmt::{parse_decimal, u64_digits};
use crate::parse::{parse_args, parse_pair_symbols, parse_string};
use crate::token::{Token, TokenKind};
use crate::value::{clone_value, copy_token, popv, token_views, views, vview, LogicOp, MathOp,
    Value, ValueView};

verus! {

/// What went fatally wrong during building.
#[derive(Debug)]
pub enum ErrorKind {
    /// A name follows no assignment symbol.
    VarName,
    /// A condition was missing before a branch keyword.
    ConditionMissing,
    /// An operator found no operand on the instruction tail.
    OperandMissing,
    /// `break` outside a loop.
    BreakOutsideLoop,
    /// `continue` outside a loop.
    ContinueOutsideLoop,
    /// `mov` outside an array body.
    MovOutsideArray,
    /// A macro body was not delimited as required.
    MacroBody,
    /// A delimited body never closed, or a keyword stood at the very end.
    BodyMissing,
    /// A raw capture was expected on the instruction tail.
    RawExpected,
    /// A numeric literal cannot be represented exactly.
    NumberTooLarge,
    /// A dictionary was not built from two arrays.
    DictShape,
    /// Indexing out of range at build time.
    IndexOutOfRange,
    /// A name neither known as a keyword nor bound.
    UnknownKeyword(Vec<char>),
    /// An included path was not among the provided sources.
    MissingSource,
    /// Macro expansion or inclusion went deeper than the budget allows.
    DepthExceeded,
    /// A text is too large to scan.
    TextTooLarge,
}

/// A fatal build error, with the position of the token that raised it.
#[derive(Debug)]
pub struct CompileError {
    pub line: usize,
    pub col: usize,
    pub kind: ErrorKind,
}

/// The sources available to `use`: each inclusion path maps to the resolved
/// name it is deduplicated under — ideally the absolute path, supplied by
/// the caller, who alone can resolve paths — and to the source text.
pub struct Sources {
    entries: Vec<(Vec<char>, (Vec<char>, Vec<char>))>,
}

/// The mapping a source list denotes.
pub open spec fn sources_map_of(entries: Seq<(Vec<char>, (Vec<char>, Vec<char>))>) -> Map<
    Seq<char>,
    (Seq<char>, Seq<char>),
>
    decreases entries.len(),
{
    if entries.len() == 0 {
        Map::empty()
    } else {
        sources_map_of(entries.drop_last()).insert(
            entries.last().0@,
            (entries.last().1.0@, entries.last().1.1@),
        )
    }
}

impl View for Sources {
    type V = Map<Seq<char>, (Seq<char>, Seq<char>)>;

    closed spec fn view(&self) -> Map<Seq<char>, (Seq<char>, Seq<char>)> {
        sources_map_of(self.entries@)
    }
}

/// Keys and meanings of a source list.
proof fn lemma_sources_map(entries: Seq<(Vec<char>, (Vec<char>, Vec<char>))>, k: Seq<char>)
    ensures
        sources_map_of(entries).dom().contains(k) <==> exists|j: int|
            0 <= j < entries.len() && entries[j].0@ == k,
        forall|j: int|
            0 <= j < entries.len() && entries[j].0@ == k && (forall|l: int|
                j < l < entries.len() ==> entries[l].0@ != k) ==> sources_map_of(entries)[k]
                == (entries[j].1.0@, entries[j].1.1@),
    decreases entries.len(),
{
    if entries.len() > 0 {
        let prefix = entries.drop_last();
        lemma_sources_map(prefix, k);
        if entries.last().0@ == k {
            assert(entries[entries.len() - 1].0@ == k);
        } else {
            if sources_map_of(entries).dom().contains(k) {
                let j = choose|j: int| 0 <= j < prefix.len() && prefix[j].0@ == k;
                assert(entries[j].0@ == k);
            }
            if exists|j: int| 0 <= j < entries.len() && entries[j].0@ == k {
                let j = choose|j: int| 0 <= j < entries.len() && entries[j].0@ == k;
                assert(prefix[j].0@ == k);
            }
        }
        assert forall|j: int|
            0 <= j < entries.len() && entries[j].0@ == k && (forall|l: int|
                j < l < entries.len() ==> entries[l].0@ != k) implies sources_map_of(entries)[k]
            == entries[j].1@ by {
            if j < entries.len() - 1 {
                assert(entries[entries.len() - 1].0@ != k);
                assert(prefix[j].0@ == k);
                assert(forall|l: int| j < l < prefix.len() ==> prefix[l].0@ != k);
            }
        }
    }
}

impl Sources {
    /// No sources at all.
    pub fn new() -> (s: Sources)
        ensures
            s@ == Map::<Seq<char>, (Seq<char>, Seq<char>)>::empty(),
    {
        Sources { entries: Vec::new() }
    }

    /// Makes a source text available under an inclusion path, deduplicated
    /// under the resolved name.
    pub fn add(&mut self, path: Vec<char>, key: Vec<char>, text: Vec<char>)
        ensures
            final(self)@ == old(self)@.insert(path@, (key@, text@)),
    {
        self.entries.push((path, (key, text)));
        proof {
            assert(self.entries@.drop_last() =~= old(self).entries@);
        }
    }

    /// Looks a path up: its resolved name and its text.
    pub fn get(&self, path: &Vec<char>) -> (r: Option<(&Vec<char>, &Vec<char>)>)
        ensures
            match r {
                Some(p) => self@.dom().contains(path@) && p.0@ == self@[path@].0 && p.1@
                    == self@[path@].1,
                None => !self@.dom().contains(path@),
            },
    {
        let mut i: usize = self.entries.len();
        while i > 0
            invariant
                i <= self.entries.len(),
                forall|l: int| i <= l < self.entries@.len() ==> self.entries@[l].0@ != path@,
            decreases i,
        {
            i -= 1;
            if crate::chars::chars_eq(&self.entries[i].0, path) {
                proof {
                    lemma_sources_map(self.entries@, path@);
                }
                return Some((&self.entries[i].1.0, &self.entries[i].1.1));
            }
        }
        proof {
            lemma_sources_map(self.entries@, path@);
        }
        None
    }
}

/// Is a context tag active in the binding table?  The tag set lives under
/// the reserved key `=`.
pub open spec fn mode_active(env: Map<Seq<char>, ValueView>, m: Seq<char>) -> bool {
    env.dom().contains(seq!['=']) && match env[seq!['=']] {
        ValueView::ParseModes(ms) => ms.contains(m),
        _ => false,
    }
}

/// Tests a context tag.
fn has_mode(binds: &Env, m: &str) -> (r: bool)
    ensures
        r == mode_active(binds@, m@),
{
    let key = str_chars("=");
    proof {
        reveal_strlit("=");
        assert(key@ =~= seq!['=']);
    }
    match binds.get(&key) {
        Some(v) => {
            let ghost gv = v@;
            match v {
                Value::ParseModes(ms) => {
                    proof {
                        assert(gv == ValueView::ParseModes(crate::value::name_views(ms@)));
                    }
                    let mut i: usize = 0;
                    while i < ms.len()
                        invariant
                            i <= ms@.len(),
                            binds@.dom().contains(seq!['=']),
                            binds@[seq!['=']] == ValueView::ParseModes(
                                crate::value::name_views(ms@),
                            ),
                            forall|j: int| 0 <= j < i ==> ms@[j]@ != m@,
                        decreases ms@.len() - i,
                    {
                        if chars_eq_str(&ms[i], m) {
                            proof {
                                assert(crate::value::name_views(ms@).contains(m@)) by {
                                    assert(crate::value::name_views(ms@)[i as int] == m@);
                                }
                            }
                            return true;
                        }
                        i += 1;
                    }
                    proof {
                        assert forall|j: int|
                            0 <= j < crate::value::name_views(ms@).len()
                            implies crate::value::name_views(ms@)[j] != m@ by {
                            assert(crate::value::name_views(ms@)[j] == ms@[j]@);
                        }
                        assert(!crate::value::name_views(ms@).contains(m@));
                    }
                    false
                },
                _ => false,
            }
        },
        None => false,
    }
}

/// The binding table with a context tag added: the tag set under the
/// reserved key grows by the tag, or starts fresh where none was there.
pub open spec fn add_mode_spec(env: Map<Seq<char>, ValueView>, tag: Seq<char>) -> Map<
    Seq<char>,
    ValueView,
> {
    if env.dom().contains(seq!['=']) && env[seq!['=']] is ParseModes {
        env.insert(seq!['='], ValueView::ParseModes(env[seq!['=']]->ParseModes_0.push(tag)))
    } else {
        env.insert(seq!['='], ValueView::ParseModes(seq![tag]))
    }
}

/// Adds a context tag to a binding table, starting a fresh set where none
/// was there.
fn add_mode(binds: &mut Env, m: &str)
    ensures
        mode_active(final(binds)@, m@),
        final(binds)@ == add_mode_spec(old(binds)@, m@),
{
    let key = str_chars("=");
    proof {
        reveal_strlit("=");
        assert(key@ =~= seq!['=']);
    }
    let ghost m0 = binds@;
    let mut ms: Vec<Vec<char>> = match binds.get(&key) {
        Some(v) => {
            let ghost gv = v@;
            match v {
                Value::ParseModes(old_ms) => {
                    proof {
                        assert(gv == ValueView::ParseModes(crate::value::name_views(old_ms@)));
                    }
                    let r = crate::value::copy_names(old_ms);
                    proof {
                        assert(crate::value::name_views(r@) == m0[seq!['=']]->ParseModes_0);
                    }
                    r
                },
                _ => Vec::new(),
            }
        },
        None => Vec::new(),
    };
    let ghost pre = crate::value::name_views(ms@);
    ms.push(str_chars(m));
    let ghost mlen = ms@.len();
    proof {
        assert(crate::value::name_views(ms@) =~= pre.push(m@));
        assert(crate::value::name_views(ms@).contains(m@)) by {
            assert(crate::value::name_views(ms@)[mlen - 1] == m@);
        }
        if m0.dom().contains(seq!['=']) && m0[seq!['=']] is ParseModes {
            assert(pre == m0[seq!['=']]->ParseModes_0);
        } else {
            assert(pre =~= Seq::<Seq<char>>::empty());
            assert(pre.push(m@) =~= seq![m@]);
        }
    }
    binds.insert(copy_chars(&key), Value::ParseModes(ms));
}

/// Replaces the context tags with exactly the one given.
fn set_only_mode(binds: &mut Env, m: &str)
    ensures
        mode_active(final(binds)@, m@),
        final(binds)@ == old(binds)@.insert(seq!['='], ValueView::ParseModes(seq![m@])),
{
    let key = str_chars("=");
    proof {
        reveal_strlit("=");
        assert(key@ =~= seq!['=']);
    }
    let mut ms: Vec<Vec<char>> = Vec::new();
    ms.push(str_chars(m));
    proof {
        assert(crate::value::name_views(ms@) =~= seq![m@]);
        assert(crate::value::name_views(ms@).contains(m@)) by {
            assert(crate::value::name_views(ms@)[0] == m@);
        }
    }
    binds.insert(key, Value::ParseModes(ms));
}

/// One fatal error, at a token.
fn err_at(t: &Token, kind: ErrorKind) -> CompileError {
    CompileError { line: t.line, col: t.col, kind }
}

/// Compiles a whole token window into the instruction sequence.
pub fn get_all_instructions(
    tokens: &Vec<Token>,
    instructions: &mut Vec<Value>,
    binds: &mut Env,
    sources: &Sources,
    fuel: u32,
) -> (r: Result<(), CompileError>)
    ensures
        dom_grows(old(binds)@, final(binds)@),
        r is Ok ==> built_from(
            token_views(tokens@),
            sources@,
            0,
            views(old(instructions)@),
            old(binds)@,
            tokens@.len() as nat,
            views(final(instructions)@),
            final(binds)@,
        ),
    decreases fuel, tokens@.len(), 4int,
{
    let ghost tv = token_views(tokens@);
    let ghost i0 = views(instructions@);
    let ghost e0 = binds@;
    let mut token: usize = 0;
    while token < tokens.len()
        invariant
            token <= tokens@.len(),
            tv == token_views(tokens@),
            i0 == views(old(instructions)@),
            e0 == old(binds)@,
            dom_grows(old(binds)@, binds@),
            built_from(tv, sources@, 0, i0, e0, token as nat, views(instructions@), binds@),
        decreases tokens@.len() - token,
    {
        let ghost pre_ins = views(instructions@);
        let ghost pre_env = binds@;
        match get_instruction(tokens, token, instructions, binds, sources, fuel) {
            Ok(n) => {
                token += n;
                proof {
                    lemma_built_from_snoc(
                        tv,
                        sources@,
                        0,
                        i0,
                        e0,
                        (token - n) as nat,
                        pre_ins,
                        pre_env,
                        token as nat,
                        views(instructions@),
                        binds@,
                        n,
                    );
                }
            },
            Err(e) => {
                return Err(e);
            },
        }
    }
    Ok(())
}

/// Reads one construct beginning at `start` and appends its instructions;
/// the number of tokens consumed comes back.
#[verifier::rlimit(100)]
pub fn get_instruction(
    tokens: &Vec<Token>,
    start: usize,
    instructions: &mut Vec<Value>,
    binds: &mut Env,
    sources: &Sources,
    fuel: u32,
) -> (r: Result<usize, CompileError>)
    requires
        start < tokens@.len(),
    ensures
        r matches Ok(n) ==> 1 <= n && start + n <= tokens@.len(),
        scoped_token(token_views(tokens@)[start as int]) ==> final(binds)@ == old(binds)@,
        dom_grows(old(binds)@, final(binds)@),
        build_step_post(
            token_views(tokens@),
            sources@,
            start as nat,
            views(old(instructions)@),
            old(binds)@,
            views(final(instructions)@),
            final(binds)@,
            r,
        ),
        build_deep_post(
            token_views(tokens@),
            sources@,
            start as nat,
            views(old(instructions)@),
            old(binds)@,
            views(final(instructions)@),
            final(binds)@,
            r,
        ),
    decreases fuel, tokens@.len() - start, 3int,
{
    let total = tokens.len();
    let token = &tokens[start];

    match token.typ {
        TokenKind::String => {
            push_value(instructions, Value::String(parse_string(&token.value)));
            Ok(1)
        },
        TokenKind::Int | TokenKind::Real => {
            match parse_decimal(&token.value) {
                Some(d) => {
                    push_value(instructions, Value::Number(d));
                    Ok(1)
                },
                None => Err(err_at(token, ErrorKind::NumberTooLarge)),
            }
        },
        TokenKind::Operator | TokenKind::Logical => {
            let b = match popv(instructions) {
                Some(b) => b,
                None => {
                    return Err(err_at(token, ErrorKind::OperandMissing));
                },
            };
            if chars_eq_str(&token.value, "not") || chars_eq_str(&token.value, "!") {
                push_value(instructions, Value::Not(Box::new(b)).process());
                return Ok(1);
            }
            let a = match popv(instructions) {
                Some(a) => a,
                None => {
                    return Err(err_at(token, ErrorKind::OperandMissing));
                },
            };
            match make_op_node(&token.value, a, b) {
                Some(n) => {
                    push_value(instructions, n.process());
                },
                None => {},
            }
            Ok(1)
        },
        TokenKind::Assign => {
            if start + 1 < tokens.len() && matches!(tokens[start + 1].typ, TokenKind::Keyword) {
                let name = &tokens[start + 1].value;
                let a = match popv(instructions) {
                    Some(a) => a,
                    None => {
                        return Err(err_at(token, ErrorKind::OperandMissing));
                    },
                };
                let is_ref = match binds.get(name) {
                    Some(Value::Ref(_)) => true,
                    _ => false,
                };
                if is_ref {
                    push_value(instructions, Value::RefAssign(copy_chars(name), Box::new(a)));
                    return Ok(2);
                }
                binds.insert(copy_chars(name), Value::Get(copy_chars(name)));
                push_value(instructions, Value::Var(copy_chars(name), Box::new(a)));
                Ok(2)
            } else {
                Err(err_at(token, ErrorKind::VarName))
            }
        },
        TokenKind::SpecialSymbol => {
            if chars_eq_str(&token.value, "&") {
                let a = match popv(instructions) {
                    Some(a) => a,
                    None => {
                        return Err(err_at(token, ErrorKind::OperandMissing));
                    },
                };
                push_value(instructions, Value::Ref(Box::new(a)));
            }
            Ok(1)
        },
        TokenKind::CurlyBracket => {
            if chars_eq_str(&token.value, "{") {
                match parse_pair_symbols(tokens, start, "{", "}") {
                    Some((body, past)) => {
                        proof {
                            crate::parse::lemma_pair_scan_bounds(
                                token_views(tokens@),
                                "{"@,
                                "}"@,
                                start as nat + 1,
                                1,
                            );
                        }
                        let l = instructions.len();
                        let mut child = binds.child();
                        match get_all_instructions(&body, instructions, &mut child, sources, fuel) {
                            Ok(()) => {},
                            Err(e) => {
                                return Err(e);
                            },
                        }
                        // gather what the body left on the tail into one block
                        let now = instructions.len();
                        let block = if now > l {
                            drain_from(instructions, l)
                        } else if now == l {
                            Vec::new()
                        } else if now >= 1 && now + 1 == l {
                            drain_from(instructions, now - 1)
                        } else {
                            return Err(err_at(token, ErrorKind::OperandMissing));
                        };
                        push_value(instructions, Value::Block(block));
                        Ok(past - start)
                    },
                    None => Err(err_at(token, ErrorKind::BodyMissing)),
                }
            } else {
                Ok(1)
            }
        },
        TokenKind::Bracket => {
            match parse_pair_symbols(tokens, start, "[", "]") {
                Some((body, past)) => {
                    proof {
                        crate::parse::lemma_pair_scan_bounds(
                            token_views(tokens@),
                            "["@,
                            "]"@,
                            start as nat + 1,
                            1,
                        );
                    }
                    let mut child = binds.child();
                    set_only_mode(&mut child, "array");
                    let mut body_ins: Vec<Value> = Vec::new();
                    match get_all_instructions(&body, &mut body_ins, &mut child, sources, fuel) {
                        Ok(()) => {},
                        Err(e) => {
                            return Err(e);
                        },
                    }
                    push_value(instructions, Value::Array(body_ins));
                    Ok(past - start)
                },
                None => Ok(1),
            }
        },
        TokenKind::Keyword => keyword_instruction(
            tokens,
            start,
            instructions,
            binds,
            sources,
            fuel,
        ),
        TokenKind::Comment => Ok(1),
    }
}

/// Takes every instruction from position `from` on out of the sequence.
fn drain_from(instructions: &mut Vec<Value>, from: usize) -> (r: Vec<Value>)
    ensures
        from <= old(instructions)@.len() ==> views(final(instructions)@) == views(
            old(instructions)@,
        ).take(from as int) && views(r@) == views(old(instructions)@).skip(from as int),
        from > old(instructions)@.len() ==> final(instructions)@ == old(instructions)@ && r@.len()
            == 0,
{
    let mut r: Vec<Value> = Vec::new();
    if from > instructions.len() {
        return r;
    }
    let mut rev: Vec<Value> = Vec::new();
    while instructions.len() > from
        invariant
            from <= instructions@.len() + rev@.len(),
            instructions@.len() >= from,
            views(old(instructions)@) == views(instructions@) + views(rev@).reverse(),
        decreases instructions@.len(),
    {
        let ghost pre = views(instructions@);
        let ghost prev = views(rev@);
        match instructions.pop() {
            Some(x) => {
                proof {
                    assert(views(instructions@) =~= pre.drop_last());
                    assert(pre.last() == x@);
                }
                rev.push(x);
                proof {
                    assert(views(rev@) =~= prev.push(pre.last()));
                    assert(views(instructions@) + views(rev@).reverse() =~= pre + prev.reverse());
                }
            },
            None => {
                proof {
                    assert(false);
                }
            },
        }
    }
    let mut k: usize = rev.len();
    while k > 0
        invariant
            k <= rev@.len(),
            r@.len() == rev@.len() - k,
            forall|j: int|
                0 <= j < r@.len() ==> vview(r@[j]) == vview(rev@[rev@.len() - 1 - j]),
        decreases k,
    {
        k -= 1;
        r.push(clone_value(&rev[k]));
    }
    proof {
        assert(views(r@) =~= views(rev@).reverse());
        assert(views(instructions@) =~= views(old(instructions)@).take(from as int));
        assert(views(r@) =~= views(old(instructions)@).skip(from as int));
    }
    r
}


/// Reads one keyword-led construct.
#[verifier::rlimit(100)]
fn keyword_instruction(
    tokens: &Vec<Token>,
    start: usize,
    instructions: &mut Vec<Value>,
    binds: &mut Env,
    sources: &Sources,
    fuel: u32,
) -> (r: Result<usize, CompileError>)
    requires
        start < tokens@.len(),
        tokens@[start as int].typ == TokenKind::Keyword,
    ensures
        r matches Ok(n) ==> 1 <= n && start + n <= tokens@.len(),
        scoped_token(token_views(tokens@)[start as int]) ==> final(binds)@ == old(binds)@,
        dom_grows(old(binds)@, final(binds)@),
        build_step_post(
            token_views(tokens@),
            sources@,
            start as nat,
            views(old(instructions)@),
            old(binds)@,
            views(final(instructions)@),
            final(binds)@,
            r,
        ),
        build_deep_post(
            token_views(tokens@),
            sources@,
            start as nat,
            views(old(instructions)@),
            old(binds)@,
            views(final(instructions)@),
            final(binds)@,
            r,
        ),
    decreases fuel, tokens@.len() - start, 2int,
{
    let total = tokens.len();
    let token = &tokens[start];
    let ghost tv = token_views(tokens@);
    proof {
        lemma_kw_distinct();
    }

    if chars_eq_str(&token.value, "true") {
        push_value(instructions, Value::Boolean(true));
        return Ok(1);
    }
    if chars_eq_str(&token.value, "false") {
        push_value(instructions, Value::Boolean(false));
        return Ok(1);
    }
    if chars_eq_str(&token.value, "if") {
        match parse_pair_symbols(tokens, start + 1, "{", "}") {
            Some((body, past)) => {
                proof {
                    crate::parse::lemma_pair_scan_bounds(tv, "{"@, "}"@, start as nat + 2, 1);
                }
                let condition = match pop_value(instructions) {
                    Some(c) => c,
                    None => {
                        return Err(err_at(token, ErrorKind::ConditionMissing));
                    },
                };
                if matches!(condition, Value::Boolean(false)) {
                    push_value(instructions, Value::FailedIf);
                    return Ok(past - start - 1);
                }
                let mut child = binds.child();
                let mut body_ins: Vec<Value> = Vec::new();
                proof {
                    assert(views(body_ins@) =~= Seq::<ValueView>::empty());
                }
                match get_all_instructions(&body, &mut body_ins, &mut child, sources, fuel) {
                    Ok(()) => {},
                    Err(e) => {
                        return Err(e);
                    },
                }
                let ghost rest = views(instructions@);
                if matches!(condition, Value::Boolean(true)) {
                    push_value(instructions, Value::Block(body_ins));
                    push_value(instructions, Value::PassedIf);
                    proof {
                        assert(views(instructions@) =~= rest + seq![
                            ValueView::Block(views(body_ins@)),
                            ValueView::PassedIf,
                        ]);
                        assert(built_from(
                            token_views(body@),
                            sources@,
                            0,
                            Seq::empty(),
                            old(binds)@,
                            body@.len() as nat,
                            views(body_ins@),
                            child@,
                        ));
                    }
                    return Ok(past - start - 1);
                }
                push_value(instructions, Value::If(Box::new(condition), body_ins));
                proof {
                    assert(built_from(
                        token_views(body@),
                        sources@,
                        0,
                        Seq::empty(),
                        old(binds)@,
                        body@.len() as nat,
                        views(body_ins@),
                        child@,
                    ));
                }
                return Ok(past - start - 1);
            },
            None => {
                return Ok(1);
            },
        }
    }
    if chars_eq_str(&token.value, "else") {
        match parse_pair_symbols(tokens, start + 1, "{", "}") {
            Some((body, past)) => {
                proof {
                    crate::parse::lemma_pair_scan_bounds(tv, "{"@, "}"@, start as nat + 2, 1);
                }
                if instructions.len() == 0 {
                    return Err(err_at(token, ErrorKind::ConditionMissing));
                }
                let prev_passed = matches!(instructions[instructions.len() - 1], Value::PassedIf);
                let prev_failed = matches!(instructions[instructions.len() - 1], Value::FailedIf);
                if prev_passed {
                    let _ = pop_value(instructions);
                    return Ok(past - start - 1);
                }
                let mut child = binds.child();
                let mut body_ins: Vec<Value> = Vec::new();
                proof {
                    assert(views(body_ins@) =~= Seq::<ValueView>::empty());
                }
                match get_all_instructions(&body, &mut body_ins, &mut child, sources, fuel) {
                    Ok(()) => {},
                    Err(e) => {
                        return Err(e);
                    },
                }
                proof {
                    assert(built_from(
                        token_views(body@),
                        sources@,
                        0,
                        Seq::empty(),
                        old(binds)@,
                        body@.len() as nat,
                        views(body_ins@),
                        child@,
                    ));
                }
                if prev_failed {
                    let _ = pop_value(instructions);
                    push_value(instructions, Value::Block(body_ins));
                    return Ok(past - start - 1);
                }
                push_value(instructions, Value::Else(body_ins));
                return Ok(past - start - 1);
            },
            None => {
                if start + 1 < tokens.len() && chars_eq_str(&tokens[start + 1].value, "if") {
                    let c = match pop_value(instructions) {
                        Some(c) => c,
                        None => {
                            return Err(err_at(token, ErrorKind::ConditionMissing));
                        },
                    };
                    if instructions.len() == 0 {
                        return Err(err_at(token, ErrorKind::ConditionMissing));
                    }
                    let prev_passed = matches!(
                        instructions[instructions.len() - 1],
                        Value::PassedIf,
                    );
                    let prev_failed = matches!(
                        instructions[instructions.len() - 1],
                        Value::FailedIf,
                    );
                    match parse_pair_symbols(tokens, start + 2, "{", "}") {
                        Some((body, past)) => {
                            proof {
                                crate::parse::lemma_pair_scan_bounds(
                                    tv,
                                    "{"@,
                                    "}"@,
                                    start as nat + 3,
                                    1,
                                );
                            }
                            if prev_passed {
                                return Ok(past - start - 1);
                            }
                            let mut child = binds.child();
                            let mut body_ins: Vec<Value> = Vec::new();
                            match get_all_instructions(
                                &body,
                                &mut body_ins,
                                &mut child,
                                sources,
                                fuel,
                            ) {
                                Ok(()) => {},
                                Err(e) => {
                                    return Err(e);
                                },
                            }
                            if prev_failed {
                                if matches!(c, Value::Boolean(true)) {
                                    let _ = pop_value(instructions);
                                    push_value(instructions, Value::Block(body_ins));
                                    push_value(instructions, Value::PassedIf);
                                    return Ok(past - start - 1);
                                }
                                if matches!(c, Value::Boolean(false)) {
                                    return Ok(past - start - 1);
                                }
                            }
                            push_value(instructions, Value::ElseIf(Box::new(c), body_ins));
                            return Ok(past - start - 1);
                        },
                        None => {
                            return Err(err_at(token, ErrorKind::BodyMissing));
                        },
                    }
                }
                return Ok(1);
            },
        }
    }
    if chars_eq_str(&token.value, "loop") {
        match parse_pair_symbols(tokens, start + 1, "{", "}") {
            Some((body, past)) => {
                proof {
                    crate::parse::lemma_pair_scan_bounds(tv, "{"@, "}"@, start as nat + 2, 1);
                }
                let mut child = binds.child();
                add_mode(&mut child, "loop");
                let mut body_ins: Vec<Value> = Vec::new();
                proof {
                    assert(views(body_ins@) =~= Seq::<ValueView>::empty());
                    assert(child@ == add_mode_spec(old(binds)@, "loop"@));
                }
                match get_all_instructions(&body, &mut body_ins, &mut child, sources, fuel) {
                    Ok(()) => {},
                    Err(e) => {
                        return Err(e);
                    },
                }
                proof {
                    assert(built_from(
                        token_views(body@),
                        sources@,
                        0,
                        Seq::empty(),
                        add_mode_spec(old(binds)@, "loop"@),
                        body@.len() as nat,
                        views(body_ins@),
                        child@,
                    ));
                }
                push_value(instructions, Value::Loop(body_ins));
                return Ok(past - start - 1);
            },
            None => {
                return Ok(1);
            },
        }
    }
    if chars_eq_str(&token.value, "break") {
        if has_mode(binds, "loop") {
            push_value(instructions, Value::Break);
            return Ok(1);
        }
        return Err(err_at(token, ErrorKind::BreakOutsideLoop));
    }
    if chars_eq_str(&token.value, "continue") {
        if has_mode(binds, "loop") {
            push_value(instructions, Value::Continue);
            return Ok(1);
        }
        return Err(err_at(token, ErrorKind::ContinueOutsideLoop));
    }    keyword_block_instruction(tokens, start, instructions, binds, sources, fuel)
}

/// Reads one binding, capture or declaration keyword.
#[verifier::rlimit(100)]
fn keyword_block_instruction(
    tokens: &Vec<Token>,
    start: usize,
    instructions: &mut Vec<Value>,
    binds: &mut Env,
    sources: &Sources,
    fuel: u32,
) -> (r: Result<usize, CompileError>)
    requires
        start < tokens@.len(),
        tokens@[start as int].typ == TokenKind::Keyword,
        !is_kw(token_views(tokens@)[start as int], "true"@),
        !is_kw(token_views(tokens@)[start as int], "false"@),
        !is_kw(token_views(tokens@)[start as int], "if"@),
        !is_kw(token_views(tokens@)[start as int], "else"@),
        !is_kw(token_views(tokens@)[start as int], "loop"@),
        !is_kw(token_views(tokens@)[start as int], "break"@),
        !is_kw(token_views(tokens@)[start as int], "continue"@),
    ensures
        r matches Ok(n) ==> 1 <= n && start + n <= tokens@.len(),
        scoped_token(token_views(tokens@)[start as int]) ==> final(binds)@ == old(binds)@,
        dom_grows(old(binds)@, final(binds)@),
        build_step_post(
            token_views(tokens@),
            sources@,
            start as nat,
            views(old(instructions)@),
            old(binds)@,
            views(final(instructions)@),
            final(binds)@,
            r,
        ),
        build_deep_post(
            token_views(tokens@),
            sources@,
            start as nat,
            views(old(instructions)@),
            old(binds)@,
            views(final(instructions)@),
            final(binds)@,
            r,
        ),
    decreases fuel, tokens@.len() - start, 1int,
{
    let total = tokens.len();
    let token = &tokens[start];
    let ghost tv = token_views(tokens@);
    proof {
        lemma_kw_distinct();
    }
    if chars_eq_str(&token.value, "let") {
        let (args, last) = parse_args(tokens, start + 1);
        match parse_pair_symbols(tokens, last, "{", "}") {
            Some((body, past)) => {
                proof {
                    crate::parse::lemma_pair_scan_bounds(tv, "{"@, "}"@, last as nat + 1, 1);
                }
                let l = args.len();
                let mut child = binds.child();
                match bind_let_args(&args, instructions, &mut child, token) {
                    Ok(()) => {},
                    Err(e) => {
                        return Err(e);
                    },
                }
                match get_all_instructions(&body, instructions, &mut child, sources, fuel) {
                    Ok(()) => {},
                    Err(e) => {
                        return Err(e);
                    },
                }
                return Ok(past - last + l);
            },
            None => {
                return Ok(1);
            },
        }
    }
    if chars_eq_str(&token.value, "times") {
        let t = match popv(instructions) {
            Some(v) => v,
            None => {
                return Err(err_at(token, ErrorKind::OperandMissing));
            },
        };
        if let Value::Number(a) = t {
            match parse_pair_symbols(tokens, start + 1, "{", "}") {
                Some((body, past)) => {
                    proof {
                        crate::parse::lemma_pair_scan_bounds(tv, "{"@, "}"@, start as nat + 2, 1);
                    }
                    let (neg, mag) = crate::num::dec_trunc(&a);
                    let count: u64 = if neg {
                        0
                    } else {
                        mag
                    };
                    match repeat_body(&body, count, instructions, binds, sources, fuel) {
                        Ok(()) => {},
                        Err(e) => {
                            return Err(e);
                        },
                    }
                    return Ok(past - start - 1);
                },
                None => {
                    return Err(err_at(token, ErrorKind::BodyMissing));
                },
            }
        }
        return Ok(1);
    }
    if chars_eq_str(&token.value, "do") {
        match parse_pair_symbols(tokens, start + 1, "{", "}") {
            Some((body, past)) => {
                proof {
                    crate::parse::lemma_pair_scan_bounds(tv, "{"@, "}"@, start as nat + 2, 1);
                }
                push_value(instructions, Value::Raw(Box::new(Value::Do(body, false))));
                return Ok(past - start - 1);
            },
            None => {
                return Err(err_at(token, ErrorKind::BodyMissing));
            },
        }
    }
    if chars_eq_str(&token.value, "unwrap") {
        let top = match pop_value(instructions) {
            Some(v) => v,
            None => {
                return Err(err_at(token, ErrorKind::RawExpected));
            },
        };
        if let Value::Raw(inner) = top {
            if let Value::Do(captured, _) = *inner {
                if fuel == 0 {
                    return Err(err_at(token, ErrorKind::DepthExceeded));
                }
                match get_all_instructions(&captured, instructions, binds, sources, fuel - 1) {
                    Ok(()) => {},
                    Err(e) => {
                        return Err(e);
                    },
                }
            } else {
                push_value(instructions, *inner);
            }
        }
        return Ok(1);
    }
    if chars_eq_str(&token.value, "do:add_tokens") {
        let text = match popv(instructions) {
            Some(v) => v,
            None => {
                return Err(err_at(token, ErrorKind::RawExpected));
            },
        };
        if let Value::String(a) = text {
            let cap = match pop_value(instructions) {
                Some(v) => v,
                None => {
                    return Err(err_at(token, ErrorKind::RawExpected));
                },
            };
            if let Value::Raw(inner) = cap {
                if let Value::Do(mut captured, _) = *inner {
                    if a.len() == usize::MAX {
                        return Err(err_at(token, ErrorKind::TextTooLarge));
                    }
                    let mut extra = lex_chars(&a);
                    captured.append(&mut extra);
                    push_value(instructions, Value::Do(captured, false));
                    return Ok(1);
                }
            }
        }
        return Err(err_at(token, ErrorKind::RawExpected));
    }
    if chars_eq_str(&token.value, "macro") || chars_eq_str(&token.value, "macro:b:") {
        if start + 1 < tokens.len() && matches!(tokens[start + 1].typ, TokenKind::Keyword) {
            let name = copy_chars(&tokens[start + 1].value);
            match parse_pair_symbols(tokens, start + 2, "#!", "!#") {
                Some((body, past)) => {
                    proof {
                        crate::parse::lemma_pair_scan_bounds(tv, "#!"@, "!#"@, start as nat + 3, 1);
                    }
                    let wrap = chars_eq_str(&token.value, "macro:b:");
                    binds.insert(name, Value::Do(body, wrap));
                    return Ok(past - start - 1);
                },
                None => {
                    return Err(err_at(token, ErrorKind::MacroBody));
                },
            }
        }
        return Ok(1);
    }
    if chars_eq_str(&token.value, "fn") {
        if start + 1 < tokens.len() && matches!(tokens[start + 1].typ, TokenKind::Keyword) {
            let name = copy_chars(&tokens[start + 1].value);
            let (args, last) = parse_args(tokens, start + 2);
            match parse_pair_symbols(tokens, last, "{", "}") {
                Some((body, past)) => {
                    proof {
                        crate::parse::lemma_pair_scan_bounds(tv, "{"@, "}"@, last as nat + 1, 1);
                    }
                    binds.insert(copy_chars(&name), Value::TCall(copy_chars(&name), args.len()));
                    let mut child = binds.without_vars();
                    set_only_mode(&mut child, "fn");
                    let ghost psv = crate::value::name_views(args@);
                    let ghost base = child@;
                    proof {
                        reveal_strlit("fn");
                        assert("fn"@ =~= seq!['f', 'n']);
                        assert(seq!["fn"@] =~= seq![seq!['f', 'n']]);
                    }
                    let mut i: usize = 0;
                    while i < args.len()
                        invariant
                            i <= args@.len(),
                            psv == crate::value::name_views(args@),
                            child@ == fn_params_env(base, psv, i as int),
                        decreases args@.len() - i,
                    {
                        proof {
                            assert(psv[i as int] == args@[i as int]@);
                        }
                        let inner = Value::Get(copy_chars(&args[i]));
                        proof {
                            assert(inner@ == ValueView::Get(psv[i as int]));
                        }
                        let ghost ginner = inner@;
                        let bound = Value::Ref(Box::new(inner));
                        proof {
                            assert(bound@ == ValueView::Ref(Box::new(ginner)));
                        }
                        child.insert(copy_chars(&args[i]), bound);
                        i += 1;
                    }
                    proof {
                        assert(crate::value::name_views(args@) =~= fn_param_names(
                            tv,
                            start as nat + 2,
                        ));
                        assert(child@ == fn_scope(
                            old(binds)@.insert(
                                tokens@[start as int + 1]@.value,
                                ValueView::TCall(
                                    tokens@[start as int + 1]@.value,
                                    psv.len(),
                                ),
                            ),
                            psv,
                        ));
                    }
                    let mut body_ins: Vec<Value> = Vec::new();
                    proof {
                        assert(views(body_ins@) =~= Seq::<ValueView>::empty());
                    }
                    match get_all_instructions(&body, &mut body_ins, &mut child, sources, fuel) {
                        Ok(()) => {},
                        Err(e) => {
                            return Err(e);
                        },
                    }
                    proof {
                        assert(crate::value::name_views(args@) =~= fn_param_names(
                            tv,
                            start as nat + 2,
                        ));
                    }
                    push_value(instructions, Value::Fn(name, args, body_ins));
                    return Ok(past - start);
                },
                None => {
                    return Err(err_at(token, ErrorKind::BodyMissing));
                },
            }
        }
        return Ok(1);
    }
    keyword_data_instruction(tokens, start, instructions, binds, sources, fuel)
}

/// Reads one data or inclusion keyword, or dispatches a bound name.
#[verifier::rlimit(100)]
fn keyword_data_instruction(
    tokens: &Vec<Token>,
    start: usize,
    instructions: &mut Vec<Value>,
    binds: &mut Env,
    sources: &Sources,
    fuel: u32,
) -> (r: Result<usize, CompileError>)
    requires
        start < tokens@.len(),
        tokens@[start as int].typ == TokenKind::Keyword,
        !is_kw(token_views(tokens@)[start as int], "true"@),
        !is_kw(token_views(tokens@)[start as int], "false"@),
        !is_kw(token_views(tokens@)[start as int], "if"@),
        !is_kw(token_views(tokens@)[start as int], "else"@),
        !is_kw(token_views(tokens@)[start as int], "break"@),
        !is_kw(token_views(tokens@)[start as int], "continue"@),
        !is_kw(token_views(tokens@)[start as int], "macro"@),
        !is_kw(token_views(tokens@)[start as int], "macro:b:"@),
        !is_kw(token_views(tokens@)[start as int], "fn"@),
        !is_kw(token_views(tokens@)[start as int], "times"@),
        !is_kw(token_views(tokens@)[start as int], "do"@),
        !is_kw(token_views(tokens@)[start as int], "unwrap"@),
        !is_kw(token_views(tokens@)[start as int], "do:add_tokens"@),
        !scoped_token(token_views(tokens@)[start as int]),
    ensures
        r matches Ok(n) ==> 1 <= n && start + n <= tokens@.len(),
        dom_grows(old(binds)@, final(binds)@),
        build_step_post(
            token_views(tokens@),
            sources@,
            start as nat,
            views(old(instructions)@),
            old(binds)@,
            views(final(instructions)@),
            final(binds)@,
            r,
        ),
        build_deep_post(
            token_views(tokens@),
            sources@,
            start as nat,
            views(old(instructions)@),
            old(binds)@,
            views(final(instructions)@),
            final(binds)@,
            r,
        ),
    decreases fuel, tokens@.len() - start, 0int,
{
    let total = tokens.len();
    let token = &tokens[start];
    let ghost tv = token_views(tokens@);
    proof {
        lemma_kw_distinct();
    }
    if chars_eq_str(&token.value, "type") {
        let a = match popv(instructions) {
            Some(v) => v,
            None => {
                return Err(err_at(token, ErrorKind::OperandMissing));
            },
        };
        push_value(instructions, Value::Type(Box::new(a)));
        return Ok(1);
    }
    if chars_eq_str(&token.value, "pick") {
        let index = match popv(instructions) {
            Some(v) => v,
            None => {
                return Err(err_at(token, ErrorKind::OperandMissing));
            },
        };
        let arr = match popv(instructions) {
            Some(v) => v,
            None => {
                return Err(err_at(token, ErrorKind::OperandMissing));
            },
        };
        if arr.is_static() && index.is_static() {
            match static_pick(&arr, &index) {
                Some(v) => {
                    push_value(instructions, v);
                    return Ok(1);
                },
                None => {
                    return Err(err_at(token, ErrorKind::IndexOutOfRange));
                },
            }
        }
        push_value(instructions, Value::Pick(Box::new(arr), Box::new(index)));
        return Ok(1);
    }
    if chars_eq_str(&token.value, "set") {
        let value = match popv(instructions) {
            Some(v) => v,
            None => {
                return Err(err_at(token, ErrorKind::OperandMissing));
            },
        };
        let index = match popv(instructions) {
            Some(v) => v,
            None => {
                return Err(err_at(token, ErrorKind::OperandMissing));
            },
        };
        let arr = match popv(instructions) {
            Some(v) => v,
            None => {
                return Err(err_at(token, ErrorKind::OperandMissing));
            },
        };
        push_value(instructions, Value::SetItem(Box::new(arr), Box::new(index), Box::new(value)));
        return Ok(1);
    }
    if chars_eq_str(&token.value, "mov") {
        if start + 1 < tokens.len() && matches!(tokens[start + 1].typ, TokenKind::Keyword) {
            if has_mode(binds, "array") {
                let name = copy_chars(&tokens[start + 1].value);
                binds.insert(copy_chars(&name), Value::Get(copy_chars(&name)));
                push_value(instructions, Value::Mov(name));
                return Ok(2);
            }
        }
        return Err(err_at(token, ErrorKind::MovOutsideArray));
    }
    if chars_eq_str(&token.value, "push") {
        let value = match popv(instructions) {
            Some(v) => v,
            None => {
                return Err(err_at(token, ErrorKind::OperandMissing));
            },
        };
        let parent = match popv(instructions) {
            Some(v) => v,
            None => {
                return Err(err_at(token, ErrorKind::OperandMissing));
            },
        };
        push_value(instructions, Value::Push(Box::new(parent), Box::new(value)));
        return Ok(1);
    }
    if chars_eq_str(&token.value, "dict") {
        let v = match popv(instructions) {
            Some(v) => v,
            None => {
                return Err(err_at(token, ErrorKind::DictShape));
            },
        };
        let k = match popv(instructions) {
            Some(v) => v,
            None => {
                return Err(err_at(token, ErrorKind::DictShape));
            },
        };
        if let (Value::Array(ks), Value::Array(vs)) = (k, v) {
            push_value(instructions, Value::Dict(ks, vs));
            return Ok(1);
        }
        return Err(err_at(token, ErrorKind::DictShape));
    }
    if chars_eq_str(&token.value, "println") {
        let x = match popv(instructions) {
            Some(v) => v,
            None => {
                return Err(err_at(token, ErrorKind::OperandMissing));
            },
        };
        push_value(instructions, Value::Println(Box::new(x)));
        return Ok(1);
    }
    if chars_eq_str(&token.value, ":rust!") || chars_eq_str(&token.value, ":rust!:") {
        match popv(instructions) {
            Some(Value::Array(a)) => {
                if chars_eq_str(&token.value, ":rust!") {
                    push_value(instructions, Value::RustBinding(a));
                } else {
                    push_value(instructions, Value::RustReturnableBinding(a));
                }
            },
            _ => {},
        }
        return Ok(1);
    }
    if chars_eq_str(&token.value, "use") {
        let path = match popv(instructions) {
            Some(v) => v,
            None => {
                return Err(err_at(token, ErrorKind::OperandMissing));
            },
        };
        if let Value::String(p) = path {
            match sources.get(&p) {
                Some((key, text)) => {
                    if binds.get(key).is_some() {
                        return Ok(1);
                    }
                    binds.insert(copy_chars(key), Value::Undefined);
                    if fuel == 0 {
                        return Err(err_at(token, ErrorKind::DepthExceeded));
                    }
                    if text.len() == usize::MAX {
                        return Err(err_at(token, ErrorKind::TextTooLarge));
                    }
                    let toks = lex_chars(text);
                    proof {
                        assert(token_views(toks@) == crate::lexer::lex_spec(
                            sources@[p@].1,
                            0,
                            1,
                            0,
                        ));
                    }
                    match get_all_instructions(&toks, instructions, binds, sources, fuel - 1) {
                        Ok(()) => {},
                        Err(e) => {
                            return Err(e);
                        },
                    }
                },
                None => {
                    return Err(err_at(token, ErrorKind::MissingSource));
                },
            }
        }
        return Ok(1);
    }
    if chars_eq_str(&token.value, ":current_code_place!:") {
        let mut text = u64_digits(token.line as u64);
        text.push(':');
        let mut cd = u64_digits(token.col as u64);
        crate::chars::push_chars(&mut text, &cd);
        push_value(instructions, Value::String(text));
        return Ok(1);
    }
    // a name: a macro, a declared function, or a bound meaning
    let ghost gbound: ValueView = if binds@.dom().contains(token.value@) {
        binds@[token.value@]
    } else {
        ValueView::Undefined
    };
    let bound = match binds.get(&token.value) {
        Some(v) => Some(clone_value(v)),
        None => None,
    };
    proof {
        if binds@.dom().contains(token.value@) {
            assert(bound matches Some(b) && b@ == gbound);
        }
    }
    match bound {
        Some(Value::Do(x, wrap)) => {
            if fuel == 0 {
                return Err(err_at(token, ErrorKind::DepthExceeded));
            }
            let mut synth: Vec<Token> = Vec::new();
            if wrap {
                match parse_pair_symbols(tokens, start + 1, "{", "}") {
                    Some((body, past)) => {
                        synth.push(
                            Token {
                                typ: TokenKind::Keyword,
                                value: str_chars("do"),
                                line: token.line,
                                col: token.col,
                            },
                        );
                        synth.push(
                            Token {
                                typ: TokenKind::CurlyBracket,
                                value: str_chars("{"),
                                line: token.line,
                                col: token.col,
                            },
                        );
                        append_tokens(&mut synth, &body, 0);
                        synth.push(
                            Token {
                                typ: TokenKind::CurlyBracket,
                                value: str_chars("}"),
                                line: token.line,
                                col: token.col,
                            },
                        );
                        append_tokens(&mut synth, &x, 0);
                        append_tokens(&mut synth, tokens, past - 1);
                    },
                    None => {
                        return Err(err_at(token, ErrorKind::BodyMissing));
                    },
                }
            } else {
                let mut i: usize = 0;
                while i < x.len()
                    decreases x@.len() - i,
                {
                    synth.push(
                        Token {
                            typ: x[i].typ,
                            value: copy_chars(&x[i].value),
                            line: token.line,
                            col: token.col,
                        },
                    );
                    i += 1;
                }
                append_tokens(&mut synth, tokens, start + 1);
            }
            match get_all_instructions(&synth, instructions, binds, sources, fuel - 1) {
                Ok(()) => {},
                Err(e) => {
                    return Err(e);
                },
            }
            Ok(tokens.len() - start)
        },
        Some(Value::TCall(name2, n)) => {
            proof {
                assert(gbound == ValueView::TCall(name2@, n as nat));
            }
            let a = match pop_call_args(instructions, n, token) {
                Ok(a) => a,
                Err(e) => {
                    return Err(e);
                },
            };
            push_value(instructions, Value::Call(name2, a));
            Ok(1)
        },
        Some(other) => {
            proof {
                assert(other@ == gbound);
            }
            push_value(instructions, other);
            Ok(1)
        },
        None => Err(err_at(token, ErrorKind::UnknownKeyword(copy_chars(&token.value)))),
    }
}

/// Appends copies of the tokens from `from` on.
fn append_tokens(out: &mut Vec<Token>, src: &Vec<Token>, from: usize)
{
    let mut i: usize = from;
    while i < src.len()
        decreases src@.len() - i,
    {
        out.push(copy_token(&src[i]));
        i += 1;
    }
}


/// Appends one instruction to the tail.
fn push_value(instructions: &mut Vec<Value>, v: Value)
    ensures
        views(final(instructions)@) == views(old(instructions)@).push(v@),
{
    let ghost pre = views(instructions@);
    let ghost gv = v@;
    instructions.push(v);
    proof {
        assert(views(instructions@) =~= pre.push(gv));
    }
}

/// Takes the tail instruction off, whatever it is.
fn pop_value(instructions: &mut Vec<Value>) -> (r: Option<Value>)
    ensures
        match r {
            Some(v) => views(old(instructions)@).len() > 0 && v@ == views(
                old(instructions)@,
            ).last() && views(final(instructions)@) == views(old(instructions)@).drop_last(),
            None => views(old(instructions)@).len() == 0 && final(instructions)@ == old(
                instructions,
            )@,
        },
{
    let ghost pre = views(instructions@);
    match instructions.pop() {
        Some(v) => {
            proof {
                assert(views(instructions@) =~= pre.drop_last());
                assert(pre.last() == v@);
            }
            Some(v)
        },
        None => None,
    }
}


/// Every name bound before is still bound after: building only adds.
pub open spec fn dom_grows(env0: Map<Seq<char>, ValueView>, env1: Map<Seq<char>, ValueView>) -> bool {
    forall|k: Seq<char>| env0.dom().contains(k) ==> #[trigger] env1.dom().contains(k)
}

/// The operator node a binary operator token builds from its two popped
/// operands, in the source operand order; `None` for a text that is no
/// binary operator.
pub open spec fn op_node(w: Seq<char>, a: ValueView, b: ValueView) -> Option<ValueView> {
    if w == "+"@ {
        Some(ValueView::NumOp(Box::new(a), Box::new(b), MathOp::Add))
    } else if w == "-"@ {
        Some(ValueView::NumOp(Box::new(a), Box::new(b), MathOp::Sub))
    } else if w == "/"@ {
        Some(ValueView::NumOp(Box::new(a), Box::new(b), MathOp::Div))
    } else if w == "*"@ {
        Some(ValueView::NumOp(Box::new(a), Box::new(b), MathOp::Mul))
    } else if w == "%"@ {
        Some(ValueView::NumOp(Box::new(a), Box::new(b), MathOp::Mod))
    } else if w == "<<"@ {
        Some(ValueView::NumOp(Box::new(a), Box::new(b), MathOp::BitShiftLeft))
    } else if w == ">>"@ {
        Some(ValueView::NumOp(Box::new(a), Box::new(b), MathOp::BitShiftRight))
    } else if w == "**"@ {
        Some(ValueView::Pow(Box::new(a), Box::new(b)))
    } else if w == "="@ {
        Some(ValueView::LogOp(Box::new(a), Box::new(b), LogicOp::Eq))
    } else if w == "!="@ {
        Some(ValueView::LogOp(Box::new(a), Box::new(b), LogicOp::NotEq))
    } else if w == "&&"@ || w == "and"@ {
        Some(ValueView::LogOp(Box::new(a), Box::new(b), LogicOp::And))
    } else if w == "||"@ || w == "or"@ {
        Some(ValueView::LogOp(Box::new(a), Box::new(b), LogicOp::Or))
    } else if w == "<"@ {
        Some(ValueView::LogOp(Box::new(a), Box::new(b), LogicOp::Less))
    } else if w == ">"@ {
        Some(ValueView::LogOp(Box::new(a), Box::new(b), LogicOp::More))
    } else if w == "<="@ {
        Some(ValueView::LogOp(Box::new(a), Box::new(b), LogicOp::LessEq))
    } else if w == ">="@ {
        Some(ValueView::LogOp(Box::new(a), Box::new(b), LogicOp::MoreEq))
    } else {
        None
    }
}

/// Builds the operator node for a binary operator token.
fn make_op_node(w: &Vec<char>, a: Value, b: Value) -> (r: Option<Value>)
    ensures
        (r is Some) == (op_node(w@, a@, b@) is Some),
        r matches Some(n) ==> op_node(w@, a@, b@) == Some(n@),
{
    if chars_eq_str(w, "+") {
        Some(Value::NumOp(Box::new(a), Box::new(b), MathOp::Add))
    } else if chars_eq_str(w, "-") {
        Some(Value::NumOp(Box::new(a), Box::new(b), MathOp::Sub))
    } else if chars_eq_str(w, "/") {
        Some(Value::NumOp(Box::new(a), Box::new(b), MathOp::Div))
    } else if chars_eq_str(w, "*") {
        Some(Value::NumOp(Box::new(a), Box::new(b), MathOp::Mul))
    } else if chars_eq_str(w, "%") {
        Some(Value::NumOp(Box::new(a), Box::new(b), MathOp::Mod))
    } else if chars_eq_str(w, "<<") {
        Some(Value::NumOp(Box::new(a), Box::new(b), MathOp::BitShiftLeft))
    } else if chars_eq_str(w, ">>") {
        Some(Value::NumOp(Box::new(a), Box::new(b), MathOp::BitShiftRight))
    } else if chars_eq_str(w, "**") {
        Some(Value::Pow(Box::new(a), Box::new(b)))
    } else if chars_eq_str(w, "=") {
        Some(Value::LogOp(Box::new(a), Box::new(b), LogicOp::Eq))
    } else if chars_eq_str(w, "!=") {
        Some(Value::LogOp(Box::new(a), Box::new(b), LogicOp::NotEq))
    } else if chars_eq_str(w, "&&") || chars_eq_str(w, "and") {
        Some(Value::LogOp(Box::new(a), Box::new(b), LogicOp::And))
    } else if chars_eq_str(w, "||") || chars_eq_str(w, "or") {
        Some(Value::LogOp(Box::new(a), Box::new(b), LogicOp::Or))
    } else if chars_eq_str(w, "<") {
        Some(Value::LogOp(Box::new(a), Box::new(b), LogicOp::Less))
    } else if chars_eq_str(w, ">") {
        Some(Value::LogOp(Box::new(a), Box::new(b), LogicOp::More))
    } else if chars_eq_str(w, "<=") {
        Some(Value::LogOp(Box::new(a), Box::new(b), LogicOp::LessEq))
    } else if chars_eq_str(w, ">=") {
        Some(Value::LogOp(Box::new(a), Box::new(b), LogicOp::MoreEq))
    } else {
        None
    }
}

/// Is the token this keyword?
pub open spec fn is_kw(t: crate::token::TokenView, w: Seq<char>) -> bool {
    t.typ == TokenKind::Keyword && t.value == w
}

/// Does the construct at this token compile its body against a cloned
/// binding table, leaving the enclosing table untouched?
pub open spec fn scoped_token(t: crate::token::TokenView) -> bool {
    ||| t.typ == TokenKind::CurlyBracket
    ||| t.typ == TokenKind::Bracket
    ||| t.typ == TokenKind::String
    ||| t.typ == TokenKind::Int
    ||| t.typ == TokenKind::Real
    ||| t.typ == TokenKind::Operator
    ||| t.typ == TokenKind::Logical
    ||| t.typ == TokenKind::Comment
    ||| is_kw(t, "loop"@)
    ||| is_kw(t, "if"@)
    ||| is_kw(t, "else"@)
    ||| is_kw(t, "let"@)
}


/// What one build step guarantees, by the construct at `start`: the exact
/// effect of literals and sentinels, the dead-branch rules of `if` and
/// `else`, the idempotence of `use`, the context rules of `break` and
/// `continue`, and the two assignment disciplines.
pub open spec fn build_step_post(
    tv: Seq<crate::token::TokenView>,
    srcs: Map<Seq<char>, (Seq<char>, Seq<char>)>,
    start: nat,
    ins0: Seq<ValueView>,
    env0: Map<Seq<char>, ValueView>,
    ins1: Seq<ValueView>,
    env1: Map<Seq<char>, ValueView>,
    r: Result<usize, CompileError>,
) -> bool {
    let t = tv[start as int];
    &&& (t.typ == TokenKind::String ==> r == Result::<usize, CompileError>::Ok(1usize) && ins1
        == ins0.push(ValueView::String(crate::parse::spec_parse_string(t.value))))
    &&& ((t.typ == TokenKind::Int || t.typ == TokenKind::Real) ==> match r {
        Ok(n) => n == 1 && ins1.len() == ins0.len() + 1 && (ins1.last() matches ValueView::Number(
            d,
        ) && d.wf() && d.val() == crate::numfmt::num_text_val(t.value)) && ins1 == ins0.push(
            ins1.last(),
        ),
        Err(_) => !crate::numfmt::num_shape(t.value) || crate::numfmt::split_at_dot(
            crate::numfmt::strip_sign(t.value).1,
        ).1.len() > crate::num::MAX_SCALE || crate::numfmt::combined_mant(t.value) > u64::MAX,
    })
    &&& (is_kw(t, "true"@) ==> r == Result::<usize, CompileError>::Ok(1usize) && ins1 == ins0.push(
        ValueView::Boolean(true),
    ))
    &&& (is_kw(t, "false"@) ==> r == Result::<usize, CompileError>::Ok(1usize) && ins1
        == ins0.push(ValueView::Boolean(false)))
    &&& (is_kw(t, "if"@) ==> (crate::parse::spec_pair(tv, "{"@, "}"@, start + 1) matches Some(
        bp,
    ) ==> {
        &&& (ins0.len() > 0 && ins0.last() == ValueView::Boolean(false) ==> r == Result::<
            usize,
            CompileError,
        >::Ok((bp.1 - start - 1) as usize) && ins1 == ins0.drop_last().push(ValueView::FailedIf))
        &&& (r is Ok && ins0.len() > 0 && ins0.last() == ValueView::Boolean(true) ==> exists|
            body: Seq<ValueView>,
        |
            ins1 == ins0.drop_last().push(ValueView::Block(body)).push(ValueView::PassedIf))
        &&& (r is Ok && ins0.len() > 0 && !(ins0.last() is Boolean) ==> exists|
            body: Seq<ValueView>,
        |
            ins1 == ins0.drop_last().push(
                ValueView::If(Box::new(ins0.last()), body),
            ))
    }))
    &&& (is_kw(t, "else"@) && ins0.len() > 0 ==> (crate::parse::spec_pair(
        tv,
        "{"@,
        "}"@,
        start + 1,
    ) matches Some(bp) ==> {
        &&& (ins0.last() == ValueView::PassedIf ==> r == Result::<usize, CompileError>::Ok(
            (bp.1 - start - 1) as usize,
        ) && ins1 == ins0.drop_last())
        &&& (r is Ok && ins0.last() == ValueView::FailedIf ==> exists|body: Seq<ValueView>|
            ins1 == ins0.drop_last().push(ValueView::Block(body)))
        &&& (r is Ok && !(ins0.last() is PassedIf) && !(ins0.last() is FailedIf) ==> exists|
            body: Seq<ValueView>,
        |
            ins1 == ins0.push(ValueView::Else(body)))
    }))
    &&& (is_kw(t, "break"@) ==> (r is Ok <==> mode_active(env0, "loop"@)) && (r is Ok ==> r
        == Result::<usize, CompileError>::Ok(1usize) && ins1 == ins0.push(ValueView::Break)
        && env1 == env0))
    &&& (is_kw(t, "continue"@) ==> (r is Ok <==> mode_active(env0, "loop"@)) && (r is Ok ==> r
        == Result::<usize, CompileError>::Ok(1usize) && ins1 == ins0.push(ValueView::Continue)
        && env1 == env0))
    &&& (is_kw(t, "use"@) ==> (crate::value::popv_spec(ins0) matches Some(pp) ==> {
        &&& (pp.1 matches ValueView::String(path) ==> {
            &&& (!srcs.dom().contains(path) ==> r is Err)
            &&& (srcs.dom().contains(path) && env0.dom().contains(srcs[path].0) ==> r == Result::<
                usize,
                CompileError,
            >::Ok(1usize) && ins1 == pp.0 && env1 == env0)
            &&& (r is Ok && srcs.dom().contains(path) && !env0.dom().contains(srcs[path].0)
                ==> env1.dom().contains(srcs[path].0))
        })
        &&& (!(pp.1 is String) ==> r == Result::<usize, CompileError>::Ok(1usize) && ins1 == pp.0
            && env1 == env0)
    }))
    &&& (t.typ == TokenKind::Assign && start + 1 < tv.len() && tv[start as int + 1].typ
        == TokenKind::Keyword ==> (crate::value::popv_spec(ins0) matches Some(pp) ==> {
        let name = tv[start as int + 1].value;
        &&& (env0.dom().contains(name) && env0[name] is Ref ==> r == Result::<
            usize,
            CompileError,
        >::Ok(2usize) && ins1 == pp.0.push(ValueView::RefAssign(name, Box::new(pp.1))) && env1
            == env0)
        &&& (!(env0.dom().contains(name) && env0[name] is Ref) ==> r == Result::<
            usize,
            CompileError,
        >::Ok(2usize) && ins1 == pp.0.push(ValueView::Var(name, Box::new(pp.1))) && env1
            == env0.insert(name, ValueView::Get(name)))
    }))
    &&& ((t.typ == TokenKind::Operator || t.typ == TokenKind::Logical) ==> {
        &&& (crate::value::popv_spec(ins0) is None ==> r is Err)
        &&& ((t.value == "not"@ || t.value == "!"@) ==> (crate::value::popv_spec(ins0) matches
            Some(p1) ==> r == Result::<usize, CompileError>::Ok(1usize) && env1 == env0 && ins1
            == p1.0.push(crate::fold::process_spec(ValueView::Not(Box::new(p1.1))))))
        &&& (!(t.value == "not"@ || t.value == "!"@) ==> (crate::value::popv_spec(ins0) matches
            Some(p1) ==> {
            &&& (crate::value::popv_spec(p1.0) is None ==> r is Err)
            &&& (crate::value::popv_spec(p1.0) matches Some(p2) ==> r == Result::<
                usize,
                CompileError,
            >::Ok(1usize) && env1 == env0 && (match op_node(t.value, p2.1, p1.1) {
                Some(n) => ins1 == p2.0.push(crate::fold::process_spec(n)),
                None => ins1 == p2.0,
            }))
        }))
    })
    &&& (is_kw(t, "mov"@) && start + 1 < tv.len() && tv[start as int + 1].typ
        == TokenKind::Keyword ==> {
        let name = tv[start as int + 1].value;
        &&& (r is Ok <==> mode_active(env0, "array"@))
        &&& (r is Ok ==> r == Result::<usize, CompileError>::Ok(2usize) && ins1 == ins0.push(
            ValueView::Mov(name),
        ) && env1 == env0.insert(name, ValueView::Get(name)))
    })
    &&& ((is_kw(t, "macro"@) || is_kw(t, "macro:b:"@)) && start + 1 < tv.len() && tv[start as int
        + 1].typ == TokenKind::Keyword ==> {
        &&& (crate::parse::spec_pair(tv, "#!"@, "!#"@, start + 2) is None ==> r is Err)
        &&& (crate::parse::spec_pair(tv, "#!"@, "!#"@, start + 2) matches Some(bp) ==> r
            == Result::<usize, CompileError>::Ok((bp.1 - start - 1) as usize) && ins1 == ins0
            && env1 == env0.insert(
            tv[start as int + 1].value,
            ValueView::Do(bp.0, is_kw(t, "macro:b:"@)),
        ))
    })
    &&& (is_kw(t, "loop"@) ==> (crate::parse::spec_pair(tv, "{"@, "}"@, start + 1) matches Some(
        bp,
    ) ==> (r is Ok ==> r == Result::<usize, CompileError>::Ok((bp.1 - start - 1) as usize) && env1
        == env0 && exists|body: Seq<ValueView>| ins1 == ins0.push(ValueView::Loop(body)))))
    &&& (is_kw(t, "fn"@) && start + 1 < tv.len() && tv[start as int + 1].typ == TokenKind::Keyword
        ==> (crate::parse::spec_pair(
        tv,
        "{"@,
        "}"@,
        crate::parse::args_end(tv, start + 2),
    ) matches Some(bp) ==> (r is Ok ==> {
        let name = tv[start as int + 1].value;
        let params = fn_param_names(tv, start + 2);
        &&& r == Result::<usize, CompileError>::Ok((bp.1 - start) as usize)
        &&& env1 == env0.insert(name, ValueView::TCall(name, params.len()))
        &&& exists|body: Seq<ValueView>| ins1 == ins0.push(ValueView::Fn(name, params, body))
    })))
    &&& (is_kw(t, "times"@) ==> {
        &&& (crate::value::popv_spec(ins0) is None ==> r is Err)
        &&& (crate::value::popv_spec(ins0) matches Some(pp) ==> (pp.1 is Number ==> (
        crate::parse::spec_pair(tv, "{"@, "}"@, start + 1) matches Some(bp) ==> (r is Ok ==> r
            == Result::<usize, CompileError>::Ok((bp.1 - start - 1) as usize)))))
    })
}


/// Is the text one of the built-in keywords of the dispatch chain?
pub open spec fn is_builtin(w: Seq<char>) -> bool {
    ||| w == "true"@
    ||| w == "false"@
    ||| w == "if"@
    ||| w == "else"@
    ||| w == "loop"@
    ||| w == "break"@
    ||| w == "continue"@
    ||| w == "let"@
    ||| w == "times"@
    ||| w == "do"@
    ||| w == "unwrap"@
    ||| w == "do:add_tokens"@
    ||| w == "macro"@
    ||| w == "macro:b:"@
    ||| w == "fn"@
    ||| w == "type"@
    ||| w == "pick"@
    ||| w == "set"@
    ||| w == "mov"@
    ||| w == "push"@
    ||| w == "dict"@
    ||| w == "println"@
    ||| w == ":rust!"@
    ||| w == ":rust!:"@
    ||| w == "use"@
    ||| w == ":current_code_place!:"@
}

/// Pops `n` finished values off the tail, in pop order.
pub open spec fn popv_n(s: Seq<ValueView>, n: nat) -> Option<(Seq<ValueView>, Seq<ValueView>)>
    decreases n,
{
    if n == 0 {
        Some((s, Seq::empty()))
    } else {
        match crate::value::popv_spec(s) {
            Some(p) => match popv_n(p.0, (n - 1) as nat) {
                Some(q) => Some((q.0, seq![p.1] + q.1)),
                None => None,
            },
            None => None,
        }
    }
}

/// One more pop extends the popped run at its end.
proof fn lemma_popv_n_snoc(s: Seq<ValueView>, i: nat)
    ensures
        (popv_n(s, i) matches Some(q) ==> (crate::value::popv_spec(q.0) matches Some(p)
            ==> popv_n(s, i + 1) == Some((p.0, q.1.push(p.1))))),
        (popv_n(s, i) matches Some(q) ==> (crate::value::popv_spec(q.0) is None ==> forall|m: nat|
            m > i ==> popv_n(s, m) is None)),
    decreases i,
{
    reveal_with_fuel(popv_n, 3);
    if i == 0 {
        match crate::value::popv_spec(s) {
            Some(p) => {
                assert(popv_n(s, 1) == Some((p.0, seq![p.1] + Seq::<ValueView>::empty())));
                assert(seq![p.1] + Seq::<ValueView>::empty() =~= Seq::<ValueView>::empty().push(
                    p.1,
                ));
            },
            None => {
                assert forall|m: nat| m > 0 implies popv_n(s, m) is None by {}
            },
        }
    } else {
        match crate::value::popv_spec(s) {
            Some(p) => {
                lemma_popv_n_snoc(p.0, (i - 1) as nat);
                match popv_n(p.0, (i - 1) as nat) {
                    Some(q) => {
                        match crate::value::popv_spec(q.0) {
                            Some(p2) => {
                                assert(seq![p.1] + q.1.push(p2.1) =~= (seq![p.1] + q.1).push(
                                    p2.1,
                                ));
                            },
                            None => {
                                assert forall|m: nat| m > i implies popv_n(s, m) is None by {
                                    assert(popv_n(p.0, (m - 1) as nat) is None);
                                }
                            },
                        }
                    },
                    None => {},
                }
            },
            None => {},
        }
    }
}

/// A chain of build steps from `start` to `pos`: each step obeys the
/// one-step contract, and the states thread through.
pub open spec fn built_from(
    tv: Seq<crate::token::TokenView>,
    srcs: Map<Seq<char>, (Seq<char>, Seq<char>)>,
    start: nat,
    ins0: Seq<ValueView>,
    env0: Map<Seq<char>, ValueView>,
    pos: nat,
    ins1: Seq<ValueView>,
    env1: Map<Seq<char>, ValueView>,
) -> bool
    decreases pos - start,
{
    if pos <= start {
        pos == start && ins1 == ins0 && env1 == env0
    } else {
        exists|j: nat, ins_m: Seq<ValueView>, env_m: Map<Seq<char>, ValueView>|
            start <= j < pos && built_from(tv, srcs, start, ins0, env0, j, ins_m, env_m)
                && #[trigger] build_step_post(
                tv,
                srcs,
                j,
                ins_m,
                env_m,
                ins1,
                env1,
                Result::<usize, CompileError>::Ok((pos - j) as usize),
            )
    }
}

/// A chain extends by one step at its end.
proof fn lemma_built_from_snoc(
    tv: Seq<crate::token::TokenView>,
    srcs: Map<Seq<char>, (Seq<char>, Seq<char>)>,
    start: nat,
    ins0: Seq<ValueView>,
    env0: Map<Seq<char>, ValueView>,
    j: nat,
    ins_m: Seq<ValueView>,
    env_m: Map<Seq<char>, ValueView>,
    pos: nat,
    ins1: Seq<ValueView>,
    env1: Map<Seq<char>, ValueView>,
    n: usize,
)
    requires
        start <= j < pos,
        n == pos - j,
        built_from(tv, srcs, start, ins0, env0, j, ins_m, env_m),
        build_step_post(
            tv,
            srcs,
            j,
            ins_m,
            env_m,
            ins1,
            env1,
            Result::<usize, CompileError>::Ok(n),
        ),
    ensures
        built_from(tv, srcs, start, ins0, env0, pos, ins1, env1),
{
    reveal_with_fuel(built_from, 2);
    assert(Result::<usize, CompileError>::Ok((pos - j) as usize) == Result::<
        usize,
        CompileError,
    >::Ok(n));
    assert(exists|j2: nat, ins_m2: Seq<ValueView>, env_m2: Map<Seq<char>, ValueView>|
        start <= j2 < pos && built_from(tv, srcs, start, ins0, env0, j2, ins_m2, env_m2)
            && #[trigger] build_step_post(
            tv,
            srcs,
            j2,
            ins_m2,
            env_m2,
            ins1,
            env1,
            Result::<usize, CompileError>::Ok((pos - j2) as usize),
        )) by {
        assert(start <= j < pos && built_from(tv, srcs, start, ins0, env0, j, ins_m, env_m)
            && build_step_post(
            tv,
            srcs,
            j,
            ins_m,
            env_m,
            ins1,
            env1,
            Result::<usize, CompileError>::Ok((pos - j) as usize),
        ));
    }
}

/// A body compiled over and over: `k` whole chains of the same token
/// window, end to end — the compile-time unrolling.
pub open spec fn repeated(
    tb: Seq<crate::token::TokenView>,
    srcs: Map<Seq<char>, (Seq<char>, Seq<char>)>,
    k: nat,
    ins0: Seq<ValueView>,
    env0: Map<Seq<char>, ValueView>,
    ins1: Seq<ValueView>,
    env1: Map<Seq<char>, ValueView>,
) -> bool
    decreases k,
{
    if k == 0 {
        ins1 == ins0 && env1 == env0
    } else {
        exists|ins_m: Seq<ValueView>, env_m: Map<Seq<char>, ValueView>|
            #[trigger] built_from(tb, srcs, 0, ins0, env0, tb.len(), ins_m, env_m) && repeated(
                tb,
                srcs,
                (k - 1) as nat,
                ins_m,
                env_m,
                ins1,
                env1,
            )
    }
}

/// One more whole-window chain extends a repetition at its end.
proof fn lemma_repeated_snoc(
    tb: Seq<crate::token::TokenView>,
    srcs: Map<Seq<char>, (Seq<char>, Seq<char>)>,
    k: nat,
    ins0: Seq<ValueView>,
    env0: Map<Seq<char>, ValueView>,
    ins1: Seq<ValueView>,
    env1: Map<Seq<char>, ValueView>,
    ins2: Seq<ValueView>,
    env2: Map<Seq<char>, ValueView>,
)
    requires
        repeated(tb, srcs, k, ins0, env0, ins1, env1),
        built_from(tb, srcs, 0, ins1, env1, tb.len(), ins2, env2),
    ensures
        repeated(tb, srcs, k + 1, ins0, env0, ins2, env2),
    decreases k,
{
    if k == 0 {
        assert(repeated(tb, srcs, 1, ins0, env0, ins2, env2)) by {
            assert(built_from(tb, srcs, 0, ins0, env0, tb.len(), ins2, env2));
            assert(repeated(tb, srcs, 0, ins2, env2, ins2, env2));
        }
    } else {
        let (ins_m, env_m) = choose|ins_m: Seq<ValueView>, env_m: Map<Seq<char>, ValueView>|
            #[trigger] built_from(tb, srcs, 0, ins0, env0, tb.len(), ins_m, env_m) && repeated(
                tb,
                srcs,
                (k - 1) as nat,
                ins_m,
                env_m,
                ins1,
                env1,
            );
        lemma_repeated_snoc(tb, srcs, (k - 1) as nat, ins_m, env_m, ins1, env1, ins2, env2);
    }
}

/// The repetition count of a `times` operand: the whole-number part, or
/// none at all for a negative count.
pub open spec fn times_count(d: Decimal) -> nat {
    if crate::num::spec_trunc(d).0 {
        0
    } else {
        crate::num::spec_trunc(d).1
    }
}

/// What one build step guarantees about the *content* of the bodies it
/// compiles: each kept arm or body is itself a chain of build steps over
/// the enclosed tokens, against the right starting table.
pub open spec fn build_deep_post(
    tv: Seq<crate::token::TokenView>,
    srcs: Map<Seq<char>, (Seq<char>, Seq<char>)>,
    start: nat,
    ins0: Seq<ValueView>,
    env0: Map<Seq<char>, ValueView>,
    ins1: Seq<ValueView>,
    env1: Map<Seq<char>, ValueView>,
    r: Result<usize, CompileError>,
) -> bool {
    let t = tv[start as int];
    &&& (is_kw(t, "if"@) && r is Ok && ins0.len() > 0 ==> (crate::parse::spec_pair(
        tv,
        "{"@,
        "}"@,
        start + 1,
    ) matches Some(bp) ==> {
        &&& (ins0.last() == ValueView::Boolean(true) ==> exists|
            body: Seq<ValueView>,
            env_x: Map<Seq<char>, ValueView>,
        |
            #[trigger] built_from(bp.0, srcs, 0, Seq::empty(), env0, bp.0.len(), body, env_x)
                && ins1 == ins0.drop_last() + seq![
                ValueView::Block(body),
                ValueView::PassedIf,
            ])
        &&& (!(ins0.last() is Boolean) ==> exists|
            body: Seq<ValueView>,
            env_x: Map<Seq<char>, ValueView>,
        |
            #[trigger] built_from(bp.0, srcs, 0, Seq::empty(), env0, bp.0.len(), body, env_x)
                && ins1 == ins0.drop_last().push(
                ValueView::If(Box::new(ins0.last()), body),
            ))
    }))
    &&& (is_kw(t, "else"@) && r is Ok && ins0.len() > 0 ==> (crate::parse::spec_pair(
        tv,
        "{"@,
        "}"@,
        start + 1,
    ) matches Some(bp) ==> {
        &&& (ins0.last() == ValueView::FailedIf ==> exists|
            body: Seq<ValueView>,
            env_x: Map<Seq<char>, ValueView>,
        |
            #[trigger] built_from(bp.0, srcs, 0, Seq::empty(), env0, bp.0.len(), body, env_x)
                && ins1 == ins0.drop_last().push(ValueView::Block(body)))
        &&& (!(ins0.last() is PassedIf) && !(ins0.last() is FailedIf) ==> exists|
            body: Seq<ValueView>,
            env_x: Map<Seq<char>, ValueView>,
        |
            #[trigger] built_from(bp.0, srcs, 0, Seq::empty(), env0, bp.0.len(), body, env_x)
                && ins1 == ins0.push(ValueView::Else(body)))
    }))
    &&& (is_kw(t, "loop"@) && r is Ok ==> (crate::parse::spec_pair(tv, "{"@, "}"@, start + 1)
        matches Some(bp) ==> exists|body: Seq<ValueView>, env_x: Map<Seq<char>, ValueView>|
        #[trigger] built_from(
            bp.0,
            srcs,
            0,
            Seq::empty(),
            add_mode_spec(env0, "loop"@),
            bp.0.len(),
            body,
            env_x,
        ) && ins1 == ins0.push(ValueView::Loop(body))))
    &&& (is_kw(t, "fn"@) && r is Ok && start + 1 < tv.len() && tv[start as int + 1].typ
        == TokenKind::Keyword ==> (crate::parse::spec_pair(
        tv,
        "{"@,
        "}"@,
        crate::parse::args_end(tv, start + 2),
    ) matches Some(bp) ==> {
        let name = tv[start as int + 1].value;
        let params = fn_param_names(tv, start + 2);
        exists|body: Seq<ValueView>, env_x: Map<Seq<char>, ValueView>|
            #[trigger] built_from(
                bp.0,
                srcs,
                0,
                Seq::empty(),
                fn_scope(env0.insert(name, ValueView::TCall(name, params.len())), params),
                bp.0.len(),
                body,
                env_x,
            ) && ins1 == ins0.push(ValueView::Fn(name, params, body))
    }))
    &&& (is_kw(t, "times"@) && r is Ok ==> (crate::value::popv_spec(ins0) matches Some(pp) ==> (
    pp.1 matches ValueView::Number(d) ==> (crate::parse::spec_pair(tv, "{"@, "}"@, start + 1)
        matches Some(bp) ==> repeated(bp.0, srcs, times_count(d), pp.0, env0, ins1, env1)))))
    &&& (is_kw(t, "use"@) && r is Ok ==> (crate::value::popv_spec(ins0) matches Some(pp) ==> (pp.1
        matches ValueView::String(path) ==> (srcs.dom().contains(path) && !env0.dom().contains(
        srcs[path].0,
    ) ==> built_from(
        crate::lexer::lex_spec(srcs[path].1, 0, 1, 0),
        srcs,
        0,
        pp.0,
        env0.insert(srcs[path].0, ValueView::Undefined),
        crate::lexer::lex_spec(srcs[path].1, 0, 1, 0).len(),
        ins1,
        env1,
    )))))
}

/// The binding table a declared function's body is compiled against: the
/// outer table with plain variable markers pruned, the function context tag,
/// and every parameter rewritten to a reference-wrapped self-read.
pub open spec fn fn_scope(
    m: Map<Seq<char>, ValueView>,
    params: Seq<Seq<char>>,
) -> Map<Seq<char>, ValueView> {
    fn_params_env(
        crate::env::drop_var_marks(m).insert(seq!['='], ValueView::ParseModes(seq!["fn"@])),
        params,
        params.len() as int,
    )
}

/// The first `k` parameters bound as reference-wrapped reads.
pub open spec fn fn_params_env(
    m: Map<Seq<char>, ValueView>,
    params: Seq<Seq<char>>,
    k: int,
) -> Map<Seq<char>, ValueView>
    decreases k,
{
    if k <= 0 || k > params.len() {
        m
    } else {
        fn_params_env(m, params, k - 1).insert(
            params[k - 1],
            ValueView::Ref(Box::new(ValueView::Get(params[k - 1]))),
        )
    }
}

/// The parameter names a declared function reads after its own name: the
/// keyword run beginning there.
pub open spec fn fn_param_names(tv: Seq<crate::token::TokenView>, j: nat) -> Seq<Seq<char>> {
    Seq::new(
        (crate::parse::args_end(tv, j) - j) as nat,
        |k: int| tv[j + k].value,
    )
}


/// Compiles the body the given number of times over, in place: the
/// compile-time unrolling of `times`.
fn repeat_body(
    body: &Vec<Token>,
    count: u64,
    instructions: &mut Vec<Value>,
    binds: &mut Env,
    sources: &Sources,
    fuel: u32,
) -> (r: Result<(), CompileError>)
    ensures
        dom_grows(old(binds)@, final(binds)@),
        r is Ok ==> repeated(
            token_views(body@),
            sources@,
            count as nat,
            views(old(instructions)@),
            old(binds)@,
            views(final(instructions)@),
            final(binds)@,
        ),
    decreases fuel, body@.len(), 5int,
{
    let ghost tb = token_views(body@);
    let ghost i0 = views(instructions@);
    let ghost e0 = binds@;
    let mut i: u64 = 0;
    while i < count
        invariant
            i <= count,
            tb == token_views(body@),
            i0 == views(old(instructions)@),
            e0 == old(binds)@,
            dom_grows(old(binds)@, binds@),
            repeated(tb, sources@, i as nat, i0, e0, views(instructions@), binds@),
        decreases count - i,
    {
        let body_copy = crate::value::copy_tokens(body);
        proof {
            assert(token_views(body_copy@) == token_views(body@));
            assert(token_views(body_copy@).len() == body_copy@.len());
            assert(token_views(body@).len() == body@.len());
        }
        let ghost pre_ins = views(instructions@);
        let ghost pre_env = binds@;
        match get_all_instructions(&body_copy, instructions, binds, sources, fuel) {
            Ok(()) => {},
            Err(e) => {
                return Err(e);
            },
        }
        i += 1;
        proof {
            lemma_repeated_snoc(
                tb,
                sources@,
                (i - 1) as nat,
                i0,
                e0,
                pre_ins,
                pre_env,
                views(instructions@),
                binds@,
            );
        }
    }
    proof {
        assert(i == count);
    }
    Ok(())
}

/// Binds the names of a `let`, in reverse declaration order: a name marked
/// with a leading colon captures the instruction itself, any other name the
/// popped value.
fn bind_let_args(
    args: &Vec<Vec<char>>,
    instructions: &mut Vec<Value>,
    child: &mut Env,
    token: &Token,
) -> (r: Result<(), CompileError>)
{
    let mut i: usize = args.len();
    while i > 0
        invariant
            i <= args@.len(),
        decreases i,
    {
        i -= 1;
        let name = &args[i];
        let bound = if name.len() > 0 && name[0] == ':' {
            match pop_value(instructions) {
                Some(v) => v,
                None => {
                    return Err(err_at(token, ErrorKind::OperandMissing));
                },
            }
        } else {
            match popv(instructions) {
                Some(v) => v,
                None => {
                    return Err(err_at(token, ErrorKind::OperandMissing));
                },
            }
        };
        child.insert(copy_chars(name), bound);
    }
    Ok(())
}

/// Pops the declared number of argument values, oldest first.
fn pop_call_args(instructions: &mut Vec<Value>, n: usize, token: &Token) -> (r: Result<
    Vec<Value>,
    CompileError,
>)
    ensures
        match r {
            Ok(a) => popv_n(views(old(instructions)@), n as nat) matches Some(q) && views(
                final(instructions)@,
            ) == q.0 && views(a@) == q.1.reverse(),
            Err(_) => popv_n(views(old(instructions)@), n as nat) is None,
        },
{
    let ghost s0 = views(instructions@);
    let mut rev: Vec<Value> = Vec::new();
    let mut i: usize = 0;
    proof {
        assert(views(rev@) =~= Seq::<ValueView>::empty());
    }
    while i < n
        invariant
            i <= n,
            s0 == views(old(instructions)@),
            popv_n(s0, i as nat) == Some((views(instructions@), views(rev@))),
        decreases n - i,
    {
        let ghost cur = views(instructions@);
        let ghost coll = views(rev@);
        proof {
            lemma_popv_n_snoc(s0, i as nat);
        }
        match popv(instructions) {
            Some(v) => {
                let ghost gv = v@;
                rev.push(v);
                proof {
                    assert(views(rev@) =~= coll.push(gv));
                }
            },
            None => {
                return Err(err_at(token, ErrorKind::OperandMissing));
            },
        }
        i += 1;
    }
    let ghost full = views(rev@);
    let mut a: Vec<Value> = Vec::new();
    let mut k: usize = rev.len();
    proof {
        assert(views(rev@) =~= full.take(k as int));
    }
    while k > 0
        invariant
            k == rev@.len(),
            k <= full.len(),
            views(rev@) == full.take(k as int),
            views(a@).len() == full.len() - k,
            forall|j: int|
                0 <= j < views(a@).len() ==> #[trigger] views(a@)[j] == full[full.len() - 1 - j],
        decreases k,
    {
        k -= 1;
        match rev.pop() {
            Some(v) => {
                let ghost gv = v@;
                let ghost av = views(a@);
                a.push(v);
                proof {
                    assert(gv == full.take(k as int + 1).last());
                    assert(views(a@) =~= av.push(gv));
                    assert(views(rev@) =~= full.take(k as int));
                }
            },
            None => {
                proof {
                    assert(false);
                }
            },
        }
    }
    proof {
        assert(views(a@) =~= full.reverse());
    }
    Ok(a)
}


/// The keyword literals of the dispatch chain are pairwise distinct.
#[verifier::rlimit(100)]
proof fn lemma_kw_distinct()
    ensures
        "true"@ != "false"@,
        "true"@ != "if"@,
        "true"@ != "else"@,
        "true"@ != "loop"@,
        "true"@ != "break"@,
        "true"@ != "continue"@,
        "true"@ != "let"@,
        "true"@ != "times"@,
        "true"@ != "do"@,
        "true"@ != "unwrap"@,
        "true"@ != "do:add_tokens"@,
        "true"@ != "macro"@,
        "true"@ != "macro:b:"@,
        "true"@ != "fn"@,
        "true"@ != "type"@,
        "true"@ != "pick"@,
        "true"@ != "set"@,
        "true"@ != "mov"@,
        "true"@ != "push"@,
        "true"@ != "dict"@,
        "true"@ != "println"@,
        "true"@ != ":rust!"@,
        "true"@ != ":rust!:"@,
        "true"@ != "use"@,
        "true"@ != ":current_code_place!:"@,
        "false"@ != "if"@,
        "false"@ != "else"@,
        "false"@ != "loop"@,
        "false"@ != "break"@,
        "false"@ != "continue"@,
        "false"@ != "let"@,
        "false"@ != "times"@,
        "false"@ != "do"@,
        "false"@ != "unwrap"@,
        "false"@ != "do:add_tokens"@,
        "false"@ != "macro"@,
        "false"@ != "macro:b:"@,
        "false"@ != "fn"@,
        "false"@ != "type"@,
        "false"@ != "pick"@,
        "false"@ != "set"@,
        "false"@ != "mov"@,
        "false"@ != "push"@,
        "false"@ != "dict"@,
        "false"@ != "println"@,
        "false"@ != ":rust!"@,
        "false"@ != ":rust!:"@,
        "false"@ != "use"@,
        "false"@ != ":current_code_place!:"@,
        "if"@ != "else"@,
        "if"@ != "loop"@,
        "if"@ != "break"@,
        "if"@ != "continue"@,
        "if"@ != "let"@,
        "if"@ != "times"@,
        "if"@ != "do"@,
        "if"@ != "unwrap"@,
        "if"@ != "do:add_tokens"@,
        "if"@ != "macro"@,
        "if"@ != "macro:b:"@,
        "if"@ != "fn"@,
        "if"@ != "type"@,
        "if"@ != "pick"@,
        "if"@ != "set"@,
        "if"@ != "mov"@,
        "if"@ != "push"@,
        "if"@ != "dict"@,
        "if"@ != "println"@,
        "if"@ != ":rust!"@,
        "if"@ != ":rust!:"@,
        "if"@ != "use"@,
        "if"@ != ":current_code_place!:"@,
        "else"@ != "loop"@,
        "else"@ != "break"@,
        "else"@ != "continue"@,
        "else"@ != "let"@,
        "else"@ != "times"@,
        "else"@ != "do"@,
        "else"@ != "unwrap"@,
        "else"@ != "do:add_tokens"@,
        "else"@ != "macro"@,
        "else"@ != "macro:b:"@,
        "else"@ != "fn"@,
        "else"@ != "type"@,
        "else"@ != "pick"@,
        "else"@ != "set"@,
        "else"@ != "mov"@,
        "else"@ != "push"@,
        "else"@ != "dict"@,
        "else"@ != "println"@,
        "else"@ != ":rust!"@,
        "else"@ != ":rust!:"@,
        "else"@ != "use"@,
        "else"@ != ":current_code_place!:"@,
        "loop"@ != "break"@,
        "loop"@ != "continue"@,
        "loop"@ != "let"@,
        "loop"@ != "times"@,
        "loop"@ != "do"@,
        "loop"@ != "unwrap"@,
        "loop"@ != "do:add_tokens"@,
        "loop"@ != "macro"@,
        "loop"@ != "macro:b:"@,
        "loop"@ != "fn"@,
        "loop"@ != "type"@,
        "loop"@ != "pick"@,
        "loop"@ != "set"@,
        "loop"@ != "mov"@,
        "loop"@ != "push"@,
        "loop"@ != "dict"@,
        "loop"@ != "println"@,
        "loop"@ != ":rust!"@,
        "loop"@ != ":rust!:"@,
        "loop"@ != "use"@,
        "loop"@ != ":current_code_place!:"@,
        "break"@ != "continue"@,
        "break"@ != "let"@,
        "break"@ != "times"@,
        "break"@ != "do"@,
        "break"@ != "unwrap"@,
        "break"@ != "do:add_tokens"@,
        "break"@ != "macro"@,
        "break"@ != "macro:b:"@,
        "break"@ != "fn"@,
        "break"@ != "type"@,
        "break"@ != "pick"@,
        "break"@ != "set"@,
        "break"@ != "mov"@,
        "break"@ != "push"@,
        "break"@ != "dict"@,
        "break"@ != "println"@,
        "break"@ != ":rust!"@,
        "break"@ != ":rust!:"@,
        "break"@ != "use"@,
        "break"@ != ":current_code_place!:"@,
        "continue"@ != "let"@,
        "continue"@ != "times"@,
        "continue"@ != "do"@,
        "continue"@ != "unwrap"@,
        "continue"@ != "do:add_tokens"@,
        "continue"@ != "macro"@,
        "continue"@ != "macro:b:"@,
        "continue"@ != "fn"@,
        "continue"@ != "type"@,
        "continue"@ != "pick"@,
        "continue"@ != "set"@,
        "continue"@ != "mov"@,
        "continue"@ != "push"@,
        "continue"@ != "dict"@,
        "continue"@ != "println"@,
        "continue"@ != ":rust!"@,
        "continue"@ != ":rust!:"@,
        "continue"@ != "use"@,
        "continue"@ != ":current_code_place!:"@,
        "let"@ != "times"@,
        "let"@ != "do"@,
        "let"@ != "unwrap"@,
        "let"@ != "do:add_tokens"@,
        "let"@ != "macro"@,
        "let"@ != "macro:b:"@,
        "let"@ != "fn"@,
        "let"@ != "type"@,
        "let"@ != "pick"@,
        "let"@ != "set"@,
        "let"@ != "mov"@,
        "let"@ != "push"@,
        "let"@ != "dict"@,
        "let"@ != "println"@,
        "let"@ != ":rust!"@,
        "let"@ != ":rust!:"@,
        "let"@ != "use"@,
        "let"@ != ":current_code_place!:"@,
        "times"@ != "do"@,
        "times"@ != "unwrap"@,
        "times"@ != "do:add_tokens"@,
        "times"@ != "macro"@,
        "times"@ != "macro:b:"@,
        "times"@ != "fn"@,
        "times"@ != "type"@,
        "times"@ != "pick"@,
        "times"@ != "set"@,
        "times"@ != "mov"@,
        "times"@ != "push"@,
        "times"@ != "dict"@,
        "times"@ != "println"@,
        "times"@ != ":rust!"@,
        "times"@ != ":rust!:"@,
        "times"@ != "use"@,
        "times"@ != ":current_code_place!:"@,
        "do"@ != "unwrap"@,
        "do"@ != "do:add_tokens"@,
        "do"@ != "macro"@,
        "do"@ != "macro:b:"@,
        "do"@ != "fn"@,
        "do"@ != "type"@,
        "do"@ != "pick"@,
        "do"@ != "set"@,
        "do"@ != "mov"@,
        "do"@ != "push"@,
        "do"@ != "dict"@,
        "do"@ != "println"@,
        "do"@ != ":rust!"@,
        "do"@ != ":rust!:"@,
        "do"@ != "use"@,
        "do"@ != ":current_code_place!:"@,
        "unwrap"@ != "do:add_tokens"@,
        "unwrap"@ != "macro"@,
        "unwrap"@ != "macro:b:"@,
        "unwrap"@ != "fn"@,
        "unwrap"@ != "type"@,
        "unwrap"@ != "pick"@,
        "unwrap"@ != "set"@,
        "unwrap"@ != "mov"@,
        "unwrap"@ != "push"@,
        "unwrap"@ != "dict"@,
        "unwrap"@ != "println"@,
        "unwrap"@ != ":rust!"@,
        "unwrap"@ != ":rust!:"@,
        "unwrap"@ != "use"@,
        "unwrap"@ != ":current_code_place!:"@,
        "do:add_tokens"@ != "macro"@,
        "do:add_tokens"@ != "macro:b:"@,
        "do:add_tokens"@ != "fn"@,
        "do:add_tokens"@ != "type"@,
        "do:add_tokens"@ != "pick"@,
        "do:add_tokens"@ != "set"@,
        "do:add_tokens"@ != "mov"@,
        "do:add_tokens"@ != "push"@,
        "do:add_tokens"@ != "dict"@,
        "do:add_tokens"@ != "println"@,
        "do:add_tokens"@ != ":rust!"@,
        "do:add_tokens"@ != ":rust!:"@,
        "do:add_tokens"@ != "use"@,
        "do:add_tokens"@ != ":current_code_place!:"@,
        "macro"@ != "macro:b:"@,
        "macro"@ != "fn"@,
        "macro"@ != "type"@,
        "macro"@ != "pick"@,
        "macro"@ != "set"@,
        "macro"@ != "mov"@,
        "macro"@ != "push"@,
        "macro"@ != "dict"@,
        "macro"@ != "println"@,
        "macro"@ != ":rust!"@,
        "macro"@ != ":rust!:"@,
        "macro"@ != "use"@,
        "macro"@ != ":current_code_place!:"@,
        "macro:b:"@ != "fn"@,
        "macro:b:"@ != "type"@,
        "macro:b:"@ != "pick"@,
        "macro:b:"@ != "set"@,
        "macro:b:"@ != "mov"@,
        "macro:b:"@ != "push"@,
        "macro:b:"@ != "dict"@,
        "macro:b:"@ != "println"@,
        "macro:b:"@ != ":rust!"@,
        "macro:b:"@ != ":rust!:"@,
        "macro:b:"@ != "use"@,
        "macro:b:"@ != ":current_code_place!:"@,
        "fn"@ != "type"@,
        "fn"@ != "pick"@,
        "fn"@ != "set"@,
        "fn"@ != "mov"@,
        "fn"@ != "push"@,
        "fn"@ != "dict"@,
        "fn"@ != "println"@,
        "fn"@ != ":rust!"@,
        "fn"@ != ":rust!:"@,
        "fn"@ != "use"@,
        "fn"@ != ":current_code_place!:"@,
        "type"@ != "pick"@,
        "type"@ != "set"@,
        "type"@ != "mov"@,
        "type"@ != "push"@,
        "type"@ != "dict"@,
        "type"@ != "println"@,
        "type"@ != ":rust!"@,
        "type"@ != ":rust!:"@,
        "type"@ != "use"@,
        "type"@ != ":current_code_place!:"@,
        "pick"@ != "set"@,
        "pick"@ != "mov"@,
        "pick"@ != "push"@,
        "pick"@ != "dict"@,
        "pick"@ != "println"@,
        "pick"@ != ":rust!"@,
        "pick"@ != ":rust!:"@,
        "pick"@ != "use"@,
        "pick"@ != ":current_code_place!:"@,
        "set"@ != "mov"@,
        "set"@ != "push"@,
        "set"@ != "dict"@,
        "set"@ != "println"@,
        "set"@ != ":rust!"@,
        "set"@ != ":rust!:"@,
        "set"@ != "use"@,
        "set"@ != ":current_code_place!:"@,
        "mov"@ != "push"@,
        "mov"@ != "dict"@,
        "mov"@ != "println"@,
        "mov"@ != ":rust!"@,
        "mov"@ != ":rust!:"@,
        "mov"@ != "use"@,
        "mov"@ != ":current_code_place!:"@,
        "push"@ != "dict"@,
        "push"@ != "println"@,
        "push"@ != ":rust!"@,
        "push"@ != ":rust!:"@,
        "push"@ != "use"@,
        "push"@ != ":current_code_place!:"@,
        "dict"@ != "println"@,
        "dict"@ != ":rust!"@,
        "dict"@ != ":rust!:"@,
        "dict"@ != "use"@,
        "dict"@ != ":current_code_place!:"@,
        "println"@ != ":rust!"@,
        "println"@ != ":rust!:"@,
        "println"@ != "use"@,
        "println"@ != ":current_code_place!:"@,
        ":rust!"@ != ":rust!:"@,
        ":rust!"@ != "use"@,
        ":rust!"@ != ":current_code_place!:"@,
        ":rust!:"@ != "use"@,
        ":rust!:"@ != ":current_code_place!:"@,
        "use"@ != ":current_code_place!:"@,
{
    reveal_strlit("true");
    reveal_strlit("false");
    reveal_strlit("if");
    reveal_strlit("else");
    reveal_strlit("loop");
    reveal_strlit("break");
    reveal_strlit("continue");
    reveal_strlit("let");
    reveal_strlit("times");
    reveal_strlit("do");
    reveal_strlit("unwrap");
    reveal_strlit("do:add_tokens");
    reveal_strlit("macro");
    reveal_strlit("macro:b:");
    reveal_strlit("fn");
    reveal_strlit("type");
    reveal_strlit("pick");
    reveal_strlit("set");
    reveal_strlit("mov");
    reveal_strlit("push");
    reveal_strlit("dict");
    reveal_strlit("println");
    reveal_strlit(":rust!");
    reveal_strlit(":rust!:");
    reveal_strlit("use");
    reveal_strlit(":current_code_place!:");
    assert("true"@.len() == 4);
    assert("false"@.len() == 5);
    assert("if"@.len() == 2);
    assert("else"@.len() == 4);
    assert("loop"@.len() == 4);
    assert("break"@.len() == 5);
    assert("continue"@.len() == 8);
    assert("let"@.len() == 3);
    assert("times"@.len() == 5);
    assert("do"@.len() == 2);
    assert("unwrap"@.len() == 6);
    assert("do:add_tokens"@.len() == 13);
    assert("macro"@.len() == 5);
    assert("macro:b:"@.len() == 8);
    assert("fn"@.len() == 2);
    assert("type"@.len() == 4);
    assert("pick"@.len() == 4);
    assert("set"@.len() == 3);
    assert("mov"@.len() == 3);
    assert("push"@.len() == 4);
    assert("dict"@.len() == 4);
    assert("println"@.len() == 7);
    assert(":rust!"@.len() == 6);
    assert(":rust!:"@.len() == 7);
    assert("use"@.len() == 3);
    assert(":current_code_place!:"@.len() == 21);
    assert("true"@[0] == 't');
    assert("false"@[0] == 'f');
    assert("if"@[0] == 'i');
    assert("else"@[0] == 'e');
    assert("loop"@[0] == 'l');
    assert("break"@[0] == 'b');
    assert("continue"@[0] == 'c');
    assert("let"@[0] == 'l');
    assert("times"@[0] == 't');
    assert("do"@[0] == 'd');
    assert("unwrap"@[0] == 'u');
    assert("do:add_tokens"@[0] == 'd');
    assert("macro"@[0] == 'm');
    assert("macro:b:"@[0] == 'm');
    assert("fn"@[0] == 'f');
    assert("type"@[0] == 't');
    assert("pick"@[0] == 'p');
    assert("set"@[0] == 's');
    assert("mov"@[0] == 'm');
    assert("push"@[0] == 'p');
    assert("dict"@[0] == 'd');
    assert("println"@[0] == 'p');
    assert(":rust!"@[0] == ':');
    assert(":rust!:"@[0] == ':');
    assert("use"@[0] == 'u');
    assert(":current_code_place!:"@[0] == ':');
    assert("true"@[1] == 'r');
    assert("type"@[1] == 'y');
    assert("pick"@[1] == 'i');
    assert("push"@[1] == 'u');
}


} // verus!
