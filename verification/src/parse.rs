//! Token-stream helpers of the instruction builder: balanced-pair scanning,
//! argument-name collection, and string-literal unquoting.

use vstd::prelude::*;

use crate::chars::chars_eq_str;
use crate::token::{Token, TokenKind, TokenView};
use crate::value::{copy_token, token_views};

verus! {

/// Scans from `i` with `depth` open delimiters outstanding: the enclosed
/// tokens and the index just past the matching close, or `None` when the
/// input ends first.  A close that does not end the scan, and any open, is
/// itself part of the enclosed tokens.
pub open spec fn pair_scan(
    tv: Seq<TokenView>,
    open: Seq<char>,
    close: Seq<char>,
    i: nat,
    depth: nat,
) -> Option<(Seq<TokenView>, nat)>
    decreases tv.len() - i,
{
    if i >= tv.len() {
        None
    } else {
        let d1 = if tv[i as int].value == open {
            depth + 1
        } else {
            depth
        };
        if tv[i as int].value == close && d1 == 1 {
            Some((Seq::empty(), i + 1))
        } else {
            let d2 = if tv[i as int].value == close && d1 > 0 {
                (d1 - 1) as nat
            } else {
                d1
            };
            match pair_scan(tv, open, close, i + 1, d2) {
                Some(p) => Some(
                    (
                        if d2 > 0 {
                            seq![tv[i as int]] + p.0
                        } else {
                            p.0
                        },
                        p.1,
                    ),
                ),
                None => None,
            }
        }
    }
}

/// The body between a balanced delimiter pair opening at `start`: `None`
/// where `start` holds no open delimiter or the close is missing.
pub open spec fn spec_pair(
    tv: Seq<TokenView>,
    open: Seq<char>,
    close: Seq<char>,
    start: nat,
) -> Option<(Seq<TokenView>, nat)> {
    if start < tv.len() && tv[start as int].value == open {
        pair_scan(tv, open, close, start + 1, 1)
    } else {
        None
    }
}

/// A successful scan ends within the input and past its start.
pub proof fn lemma_pair_scan_bounds(
    tv: Seq<TokenView>,
    open: Seq<char>,
    close: Seq<char>,
    i: nat,
    depth: nat,
)
    ensures
        pair_scan(tv, open, close, i, depth) matches Some(p) ==> i < p.1 <= tv.len() && p.0.len()
            + i + 1 <= p.1,
    decreases tv.len() - i,
{
    if i < tv.len() {
        let d1 = if tv[i as int].value == open {
            depth + 1
        } else {
            depth
        };
        let d2 = if tv[i as int].value == close && d1 > 0 {
            (d1 - 1) as nat
        } else {
            d1
        };
        lemma_pair_scan_bounds(tv, open, close, i + 1, d2);
    }
}

/// Collects the body of a balanced delimiter pair whose open delimiter
/// stands at `start`.  Returns the enclosed tokens and the index just past
/// the matching close.
pub fn parse_pair_symbols(tokens: &Vec<Token>, start: usize, open: &str, close: &str) -> (r: Option<
    (Vec<Token>, usize),
>)
    requires
        start <= tokens@.len(),
    ensures
        match r {
            Some(p) => {
                &&& spec_pair(token_views(tokens@), open@, close@, start as nat) == Some(
                    (token_views(p.0@), p.1 as nat),
                )
                &&& start < p.1 <= tokens@.len()
            },
            None => spec_pair(token_views(tokens@), open@, close@, start as nat) is None,
        },
{
    let ghost tv = token_views(tokens@);
    if start >= tokens.len() || !chars_eq_str(&tokens[start].value, open) {
        return None;
    }
    let mut children: Vec<Token> = Vec::new();
    let mut depth: usize = 1;
    let mut i: usize = start + 1;
    while i < tokens.len()
        invariant
            start < i <= tokens@.len(),
            1 <= depth <= i,
            tv == token_views(tokens@),
            spec_pair(tv, open@, close@, start as nat) == (match pair_scan(
                tv,
                open@,
                close@,
                i as nat,
                depth as nat,
            ) {
                Some(p) => Some((token_views(children@) + p.0, p.1)),
                None => None::<(Seq<TokenView>, nat)>,
            }),
        decreases tokens@.len() - i,
    {
        let ghost children0 = children@;
        let ghost depth0 = depth as nat;
        let is_open = chars_eq_str(&tokens[i].value, open);
        if is_open {
            depth += 1;
        }
        let ghost d1 = depth as nat;
        if chars_eq_str(&tokens[i].value, close) && depth > 0 {
            if depth == 1 {
                proof {
                    lemma_pair_scan_bounds(tv, open@, close@, i as nat, depth0);
                    assert(token_views(children@) + Seq::<TokenView>::empty() =~= token_views(
                        children@,
                    ));
                }
                return Some((children, i + 1));
            }
            depth -= 1;
        }
        let ghost d2 = depth as nat;
        if depth > 0 {
            children.push(copy_token(&tokens[i]));
            proof {
                assert(token_views(children@) =~= token_views(children0) + seq![tv[i as int]]);
            }
        }
        i += 1;
        proof {
            match pair_scan(tv, open@, close@, i as nat, d2) {
                Some(p) => {
                    assert(token_views(children0) + (seq![tv[i - 1]] + p.0) =~= (token_views(
                        children0,
                    ) + seq![tv[i - 1]]) + p.0);
                },
                None => {},
            }
        }
    }
    None
}

/// The index just past the run of keyword tokens beginning at `i`.
pub open spec fn args_end(tv: Seq<TokenView>, i: nat) -> nat
    decreases tv.len() - i,
{
    if i < tv.len() && tv[i as int].typ == TokenKind::Keyword {
        args_end(tv, i + 1)
    } else {
        i
    }
}

/// The end of the keyword run lies between its start and the input's end.
pub proof fn lemma_args_end_bounds(tv: Seq<TokenView>, i: nat)
    requires
        i <= tv.len(),
    ensures
        i <= args_end(tv, i) <= tv.len(),
        forall|j: int| i <= j < args_end(tv, i) ==> tv[j].typ == TokenKind::Keyword,
    decreases tv.len() - i,
{
    if i < tv.len() && tv[i as int].typ == TokenKind::Keyword {
        lemma_args_end_bounds(tv, i + 1);
    }
}

/// Where every token in `[start, i)` is a keyword and `i` ends the run, the
/// run ends exactly at `i`.
proof fn lemma_args_end_exact(tv: Seq<TokenView>, start: nat, i: nat)
    requires
        start <= i <= tv.len(),
        forall|j: int| start <= j < i ==> tv[j].typ == TokenKind::Keyword,
        i < tv.len() ==> tv[i as int].typ != TokenKind::Keyword,
    ensures
        args_end(tv, start) == i,
    decreases i - start,
{
    if start < i {
        lemma_args_end_exact(tv, start + 1, i);
    }
}

/// Collects the names of the keyword tokens running from `start`, and the
/// index of the first token after them.
pub fn parse_args(tokens: &Vec<Token>, start: usize) -> (r: (Vec<Vec<char>>, usize))
    requires
        start <= tokens@.len(),
    ensures
        r.1 == args_end(token_views(tokens@), start as nat),
        start <= r.1 <= tokens@.len(),
        r.0@.len() == r.1 - start,
        forall|k: int| 0 <= k < r.0@.len() ==> r.0@[k]@ == tokens@[start + k]@.value,
{
    let ghost tv = token_views(tokens@);
    let mut args: Vec<Vec<char>> = Vec::new();
    let mut i: usize = start;
    while i < tokens.len() && matches!(tokens[i].typ, TokenKind::Keyword)
        invariant
            start <= i <= tokens@.len(),
            tv == token_views(tokens@),
            args@.len() == i - start,
            forall|j: int| start <= j < i ==> tv[j].typ == TokenKind::Keyword,
            forall|k: int| 0 <= k < args@.len() ==> args@[k]@ == tokens@[start + k]@.value,
        decreases tokens@.len() - i,
    {
        args.push(crate::chars::copy_chars(&tokens[i].value));
        i += 1;
    }
    proof {
        lemma_args_end_exact(tv, start as nat, i as nat);
    }
    (args, i)
}

/// The text of a string literal with each quote escaped for the target
/// language.
pub open spec fn escape_quotes(s: Seq<char>) -> Seq<char>
    decreases s.len(),
{
    if s.len() == 0 {
        Seq::empty()
    } else {
        escape_quotes(s.drop_last()) + (if s.last() == '"' {
            seq!['\\', '"']
        } else {
            seq![s.last()]
        })
    }
}

/// The text a string token denotes: the quotes are stripped; the raw form
/// `r#"…"#` loses its frame and has its inner quotes escaped.  Tokens too
/// short to carry a frame denote the empty text.
pub open spec fn spec_parse_string(s: Seq<char>) -> Seq<char> {
    if s.len() > 0 && s[0] == 'r' {
        if s.len() >= 5 {
            escape_quotes(s.subrange(3, s.len() - 2))
        } else {
            Seq::empty()
        }
    } else if s.len() >= 2 {
        s.subrange(1, s.len() - 1)
    } else {
        Seq::empty()
    }
}

/// Strips the quotes from a string literal's text; the raw form loses its
/// frame and has its inner quotes escaped.
pub fn parse_string(value: &Vec<char>) -> (r: Vec<char>)
    ensures
        r@ == spec_parse_string(value@),
{
    let mut r: Vec<char> = Vec::new();
    if value.len() > 0 && value[0] == 'r' {
        if value.len() < 5 {
            return r;
        }
        let ghost inner = value@.subrange(3, value@.len() - 2);
        let mut i: usize = 3;
        while i < value.len() - 2
            invariant
                3 <= i <= value@.len() - 2,
                value@.len() >= 5,
                inner == value@.subrange(3, value@.len() - 2),
                r@ == escape_quotes(inner.take(i - 3)),
            decreases value@.len() - i,
        {
            let c = value[i];
            if c == '"' {
                r.push('\\');
                r.push('"');
            } else {
                r.push(c);
            }
            i += 1;
            proof {
                assert(inner.take(i - 3).drop_last() =~= inner.take(i - 3 - 1));
                assert(inner.take(i - 3).last() == value@[i - 1]);
                if value@[i - 1] == '"' {
                    assert(r@ =~= escape_quotes(inner.take(i - 3 - 1)) + seq!['\\', '"']);
                } else {
                    assert(r@ =~= escape_quotes(inner.take(i - 3 - 1)) + seq![value@[i - 1]]);
                }
            }
        }
        proof {
            assert(inner.take(inner.len() as int) =~= inner);
        }
        r
    } else if value.len() >= 2 {
        let mut i: usize = 1;
        while i < value.len() - 1
            invariant
                1 <= i <= value@.len() - 1,
                value@.len() >= 2,
                r@ == value@.subrange(1, i as int),
            decreases value@.len() - i,
        {
            r.push(value[i]);
            i += 1;
            proof {
                assert(value@.subrange(1, i as int) =~= value@.subrange(1, i - 1) + seq![value@[i
                    - 1]]);
            }
        }
        proof {
            assert(r@ =~= spec_parse_string(value@));
        }
        r
    } else {
        r
    }
}

} // verus!
