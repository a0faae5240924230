//! The tokenizer.
//!
//! The lexical rules are tried at each position in a fixed priority order,
//! first match wins; the scanner advances by the match, or by one silently
//! dropped character when nothing matches.  Line and column positions are
//! carried along for diagnostics.

use vstd::prelude::*;

use crate::chars::str_chars;
use crate::numfmt::is_digit;
use crate::token::{Token, TokenKind, TokenView};
use crate::value::token_views;

verus! {

/// The first position at or after `i` that does not hold a digit.
pub open spec fn digits_end(s: Seq<char>, i: nat) -> nat
    decreases s.len() - i,
{
    if i < s.len() && is_digit(s[i as int]) {
        digits_end(s, i + 1)
    } else {
        i
    }
}

/// The digit run starts where it starts and every character in it is a
/// digit.
pub proof fn lemma_digits_end_bounds(s: Seq<char>, i: nat)
    requires
        i <= s.len(),
    ensures
        i <= digits_end(s, i) <= s.len(),
    decreases s.len() - i,
{
    if i < s.len() && is_digit(s[i as int]) {
        lemma_digits_end_bounds(s, i + 1);
    }
}

/// The length of an integer literal at `i`: an optional minus and at least
/// one digit.
pub open spec fn int_len(s: Seq<char>, i: nat) -> Option<nat> {
    let j: nat = if i < s.len() && s[i as int] == '-' {
        i + 1
    } else {
        i
    };
    if digits_end(s, j) > j {
        Some((digits_end(s, j) - i) as nat)
    } else {
        None
    }
}

/// The length of a real literal at `i`: an optional minus, digits, a point,
/// and more digits.
pub open spec fn real_len(s: Seq<char>, i: nat) -> Option<nat> {
    let j: nat = if i < s.len() && s[i as int] == '-' {
        i + 1
    } else {
        i
    };
    let d1 = digits_end(s, j);
    if d1 > j && d1 < s.len() && s[d1 as int] == '.' && digits_end(s, d1 + 1) > d1 + 1 {
        Some((digits_end(s, d1 + 1) - i) as nat)
    } else {
        None
    }
}

/// The position just past the closing quote, scanning from `j`: a backslash
/// escapes the next character; `None` when the input ends first.
pub open spec fn quote_end(s: Seq<char>, j: nat, q: char) -> Option<nat>
    decreases s.len() - j,
{
    if j >= s.len() {
        None
    } else if s[j as int] == q {
        Some(j + 1)
    } else if s[j as int] == '\\' {
        if j + 1 < s.len() {
            quote_end(s, j + 2, q)
        } else {
            None
        }
    } else {
        quote_end(s, j + 1, q)
    }
}

/// The position just past the first `"#` pair at or after `j`.
pub open spec fn hashquote_end(s: Seq<char>, j: nat) -> Option<nat>
    decreases s.len() - j,
{
    if j + 1 >= s.len() {
        None
    } else if s[j as int] == '"' && s[j as int + 1] == '#' {
        Some(j + 2)
    } else {
        hashquote_end(s, j + 1)
    }
}

/// The position just past the first `;;` pair at or after `j`.
pub open spec fn semis_end(s: Seq<char>, j: nat) -> Option<nat>
    decreases s.len() - j,
{
    if j + 1 >= s.len() {
        None
    } else if s[j as int] == ';' && s[j as int + 1] == ';' {
        Some(j + 2)
    } else {
        semis_end(s, j + 1)
    }
}

/// The length of a string literal at `i`: a quoted form with escapes, or
/// the raw `r#"…"#` form.
pub open spec fn string_len(s: Seq<char>, i: nat) -> Option<nat> {
    if i < s.len() && (s[i as int] == '"' || s[i as int] == '\'') {
        match quote_end(s, i + 1, s[i as int]) {
            Some(e) => Some((e - i) as nat),
            None => None,
        }
    } else if i + 2 < s.len() && s[i as int] == 'r' && s[i as int + 1] == '#' && s[i as int + 2] == '"' {
        match hashquote_end(s, i + 3) {
            Some(e) => Some((e - i) as nat),
            None => None,
        }
    } else {
        None
    }
}

/// The length of a comment at `i`: from one `;;` to the next.
pub open spec fn comment_len(s: Seq<char>, i: nat) -> Option<nat> {
    if i + 1 < s.len() && s[i as int] == ';' && s[i as int + 1] == ';' {
        match semis_end(s, i + 2) {
            Some(e) => Some((e - i) as nat),
            None => None,
        }
    } else {
        None
    }
}

/// The length of an assignment symbol at `i`: `->` or `=:`.
pub open spec fn assign_len(s: Seq<char>, i: nat) -> Option<nat> {
    if i + 1 < s.len() && ((s[i as int] == '-' && s[i as int + 1] == '>') || (s[i as int] == '=' && s[i as int
        + 1] == ':')) {
        Some(2)
    } else {
        None
    }
}

/// The length of an arithmetic operator at `i`: `**` first, then the single
/// characters, then the shifts.
pub open spec fn operator_len(s: Seq<char>, i: nat) -> Option<nat> {
    if i >= s.len() {
        None
    } else if s[i as int] == '*' && i + 1 < s.len() && s[i as int + 1] == '*' {
        Some(2)
    } else if s[i as int] == '-' || s[i as int] == '+' || s[i as int] == '/' || s[i as int] == '*'
        || s[i as int] == '%' {
        Some(1)
    } else if i + 1 < s.len() && ((s[i as int] == '<' && s[i as int + 1] == '<') || (s[i as int] == '>'
        && s[i as int + 1] == '>')) {
        Some(2)
    } else {
        None
    }
}

/// The length of a curly brace at `i`.
pub open spec fn curly_len(s: Seq<char>, i: nat) -> Option<nat> {
    if i < s.len() && (s[i as int] == '{' || s[i as int] == '}') {
        Some(1)
    } else {
        None
    }
}

/// The length of a square bracket at `i`.
pub open spec fn bracket_len(s: Seq<char>, i: nat) -> Option<nat> {
    if i < s.len() && (s[i as int] == '[' || s[i as int] == ']') {
        Some(1)
    } else {
        None
    }
}

/// The length of a macro-body delimiter at `i`: `#!` or `!#`.
pub open spec fn macro_sym_len(s: Seq<char>, i: nat) -> Option<nat> {
    if i + 1 < s.len() && ((s[i as int] == '#' && s[i as int + 1] == '!') || (s[i as int] == '!' && s[i as int
        + 1] == '#')) {
        Some(2)
    } else {
        None
    }
}

/// Does the word occur at `i`?
pub open spec fn word_at(s: Seq<char>, i: nat, w: Seq<char>) -> bool {
    i + w.len() <= s.len() && s.subrange(i as int, (i + w.len()) as int) == w
}

/// The length of a comparison or boolean operator at `i`, the alternatives
/// tried in the rule's order.
pub open spec fn logical_len(s: Seq<char>, i: nat) -> Option<nat> {
    if i >= s.len() {
        None
    } else if s[i as int] == '=' {
        Some(1)
    } else if s[i as int] == '<' && i + 1 < s.len() && s[i as int + 1] == '=' {
        Some(2)
    } else if s[i as int] == '>' && i + 1 < s.len() && s[i as int + 1] == '=' {
        Some(2)
    } else if s[i as int] == '>' {
        Some(1)
    } else if s[i as int] == '<' {
        Some(1)
    } else if s[i as int] == '!' && i + 1 < s.len() && s[i as int + 1] == '=' {
        Some(2)
    } else if s[i as int] == '&' && i + 1 < s.len() && s[i as int + 1] == '&' {
        Some(2)
    } else if s[i as int] == '|' && i + 1 < s.len() && s[i as int + 1] == '|' {
        Some(2)
    } else if s[i as int] == '!' {
        Some(1)
    } else if word_at(s, i, seq!['a', 'n', 'd']) {
        Some(3)
    } else if word_at(s, i, seq!['o', 'r']) {
        Some(2)
    } else if word_at(s, i, seq!['n', 'o', 't']) {
        Some(3)
    } else {
        None
    }
}

/// The length of a lone reference symbol at `i`.
pub open spec fn amp_len(s: Seq<char>, i: nat) -> Option<nat> {
    if i < s.len() && s[i as int] == '&' {
        Some(1)
    } else {
        None
    }
}

/// Is the character in the keyword class: a basic or Cyrillic letter, an
/// underscore, a colon or a bang?
pub open spec fn is_kw_char(c: char) -> bool {
    let u = c as u32;
    (65 <= u <= 90) || (97 <= u <= 122) || u == 95 || u == 58 || u == 33 || (0x410 <= u <= 0x44F)
}

/// The first position at or after `i` outside the keyword class.
pub open spec fn kw_end(s: Seq<char>, i: nat) -> nat
    decreases s.len() - i,
{
    if i < s.len() && is_kw_char(s[i as int]) {
        kw_end(s, i + 1)
    } else {
        i
    }
}

/// The keyword run lies within the input.
pub proof fn lemma_kw_end_bounds(s: Seq<char>, i: nat)
    requires
        i <= s.len(),
    ensures
        i <= kw_end(s, i) <= s.len(),
    decreases s.len() - i,
{
    if i < s.len() && is_kw_char(s[i as int]) {
        lemma_kw_end_bounds(s, i + 1);
    }
}

/// The length of a keyword at `i`: keyword-class characters then optional
/// trailing digits.
pub open spec fn keyword_len(s: Seq<char>, i: nat) -> Option<nat> {
    let k = kw_end(s, i);
    if k > i {
        Some((digits_end(s, k) - i) as nat)
    } else {
        None
    }
}

/// The token at position `i`: the rules in priority order, first match
/// winning.
pub open spec fn token_at(s: Seq<char>, i: nat) -> Option<(TokenKind, nat)> {
    if real_len(s, i) is Some {
        Some((TokenKind::Real, real_len(s, i).unwrap()))
    } else if int_len(s, i) is Some {
        Some((TokenKind::Int, int_len(s, i).unwrap()))
    } else if string_len(s, i) is Some {
        Some((TokenKind::String, string_len(s, i).unwrap()))
    } else if comment_len(s, i) is Some {
        Some((TokenKind::Comment, comment_len(s, i).unwrap()))
    } else if assign_len(s, i) is Some {
        Some((TokenKind::Assign, assign_len(s, i).unwrap()))
    } else if operator_len(s, i) is Some {
        Some((TokenKind::Operator, operator_len(s, i).unwrap()))
    } else if curly_len(s, i) is Some {
        Some((TokenKind::CurlyBracket, curly_len(s, i).unwrap()))
    } else if bracket_len(s, i) is Some {
        Some((TokenKind::Bracket, bracket_len(s, i).unwrap()))
    } else if macro_sym_len(s, i) is Some {
        Some((TokenKind::SpecialSymbol, macro_sym_len(s, i).unwrap()))
    } else if logical_len(s, i) is Some {
        Some((TokenKind::Logical, logical_len(s, i).unwrap()))
    } else if amp_len(s, i) is Some {
        Some((TokenKind::SpecialSymbol, amp_len(s, i).unwrap()))
    } else if keyword_len(s, i) is Some {
        Some((TokenKind::Keyword, keyword_len(s, i).unwrap()))
    } else {
        None
    }
}

/// A matched token has at least one character and ends within the input.
pub proof fn lemma_token_at_bounds(s: Seq<char>, i: nat)
    requires
        i <= s.len(),
    ensures
        token_at(s, i) matches Some(p) ==> 1 <= p.1 && i + p.1 <= s.len(),
{
    lemma_digits_end_bounds(s, i);
    if i < s.len() {
        lemma_digits_end_bounds(s, i + 1);
        lemma_kw_end_bounds(s, i);
        lemma_kw_end_bounds(s, i + 1);
        lemma_digits_end_bounds(s, kw_end(s, i));
        if s[i as int] == '"' || s[i as int] == '\'' {
            lemma_quote_end_bounds(s, i + 1, s[i as int]);
        }
        if i + 2 < s.len() {
            lemma_hashquote_end_bounds(s, i + 3);
        }
        lemma_semis_end_bounds(s, i + 2);
        let j: nat = if s[i as int] == '-' {
            i + 1
        } else {
            i
        };
        lemma_digits_end_bounds(s, j);
        let d1 = digits_end(s, j);
        if d1 + 1 <= s.len() {
            lemma_digits_end_bounds(s, d1 + 1);
        }
    }
}

/// A closed quote scan ends within the input, past its start.
pub proof fn lemma_quote_end_bounds(s: Seq<char>, j: nat, q: char)
    requires
        j <= s.len(),
    ensures
        quote_end(s, j, q) matches Some(e) ==> j < e <= s.len(),
    decreases s.len() - j,
{
    if j < s.len() && s[j as int] != q {
        if s[j as int] == '\\' {
            if j + 1 < s.len() {
                lemma_quote_end_bounds(s, j + 2, q);
            }
        } else {
            lemma_quote_end_bounds(s, j + 1, q);
        }
    }
}

/// A found `"#` pair ends within the input.
pub proof fn lemma_hashquote_end_bounds(s: Seq<char>, j: nat)
    ensures
        hashquote_end(s, j) matches Some(e) ==> j < e <= s.len(),
    decreases s.len() - j,
{
    if j + 1 < s.len() && !(s[j as int] == '"' && s[j as int + 1] == '#') {
        lemma_hashquote_end_bounds(s, j + 1);
    }
}

/// A found `;;` pair ends within the input.
pub proof fn lemma_semis_end_bounds(s: Seq<char>, j: nat)
    ensures
        semis_end(s, j) matches Some(e) ==> j < e <= s.len(),
    decreases s.len() - j,
{
    if j + 1 < s.len() && !(s[j as int] == ';' && s[j as int + 1] == ';') {
        lemma_semis_end_bounds(s, j + 1);
    }
}

/// The token stream of the input from `col` on, with the line and column
/// counters as the original scanner carries them: the line advances on a
/// newline character at the scan position, and the column restarts there.
pub open spec fn lex_spec(s: Seq<char>, col: nat, line: nat, loc_col: nat) -> Seq<TokenView>
    decreases s.len() - col,
    via lex_spec_decreases
{
    if col >= s.len() {
        Seq::empty()
    } else {
        let line2: nat = if s[col as int] == '\n' {
            line + 1
        } else {
            line
        };
        let lc2: nat = if s[col as int] == '\n' {
            0
        } else {
            loc_col
        };
        match token_at(s, col) {
            Some(p) => seq![
                TokenView {
                    typ: p.0,
                    value: s.subrange(col as int, (col + p.1) as int),
                    line: line2,
                    col: lc2,
                },
            ] + lex_spec(s, col + p.1, line2, lc2 + p.1),
            None => lex_spec(s, col + 1, line2, lc2 + 1),
        }
    }
}

#[via_fn]
proof fn lex_spec_decreases(s: Seq<char>, col: nat, line: nat, loc_col: nat) {
    if col < s.len() {
        lemma_token_at_bounds(s, col);
    }
}


/// Scans the digit run from `i`.
fn digits_end_exec(s: &Vec<char>, i: usize) -> (r: usize)
    requires
        i <= s@.len(),
    ensures
        r == digits_end(s@, i as nat),
        i <= r <= s@.len(),
{
    let mut j: usize = i;
    while j < s.len() && s[j] as u32 >= 48 && s[j] as u32 <= 57
        invariant
            i <= j <= s@.len(),
            digits_end(s@, i as nat) == digits_end(s@, j as nat),
        decreases s@.len() - j,
    {
        j += 1;
    }
    proof {
        lemma_digits_end_bounds(s@, i as nat);
    }
    j
}

/// Is the character in the keyword class?
fn is_kw_char_exec(c: char) -> (r: bool)
    ensures
        r == is_kw_char(c),
{
    let u = c as u32;
    (65 <= u && u <= 90) || (97 <= u && u <= 122) || u == 95 || u == 58 || u == 33 || (0x410 <= u
        && u <= 0x44F)
}

/// Scans the keyword-class run from `i`.
fn kw_end_exec(s: &Vec<char>, i: usize) -> (r: usize)
    requires
        i <= s@.len(),
    ensures
        r == kw_end(s@, i as nat),
        i <= r <= s@.len(),
{
    let mut j: usize = i;
    while j < s.len() && is_kw_char_exec(s[j])
        invariant
            i <= j <= s@.len(),
            kw_end(s@, i as nat) == kw_end(s@, j as nat),
        decreases s@.len() - j,
    {
        j += 1;
    }
    proof {
        lemma_kw_end_bounds(s@, i as nat);
    }
    j
}

/// Scans for the closing quote from `j`.
fn quote_end_exec(s: &Vec<char>, j: usize, q: char) -> (r: Option<usize>)
    requires
        j <= s@.len(),
    ensures
        match r {
            Some(e) => quote_end(s@, j as nat, q) == Some(e as nat) && j < e <= s@.len(),
            None => quote_end(s@, j as nat, q) is None,
        },
{
    let mut k: usize = j;
    while k < s.len()
        invariant
            j <= k <= s@.len(),
            quote_end(s@, j as nat, q) == quote_end(s@, k as nat, q),
        decreases s@.len() - k,
    {
        if s[k] == q {
            return Some(k + 1);
        }
        if s[k] == '\\' {
            if k + 1 < s.len() {
                k += 2;
            } else {
                return None;
            }
        } else {
            k += 1;
        }
    }
    None
}

/// Scans for the raw-string closer from `j`.
fn hashquote_end_exec(s: &Vec<char>, j: usize) -> (r: Option<usize>)
    requires
        j <= s@.len(),
        s@.len() < usize::MAX,
    ensures
        match r {
            Some(e) => hashquote_end(s@, j as nat) == Some(e as nat) && j < e <= s@.len(),
            None => hashquote_end(s@, j as nat) is None,
        },
{
    let mut k: usize = j;
    while k + 1 < s.len()
        invariant
            j <= k,
            k <= s@.len(),
            s@.len() < usize::MAX,
            hashquote_end(s@, j as nat) == hashquote_end(s@, k as nat),
        decreases s@.len() - k,
    {
        if s[k] == '"' && s[k + 1] == '#' {
            return Some(k + 2);
        }
        k += 1;
    }
    None
}

/// Scans for the comment closer from `j`.
fn semis_end_exec(s: &Vec<char>, j: usize) -> (r: Option<usize>)
    requires
        j <= s@.len(),
        s@.len() < usize::MAX,
    ensures
        match r {
            Some(e) => semis_end(s@, j as nat) == Some(e as nat) && j < e <= s@.len(),
            None => semis_end(s@, j as nat) is None,
        },
{
    let mut k: usize = j;
    while k + 1 < s.len()
        invariant
            j <= k,
            k <= s@.len(),
            s@.len() < usize::MAX,
            semis_end(s@, j as nat) == semis_end(s@, k as nat),
        decreases s@.len() - k,
    {
        if s[k] == ';' && s[k + 1] == ';' {
            return Some(k + 2);
        }
        k += 1;
    }
    None
}

/// Is the given word at position `i`?
fn word_at_exec(s: &Vec<char>, i: usize, w: &str) -> (r: bool)
    requires
        i <= s@.len(),
        s@.len() < usize::MAX,
    ensures
        r == word_at(s@, i as nat, w@),
{
    let n = crate::chars::str_chars(w);
    if n.len() > s.len() - i {
        return false;
    }
    let mut k: usize = 0;
    while k < n.len()
        invariant
            k <= n@.len(),
            i + n@.len() <= s@.len() < usize::MAX,
            n@ == w@,
            forall|j: int| 0 <= j < k ==> s@[i + j] == w@[j],
        decreases n@.len() - k,
    {
        if s[i + k] != n[k] {
            proof {
                assert(s@.subrange(i as int, i + w@.len())[k as int] == s@[i + k]);
            }
            return false;
        }
        k += 1;
    }
    proof {
        assert(s@.subrange(i as int, i + w@.len()) =~= w@);
    }
    true
}

/// The token at position `i`: the rules tried in priority order.
fn get_token(s: &Vec<char>, i: usize) -> (r: Option<(TokenKind, usize)>)
    requires
        i < s@.len(),
        s@.len() < usize::MAX,
    ensures
        match r {
            Some(p) => token_at(s@, i as nat) == Some((p.0, p.1 as nat)) && 1 <= p.1 && i + p.1
                <= s@.len(),
            None => token_at(s@, i as nat) is None,
        },
{
    let c = s[i];
    // real and integer literals
    let j = if c == '-' {
        i + 1
    } else {
        i
    };
    let d1 = digits_end_exec(s, j);
    if d1 > j {
        if d1 < s.len() && s[d1] == '.' {
            let d2 = digits_end_exec(s, d1 + 1);
            if d2 > d1 + 1 {
                return Some((TokenKind::Real, d2 - i));
            }
        }
        return Some((TokenKind::Int, d1 - i));
    }
    // string literals
    if c == '"' || c == '\'' {
        match quote_end_exec(s, i + 1, c) {
            Some(e) => {
                return Some((TokenKind::String, e - i));
            },
            None => {},
        }
    } else if i + 2 < s.len() && c == 'r' && s[i + 1] == '#' && s[i + 2] == '"' {
        match hashquote_end_exec(s, i + 3) {
            Some(e) => {
                return Some((TokenKind::String, e - i));
            },
            None => {},
        }
    }
    // comments
    if i + 1 < s.len() && c == ';' && s[i + 1] == ';' {
        match semis_end_exec(s, i + 2) {
            Some(e) => {
                return Some((TokenKind::Comment, e - i));
            },
            None => {},
        }
    }
    // assignment
    if i + 1 < s.len() && ((c == '-' && s[i + 1] == '>') || (c == '=' && s[i + 1] == ':')) {
        return Some((TokenKind::Assign, 2));
    }
    // arithmetic operators
    if c == '*' && i + 1 < s.len() && s[i + 1] == '*' {
        return Some((TokenKind::Operator, 2));
    }
    if c == '-' || c == '+' || c == '/' || c == '*' || c == '%' {
        return Some((TokenKind::Operator, 1));
    }
    if i + 1 < s.len() && ((c == '<' && s[i + 1] == '<') || (c == '>' && s[i + 1] == '>')) {
        return Some((TokenKind::Operator, 2));
    }
    // braces and brackets
    if c == '{' || c == '}' {
        return Some((TokenKind::CurlyBracket, 1));
    }
    if c == '[' || c == ']' {
        return Some((TokenKind::Bracket, 1));
    }
    // macro-body delimiters
    if i + 1 < s.len() && ((c == '#' && s[i + 1] == '!') || (c == '!' && s[i + 1] == '#')) {
        return Some((TokenKind::SpecialSymbol, 2));
    }
    // comparison and boolean operators
    if c == '=' {
        return Some((TokenKind::Logical, 1));
    }
    if (c == '<' || c == '>' || c == '!') && i + 1 < s.len() && s[i + 1] == '=' {
        return Some((TokenKind::Logical, 2));
    }
    if c == '>' || c == '<' {
        return Some((TokenKind::Logical, 1));
    }
    if (c == '&' && i + 1 < s.len() && s[i + 1] == '&') || (c == '|' && i + 1 < s.len() && s[i + 1]
        == '|') {
        return Some((TokenKind::Logical, 2));
    }
    if c == '!' {
        return Some((TokenKind::Logical, 1));
    }
    if word_at_exec(s, i, "and") {
        proof {
            reveal_strlit("and");
            assert("and"@ =~= seq!['a', 'n', 'd']);
        }
        return Some((TokenKind::Logical, 3));
    }
    if word_at_exec(s, i, "or") {
        proof {
            reveal_strlit("or");
            assert("or"@ =~= seq!['o', 'r']);
        }
        return Some((TokenKind::Logical, 2));
    }
    if word_at_exec(s, i, "not") {
        proof {
            reveal_strlit("not");
            assert("not"@ =~= seq!['n', 'o', 't']);
        }
        return Some((TokenKind::Logical, 3));
    }
    proof {
        reveal_strlit("and");
        reveal_strlit("or");
        reveal_strlit("not");
        assert("and"@ =~= seq!['a', 'n', 'd']);
        assert("or"@ =~= seq!['o', 'r']);
        assert("not"@ =~= seq!['n', 'o', 't']);
    }
    // the reference symbol
    if c == '&' {
        return Some((TokenKind::SpecialSymbol, 1));
    }
    // keywords and identifiers
    let k = kw_end_exec(s, i);
    if k > i {
        let e = digits_end_exec(s, k);
        return Some((TokenKind::Keyword, e - i));
    }
    None
}

/// Turns source text into its token stream, with line and column positions.
pub fn lex(code: &str) -> (r: Vec<Token>)
    requires
        code@.len() < usize::MAX,
    ensures
        token_views(r@) == lex_spec(code@, 0, 1, 0),
{
    let chars = str_chars(code);
    lex_chars(&chars)
}

/// Turns source text, given as characters, into its token stream.
pub fn lex_chars(chars: &Vec<char>) -> (r: Vec<Token>)
    requires
        chars@.len() < usize::MAX,
    ensures
        token_views(r@) == lex_spec(chars@, 0, 1, 0),
{
    let mut tokens: Vec<Token> = Vec::new();
    let mut col: usize = 0;
    let mut loc_col: usize = 0;
    let mut line: usize = 1;
    proof {
        assert(token_views(tokens@) + lex_spec(chars@, 0, 1, 0) =~= lex_spec(chars@, 0, 1, 0));
    }
    while col < chars.len()
        invariant
            chars@.len() < usize::MAX,
            col <= chars@.len(),
            loc_col <= col,
            line <= col + 1,
            lex_spec(chars@, 0, 1, 0) == token_views(tokens@) + lex_spec(
                chars@,
                col as nat,
                line as nat,
                loc_col as nat,
            ),
        decreases chars@.len() - col,
    {
        let ghost toks0 = token_views(tokens@);
        let ghost col0 = col as nat;
        let ghost line0 = line as nat;
        let ghost lc0 = loc_col as nat;
        if chars[col] == '\n' {
            line += 1;
            loc_col = 0;
        }
        match get_token(&chars, col) {
            Some((kind, n)) => {
                let text = crate::chars::copy_range(&chars, col, col + n);
                tokens.push(Token { typ: kind, value: text, line, col: loc_col });
                col += n;
                loc_col += n;
                proof {
                    assert(token_views(tokens@) =~= toks0 + seq![
                        TokenView {
                            typ: kind,
                            value: chars@.subrange(col0 as int, col0 as int + n as int),
                            line: line as nat,
                            col: (loc_col - n) as nat,
                        },
                    ]);
                    assert(token_views(tokens@) + lex_spec(
                        chars@,
                        col as nat,
                        line as nat,
                        loc_col as nat,
                    ) =~= toks0 + lex_spec(chars@, col0, line0, lc0));
                }
            },
            None => {
                col += 1;
                loc_col += 1;
            },
        }
    }
    tokens
}

} // verus!
