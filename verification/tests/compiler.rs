//! End-to-end checks of the front end: scanning, building, folding,
//! and lowering.

use altc::env::Env;
use altc::fold::{static_add, static_pick};
use altc::gen::{get_all_instructions, ErrorKind, Sources};
use altc::lexer::lex;
use altc::num::Decimal;
use altc::numfmt::{display_decimal, parse_decimal};
use altc::parse::parse_string;
use altc::token::TokenKind;
use altc::transpiler::{transpile, KindTable};
use altc::value::Value;

fn cs(s: &str) -> Vec<char> {
    s.chars().collect()
}

fn text(v: &[char]) -> String {
    v.iter().collect()
}

fn build(src: &str) -> Result<Vec<Value>, altc::gen::CompileError> {
    let tokens = lex(src);
    let mut ins: Vec<Value> = Vec::new();
    let mut binds = Env::new();
    let sources = Sources::new();
    get_all_instructions(&tokens, &mut ins, &mut binds, &sources, 16)?;
    Ok(ins)
}

fn num(i: i64) -> Value {
    Value::Number(Decimal { neg: i < 0, mant: i.unsigned_abs(), scale: 0 })
}

fn mant_of(v: &Value) -> (bool, u64, u32) {
    match v {
        Value::Number(d) => (d.neg, d.mant, d.scale),
        other => panic!("not a number: {:?}", other),
    }
}

#[test]
fn lex_classifies_tokens() {
    let toks = lex("1 2.5 \"hi\" + -> { [ #! = and foo2 ;;c;;");
    let kinds: Vec<TokenKind> = toks.iter().map(|t| t.typ).collect();
    assert_eq!(
        kinds,
        vec![
            TokenKind::Int,
            TokenKind::Real,
            TokenKind::String,
            TokenKind::Operator,
            TokenKind::Assign,
            TokenKind::CurlyBracket,
            TokenKind::Bracket,
            TokenKind::SpecialSymbol,
            TokenKind::Logical,
            TokenKind::Logical,
            TokenKind::Keyword,
            TokenKind::Comment,
        ]
    );
    assert_eq!(text(&toks[10].value), "foo2");
}

#[test]
fn lex_negative_number_and_minus() {
    let toks = lex("1 -2 -");
    assert_eq!(toks[0].typ, TokenKind::Int);
    assert_eq!(text(&toks[1].value), "-2");
    assert_eq!(toks[1].typ, TokenKind::Int);
    assert_eq!(toks[2].typ, TokenKind::Operator);
}

#[test]
fn fold_addition_exactly() {
    let ins = build("1 2 +").unwrap();
    assert_eq!(ins.len(), 1);
    assert_eq!(mant_of(&ins[0]), (false, 3, 0));
}

#[test]
fn fold_fraction_exactly() {
    let ins = build("0.1 0.2 +").unwrap();
    assert_eq!(ins.len(), 1);
    let (neg, mant, scale) = mant_of(&ins[0]);
    assert!(!neg);
    assert_eq!((mant, scale), (3, 1));
    if let Value::Number(d) = &ins[0] {
        assert_eq!(text(&display_decimal(d)), "0.3");
    }
}

#[test]
fn fold_comparison_and_connectives() {
    let ins = build("1 2 <").unwrap();
    assert!(matches!(ins[0], Value::Boolean(true)));
    let ins = build("true false &&").unwrap();
    assert!(matches!(ins[0], Value::Boolean(false)));
    let ins = build("1 1 =").unwrap();
    assert!(matches!(ins[0], Value::Boolean(true)));
    let ins = build("true !").unwrap();
    assert!(matches!(ins[0], Value::Boolean(false)));
}

#[test]
fn dead_branch_true_keeps_only_live_arm() {
    let ins = build("true if { 5 } else { 99 }").unwrap();
    assert_eq!(ins.len(), 1);
    match &ins[0] {
        Value::Block(body) => {
            assert_eq!(body.len(), 1);
            assert_eq!(mant_of(&body[0]), (false, 5, 0));
        },
        other => panic!("expected a block, got {:?}", other),
    }
}

#[test]
fn dead_branch_false_keeps_only_live_arm() {
    let ins = build("false if { 5 } else { 99 }").unwrap();
    assert_eq!(ins.len(), 1);
    match &ins[0] {
        Value::Block(body) => {
            assert_eq!(body.len(), 1);
            assert_eq!(mant_of(&body[0]), (false, 99, 0));
        },
        other => panic!("expected a block, got {:?}", other),
    }
}

#[test]
fn scope_containment_after_loop() {
    let r = build("loop { 1 -> x break } x");
    match r {
        Err(e) => assert!(matches!(e.kind, ErrorKind::UnknownKeyword(_))),
        Ok(ins) => panic!("inner binding leaked: {:?}", ins),
    }
    // but the same name is fine while the body is still open
    assert!(build("loop { 1 -> x x break }").is_ok());
}

#[test]
fn use_is_idempotent() {
    let mut sources = Sources::new();
    sources.add(cs("lib"), cs("/abs/lib"), cs("7 -> shared"));
    let tokens = lex("\"lib\" use \"lib\" use");
    let mut ins: Vec<Value> = Vec::new();
    let mut binds = Env::new();
    get_all_instructions(&tokens, &mut ins, &mut binds, &sources, 16).unwrap();

    let tokens_once = lex("\"lib\" use");
    let mut ins_once: Vec<Value> = Vec::new();
    let mut binds_once = Env::new();
    get_all_instructions(&tokens_once, &mut ins_once, &mut binds_once, &sources, 16).unwrap();

    assert_eq!(ins.len(), ins_once.len());
    assert_eq!(ins.len(), 1);
    assert!(matches!(ins[0], Value::Var(_, _)));
}

#[test]
fn use_deduplicates_by_resolved_path() {
    // two spellings of one file share a resolved name: included once
    let mut sources = Sources::new();
    sources.add(cs("lib"), cs("/abs/lib"), cs("7 -> shared"));
    sources.add(cs("./lib"), cs("/abs/lib"), cs("7 -> shared"));
    let tokens = lex("\"lib\" use \"./lib\" use");
    let mut ins: Vec<Value> = Vec::new();
    let mut binds = Env::new();
    get_all_instructions(&tokens, &mut ins, &mut binds, &sources, 16).unwrap();
    assert_eq!(ins.len(), 1);
}

#[test]
fn array_addition_broadcasts() {
    let a = Value::Array(vec![num(1), num(2), num(3)]);
    let b = Value::Array(vec![num(10), num(20)]);
    let r = static_add(&a, &b).unwrap();
    match r {
        Value::Array(items) => {
            assert_eq!(items.len(), 3);
            assert_eq!(mant_of(&items[0]), (false, 11, 0));
            assert_eq!(mant_of(&items[1]), (false, 22, 0));
            assert_eq!(mant_of(&items[2]), (false, 3, 0));
        },
        other => panic!("expected an array, got {:?}", other),
    }
}

#[test]
fn string_joins_array_elements() {
    let a = Value::String(cs("a"));
    let b = Value::Array(vec![num(1), num(2)]);
    let r = static_add(&a, &b).unwrap();
    match r {
        Value::String(t) => assert_eq!(text(&t), "1a2"),
        other => panic!("expected a string, got {:?}", other),
    }
}

#[test]
fn string_subtraction_removes_occurrences() {
    let a = Value::String(cs("banana"));
    let b = Value::String(cs("an"));
    let r = altc::fold::static_sub(&a, &b).unwrap();
    match r {
        Value::String(t) => assert_eq!(text(&t), "ba"),
        other => panic!("expected a string, got {:?}", other),
    }
}

#[test]
fn negative_index_counts_from_end() {
    let arr = Value::Array(vec![num(1), num(2), num(3)]);
    let r = static_pick(&arr, &num(-1)).unwrap();
    assert_eq!(mant_of(&r), (false, 3, 0));
    // out of range on either side: a fatal container error
    assert!(static_pick(&arr, &num(-4)).is_none());
    assert!(static_pick(&arr, &num(3)).is_none());
}

#[test]
fn string_container_picks_its_character() {
    let s = Value::String(cs("abc"));
    match static_pick(&s, &num(-1)).unwrap() {
        Value::String(t) => assert_eq!(text(&t), "c"),
        other => panic!("expected a character, got {:?}", other),
    }
    match static_pick(&s, &num(0)).unwrap() {
        Value::String(t) => assert_eq!(text(&t), "a"),
        other => panic!("expected a character, got {:?}", other),
    }
    assert!(static_pick(&s, &num(3)).is_none());
}

#[test]
fn number_truthiness_is_nonzero() {
    // a negative number is nonzero, so it is true at the boolean cast
    let ins = build("-5 true &&").unwrap();
    assert!(matches!(ins[0], Value::Boolean(true)));
    let ins = build("0 true &&").unwrap();
    assert!(matches!(ins[0], Value::Boolean(false)));
}

#[test]
fn word_connectives_fold_like_symbols() {
    let ins = build("true false and").unwrap();
    assert!(matches!(ins[0], Value::Boolean(false)));
    let ins = build("true false or").unwrap();
    assert!(matches!(ins[0], Value::Boolean(true)));
}

#[test]
fn pick_folds_at_build_time() {
    let ins = build("[1 2 3] -1 pick").unwrap();
    assert_eq!(ins.len(), 1);
    assert_eq!(mant_of(&ins[0]), (false, 3, 0));
    let r = build("[1 2 3] -4 pick");
    assert!(matches!(r, Err(e) if matches!(e.kind, ErrorKind::IndexOutOfRange)));
    let r = build("[1 2 3] 3 pick");
    assert!(matches!(r, Err(e) if matches!(e.kind, ErrorKind::IndexOutOfRange)));
}

#[test]
fn break_outside_loop_is_fatal() {
    let r = build("break");
    assert!(matches!(r, Err(e) if matches!(e.kind, ErrorKind::BreakOutsideLoop)));
}

#[test]
fn unknown_keyword_is_fatal() {
    let r = build("frobnicate");
    assert!(matches!(r, Err(e) if matches!(e.kind, ErrorKind::UnknownKeyword(_))));
}

#[test]
fn string_token_loses_its_quotes() {
    assert_eq!(text(&parse_string(&cs("\"hi\""))), "hi");
    assert_eq!(text(&parse_string(&cs("'x'"))), "x");
    assert_eq!(text(&parse_string(&cs("r#\"a\"b\"#"))), "a\\\"b");
}

#[test]
fn decimal_parse_and_display() {
    let d = parse_decimal(&cs("1.50")).unwrap();
    assert_eq!(text(&display_decimal(&d)), "1.5");
    let d = parse_decimal(&cs("-12")).unwrap();
    assert_eq!(text(&display_decimal(&d)), "-12");
    assert!(parse_decimal(&cs("abc")).is_none());
    assert!(parse_decimal(&cs("1.0000000000000000001")).is_none());
}

#[test]
fn macro_expands_at_call_site() {
    let ins = build("macro double #! 2 * !# 5 double").unwrap();
    // multiplication is not folded at build time: a runtime operator node stays
    assert_eq!(ins.len(), 1);
    assert!(matches!(ins[0], Value::NumOp(_, _, altc::value::MathOp::Mul)));
}

#[test]
fn times_unrolls_at_build_time() {
    let ins = build("3 times { 7 }").unwrap();
    assert_eq!(ins.len(), 3);
    for v in &ins {
        assert_eq!(mant_of(v), (false, 7, 0));
    }
}

#[test]
fn function_declaration_rewrites_parameters() {
    let ins = build("fn bump n { n 1 + } 5 bump").unwrap();
    assert_eq!(ins.len(), 2);
    assert!(matches!(&ins[0], Value::Fn(_, _, _)));
    assert!(matches!(&ins[1], Value::Call(_, _)));
    if let Value::Fn(_, params, body) = &ins[0] {
        assert_eq!(params.len(), 1);
        // the parameter read inside the body is reference-wrapped
        assert!(format!("{:?}", body).contains("Ref"));
    }
}

#[test]
fn generated_text_declares_and_locks_bindings() {
    let ins = build("1 -> x fn poke p { 2 -> p } ").unwrap();
    let mut kinds = KindTable::new();
    let out = text(&transpile(&ins, &mut kinds));
    assert!(out.contains("let mut _v_x"));
    // a parameter assignment writes through the lock, visible to the caller
    assert!(out.contains("*_v_p.lock() = "));
    assert!(out.contains("fn _f_poke (mut _v_p: Covered)"));
}

#[test]
fn generated_call_clones_the_reference() {
    let mut kinds = KindTable::new();
    let arg = Value::Ref(Box::new(Value::Get(cs("x"))));
    let out = text(&altc::transpiler::parse_value_as_ref(&arg, &mut kinds));
    assert_eq!(out, "_v_x.clone_ref()");
}

#[test]
fn number_literal_keeps_the_point() {
    let ins = build("4").unwrap();
    let mut kinds = KindTable::new();
    let out = text(&transpile(&ins, &mut kinds));
    assert!(out.contains("Value::Number(4.0)"));
}
