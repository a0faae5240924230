//! Front end of a compiler for a small stack-oriented scripting language:
//! a tokenizer, a scope-aware instruction builder with compile-time constant
//! folding and dead-branch elision, and a code generator that lowers the
//! instruction sequence to source text of the target language.

use vstd::prelude::*;

pub mod chars;
pub mod env;
pub mod fold;
pub mod gen;
pub mod lexer;
pub mod num;
pub mod numfmt;
pub mod parse;
pub mod token;
pub mod transpiler;
pub mod value;
