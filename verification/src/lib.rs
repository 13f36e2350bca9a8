//! Execution engine for the Klein scripting language: a tokenizer, a
//! recursive-descent parser, and a tree-walking runtime evaluator.
//!
//! Source text flows one way through three independently invokable stages:
//! text -> tokens ([`tokenize`]) -> syntax tree ([`parse`]) -> program
//! effects ([`run`]).  Each stage fails with its own typed error, every
//! failure aborts its call and is returned as a value, and no error is
//! ever swallowed.  [`check`] validates source without running it.
use vstd::prelude::*;

mod checker;
mod lexer;
mod parser;
mod runner;

pub use crate::checker::check;
pub use crate::checker::StaticError;
pub use crate::lexer::lemma_tokenize_covers_source;
pub use crate::lexer::lemma_tokenize_error_nonempty;
pub use crate::lexer::spec_tokenize;
pub use crate::lexer::tokenize;
pub use crate::lexer::tokens_cover_source;
pub use crate::lexer::tokens_view;
pub use crate::lexer::Keyword;
pub use crate::lexer::Operator;
pub use crate::lexer::Punctuation;
pub use crate::lexer::Token;
pub use crate::lexer::TokenModel;
pub use crate::lexer::TokenType;
pub use crate::lexer::TokenizeError;
pub use crate::parser::parse;
pub use crate::parser::parse_error_model;
pub use crate::parser::parse_result_matches;
pub use crate::parser::program_model;
pub use crate::parser::spec_parse;
pub use crate::parser::spec_parse_tokens;
pub use crate::parser::BinaryOperator;
pub use crate::parser::Expression;
pub use crate::parser::ExpressionModel;
pub use crate::parser::IfBranch;
pub use crate::parser::IfBranchModel;
pub use crate::parser::LogicalOperator;
pub use crate::parser::ParseError;
pub use crate::parser::ParseErrorModel;
pub use crate::parser::Program;
pub use crate::parser::ProgramModel;
pub use crate::parser::Statement;
pub use crate::parser::StatementModel;
pub use crate::runner::chain_lookup;
pub use crate::runner::out_lines;
pub use crate::runner::run;
pub use crate::runner::run_with_output;
pub use crate::runner::scope_lookup;
pub use crate::runner::spec_binary_result;
pub use crate::runner::spec_eval_expr;
pub use crate::runner::spec_eval_for;
pub use crate::runner::spec_eval_if;
pub use crate::runner::spec_eval_stmt;
pub use crate::runner::spec_method_result;
pub use crate::runner::spec_mod_result;
pub use crate::runner::spec_run_program;
pub use crate::runner::spec_to_result;
pub use crate::runner::spec_value_text;
pub use crate::runner::value_eq;
pub use crate::runner::value_model;
pub use crate::runner::RuntimeError;
pub use crate::runner::Value;
pub use crate::runner::ValueModel;

verus! {

/// A failure from any stage of the engine, tagged by origin: static
/// errors (lexical and syntactic, via [`StaticError`]) and runtime errors
/// share one channel at the boundary of [`run`].
#[derive(Debug, PartialEq, Eq)]
pub enum KleinError {
    Static(StaticError),
    Runtime(RuntimeError),
}

} // verus!
