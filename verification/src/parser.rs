//! Syntactic analysis: consumes the token sequence and builds a [`Program`],
//! an ordered sequence of statement trees.
//!
//! The parser is recursive descent, one production per statement and
//! expression variant.  Operator precedence, low to high: logical `or`,
//! logical `and`, equality `==`, additive, multiplicative, method calls
//! (the dot binds tighter than any binary operator), primary.  Parsing
//! never executes code; on a malformed production the whole call fails
//! with a typed [`ParseError`] and no partial tree is returned.
use vstd::prelude::*;
use vstd::string::StrSliceExecFns;

use crate::lexer::is_digit_char;
use crate::lexer::spec_tokenize;
use crate::lexer::tokenize;
use crate::lexer::tokens_view;
use crate::lexer::Keyword;
use crate::lexer::Operator;
use crate::lexer::Punctuation;
use crate::lexer::Token;
use crate::lexer::TokenModel;
use crate::lexer::TokenType;
use crate::lexer::TokenizeError;
use crate::runner::value_model;
use crate::runner::Value;
use crate::runner::ValueModel;

verus! {

broadcast use vstd::std_specs::vec::group_vec_axioms;

/// The root of the syntax tree: the ordered top-level statements of a
/// source text.  Immutable after construction; each node exclusively owns
/// its children.
#[derive(Debug, PartialEq, Eq)]
pub struct Program {
    pub statements: Vec<Statement>,
}

/// A statement: an expression evaluated for effect, a `for` loop over a
/// range, an `if` with its ordered branches, or a bare block.
#[derive(Debug, PartialEq, Eq)]
pub enum Statement {
    ExpressionStatement(Expression),
    ForStatement { binding: String, iterable: Expression, body: Vec<Statement> },
    IfStatement { branches: Vec<IfBranch>, else_body: Option<Vec<Statement>> },
    Block(Vec<Statement>),
}

/// One `(condition, body)` pair of an `if` statement; `else if` chains are
/// flattened into this ordered list.
#[derive(Debug, PartialEq, Eq)]
pub struct IfBranch {
    pub condition: Expression,
    pub body: Vec<Statement>,
}

/// An expression tree.  `LogicalOp` is kept apart from `BinaryOp` because
/// it short-circuits at evaluation time.
#[derive(Debug, PartialEq, Eq)]
pub enum Expression {
    Literal(Value),
    VariableReference(String),
    BinaryOp { op: BinaryOperator, left: Box<Expression>, right: Box<Expression> },
    LogicalOp { op: LogicalOperator, left: Box<Expression>, right: Box<Expression> },
    MethodCall { receiver: Box<Expression>, method: String, args: Vec<Expression> },
    FunctionCall { name: String, args: Vec<Expression> },
}

/// A non-short-circuiting binary operator.
#[derive(Clone, Copy, Debug, PartialEq, Eq, Structural)]
pub enum BinaryOperator {
    Equals,
    Add,
    Subtract,
    Multiply,
    Divide,
}

/// A short-circuiting logical operator.
#[derive(Clone, Copy, Debug, PartialEq, Eq, Structural)]
pub enum LogicalOperator {
    And,
    Or,
}

/// A syntactic failure.  `UnexpectedToken` names the one token kind the
/// grammar expected at that point and the kind actually found;
/// `UnexpectedEndOfInput` is its form when the tokens ran out instead.
/// `NumberOutOfRange` rejects a numeric literal the runtime could not
/// represent, and `Tokenize` surfaces a lexical failure unchanged.
#[derive(Debug, PartialEq, Eq)]
pub enum ParseError {
    UnexpectedToken { expected: TokenType, actual: TokenType },
    UnexpectedEndOfInput { expected: TokenType },
    NumberOutOfRange(String),
    Tokenize(TokenizeError),
}

// ---------------------------------------------------------------------------
// Models of the syntax tree
// ---------------------------------------------------------------------------
/// The mathematical model of an [`Expression`]: the same tree with names
/// and string contents as character sequences.
pub enum ExpressionModel {
    Literal(ValueModel),
    VariableReference(Seq<char>),
    BinaryOp { op: BinaryOperator, left: Box<ExpressionModel>, right: Box<ExpressionModel> },
    LogicalOp { op: LogicalOperator, left: Box<ExpressionModel>, right: Box<ExpressionModel> },
    MethodCall { receiver: Box<ExpressionModel>, method: Seq<char>, args: Seq<ExpressionModel> },
    FunctionCall { name: Seq<char>, args: Seq<ExpressionModel> },
}

/// The mathematical model of a [`Statement`].
pub enum StatementModel {
    ExpressionStatement(ExpressionModel),
    ForStatement { binding: Seq<char>, iterable: ExpressionModel, body: Seq<StatementModel> },
    IfStatement { branches: Seq<IfBranchModel>, else_body: Option<Seq<StatementModel>> },
    Block(Seq<StatementModel>),
}

/// The mathematical model of an [`IfBranch`].
pub struct IfBranchModel {
    pub condition: ExpressionModel,
    pub body: Seq<StatementModel>,
}

/// The mathematical model of a [`Program`].
pub struct ProgramModel {
    pub statements: Seq<StatementModel>,
}

/// The model of an expression tree.
pub open spec fn expr_model(e: Expression) -> ExpressionModel
    decreases e,
{
    match e {
        Expression::Literal(v) => ExpressionModel::Literal(value_model(v)),
        Expression::VariableReference(n) => ExpressionModel::VariableReference(n@),
        Expression::BinaryOp { op, left, right } => ExpressionModel::BinaryOp {
            op,
            left: Box::new(expr_model(*left)),
            right: Box::new(expr_model(*right)),
        },
        Expression::LogicalOp { op, left, right } => ExpressionModel::LogicalOp {
            op,
            left: Box::new(expr_model(*left)),
            right: Box::new(expr_model(*right)),
        },
        Expression::MethodCall { receiver, method, args } => {
            proof {
                assert(decreases_to!(e => e->MethodCall_args));
                assert(decreases_to!(e->MethodCall_args => e->MethodCall_args@));
            }
            ExpressionModel::MethodCall {
                receiver: Box::new(expr_model(*receiver)),
                method: method@,
                args: exprs_model(args@),
            }
        },
        Expression::FunctionCall { name, args } => {
            proof {
                assert(decreases_to!(e => e->FunctionCall_args));
                assert(decreases_to!(e->FunctionCall_args => e->FunctionCall_args@));
            }
            ExpressionModel::FunctionCall { name: name@, args: exprs_model(args@) }
        },
    }
}

/// The model of an expression list.
pub open spec fn exprs_model(es: Seq<Expression>) -> Seq<ExpressionModel>
    decreases es,
{
    if es.len() == 0 {
        Seq::empty()
    } else {
        exprs_model(es.drop_last()).push(expr_model(es.last()))
    }
}

/// The model of a statement tree.
pub open spec fn stmt_model(s: Statement) -> StatementModel
    decreases s,
{
    match s {
        Statement::ExpressionStatement(e) => StatementModel::ExpressionStatement(expr_model(e)),
        Statement::ForStatement { binding, iterable, body } => {
            proof {
                assert(decreases_to!(s => s->ForStatement_body));
                assert(decreases_to!(s->ForStatement_body => s->ForStatement_body@));
            }
            StatementModel::ForStatement {
                binding: binding@,
                iterable: expr_model(iterable),
                body: stmts_model(body@),
            }
        },
        Statement::IfStatement { branches, else_body } => {
            proof {
                assert(decreases_to!(s => s->IfStatement_branches));
                assert(decreases_to!(s->IfStatement_branches => s->IfStatement_branches@));
                assert(decreases_to!(s => s->IfStatement_else_body));
            }
            StatementModel::IfStatement {
                branches: branches_model(branches@),
                else_body: match else_body {
                    Some(v) => {
                        proof {
                            assert(decreases_to!(
                                s->IfStatement_else_body => s->IfStatement_else_body->Some_0
                            ));
                            assert(decreases_to!(
                                s->IfStatement_else_body->Some_0
                                    => s->IfStatement_else_body->Some_0@
                            ));
                        }
                        Some(stmts_model(v@))
                    },
                    None => None,
                },
            }
        },
        Statement::Block(v) => {
            proof {
                assert(decreases_to!(s => s->Block_0));
                assert(decreases_to!(s->Block_0 => s->Block_0@));
            }
            StatementModel::Block(stmts_model(v@))
        },
    }
}

/// The model of a statement list.
pub open spec fn stmts_model(ss: Seq<Statement>) -> Seq<StatementModel>
    decreases ss,
{
    if ss.len() == 0 {
        Seq::empty()
    } else {
        stmts_model(ss.drop_last()).push(stmt_model(ss.last()))
    }
}

/// The model of one `if` branch.
pub open spec fn branch_model(b: IfBranch) -> IfBranchModel
    decreases b,
{
    proof {
        assert(decreases_to!(b => b.body));
        assert(decreases_to!(b.body => b.body@));
    }
    IfBranchModel { condition: expr_model(b.condition), body: stmts_model(b.body@) }
}

/// The model of an `if` branch list.
pub open spec fn branches_model(bs: Seq<IfBranch>) -> Seq<IfBranchModel>
    decreases bs,
{
    if bs.len() == 0 {
        Seq::empty()
    } else {
        branches_model(bs.drop_last()).push(branch_model(bs.last()))
    }
}

/// The model of a whole program.
pub open spec fn program_model(p: Program) -> ProgramModel {
    ProgramModel { statements: stmts_model(p.statements@) }
}

/// The mathematical model of a [`ParseError`].
pub enum ParseErrorModel {
    UnexpectedToken { expected: TokenType, actual: TokenType },
    UnexpectedEndOfInput { expected: TokenType },
    NumberOutOfRange(Seq<char>),
    Tokenize(Seq<char>),
}

/// The model of a parse error.
pub open spec fn parse_error_model(e: ParseError) -> ParseErrorModel {
    match e {
        ParseError::UnexpectedToken { expected, actual } => ParseErrorModel::UnexpectedToken {
            expected,
            actual,
        },
        ParseError::UnexpectedEndOfInput { expected } => ParseErrorModel::UnexpectedEndOfInput {
            expected,
        },
        ParseError::NumberOutOfRange(t) => ParseErrorModel::NumberOutOfRange(t@),
        ParseError::Tokenize(TokenizeError::UnrecognizedToken(t)) => ParseErrorModel::Tokenize(t@),
    }
}

proof fn lemma_exprs_model_push(es: Seq<Expression>, e: Expression)
    ensures
        exprs_model(es.push(e)) == exprs_model(es).push(expr_model(e)),
{
    assert(es.push(e).drop_last() =~= es);
    assert(es.push(e).last() == e);
}

proof fn lemma_stmts_model_push(ss: Seq<Statement>, s: Statement)
    ensures
        stmts_model(ss.push(s)) == stmts_model(ss).push(stmt_model(s)),
{
    assert(ss.push(s).drop_last() =~= ss);
    assert(ss.push(s).last() == s);
}

proof fn lemma_branches_model_push(bs: Seq<IfBranch>, b: IfBranch)
    ensures
        branches_model(bs.push(b)) == branches_model(bs).push(branch_model(b)),
{
    assert(bs.push(b).drop_last() =~= bs);
    assert(bs.push(b).last() == b);
}

// ---------------------------------------------------------------------------
// The specification grammar
// ---------------------------------------------------------------------------
// These functions are the meaning of the parser: a recursive-descent
// grammar over the token models that `spec_tokenize` produces, one
// function per production and one `..._rest` function per repetition.
// Each takes a cursor and returns the parsed node with the cursor moved
// past it, or the parse error, exactly as the executable parser does.
// `step_pos` clamps a returned cursor into the range that a successful
// production in fact guarantees; the clamps only make the recursion
// well-founded and are never reached with other values.
/// Clamps `j` to at least `lo`, then to at most `hi`.
pub open spec fn step_pos(j: int, lo: int, hi: int) -> int {
    let k = if j < lo {
        lo
    } else {
        j
    };
    if k > hi {
        hi
    } else {
        k
    }
}

/// Whether the token at `i` exists and has the given kind.
pub open spec fn spec_token_is(ts: Seq<TokenModel>, i: int, kind: TokenType) -> bool {
    0 <= i < ts.len() && ts[i].token_type == kind
}

/// The grammar's demand for one token of the given kind at `i`.
pub open spec fn spec_expect(ts: Seq<TokenModel>, i: int, expected: TokenType) -> Result<
    int,
    ParseErrorModel,
> {
    if i >= ts.len() {
        Err(ParseErrorModel::UnexpectedEndOfInput { expected })
    } else if ts[i].token_type == expected {
        Ok(i + 1)
    } else {
        Err(ParseErrorModel::UnexpectedToken { expected, actual: ts[i].token_type })
    }
}

/// The contents of a string literal lexeme: its text without the
/// delimiting quotes.
pub open spec fn literal_contents(text: Seq<char>) -> Seq<char> {
    if text.len() >= 2 {
        text.subrange(1, text.len() - 1)
    } else {
        text
    }
}

/// A primary expression: a literal, an identifier (a variable reference,
/// or a function call when a parenthesis follows), or a parenthesized
/// expression.  Anything else fails expecting an expression start, named
/// `Identifier`.
pub open spec fn spec_primary(ts: Seq<TokenModel>, i: int) -> Result<
    (ExpressionModel, int),
    ParseErrorModel,
>
    decreases ts.len() - i, 1int,
        when 0 <= i <= ts.len()
{
    if i >= ts.len() {
        Err(ParseErrorModel::UnexpectedEndOfInput { expected: TokenType::Identifier })
    } else {
        let tt = ts[i].token_type;
        if tt == TokenType::NumberLiteral {
            let text = ts[i].text;
            if all_digits(text) && text.len() > 0 && digits_val(text) <= i64::MAX {
                Ok(
                    (
                        ExpressionModel::Literal(ValueModel::Number(digits_val(text) as i64)),
                        i + 1,
                    ),
                )
            } else {
                Err(ParseErrorModel::NumberOutOfRange(text))
            }
        } else if tt == TokenType::StringLiteral {
            Ok((ExpressionModel::Literal(ValueModel::Str(literal_contents(ts[i].text))), i + 1))
        } else if tt == TokenType::Identifier {
            if i + 1 < ts.len() && ts[i + 1].token_type == TokenType::Punctuation(
                Punctuation::LeftParen,
            ) {
                match spec_args(ts, i + 2) {
                    Ok(t) => Ok((ExpressionModel::FunctionCall { name: ts[i].text, args: t.0 }, t.1)),
                    Err(e) => Err(e),
                }
            } else {
                Ok((ExpressionModel::VariableReference(ts[i].text), i + 1))
            }
        } else if tt == TokenType::Punctuation(Punctuation::LeftParen) {
            match spec_expression(ts, i + 1) {
                Ok(t) => match spec_expect(ts, t.1, TokenType::Punctuation(Punctuation::RightParen)) {
                    Ok(k) => Ok((t.0, k)),
                    Err(e) => Err(e),
                },
                Err(e) => Err(e),
            }
        } else {
            Err(ParseErrorModel::UnexpectedToken { expected: TokenType::Identifier, actual: tt })
        }
    }
}

/// An argument list, entered just past the opening parenthesis and
/// consuming through the closing one.
pub open spec fn spec_args(ts: Seq<TokenModel>, i: int) -> Result<
    (Seq<ExpressionModel>, int),
    ParseErrorModel,
>
    decreases ts.len() - i, 16int,
        when 0 <= i <= ts.len()
{
    if spec_token_is(ts, i, TokenType::Punctuation(Punctuation::RightParen)) {
        Ok((Seq::empty(), i + 1))
    } else {
        spec_args_rest(ts, Seq::empty(), i)
    }
}

pub open spec fn spec_args_rest(ts: Seq<TokenModel>, acc: Seq<ExpressionModel>, i: int) -> Result<
    (Seq<ExpressionModel>, int),
    ParseErrorModel,
>
    decreases ts.len() - i, 15int,
        when 0 <= i <= ts.len()
{
    match spec_expression(ts, i) {
        Ok(t) => {
            let j = step_pos(t.1, i + 1, ts.len() as int);
            let acc2 = acc.push(t.0);
            if spec_token_is(ts, j, TokenType::Punctuation(Punctuation::Comma)) {
                spec_args_rest(ts, acc2, j + 1)
            } else {
                match spec_expect(ts, j, TokenType::Punctuation(Punctuation::RightParen)) {
                    Ok(k) => Ok((acc2, k)),
                    Err(e) => Err(e),
                }
            }
        },
        Err(e) => Err(e),
    }
}

/// Method calls: `receiver.method(args)`, left-associative, binding
/// tighter than any binary operator.
pub open spec fn spec_postfix(ts: Seq<TokenModel>, i: int) -> Result<
    (ExpressionModel, int),
    ParseErrorModel,
>
    decreases ts.len() - i, 3int,
        when 0 <= i <= ts.len()
{
    match spec_primary(ts, i) {
        Ok(t) => spec_postfix_rest(ts, t.0, step_pos(t.1, i + 1, ts.len() as int)),
        Err(e) => Err(e),
    }
}

pub open spec fn spec_postfix_rest(ts: Seq<TokenModel>, e: ExpressionModel, i: int) -> Result<
    (ExpressionModel, int),
    ParseErrorModel,
>
    decreases ts.len() - i, 2int,
        when 0 <= i <= ts.len()
{
    if spec_token_is(ts, i, TokenType::Operator(Operator::Dot)) {
        match spec_expect(ts, i + 1, TokenType::Identifier) {
            Ok(name_pos) => match spec_expect(
                ts,
                name_pos,
                TokenType::Punctuation(Punctuation::LeftParen),
            ) {
                Ok(after_paren) => match spec_args(ts, after_paren) {
                    Ok(t) => spec_postfix_rest(
                        ts,
                        ExpressionModel::MethodCall {
                            receiver: Box::new(e),
                            method: ts[i + 1].text,
                            args: t.0,
                        },
                        step_pos(t.1, i + 1, ts.len() as int),
                    ),
                    Err(err) => Err(err),
                },
                Err(err) => Err(err),
            },
            Err(err) => Err(err),
        }
    } else {
        Ok((e, i))
    }
}

pub open spec fn spec_multiplicative(ts: Seq<TokenModel>, i: int) -> Result<
    (ExpressionModel, int),
    ParseErrorModel,
>
    decreases ts.len() - i, 5int,
        when 0 <= i <= ts.len()
{
    match spec_postfix(ts, i) {
        Ok(t) => spec_multiplicative_rest(ts, t.0, step_pos(t.1, i + 1, ts.len() as int)),
        Err(e) => Err(e),
    }
}

pub open spec fn spec_multiplicative_rest(
    ts: Seq<TokenModel>,
    e: ExpressionModel,
    i: int,
) -> Result<(ExpressionModel, int), ParseErrorModel>
    decreases ts.len() - i, 4int,
        when 0 <= i <= ts.len()
{
    let op = if spec_token_is(ts, i, TokenType::Operator(Operator::Star)) {
        Some(BinaryOperator::Multiply)
    } else if spec_token_is(ts, i, TokenType::Operator(Operator::Slash)) {
        Some(BinaryOperator::Divide)
    } else {
        None
    };
    match op {
        Some(op2) => match spec_postfix(ts, i + 1) {
            Ok(t) => spec_multiplicative_rest(
                ts,
                ExpressionModel::BinaryOp { op: op2, left: Box::new(e), right: Box::new(t.0) },
                step_pos(t.1, i + 2, ts.len() as int),
            ),
            Err(err) => Err(err),
        },
        None => Ok((e, i)),
    }
}

pub open spec fn spec_additive(ts: Seq<TokenModel>, i: int) -> Result<
    (ExpressionModel, int),
    ParseErrorModel,
>
    decreases ts.len() - i, 7int,
        when 0 <= i <= ts.len()
{
    match spec_multiplicative(ts, i) {
        Ok(t) => spec_additive_rest(ts, t.0, step_pos(t.1, i + 1, ts.len() as int)),
        Err(e) => Err(e),
    }
}

pub open spec fn spec_additive_rest(ts: Seq<TokenModel>, e: ExpressionModel, i: int) -> Result<
    (ExpressionModel, int),
    ParseErrorModel,
>
    decreases ts.len() - i, 6int,
        when 0 <= i <= ts.len()
{
    let op = if spec_token_is(ts, i, TokenType::Operator(Operator::Plus)) {
        Some(BinaryOperator::Add)
    } else if spec_token_is(ts, i, TokenType::Operator(Operator::Minus)) {
        Some(BinaryOperator::Subtract)
    } else {
        None
    };
    match op {
        Some(op2) => match spec_multiplicative(ts, i + 1) {
            Ok(t) => spec_additive_rest(
                ts,
                ExpressionModel::BinaryOp { op: op2, left: Box::new(e), right: Box::new(t.0) },
                step_pos(t.1, i + 2, ts.len() as int),
            ),
            Err(err) => Err(err),
        },
        None => Ok((e, i)),
    }
}

pub open spec fn spec_equality(ts: Seq<TokenModel>, i: int) -> Result<
    (ExpressionModel, int),
    ParseErrorModel,
>
    decreases ts.len() - i, 9int,
        when 0 <= i <= ts.len()
{
    match spec_additive(ts, i) {
        Ok(t) => spec_equality_rest(ts, t.0, step_pos(t.1, i + 1, ts.len() as int)),
        Err(e) => Err(e),
    }
}

pub open spec fn spec_equality_rest(ts: Seq<TokenModel>, e: ExpressionModel, i: int) -> Result<
    (ExpressionModel, int),
    ParseErrorModel,
>
    decreases ts.len() - i, 8int,
        when 0 <= i <= ts.len()
{
    if spec_token_is(ts, i, TokenType::Operator(Operator::Equals)) {
        match spec_additive(ts, i + 1) {
            Ok(t) => spec_equality_rest(
                ts,
                ExpressionModel::BinaryOp {
                    op: BinaryOperator::Equals,
                    left: Box::new(e),
                    right: Box::new(t.0),
                },
                step_pos(t.1, i + 2, ts.len() as int),
            ),
            Err(err) => Err(err),
        }
    } else {
        Ok((e, i))
    }
}

pub open spec fn spec_and(ts: Seq<TokenModel>, i: int) -> Result<
    (ExpressionModel, int),
    ParseErrorModel,
>
    decreases ts.len() - i, 11int,
        when 0 <= i <= ts.len()
{
    match spec_equality(ts, i) {
        Ok(t) => spec_and_rest(ts, t.0, step_pos(t.1, i + 1, ts.len() as int)),
        Err(e) => Err(e),
    }
}

pub open spec fn spec_and_rest(ts: Seq<TokenModel>, e: ExpressionModel, i: int) -> Result<
    (ExpressionModel, int),
    ParseErrorModel,
>
    decreases ts.len() - i, 10int,
        when 0 <= i <= ts.len()
{
    if spec_token_is(ts, i, TokenType::Keyword(Keyword::And)) {
        match spec_equality(ts, i + 1) {
            Ok(t) => spec_and_rest(
                ts,
                ExpressionModel::LogicalOp {
                    op: LogicalOperator::And,
                    left: Box::new(e),
                    right: Box::new(t.0),
                },
                step_pos(t.1, i + 2, ts.len() as int),
            ),
            Err(err) => Err(err),
        }
    } else {
        Ok((e, i))
    }
}

pub open spec fn spec_or(ts: Seq<TokenModel>, i: int) -> Result<
    (ExpressionModel, int),
    ParseErrorModel,
>
    decreases ts.len() - i, 13int,
        when 0 <= i <= ts.len()
{
    match spec_and(ts, i) {
        Ok(t) => spec_or_rest(ts, t.0, step_pos(t.1, i + 1, ts.len() as int)),
        Err(e) => Err(e),
    }
}

pub open spec fn spec_or_rest(ts: Seq<TokenModel>, e: ExpressionModel, i: int) -> Result<
    (ExpressionModel, int),
    ParseErrorModel,
>
    decreases ts.len() - i, 12int,
        when 0 <= i <= ts.len()
{
    if spec_token_is(ts, i, TokenType::Keyword(Keyword::Or)) {
        match spec_and(ts, i + 1) {
            Ok(t) => spec_or_rest(
                ts,
                ExpressionModel::LogicalOp {
                    op: LogicalOperator::Or,
                    left: Box::new(e),
                    right: Box::new(t.0),
                },
                step_pos(t.1, i + 2, ts.len() as int),
            ),
            Err(err) => Err(err),
        }
    } else {
        Ok((e, i))
    }
}

/// A whole expression: the precedence ladder from `or` down.
pub open spec fn spec_expression(ts: Seq<TokenModel>, i: int) -> Result<
    (ExpressionModel, int),
    ParseErrorModel,
>
    decreases ts.len() - i, 14int,
        when 0 <= i <= ts.len()
{
    spec_or(ts, i)
}

/// A brace-delimited statement list, from the opening brace through the
/// closing one.
pub open spec fn spec_block(ts: Seq<TokenModel>, i: int) -> Result<
    (Seq<StatementModel>, int),
    ParseErrorModel,
>
    decreases ts.len() - i, 18int,
        when 0 <= i <= ts.len()
{
    match spec_expect(ts, i, TokenType::Punctuation(Punctuation::LeftBrace)) {
        Ok(j) => spec_block_rest(ts, Seq::empty(), j),
        Err(e) => Err(e),
    }
}

pub open spec fn spec_block_rest(ts: Seq<TokenModel>, acc: Seq<StatementModel>, i: int) -> Result<
    (Seq<StatementModel>, int),
    ParseErrorModel,
>
    decreases ts.len() - i, 20int,
        when 0 <= i <= ts.len()
{
    if i >= ts.len() {
        Err(
            ParseErrorModel::UnexpectedEndOfInput {
                expected: TokenType::Punctuation(Punctuation::RightBrace),
            },
        )
    } else if ts[i].token_type == TokenType::Punctuation(Punctuation::RightBrace) {
        Ok((acc, i + 1))
    } else {
        match spec_statement(ts, i) {
            Ok(t) => spec_block_rest(ts, acc.push(t.0), step_pos(t.1, i + 1, ts.len() as int)),
            Err(e) => Err(e),
        }
    }
}

/// One statement: a `for` loop, an `if` chain, a bare block, or an
/// expression terminated by `;`.
pub open spec fn spec_statement(ts: Seq<TokenModel>, i: int) -> Result<
    (StatementModel, int),
    ParseErrorModel,
>
    decreases ts.len() - i, 19int,
        when 0 <= i <= ts.len()
{
    if i >= ts.len() {
        Err(ParseErrorModel::UnexpectedEndOfInput { expected: TokenType::Identifier })
    } else {
        let tt = ts[i].token_type;
        if tt == TokenType::Keyword(Keyword::For) {
            match spec_expect(ts, i + 1, TokenType::Identifier) {
                Ok(after_ident) => match spec_expect(ts, after_ident, TokenType::Keyword(Keyword::In)) {
                    Ok(after_in) => match spec_expression(ts, after_in) {
                        Ok(t) => match spec_block(ts, step_pos(t.1, i + 4, ts.len() as int)) {
                            Ok(b) => Ok(
                                (
                                    StatementModel::ForStatement {
                                        binding: ts[i + 1].text,
                                        iterable: t.0,
                                        body: b.0,
                                    },
                                    b.1,
                                ),
                            ),
                            Err(e) => Err(e),
                        },
                        Err(e) => Err(e),
                    },
                    Err(e) => Err(e),
                },
                Err(e) => Err(e),
            }
        } else if tt == TokenType::Keyword(Keyword::If) {
            match spec_expression(ts, i + 1) {
                Ok(c) => match spec_block(ts, step_pos(c.1, i + 2, ts.len() as int)) {
                    Ok(b) => spec_if_rest(
                        ts,
                        seq![IfBranchModel { condition: c.0, body: b.0 }],
                        step_pos(b.1, i + 3, ts.len() as int),
                    ),
                    Err(e) => Err(e),
                },
                Err(e) => Err(e),
            }
        } else if tt == TokenType::Punctuation(Punctuation::LeftBrace) {
            match spec_block(ts, i) {
                Ok(b) => Ok((StatementModel::Block(b.0), b.1)),
                Err(e) => Err(e),
            }
        } else {
            match spec_expression(ts, i) {
                Ok(t) => match spec_expect(
                    ts,
                    t.1,
                    TokenType::Punctuation(Punctuation::Semicolon),
                ) {
                    Ok(k) => Ok((StatementModel::ExpressionStatement(t.0), k)),
                    Err(e) => Err(e),
                },
                Err(e) => Err(e),
            }
        }
    }
}

/// The `else if` / `else` tail of an `if` statement: each `else if` adds
/// one more ordered branch, a final `else` supplies the unconditional
/// body.
pub open spec fn spec_if_rest(ts: Seq<TokenModel>, branches: Seq<IfBranchModel>, i: int) -> Result<
    (StatementModel, int),
    ParseErrorModel,
>
    decreases ts.len() - i, 19int,
        when 0 <= i <= ts.len()
{
    if !spec_token_is(ts, i, TokenType::Keyword(Keyword::Else)) {
        Ok((StatementModel::IfStatement { branches, else_body: None }, i))
    } else if spec_token_is(ts, i + 1, TokenType::Keyword(Keyword::If)) {
        match spec_expression(ts, i + 2) {
            Ok(c) => match spec_block(ts, step_pos(c.1, i + 3, ts.len() as int)) {
                Ok(b) => spec_if_rest(
                    ts,
                    branches.push(IfBranchModel { condition: c.0, body: b.0 }),
                    step_pos(b.1, i + 1, ts.len() as int),
                ),
                Err(e) => Err(e),
            },
            Err(e) => Err(e),
        }
    } else {
        match spec_block(ts, i + 1) {
            Ok(b) => Ok((StatementModel::IfStatement { branches, else_body: Some(b.0) }, b.1)),
            Err(e) => Err(e),
        }
    }
}

pub open spec fn spec_program_rest(
    ts: Seq<TokenModel>,
    acc: Seq<StatementModel>,
    i: int,
) -> Result<ProgramModel, ParseErrorModel>
    decreases ts.len() - i, 21int,
        when 0 <= i <= ts.len()
{
    if i >= ts.len() {
        Ok(ProgramModel { statements: acc })
    } else {
        match spec_statement(ts, i) {
            Ok(t) => spec_program_rest(ts, acc.push(t.0), step_pos(t.1, i + 1, ts.len() as int)),
            Err(e) => Err(e),
        }
    }
}

/// The meaning of the parser on a token sequence: zero or more statements
/// until the end of the tokens.
pub open spec fn spec_parse_tokens(ts: Seq<TokenModel>) -> Result<ProgramModel, ParseErrorModel> {
    spec_program_rest(ts, Seq::empty(), 0)
}

/// The meaning of `parse` on source text: tokenize, then parse the token
/// sequence; a lexical failure surfaces unchanged.
pub open spec fn spec_parse(source: Seq<char>) -> Result<ProgramModel, ParseErrorModel> {
    match spec_tokenize(source) {
        Ok(ts) => spec_parse_tokens(ts),
        Err(bad) => Err(ParseErrorModel::Tokenize(bad)),
    }
}

// ---------------------------------------------------------------------------
// Relating executable results to the specification grammar
// ---------------------------------------------------------------------------
pub open spec fn expr_step_matches(
    r: Result<(Expression, usize), ParseError>,
    s: Result<(ExpressionModel, int), ParseErrorModel>,
) -> bool {
    match r {
        Ok(t) => s == Ok::<(ExpressionModel, int), ParseErrorModel>((expr_model(t.0), t.1 as int)),
        Err(e) => s == Err::<(ExpressionModel, int), ParseErrorModel>(parse_error_model(e)),
    }
}

pub open spec fn args_step_matches(
    r: Result<(Vec<Expression>, usize), ParseError>,
    s: Result<(Seq<ExpressionModel>, int), ParseErrorModel>,
) -> bool {
    match r {
        Ok(t) => s == Ok::<(Seq<ExpressionModel>, int), ParseErrorModel>(
            (exprs_model(t.0@), t.1 as int),
        ),
        Err(e) => s == Err::<(Seq<ExpressionModel>, int), ParseErrorModel>(parse_error_model(e)),
    }
}

pub open spec fn stmt_step_matches(
    r: Result<(Statement, usize), ParseError>,
    s: Result<(StatementModel, int), ParseErrorModel>,
) -> bool {
    match r {
        Ok(t) => s == Ok::<(StatementModel, int), ParseErrorModel>((stmt_model(t.0), t.1 as int)),
        Err(e) => s == Err::<(StatementModel, int), ParseErrorModel>(parse_error_model(e)),
    }
}

pub open spec fn block_step_matches(
    r: Result<(Vec<Statement>, usize), ParseError>,
    s: Result<(Seq<StatementModel>, int), ParseErrorModel>,
) -> bool {
    match r {
        Ok(t) => s == Ok::<(Seq<StatementModel>, int), ParseErrorModel>(
            (stmts_model(t.0@), t.1 as int),
        ),
        Err(e) => s == Err::<(Seq<StatementModel>, int), ParseErrorModel>(parse_error_model(e)),
    }
}

pub open spec fn pos_step_matches(
    r: Result<usize, ParseError>,
    s: Result<int, ParseErrorModel>,
) -> bool {
    match r {
        Ok(p) => s == Ok::<int, ParseErrorModel>(p as int),
        Err(e) => s == Err::<int, ParseErrorModel>(parse_error_model(e)),
    }
}

/// Whether the result of `parse` is exactly what the specification
/// grammar assigns: the same tree on success, the same error on failure.
pub open spec fn parse_result_matches(
    r: Result<Program, ParseError>,
    s: Result<ProgramModel, ParseErrorModel>,
) -> bool {
    match r {
        Ok(p) => s == Ok::<ProgramModel, ParseErrorModel>(program_model(p)),
        Err(e) => s == Err::<ProgramModel, ParseErrorModel>(parse_error_model(e)),
    }
}

// ---------------------------------------------------------------------------
// Numeric literals
// ---------------------------------------------------------------------------
/// The numeric value of one decimal digit.
pub open spec fn digit_val(c: char) -> int {
    c as u32 - 48
}

/// The numeric value of a digit string, most significant digit first.
pub open spec fn digits_val(s: Seq<char>) -> int
    decreases s.len(),
{
    if s.len() == 0 {
        0
    } else {
        digits_val(s.drop_last()) * 10 + digit_val(s.last())
    }
}

/// Whether every character of `s` is a decimal digit.
pub open spec fn all_digits(s: Seq<char>) -> bool {
    forall|k: int| 0 <= k < s.len() ==> is_digit_char(#[trigger] s[k])
}

proof fn lemma_digits_val_nonneg(s: Seq<char>)
    requires
        all_digits(s),
    ensures
        digits_val(s) >= 0,
    decreases s.len(),
{
    if s.len() > 0 {
        assert(all_digits(s.drop_last()));
        lemma_digits_val_nonneg(s.drop_last());
    }
}

/// Appending digits never shrinks the value of a digit string.
proof fn lemma_digits_val_monotone(s: Seq<char>, j: int)
    requires
        all_digits(s),
        0 <= j <= s.len(),
    ensures
        digits_val(s.subrange(0, j)) <= digits_val(s),
    decreases s.len() - j,
{
    if j < s.len() {
        let t = s.subrange(0, j + 1);
        assert(t.drop_last() =~= s.subrange(0, j));
        assert(all_digits(t.drop_last()));
        lemma_digits_val_nonneg(t.drop_last());
        assert(digits_val(t) == digits_val(s.subrange(0, j)) * 10 + digit_val(t.last()));
        lemma_digits_val_monotone(s, j + 1);
    } else {
        assert(s.subrange(0, j) =~= s);
    }
}

/// Reads a numeric literal.  Returns its value exactly when the text is a
/// nonempty digit string whose value the runtime can represent.
fn number_from_text(text: &str) -> (r: Option<i64>)
    ensures
        r is Some <==> (all_digits(text@) && text@.len() > 0 && digits_val(text@) <= i64::MAX),
        r matches Some(n) ==> n == digits_val(text@),
{
    let ghost s = text@;
    let len = text.unicode_len();
    if len == 0 {
        return None;
    }
    let mut acc: i64 = 0;
    let mut k: usize = 0;
    while k < len
        invariant
            len == s.len(),
            s == text@,
            0 < len,
            k <= len,
            all_digits(s.subrange(0, k as int)),
            0 <= acc,
            acc == digits_val(s.subrange(0, k as int)),
        decreases len - k,
    {
        let c = text.get_char(k);
        if !crate::lexer::is_digit_exec(c) {
            return None;
        }
        let d: i64 = ((c as u32) - 48) as i64;
        proof {
            assert(s.subrange(0, k as int + 1).drop_last() =~= s.subrange(0, k as int));
        }
        if acc > (i64::MAX - d) / 10 {
            proof {
                assert(acc * 10 + d > i64::MAX) by (nonlinear_arith)
                    requires
                        acc > (i64::MAX - d) / 10,
                        0 <= d < 10,
                        0 <= acc,
                ;
                assert(all_digits(s.subrange(0, k as int + 1)));
                assert(digits_val(s.subrange(0, k as int + 1)) == acc * 10 + d);
                if all_digits(s) {
                    lemma_digits_val_monotone(s, k as int + 1);
                }
            }
            return None;
        }
        proof {
            assert(acc * 10 + d <= i64::MAX) by (nonlinear_arith)
                requires
                    acc <= (i64::MAX - d) / 10,
                    0 <= d < 10,
                    0 <= acc,
            ;
            lemma_digits_val_nonneg(s.subrange(0, k as int + 1));
        }
        acc = acc * 10 + d;
        k += 1;
    }
    proof {
        assert(s.subrange(0, len as int) =~= s);
    }
    Some(acc)
}

/// The contents of a string literal: its text with the delimiting quotes
/// stripped.
fn string_contents(text: &str) -> (r: String)
    ensures
        r@ == literal_contents(text@),
{
    let n = text.unicode_len();
    if n >= 2 {
        text.substring_char(1, n - 1).to_owned()
    } else {
        text.to_owned()
    }
}

// ---------------------------------------------------------------------------
// Token-stream helpers
// ---------------------------------------------------------------------------
/// The model of a token vector is its tokens' models, index by index.
proof fn lemma_tsm(toks: Seq<Token>)
    ensures
        tokens_view(toks).len() == toks.len(),
        forall|i: int| 0 <= i < toks.len() ==> tokens_view(toks)[i] == toks[i]@,
{
}

/// Consumes one token of the given kind, or reports what stood (or ran
/// out) in its place.
fn expect(tokens: &Vec<Token>, pos: usize, expected: TokenType) -> (r: Result<usize, ParseError>)
    requires
        pos <= tokens@.len(),
    ensures
        r matches Ok(p) ==> p == pos + 1 && pos < tokens@.len(),
        r matches Err(e) ==> !(e matches ParseError::Tokenize(_)),
        pos_step_matches(r, spec_expect(tokens_view(tokens@), pos as int, expected)),
{
    proof {
        lemma_tsm(tokens@);
    }
    if pos >= tokens.len() {
        return Err(ParseError::UnexpectedEndOfInput { expected });
    }
    let actual = tokens[pos].token_type;
    if actual == expected {
        Ok(pos + 1)
    } else {
        Err(ParseError::UnexpectedToken { expected, actual })
    }
}

/// Whether the token at `pos` exists and has the given kind.
fn peek_is(tokens: &Vec<Token>, pos: usize, kind: TokenType) -> (r: bool)
    requires
        pos <= tokens@.len(),
    ensures
        tokens@.len() <= usize::MAX,
        r ==> pos < tokens@.len() && tokens@[pos as int].token_type == kind,
        r == spec_token_is(tokens_view(tokens@), pos as int, kind),
{
    proof {
        lemma_tsm(tokens@);
    }
    let n = tokens.len();
    pos < n && tokens[pos].token_type == kind
}

// ---------------------------------------------------------------------------
// Recursive descent
// ---------------------------------------------------------------------------
// Every parser takes the token vector and a cursor and, on success, returns
// the parsed node with the cursor moved past it.  Each production consumes
// at least one token, which also bounds the statement count of a program by
// its token count.  Termination is by the lexicographic pair (tokens left,
// grammar rank): a parser either consumes a token before recursing or
// recurses into a production of strictly lower rank at the same cursor.
fn parse_primary(tokens: &Vec<Token>, pos: usize) -> (r: Result<(Expression, usize), ParseError>)
    requires
        pos <= tokens@.len(),
    ensures
        r matches Ok(t) ==> pos < t.1 <= tokens@.len(),
        r matches Err(e) ==> !(e matches ParseError::Tokenize(_)),
        expr_step_matches(r, spec_primary(tokens_view(tokens@), pos as int)),
    decreases tokens@.len() - pos, 1int,
{
    proof {
        lemma_tsm(tokens@);
    }
    if pos >= tokens.len() {
        return Err(ParseError::UnexpectedEndOfInput { expected: TokenType::Identifier });
    }
    let token_type = tokens[pos].token_type;
    if token_type == TokenType::NumberLiteral {
        match number_from_text(tokens[pos].value.as_str()) {
            Some(n) => Ok((Expression::Literal(Value::Number(n)), pos + 1)),
            None => Err(ParseError::NumberOutOfRange(tokens[pos].value.clone())),
        }
    } else if token_type == TokenType::StringLiteral {
        let contents = string_contents(tokens[pos].value.as_str());
        Ok((Expression::Literal(Value::Str(contents)), pos + 1))
    } else if token_type == TokenType::Identifier {
        if pos + 1 < tokens.len() && tokens[pos + 1].token_type == TokenType::Punctuation(
            Punctuation::LeftParen,
        ) {
            let name = tokens[pos].value.clone();
            let (args, next) = match parse_args(tokens, pos + 2) {
                Ok(t) => t,
                Err(e) => {
                    return Err(e);
                },
            };
            Ok((Expression::FunctionCall { name, args }, next))
        } else {
            Ok((Expression::VariableReference(tokens[pos].value.clone()), pos + 1))
        }
    } else if token_type == TokenType::Punctuation(Punctuation::LeftParen) {
        let (inner, next) = match parse_expression(tokens, pos + 1) {
            Ok(t) => t,
            Err(e) => {
                return Err(e);
            },
        };
        let next = match expect(tokens, next, TokenType::Punctuation(Punctuation::RightParen)) {
            Ok(p) => p,
            Err(e) => {
                return Err(e);
            },
        };
        Ok((inner, next))
    } else {
        Err(ParseError::UnexpectedToken { expected: TokenType::Identifier, actual: token_type })
    }
}

/// Argument list: entered just past the opening parenthesis, consumes
/// through the closing one.
fn parse_args(tokens: &Vec<Token>, pos: usize) -> (r: Result<(Vec<Expression>, usize), ParseError>)
    requires
        pos <= tokens@.len(),
    ensures
        r matches Ok(t) ==> pos < t.1 <= tokens@.len(),
        r matches Err(e) ==> !(e matches ParseError::Tokenize(_)),
        args_step_matches(r, spec_args(tokens_view(tokens@), pos as int)),
    decreases tokens@.len() - pos, 9int,
{
    let ghost tsm = tokens_view(tokens@);
    proof {
        lemma_tsm(tokens@);
    }
    let mut args: Vec<Expression> = Vec::new();
    if peek_is(tokens, pos, TokenType::Punctuation(Punctuation::RightParen)) {
        return Ok((args, pos + 1));
    }
    let mut cur = pos;
    loop
        invariant
            pos <= cur <= tokens@.len(),
            tsm == tokens_view(tokens@),
            spec_args_rest(tsm, exprs_model(args@), cur as int) == spec_args(tsm, pos as int),
        decreases tokens@.len() - cur,
    {
        proof {
            lemma_tsm(tokens@);
        }
        let (arg, next) = match parse_expression(tokens, cur) {
            Ok(t) => t,
            Err(e) => {
                return Err(e);
            },
        };
        let ghost prev = args@;
        args.push(arg);
        proof {
            lemma_exprs_model_push(prev, arg);
        }
        cur = next;
        if peek_is(tokens, cur, TokenType::Punctuation(Punctuation::Comma)) {
            cur = cur + 1;
        } else {
            let next = match expect(tokens, cur, TokenType::Punctuation(Punctuation::RightParen)) {
                Ok(p) => p,
                Err(e) => {
                    return Err(e);
                },
            };
            return Ok((args, next));
        }
    }
}

/// Method calls: `receiver.method(args)`, left-associative, binding
/// tighter than any binary operator.
fn parse_postfix(tokens: &Vec<Token>, pos: usize) -> (r: Result<(Expression, usize), ParseError>)
    requires
        pos <= tokens@.len(),
    ensures
        r matches Ok(t) ==> pos < t.1 <= tokens@.len(),
        r matches Err(e) ==> !(e matches ParseError::Tokenize(_)),
        expr_step_matches(r, spec_postfix(tokens_view(tokens@), pos as int)),
    decreases tokens@.len() - pos, 2int,
{
    let ghost tsm = tokens_view(tokens@);
    let (mut expr, mut cur) = match parse_primary(tokens, pos) {
        Ok(t) => t,
        Err(e) => {
            return Err(e);
        },
    };
    loop
        invariant
            pos < cur <= tokens@.len(),
            tsm == tokens_view(tokens@),
            spec_postfix_rest(tsm, expr_model(expr), cur as int) == spec_postfix(tsm, pos as int),
        decreases tokens@.len() - cur,
    {
        proof {
            lemma_tsm(tokens@);
        }
        if !peek_is(tokens, cur, TokenType::Operator(Operator::Dot)) {
            return Ok((expr, cur));
        }
        let name_pos = match expect(tokens, cur + 1, TokenType::Identifier) {
            Ok(p) => p,
            Err(e) => {
                return Err(e);
            },
        };
        let method = tokens[cur + 1].value.clone();
        let after_paren = match expect(
            tokens,
            name_pos,
            TokenType::Punctuation(Punctuation::LeftParen),
        ) {
            Ok(p) => p,
            Err(e) => {
                return Err(e);
            },
        };
        let (args, next) = match parse_args(tokens, after_paren) {
            Ok(t) => t,
            Err(e) => {
                return Err(e);
            },
        };
        expr = Expression::MethodCall { receiver: Box::new(expr), method, args };
        cur = next;
    }
}

fn parse_multiplicative(tokens: &Vec<Token>, pos: usize) -> (r: Result<
    (Expression, usize),
    ParseError,
>)
    requires
        pos <= tokens@.len(),
    ensures
        r matches Ok(t) ==> pos < t.1 <= tokens@.len(),
        r matches Err(e) ==> !(e matches ParseError::Tokenize(_)),
        expr_step_matches(r, spec_multiplicative(tokens_view(tokens@), pos as int)),
    decreases tokens@.len() - pos, 3int,
{
    let ghost tsm = tokens_view(tokens@);
    let (mut expr, mut cur) = match parse_postfix(tokens, pos) {
        Ok(t) => t,
        Err(e) => {
            return Err(e);
        },
    };
    loop
        invariant
            pos < cur <= tokens@.len(),
            tsm == tokens_view(tokens@),
            spec_multiplicative_rest(tsm, expr_model(expr), cur as int) == spec_multiplicative(
                tsm,
                pos as int,
            ),
        decreases tokens@.len() - cur,
    {
        let op = if peek_is(tokens, cur, TokenType::Operator(Operator::Star)) {
            BinaryOperator::Multiply
        } else if peek_is(tokens, cur, TokenType::Operator(Operator::Slash)) {
            BinaryOperator::Divide
        } else {
            return Ok((expr, cur));
        };
        let (right, next) = match parse_postfix(tokens, cur + 1) {
            Ok(t) => t,
            Err(e) => {
                return Err(e);
            },
        };
        expr = Expression::BinaryOp { op, left: Box::new(expr), right: Box::new(right) };
        cur = next;
    }
}

fn parse_additive(tokens: &Vec<Token>, pos: usize) -> (r: Result<(Expression, usize), ParseError>)
    requires
        pos <= tokens@.len(),
    ensures
        r matches Ok(t) ==> pos < t.1 <= tokens@.len(),
        r matches Err(e) ==> !(e matches ParseError::Tokenize(_)),
        expr_step_matches(r, spec_additive(tokens_view(tokens@), pos as int)),
    decreases tokens@.len() - pos, 4int,
{
    let ghost tsm = tokens_view(tokens@);
    let (mut expr, mut cur) = match parse_multiplicative(tokens, pos) {
        Ok(t) => t,
        Err(e) => {
            return Err(e);
        },
    };
    loop
        invariant
            pos < cur <= tokens@.len(),
            tsm == tokens_view(tokens@),
            spec_additive_rest(tsm, expr_model(expr), cur as int) == spec_additive(
                tsm,
                pos as int,
            ),
        decreases tokens@.len() - cur,
    {
        let op = if peek_is(tokens, cur, TokenType::Operator(Operator::Plus)) {
            BinaryOperator::Add
        } else if peek_is(tokens, cur, TokenType::Operator(Operator::Minus)) {
            BinaryOperator::Subtract
        } else {
            return Ok((expr, cur));
        };
        let (right, next) = match parse_multiplicative(tokens, cur + 1) {
            Ok(t) => t,
            Err(e) => {
                return Err(e);
            },
        };
        expr = Expression::BinaryOp { op, left: Box::new(expr), right: Box::new(right) };
        cur = next;
    }
}

fn parse_equality(tokens: &Vec<Token>, pos: usize) -> (r: Result<(Expression, usize), ParseError>)
    requires
        pos <= tokens@.len(),
    ensures
        r matches Ok(t) ==> pos < t.1 <= tokens@.len(),
        r matches Err(e) ==> !(e matches ParseError::Tokenize(_)),
        expr_step_matches(r, spec_equality(tokens_view(tokens@), pos as int)),
    decreases tokens@.len() - pos, 5int,
{
    let ghost tsm = tokens_view(tokens@);
    let (mut expr, mut cur) = match parse_additive(tokens, pos) {
        Ok(t) => t,
        Err(e) => {
            return Err(e);
        },
    };
    loop
        invariant
            pos < cur <= tokens@.len(),
            tsm == tokens_view(tokens@),
            spec_equality_rest(tsm, expr_model(expr), cur as int) == spec_equality(
                tsm,
                pos as int,
            ),
        decreases tokens@.len() - cur,
    {
        if !peek_is(tokens, cur, TokenType::Operator(Operator::Equals)) {
            return Ok((expr, cur));
        }
        let (right, next) = match parse_additive(tokens, cur + 1) {
            Ok(t) => t,
            Err(e) => {
                return Err(e);
            },
        };
        expr = Expression::BinaryOp {
            op: BinaryOperator::Equals,
            left: Box::new(expr),
            right: Box::new(right),
        };
        cur = next;
    }
}

fn parse_and(tokens: &Vec<Token>, pos: usize) -> (r: Result<(Expression, usize), ParseError>)
    requires
        pos <= tokens@.len(),
    ensures
        r matches Ok(t) ==> pos < t.1 <= tokens@.len(),
        r matches Err(e) ==> !(e matches ParseError::Tokenize(_)),
        expr_step_matches(r, spec_and(tokens_view(tokens@), pos as int)),
    decreases tokens@.len() - pos, 6int,
{
    let ghost tsm = tokens_view(tokens@);
    let (mut expr, mut cur) = match parse_equality(tokens, pos) {
        Ok(t) => t,
        Err(e) => {
            return Err(e);
        },
    };
    loop
        invariant
            pos < cur <= tokens@.len(),
            tsm == tokens_view(tokens@),
            spec_and_rest(tsm, expr_model(expr), cur as int) == spec_and(tsm, pos as int),
        decreases tokens@.len() - cur,
    {
        if !peek_is(tokens, cur, TokenType::Keyword(Keyword::And)) {
            return Ok((expr, cur));
        }
        let (right, next) = match parse_equality(tokens, cur + 1) {
            Ok(t) => t,
            Err(e) => {
                return Err(e);
            },
        };
        expr = Expression::LogicalOp {
            op: LogicalOperator::And,
            left: Box::new(expr),
            right: Box::new(right),
        };
        cur = next;
    }
}

fn parse_or(tokens: &Vec<Token>, pos: usize) -> (r: Result<(Expression, usize), ParseError>)
    requires
        pos <= tokens@.len(),
    ensures
        r matches Ok(t) ==> pos < t.1 <= tokens@.len(),
        r matches Err(e) ==> !(e matches ParseError::Tokenize(_)),
        expr_step_matches(r, spec_or(tokens_view(tokens@), pos as int)),
    decreases tokens@.len() - pos, 7int,
{
    let ghost tsm = tokens_view(tokens@);
    let (mut expr, mut cur) = match parse_and(tokens, pos) {
        Ok(t) => t,
        Err(e) => {
            return Err(e);
        },
    };
    loop
        invariant
            pos < cur <= tokens@.len(),
            tsm == tokens_view(tokens@),
            spec_or_rest(tsm, expr_model(expr), cur as int) == spec_or(tsm, pos as int),
        decreases tokens@.len() - cur,
    {
        if !peek_is(tokens, cur, TokenType::Keyword(Keyword::Or)) {
            return Ok((expr, cur));
        }
        let (right, next) = match parse_and(tokens, cur + 1) {
            Ok(t) => t,
            Err(e) => {
                return Err(e);
            },
        };
        expr = Expression::LogicalOp {
            op: LogicalOperator::Or,
            left: Box::new(expr),
            right: Box::new(right),
        };
        cur = next;
    }
}

fn parse_expression(tokens: &Vec<Token>, pos: usize) -> (r: Result<
    (Expression, usize),
    ParseError,
>)
    requires
        pos <= tokens@.len(),
    ensures
        r matches Ok(t) ==> pos < t.1 <= tokens@.len(),
        r matches Err(e) ==> !(e matches ParseError::Tokenize(_)),
        expr_step_matches(r, spec_expression(tokens_view(tokens@), pos as int)),
    decreases tokens@.len() - pos, 8int,
{
    parse_or(tokens, pos)
}

/// Brace-delimited statement list: consumes from the opening brace through
/// the closing one.
fn parse_block(tokens: &Vec<Token>, pos: usize) -> (r: Result<(Vec<Statement>, usize), ParseError>)
    requires
        pos <= tokens@.len(),
    ensures
        r matches Ok(t) ==> pos < t.1 <= tokens@.len(),
        r matches Err(e) ==> !(e matches ParseError::Tokenize(_)),
        block_step_matches(r, spec_block(tokens_view(tokens@), pos as int)),
    decreases tokens@.len() - pos, 10int,
{
    let ghost tsm = tokens_view(tokens@);
    let mut cur = match expect(tokens, pos, TokenType::Punctuation(Punctuation::LeftBrace)) {
        Ok(p) => p,
        Err(e) => {
            return Err(e);
        },
    };
    let mut body: Vec<Statement> = Vec::new();
    loop
        invariant
            pos < cur <= tokens@.len(),
            tsm == tokens_view(tokens@),
            spec_block_rest(tsm, stmts_model(body@), cur as int) == spec_block(tsm, pos as int),
        decreases tokens@.len() - cur,
    {
        proof {
            lemma_tsm(tokens@);
        }
        if cur >= tokens.len() {
            return Err(
                ParseError::UnexpectedEndOfInput {
                    expected: TokenType::Punctuation(Punctuation::RightBrace),
                },
            );
        }
        if tokens[cur].token_type == TokenType::Punctuation(Punctuation::RightBrace) {
            return Ok((body, cur + 1));
        }
        let (stmt, next) = match parse_statement(tokens, cur) {
            Ok(t) => t,
            Err(e) => {
                return Err(e);
            },
        };
        let ghost prev = body@;
        body.push(stmt);
        proof {
            lemma_stmts_model_push(prev, stmt);
        }
        cur = next;
    }
}

/// One statement: a `for` loop, an `if` chain, a bare block, or an
/// expression terminated by `;`.
fn parse_statement(tokens: &Vec<Token>, pos: usize) -> (r: Result<(Statement, usize), ParseError>)
    requires
        pos <= tokens@.len(),
    ensures
        r matches Ok(t) ==> pos < t.1 <= tokens@.len(),
        r matches Err(e) ==> !(e matches ParseError::Tokenize(_)),
        stmt_step_matches(r, spec_statement(tokens_view(tokens@), pos as int)),
    decreases tokens@.len() - pos, 11int,
{
    let ghost tsm = tokens_view(tokens@);
    proof {
        lemma_tsm(tokens@);
    }
    if pos >= tokens.len() {
        return Err(ParseError::UnexpectedEndOfInput { expected: TokenType::Identifier });
    }
    let token_type = tokens[pos].token_type;
    if token_type == TokenType::Keyword(Keyword::For) {
        let ident_pos = pos + 1;
        let after_ident = match expect(tokens, ident_pos, TokenType::Identifier) {
            Ok(p) => p,
            Err(e) => {
                return Err(e);
            },
        };
        let binding = tokens[ident_pos].value.clone();
        let after_in = match expect(tokens, after_ident, TokenType::Keyword(Keyword::In)) {
            Ok(p) => p,
            Err(e) => {
                return Err(e);
            },
        };
        let (iterable, after_iter) = match parse_expression(tokens, after_in) {
            Ok(t) => t,
            Err(e) => {
                return Err(e);
            },
        };
        let (body, next) = match parse_block(tokens, after_iter) {
            Ok(t) => t,
            Err(e) => {
                return Err(e);
            },
        };
        Ok((Statement::ForStatement { binding, iterable, body }, next))
    } else if token_type == TokenType::Keyword(Keyword::If) {
        let (condition, after_cond) = match parse_expression(tokens, pos + 1) {
            Ok(t) => t,
            Err(e) => {
                return Err(e);
            },
        };
        let (body, mut cur) = match parse_block(tokens, after_cond) {
            Ok(t) => t,
            Err(e) => {
                return Err(e);
            },
        };
        let mut branches: Vec<IfBranch> = Vec::new();
        let first_branch = IfBranch { condition, body };
        let ghost gb = first_branch;
        branches.push(first_branch);
        proof {
            lemma_branches_model_push(Seq::<IfBranch>::empty(), gb);
            assert(branches_model(branches@) =~= seq![branch_model(gb)]);
        }
        let mut else_body: Option<Vec<Statement>> = None;
        loop
            invariant
                pos < cur <= tokens@.len(),
                else_body is None,
                tsm == tokens_view(tokens@),
                spec_if_rest(tsm, branches_model(branches@), cur as int) == spec_statement(
                    tsm,
                    pos as int,
                ),
            decreases tokens@.len() - cur,
        {
            proof {
                lemma_tsm(tokens@);
            }
            if !peek_is(tokens, cur, TokenType::Keyword(Keyword::Else)) {
                return Ok((Statement::IfStatement { branches, else_body }, cur));
            }
            if peek_is(tokens, cur + 1, TokenType::Keyword(Keyword::If)) {
                let (condition, after_cond) = match parse_expression(tokens, cur + 2) {
                    Ok(t) => t,
                    Err(e) => {
                        return Err(e);
                    },
                };
                let (body, next) = match parse_block(tokens, after_cond) {
                    Ok(t) => t,
                    Err(e) => {
                        return Err(e);
                    },
                };
                let ghost prev = branches@;
                let next_branch = IfBranch { condition, body };
                let ghost gnext = next_branch;
                branches.push(next_branch);
                proof {
                    lemma_branches_model_push(prev, gnext);
                }
                cur = next;
            } else {
                let (body, next) = match parse_block(tokens, cur + 1) {
                    Ok(t) => t,
                    Err(e) => {
                        return Err(e);
                    },
                };
                else_body = Some(body);
                return Ok((Statement::IfStatement { branches, else_body }, next));
            }
        }
    } else if token_type == TokenType::Punctuation(Punctuation::LeftBrace) {
        let (body, next) = match parse_block(tokens, pos) {
            Ok(t) => t,
            Err(e) => {
                return Err(e);
            },
        };
        Ok((Statement::Block(body), next))
    } else {
        let (expr, after_expr) = match parse_expression(tokens, pos) {
            Ok(t) => t,
            Err(e) => {
                return Err(e);
            },
        };
        let next = match expect(
            tokens,
            after_expr,
            TokenType::Punctuation(Punctuation::Semicolon),
        ) {
            Ok(p) => p,
            Err(e) => {
                return Err(e);
            },
        };
        Ok((Statement::ExpressionStatement(expr), next))
    }
}

/// Zero or more statements until the end of the tokens.  Each statement
/// consumes at least one token, so a program never holds more statements
/// than its source held tokens.
fn parse_program(tokens: &Vec<Token>) -> (r: Result<Program, ParseError>)
    ensures
        r matches Ok(p) ==> p.statements@.len() <= tokens@.len(),
        r matches Ok(p) ==> (tokens@.len() > 0 ==> p.statements@.len() > 0),
        r matches Err(e) ==> !(e matches ParseError::Tokenize(_)),
        tokens@.len() == 0 ==> (r matches Ok(p) && p.statements@.len() == 0),
        parse_result_matches(r, spec_parse_tokens(tokens_view(tokens@))),
{
    let ghost tsm = tokens_view(tokens@);
    proof {
        lemma_tsm(tokens@);
    }
    let mut statements: Vec<Statement> = Vec::new();
    let mut cur: usize = 0;
    while cur < tokens.len()
        invariant
            cur <= tokens@.len(),
            statements@.len() <= cur,
            cur > 0 ==> statements@.len() > 0,
            tsm == tokens_view(tokens@),
            spec_program_rest(tsm, stmts_model(statements@), cur as int) == spec_parse_tokens(tsm),
        decreases tokens@.len() - cur,
    {
        proof {
            lemma_tsm(tokens@);
        }
        let (stmt, next) = match parse_statement(tokens, cur) {
            Ok(t) => t,
            Err(e) => {
                return Err(e);
            },
        };
        let ghost prev = statements@;
        statements.push(stmt);
        proof {
            lemma_stmts_model_push(prev, stmt);
        }
        cur = next;
    }
    Ok(Program { statements })
}

/// Parses source text into a [`Program`].
///
/// The tokenizer runs first; its failure is surfaced unchanged as
/// [`ParseError::Tokenize`], exactly when [`spec_tokenize`] rejects the
/// source.  An empty source (and any all-whitespace source) parses to a
/// program with zero statements; a parsed program never holds more
/// statements than the source held tokens.  Parsing never executes code
/// and returns no partial tree on failure.
pub fn parse(code: &str) -> (r: Result<Program, ParseError>)
    ensures
        spec_tokenize(code@) is Err <==> (r matches Err(e) && e matches ParseError::Tokenize(t)),
        r matches Err(ParseError::Tokenize(TokenizeError::UnrecognizedToken(text))) ==> text@
            == spec_tokenize(code@)->Err_0,
        (spec_tokenize(code@) matches Ok(ts) && ts.len() == 0) ==> (r matches Ok(p)
            && p.statements@.len() == 0),
        r matches Ok(p) ==> (spec_tokenize(code@) matches Ok(ts) && p.statements@.len() <= ts.len()
            && (ts.len() > 0 ==> p.statements@.len() > 0)),
        code@.len() == 0 ==> (r matches Ok(p) && p.statements@.len() == 0),
        parse_result_matches(r, spec_parse(code@)),
{
    let tokens = match tokenize(code) {
        Ok(t) => t,
        Err(TokenizeError::UnrecognizedToken(text)) => {
            return Err(ParseError::Tokenize(TokenizeError::UnrecognizedToken(text)));
        },
    };
    proof {
        assert(tokens_view(tokens@).len() == tokens@.len());
    }
    parse_program(&tokens)
}

} // verus!
