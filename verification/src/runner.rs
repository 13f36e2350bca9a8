//! Evaluation: walks a parsed [`Program`](crate::parser::Program) tree,
//! maintaining a scope chain of variable bindings, and collects the output
//! of `print` as an ordered, append-only channel.
//!
//! Evaluation is eager and synchronous.  Scopes obey a strict stack
//! discipline: one is pushed on entry to a `for` iteration, a taken `if`
//! branch or a bare block, and popped on exit, so every statement leaves
//! the scope chain exactly as it found it — that discipline is part of the
//! evaluator's contracts.
use vstd::prelude::*;
use vstd::string::StrSliceExecFns;
use vstd::string::StringExecFns;

use crate::checker::StaticError;
use crate::lexer::spec_tokenize;
use crate::lexer::str_eq;
use crate::parser::parse;
use crate::parser::parse_error_model;
use crate::parser::program_model;
use crate::parser::spec_parse;
use crate::parser::BinaryOperator;
use crate::parser::Expression;
use crate::parser::IfBranch;
use crate::parser::LogicalOperator;
use crate::parser::ParseError;
use crate::parser::Program;
use crate::parser::Statement;
use crate::KleinError;

verus! {

broadcast use vstd::std_specs::vec::group_vec_axioms;

/// A runtime value.  Produced and consumed only during evaluation.
/// `Range` is the inclusive integer interval consumed by `for` loops.
#[derive(Clone, Debug, PartialEq, Eq)]
pub enum Value {
    Number(i64),
    Str(String),
    Boolean(bool),
    Range { start: i64, end: i64 },
    Nil,
}

/// A runtime failure: a semantically invalid operation met while
/// evaluating a syntactically valid program.
///
/// `UndefinedVariableReference` is a read of a name bound in no live
/// scope; `UnrecognizedCallTarget` a call of a method or function outside
/// the built-in set; `TypeMismatch` an operand, condition or iterable of
/// the wrong kind; the last two arithmetic failures that the runtime
/// refuses rather than wraps.
#[derive(Clone, Debug, PartialEq, Eq)]
pub enum RuntimeError {
    UndefinedVariableReference(String),
    UnrecognizedCallTarget(String),
    TypeMismatch,
    DivisionByZero,
    ArithmeticOverflow,
}

/// The mathematical model of a [`Value`]: the same data with string
/// contents as character sequences.
pub enum ValueModel {
    Number(i64),
    Str(Seq<char>),
    Boolean(bool),
    Range { start: i64, end: i64 },
    Nil,
}

/// The model of a runtime value.
pub open spec fn value_model(v: Value) -> ValueModel {
    match v {
        Value::Number(n) => ValueModel::Number(n),
        Value::Str(s) => ValueModel::Str(s@),
        Value::Boolean(b) => ValueModel::Boolean(b),
        Value::Range { start, end } => ValueModel::Range { start, end },
        Value::Nil => ValueModel::Nil,
    }
}

/// Returns a value equal to the given one.
fn duplicate_value(v: &Value) -> (r: Value)
    ensures
        r == *v,
{
    match v {
        Value::Number(n) => Value::Number(*n),
        Value::Str(s) => Value::Str(s.clone()),
        Value::Boolean(b) => Value::Boolean(*b),
        Value::Range { start, end } => Value::Range { start: *start, end: *end },
        Value::Nil => Value::Nil,
    }
}

// ---------------------------------------------------------------------------
// Value equality and arithmetic
// ---------------------------------------------------------------------------
/// Equality as the language's `==` operator sees it: two values are equal
/// when they have the same kind and the same contents; values of
/// different kinds are unequal, never an error.
pub open spec fn value_eq(a: Value, b: Value) -> bool {
    match (a, b) {
        (Value::Number(x), Value::Number(y)) => x == y,
        (Value::Str(x), Value::Str(y)) => x@ == y@,
        (Value::Boolean(x), Value::Boolean(y)) => x == y,
        (Value::Range { start: xs, end: xe }, Value::Range { start: ys, end: ye }) => xs == ys
            && xe == ye,
        (Value::Nil, Value::Nil) => true,
        _ => false,
    }
}

fn values_equal(a: &Value, b: &Value) -> (r: bool)
    ensures
        r == value_eq(*a, *b),
{
    match (a, b) {
        (Value::Number(x), Value::Number(y)) => *x == *y,
        (Value::Str(x), Value::Str(y)) => *x == *y,
        (Value::Boolean(x), Value::Boolean(y)) => *x == *y,
        (Value::Range { start: xs, end: xe }, Value::Range { start: ys, end: ye }) => *xs == *ys
            && *xe == *ye,
        (Value::Nil, Value::Nil) => true,
        _ => false,
    }
}

pub open spec fn abs_int(x: int) -> int {
    if x < 0 {
        -x
    } else {
        x
    }
}

/// Truncating division, as the language's `/` computes it: the quotient of
/// the magnitudes, with the sign of the exact quotient.
pub open spec fn trunc_div(x: int, y: int) -> int {
    if (x < 0) == (y < 0) {
        abs_int(x) / abs_int(y)
    } else {
        -(abs_int(x) / abs_int(y))
    }
}

/// Truncating remainder, as `.mod(n)` computes it: the remainder of the
/// magnitudes, with the sign of the dividend.
pub open spec fn trunc_rem(x: int, y: int) -> int {
    if x < 0 {
        -(abs_int(x) % abs_int(y))
    } else {
        abs_int(x) % abs_int(y)
    }
}

pub open spec fn in_i64(x: int) -> bool {
    i64::MIN <= x <= i64::MAX
}

/// The magnitude of `x` as an unsigned number.
fn magnitude(x: i64) -> (m: u64)
    ensures
        m as int == abs_int(x as int),
{
    if x >= 0 {
        x as u64
    } else {
        ((-(x + 1)) as u64) + 1
    }
}

fn div_i64(x: i64, y: i64) -> (q: i64)
    requires
        y != 0,
        !(x == i64::MIN && y == -1),
    ensures
        q as int == trunc_div(x as int, y as int),
{
    let ax = magnitude(x);
    let ay = magnitude(y);
    let uq: u64 = ax / ay;
    proof {
        assert(ax as int / ay as int <= ax as int) by (nonlinear_arith)
            requires
                ay as int >= 1,
                ax as int >= 0,
        ;
    }
    if (x < 0) == (y < 0) {
        proof {
            if x == i64::MIN {
                assert(ay >= 2);
                assert(ax as int / ay as int <= ax as int / 2) by (nonlinear_arith)
                    requires
                        ay as int >= 2,
                        ax as int >= 0,
                ;
            }
            assert(uq <= i64::MAX as u64);
        }
        uq as i64
    } else {
        if uq >= 9223372036854775808u64 {
            proof {
                assert(uq == 9223372036854775808u64);
            }
            i64::MIN
        } else {
            -(uq as i64)
        }
    }
}

fn rem_i64(x: i64, y: i64) -> (m: i64)
    requires
        y != 0,
    ensures
        m as int == trunc_rem(x as int, y as int),
{
    let ax = magnitude(x);
    let ay = magnitude(y);
    let um: u64 = ax % ay;
    if x < 0 {
        -(um as i64)
    } else {
        um as i64
    }
}

/// What a binary operator returns, for every pair of operand values:
/// `==` compares any two values; the four arithmetic operators demand two
/// numbers and refuse an unrepresentable result, and `/` refuses a zero
/// divisor.
pub open spec fn spec_binary_result(op: BinaryOperator, a: Value, b: Value) -> Result<
    Value,
    RuntimeError,
> {
    if op == BinaryOperator::Equals {
        Ok(Value::Boolean(value_eq(a, b)))
    } else {
        match (a, b) {
            (Value::Number(x), Value::Number(y)) => match op {
                BinaryOperator::Add => if in_i64(x + y) {
                    Ok(Value::Number((x + y) as i64))
                } else {
                    Err(RuntimeError::ArithmeticOverflow)
                },
                BinaryOperator::Subtract => if in_i64(x - y) {
                    Ok(Value::Number((x - y) as i64))
                } else {
                    Err(RuntimeError::ArithmeticOverflow)
                },
                BinaryOperator::Multiply => if in_i64(x * y) {
                    Ok(Value::Number((x * y) as i64))
                } else {
                    Err(RuntimeError::ArithmeticOverflow)
                },
                BinaryOperator::Divide => if y == 0 {
                    Err(RuntimeError::DivisionByZero)
                } else if x == i64::MIN && y == -1 {
                    Err(RuntimeError::ArithmeticOverflow)
                } else {
                    Ok(Value::Number(trunc_div(x as int, y as int) as i64))
                },
                BinaryOperator::Equals => Ok(Value::Boolean(value_eq(a, b))),
            },
            _ => Err(RuntimeError::TypeMismatch),
        }
    }
}

proof fn lemma_trunc_div_in_range(x: int, y: int)
    requires
        in_i64(x),
        in_i64(y),
        y != 0,
        !(x == i64::MIN && y == -1),
    ensures
        in_i64(trunc_div(x, y)),
{
    assert(abs_int(x) / abs_int(y) <= abs_int(x)) by (nonlinear_arith)
        requires
            abs_int(y) >= 1,
            abs_int(x) >= 0,
    ;
    if (x < 0) == (y < 0) && x == i64::MIN {
        assert(abs_int(x) / abs_int(y) <= abs_int(x) / 2) by (nonlinear_arith)
            requires
                abs_int(y) >= 2,
                abs_int(x) >= 0,
        ;
    }
    assert(abs_int(x) / abs_int(y) >= 0) by (nonlinear_arith)
        requires
            abs_int(y) >= 1,
            abs_int(x) >= 0,
    ;
}

fn apply_binary(op: BinaryOperator, a: &Value, b: &Value) -> (r: Result<Value, RuntimeError>)
    ensures
        r == spec_binary_result(op, *a, *b),
{
    if op == BinaryOperator::Equals {
        return Ok(Value::Boolean(values_equal(a, b)));
    }
    match (a, b) {
        (Value::Number(x), Value::Number(y)) => match op {
            BinaryOperator::Add => {
                let s: i128 = (*x as i128) + (*y as i128);
                if s < (i64::MIN as i128) || s > (i64::MAX as i128) {
                    Err(RuntimeError::ArithmeticOverflow)
                } else {
                    Ok(Value::Number(s as i64))
                }
            },
            BinaryOperator::Subtract => {
                let s: i128 = (*x as i128) - (*y as i128);
                if s < (i64::MIN as i128) || s > (i64::MAX as i128) {
                    Err(RuntimeError::ArithmeticOverflow)
                } else {
                    Ok(Value::Number(s as i64))
                }
            },
            BinaryOperator::Multiply => {
                proof {
                    assert(i128::MIN <= (*x as int) * (*y as int) <= i128::MAX)
                        by (nonlinear_arith)
                        requires
                            i64::MIN <= *x as int <= i64::MAX,
                            i64::MIN <= *y as int <= i64::MAX,
                    ;
                }
                let s: i128 = (*x as i128) * (*y as i128);
                if s < (i64::MIN as i128) || s > (i64::MAX as i128) {
                    Err(RuntimeError::ArithmeticOverflow)
                } else {
                    Ok(Value::Number(s as i64))
                }
            },
            BinaryOperator::Divide => {
                if *y == 0 {
                    Err(RuntimeError::DivisionByZero)
                } else if *x == i64::MIN && *y == -1 {
                    Err(RuntimeError::ArithmeticOverflow)
                } else {
                    proof {
                        lemma_trunc_div_in_range(*x as int, *y as int);
                    }
                    Ok(Value::Number(div_i64(*x, *y)))
                }
            },
            BinaryOperator::Equals => Ok(Value::Boolean(values_equal(a, b))),
        },
        _ => Err(RuntimeError::TypeMismatch),
    }
}

// ---------------------------------------------------------------------------
// Built-in methods and functions
// ---------------------------------------------------------------------------
/// What `receiver.to(n)` returns: the inclusive range from a number to a
/// number, and a type mismatch on anything else.
pub open spec fn spec_to_result(recv: Value, args: Seq<Value>) -> Result<Value, RuntimeError> {
    match recv {
        Value::Number(x) => if args.len() == 1 {
            match args[0] {
                Value::Number(y) => Ok(Value::Range { start: x, end: y }),
                _ => Err(RuntimeError::TypeMismatch),
            }
        } else {
            Err(RuntimeError::TypeMismatch)
        },
        _ => Err(RuntimeError::TypeMismatch),
    }
}

/// What `receiver.mod(n)` returns: the truncating remainder of two
/// numbers, a zero divisor refused.
pub open spec fn spec_mod_result(recv: Value, args: Seq<Value>) -> Result<Value, RuntimeError> {
    match recv {
        Value::Number(x) => if args.len() == 1 {
            match args[0] {
                Value::Number(y) => if y == 0 {
                    Err(RuntimeError::DivisionByZero)
                } else {
                    Ok(Value::Number(trunc_rem(x as int, y as int) as i64))
                },
                _ => Err(RuntimeError::TypeMismatch),
            }
        } else {
            Err(RuntimeError::TypeMismatch)
        },
        _ => Err(RuntimeError::TypeMismatch),
    }
}

/// Dispatches a method call against the closed built-in set: numeric
/// `.to(n)` and `.mod(n)`.  Any other method name is refused.
fn call_method(recv: &Value, method: &String, args: &Vec<Value>) -> (r: Result<Value, RuntimeError>)
    ensures
        r == spec_method_result(*recv, *method, args@),
{
    proof {
        reveal_strlit("to");
        reveal_strlit("mod");
        assert("to"@.len() == 2);
        assert("mod"@.len() == 3);
        assert("to"@ != "mod"@);
    }
    if str_eq(method.as_str(), "to") {
        if args.len() == 1 {
            match (recv, &args[0]) {
                (Value::Number(x), Value::Number(y)) => Ok(Value::Range { start: *x, end: *y }),
                _ => Err(RuntimeError::TypeMismatch),
            }
        } else {
            Err(RuntimeError::TypeMismatch)
        }
    } else if str_eq(method.as_str(), "mod") {
        if args.len() == 1 {
            match (recv, &args[0]) {
                (Value::Number(x), Value::Number(y)) => {
                    if *y == 0 {
                        Err(RuntimeError::DivisionByZero)
                    } else {
                        Ok(Value::Number(rem_i64(*x, *y)))
                    }
                },
                _ => Err(RuntimeError::TypeMismatch),
            }
        } else {
            Err(RuntimeError::TypeMismatch)
        }
    } else {
        Err(RuntimeError::UnrecognizedCallTarget(method.clone()))
    }
}

// ---------------------------------------------------------------------------
// Textual representation of values
// ---------------------------------------------------------------------------
pub open spec fn digit_char_of(d: int) -> char {
    if d == 0 {
        '0'
    } else if d == 1 {
        '1'
    } else if d == 2 {
        '2'
    } else if d == 3 {
        '3'
    } else if d == 4 {
        '4'
    } else if d == 5 {
        '5'
    } else if d == 6 {
        '6'
    } else if d == 7 {
        '7'
    } else if d == 8 {
        '8'
    } else {
        '9'
    }
}

/// The decimal digits of a nonnegative number, most significant first.
pub open spec fn spec_nat_text(n: int) -> Seq<char>
    decreases n,
        when 0 <= n
{
    if n < 10 {
        seq![digit_char_of(n)]
    } else {
        spec_nat_text(n / 10).push(digit_char_of(n % 10))
    }
}

/// The decimal text of an integer: a `-` sign, then the digits of the
/// magnitude.
pub open spec fn spec_int_text(n: int) -> Seq<char> {
    if n < 0 {
        seq!['-'] + spec_nat_text(-n)
    } else {
        spec_nat_text(n)
    }
}

/// The textual representation `print` writes: a number as its decimal
/// digits, a string as its contents, a boolean as `true` or `false`, a
/// range as its endpoints around `..`, and nil as `nil`.
pub open spec fn spec_value_text(v: Value) -> Seq<char> {
    match v {
        Value::Number(n) => spec_int_text(n as int),
        Value::Str(s) => s@,
        Value::Boolean(b) => if b {
            "true"@
        } else {
            "false"@
        },
        Value::Range { start, end } => spec_int_text(start as int) + ".."@ + spec_int_text(
            end as int,
        ),
        Value::Nil => "nil"@,
    }
}

fn digit_str(d: u64) -> (s: &'static str)
    requires
        d < 10,
    ensures
        s@ == seq![digit_char_of(d as int)],
{
    if d == 0 {
        proof {
            reveal_strlit("0");
            assert("0"@ =~= seq!['0']);
        }
        "0"
    } else if d == 1 {
        proof {
            reveal_strlit("1");
            assert("1"@ =~= seq!['1']);
        }
        "1"
    } else if d == 2 {
        proof {
            reveal_strlit("2");
            assert("2"@ =~= seq!['2']);
        }
        "2"
    } else if d == 3 {
        proof {
            reveal_strlit("3");
            assert("3"@ =~= seq!['3']);
        }
        "3"
    } else if d == 4 {
        proof {
            reveal_strlit("4");
            assert("4"@ =~= seq!['4']);
        }
        "4"
    } else if d == 5 {
        proof {
            reveal_strlit("5");
            assert("5"@ =~= seq!['5']);
        }
        "5"
    } else if d == 6 {
        proof {
            reveal_strlit("6");
            assert("6"@ =~= seq!['6']);
        }
        "6"
    } else if d == 7 {
        proof {
            reveal_strlit("7");
            assert("7"@ =~= seq!['7']);
        }
        "7"
    } else if d == 8 {
        proof {
            reveal_strlit("8");
            assert("8"@ =~= seq!['8']);
        }
        "8"
    } else {
        proof {
            reveal_strlit("9");
            assert("9"@ =~= seq!['9']);
        }
        "9"
    }
}

fn u64_text(n: u64) -> (s: String)
    ensures
        s@ == spec_nat_text(n as int),
    decreases n,
{
    if n < 10 {
        digit_str(n).to_owned()
    } else {
        proof {
            assert(n / 10 < n) by (nonlinear_arith)
                requires
                    n >= 10,
            ;
        }
        let mut s = u64_text(n / 10);
        let d = digit_str(n % 10);
        s.append(d);
        proof {
            assert(s@ =~= spec_nat_text(n as int));
        }
        s
    }
}

fn i64_text(n: i64) -> (s: String)
    ensures
        s@ == spec_int_text(n as int),
{
    if n >= 0 {
        u64_text(n as u64)
    } else {
        let m = magnitude(n);
        let digits = u64_text(m);
        let mut s = "-".to_owned();
        s.append(digits.as_str());
        proof {
            reveal_strlit("-");
            assert("-"@ =~= seq!['-']);
            assert(s@ =~= seq!['-'] + spec_nat_text(-(n as int)));
        }
        s
    }
}

fn value_text(v: &Value) -> (s: String)
    ensures
        s@ == spec_value_text(*v),
{
    match v {
        Value::Number(n) => i64_text(*n),
        Value::Str(s0) => s0.clone(),
        Value::Boolean(b) => if *b {
            "true".to_owned()
        } else {
            "false".to_owned()
        },
        Value::Range { start, end } => {
            let mut s = i64_text(*start);
            s.append("..");
            let e = i64_text(*end);
            s.append(e.as_str());
            proof {
                assert(s@ =~= spec_int_text(*start as int) + ".."@ + spec_int_text(*end as int));
            }
            s
        },
        Value::Nil => "nil".to_owned(),
    }
}

// ---------------------------------------------------------------------------
// The specification evaluator
// ---------------------------------------------------------------------------
// These functions are the meaning of evaluation: a big-step semantics
// over the syntax tree, the scope chain and the output channel, written
// with the same scope shapes the executable evaluator uses (a fresh
// scope per `for` iteration holding the loop binding, a fresh empty
// scope per taken branch or bare block).  Termination is by the tree,
// then by what remains of the current repetition: branch index, loop
// index, statement index.
/// The output channel as character sequences.
pub open spec fn out_lines(out: Seq<String>) -> Seq<Seq<char>> {
    out.map_values(|s: String| s@)
}

/// What a method call returns: dispatch by name against the closed
/// built-in set.
pub open spec fn spec_method_result(recv: Value, method: String, args: Seq<Value>) -> Result<
    Value,
    RuntimeError,
> {
    if method@ == "to"@ {
        spec_to_result(recv, args)
    } else if method@ == "mod"@ {
        spec_mod_result(recv, args)
    } else {
        Err(RuntimeError::UnrecognizedCallTarget(method))
    }
}

/// Evaluates one expression: the resulting value and the output lines
/// after it, or the first runtime failure.  A variable reference reads
/// the innermost binding of its name and fails when the name is bound in
/// no scope; logical operators demand booleans and short-circuit;
/// `print` appends its argument's text to the output and returns nil.
pub open spec fn spec_eval_expr(
    env: Seq<Seq<(String, Value)>>,
    e: Expression,
    out: Seq<Seq<char>>,
) -> Result<(Value, Seq<Seq<char>>), RuntimeError>
    decreases e, 0int,
{
    match e {
        Expression::Literal(v) => Ok((v, out)),
        Expression::VariableReference(name) => match chain_lookup(env, name@) {
            Some(v) => Ok((v, out)),
            None => Err(RuntimeError::UndefinedVariableReference(name)),
        },
        Expression::BinaryOp { op, left, right } => match spec_eval_expr(env, *left, out) {
            Ok(t) => match spec_eval_expr(env, *right, t.1) {
                Ok(u) => match spec_binary_result(op, t.0, u.0) {
                    Ok(v) => Ok((v, u.1)),
                    Err(er) => Err(er),
                },
                Err(er) => Err(er),
            },
            Err(er) => Err(er),
        },
        Expression::LogicalOp { op, left, right } => match spec_eval_expr(env, *left, out) {
            Ok(t) => match t.0 {
                Value::Boolean(la) => {
                    let take_right = if op == LogicalOperator::And {
                        la
                    } else {
                        !la
                    };
                    if !take_right {
                        Ok((Value::Boolean(la), t.1))
                    } else {
                        match spec_eval_expr(env, *right, t.1) {
                            Ok(u) => match u.0 {
                                Value::Boolean(bb) => Ok((Value::Boolean(bb), u.1)),
                                _ => Err(RuntimeError::TypeMismatch),
                            },
                            Err(er) => Err(er),
                        }
                    }
                },
                _ => Err(RuntimeError::TypeMismatch),
            },
            Err(er) => Err(er),
        },
        Expression::MethodCall { receiver, method, args } => {
            proof {
                assert(decreases_to!(e => e->MethodCall_args));
                assert(decreases_to!(e->MethodCall_args => e->MethodCall_args@));
            }
            match spec_eval_expr(env, *receiver, out) {
                Ok(t) => match spec_eval_exprs_at(env, args@, 0, Seq::empty(), t.1) {
                    Ok(u) => match spec_method_result(t.0, method, u.0) {
                        Ok(v) => Ok((v, u.1)),
                        Err(er) => Err(er),
                    },
                    Err(er) => Err(er),
                },
                Err(er) => Err(er),
            }
        },
        Expression::FunctionCall { name, args } => {
            proof {
                assert(decreases_to!(e => e->FunctionCall_args));
                assert(decreases_to!(e->FunctionCall_args => e->FunctionCall_args@));
            }
            match spec_eval_exprs_at(env, args@, 0, Seq::empty(), out) {
                Ok(u) => if name@ == "print"@ {
                    if u.0.len() == 1 {
                        Ok((Value::Nil, u.1.push(spec_value_text(u.0[0]))))
                    } else {
                        Err(RuntimeError::TypeMismatch)
                    }
                } else {
                    Err(RuntimeError::UnrecognizedCallTarget(name))
                },
                Err(er) => Err(er),
            }
        },
    }
}

/// Evaluates the expressions of `es` from index `j` on, in order,
/// stopping at the first failure.
pub open spec fn spec_eval_exprs_at(
    env: Seq<Seq<(String, Value)>>,
    es: Seq<Expression>,
    j: int,
    acc: Seq<Value>,
    out: Seq<Seq<char>>,
) -> Result<(Seq<Value>, Seq<Seq<char>>), RuntimeError>
    decreases es, es.len() - j,
        when 0 <= j
{
    if j >= es.len() {
        Ok((acc, out))
    } else {
        match spec_eval_expr(env, es[j], out) {
            Ok(t) => spec_eval_exprs_at(env, es, j + 1, acc.push(t.0), t.1),
            Err(er) => Err(er),
        }
    }
}

/// Evaluates one statement: the output lines after it, or the first
/// runtime failure.  Statements leave the scope chain as they found it.
pub open spec fn spec_eval_stmt(
    env: Seq<Seq<(String, Value)>>,
    s: Statement,
    out: Seq<Seq<char>>,
) -> Result<Seq<Seq<char>>, RuntimeError>
    decreases s, 2int, 0int,
{
    match s {
        Statement::ExpressionStatement(e) => match spec_eval_expr(env, e, out) {
            Ok(t) => Ok(t.1),
            Err(er) => Err(er),
        },
        Statement::ForStatement { binding, iterable, body } => {
            proof {
                assert(decreases_to!(s => s->ForStatement_body));
                assert(decreases_to!(s->ForStatement_body => s->ForStatement_body@));
            }
            match spec_eval_expr(env, iterable, out) {
                Ok(t) => match t.0 {
                    Value::Range { start, end } => if start > end {
                        Ok(t.1)
                    } else {
                        spec_eval_for(s, env, start as int, end as int, t.1)
                    },
                    _ => Err(RuntimeError::TypeMismatch),
                },
                Err(er) => Err(er),
            }
        },
        Statement::IfStatement { branches, else_body } => {
            proof {
                assert(decreases_to!(s => s->IfStatement_branches));
            }
            spec_eval_if(s, env, 0, out)
        },
        Statement::Block(v) => {
            proof {
                assert(decreases_to!(s => s->Block_0));
                assert(decreases_to!(s->Block_0 => s->Block_0@));
            }
            spec_eval_stmts_at(env.push(Seq::empty()), v@, 0, out)
        },
    }
}

/// Evaluates the statements of `ss` from index `j` on, in order.
pub open spec fn spec_eval_stmts_at(
    env: Seq<Seq<(String, Value)>>,
    ss: Seq<Statement>,
    j: int,
    out: Seq<Seq<char>>,
) -> Result<Seq<Seq<char>>, RuntimeError>
    decreases ss, 0int, ss.len() - j,
        when 0 <= j
{
    if j >= ss.len() {
        Ok(out)
    } else {
        match spec_eval_stmt(env, ss[j], out) {
            Ok(o2) => spec_eval_stmts_at(env, ss, j + 1, o2),
            Err(er) => Err(er),
        }
    }
}

/// Evaluates an `if` statement from branch `k` on: conditions in order,
/// the body of the first true one in a fresh scope; the unconditional
/// trailing body, if present, when none holds; otherwise a no-op.
pub open spec fn spec_eval_if(
    s: Statement,
    env: Seq<Seq<(String, Value)>>,
    k: int,
    out: Seq<Seq<char>>,
) -> Result<Seq<Seq<char>>, RuntimeError>
    decreases s, 1int, s->IfStatement_branches@.len() - k,
        when 0 <= k && s is IfStatement
{
    let branches = s->IfStatement_branches@;
    if k >= branches.len() {
        match s->IfStatement_else_body {
            Some(v) => {
                proof {
                    assert(decreases_to!(s => s->IfStatement_else_body));
                    assert(decreases_to!(
                        s->IfStatement_else_body => s->IfStatement_else_body->Some_0
                    ));
                    assert(decreases_to!(
                        s->IfStatement_else_body->Some_0 => s->IfStatement_else_body->Some_0@
                    ));
                }
                spec_eval_stmts_at(env.push(Seq::empty()), v@, 0, out)
            },
            None => Ok(out),
        }
    } else {
        proof {
            assert(decreases_to!(s => s->IfStatement_branches));
            assert(decreases_to!(s->IfStatement_branches => s->IfStatement_branches@));
            assert(decreases_to!(s->IfStatement_branches@ => s->IfStatement_branches@[k]));
            assert(decreases_to!(
                s->IfStatement_branches@[k] => s->IfStatement_branches@[k].body
            ));
            assert(decreases_to!(
                s->IfStatement_branches@[k].body => s->IfStatement_branches@[k].body@
            ));
        }
        match spec_eval_expr(env, branches[k].condition, out) {
            Ok(t) => match t.0 {
                Value::Boolean(b) => if b {
                    spec_eval_stmts_at(env.push(Seq::empty()), branches[k].body@, 0, t.1)
                } else {
                    spec_eval_if(s, env, k + 1, t.1)
                },
                _ => Err(RuntimeError::TypeMismatch),
            },
            Err(er) => Err(er),
        }
    }
}

/// Evaluates a `for` statement's body once per integer in `[i, hi]`, in
/// ascending order, each iteration in a fresh scope binding the loop
/// variable to that integer.
pub open spec fn spec_eval_for(
    s: Statement,
    env: Seq<Seq<(String, Value)>>,
    i: int,
    hi: int,
    out: Seq<Seq<char>>,
) -> Result<Seq<Seq<char>>, RuntimeError>
    decreases s, 1int, hi - i,
        when i <= hi && s is ForStatement
{
    proof {
        assert(decreases_to!(s => s->ForStatement_body));
        assert(decreases_to!(s->ForStatement_body => s->ForStatement_body@));
    }
    let env2 = env.push(seq![(s->ForStatement_binding, Value::Number(i as i64))]);
    match spec_eval_stmts_at(env2, s->ForStatement_body@, 0, out) {
        Ok(o2) => if i == hi {
            Ok(o2)
        } else {
            spec_eval_for(s, env, i + 1, hi, o2)
        },
        Err(er) => Err(er),
    }
}

/// The meaning of running a program: its statements in order, in a
/// single fresh top-level scope, yielding the printed lines.
pub open spec fn spec_run_program(p: Program) -> Result<Seq<Seq<char>>, RuntimeError> {
    spec_eval_stmts_at(
        Seq::<Seq<(String, Value)>>::empty().push(Seq::empty()),
        p.statements@,
        0,
        Seq::empty(),
    )
}

// ---------------------------------------------------------------------------
// Relating executable evaluation to the specification evaluator
// ---------------------------------------------------------------------------
pub open spec fn eval_expr_matches(
    r: Result<Value, RuntimeError>,
    after: Seq<Seq<char>>,
    s: Result<(Value, Seq<Seq<char>>), RuntimeError>,
) -> bool {
    match r {
        Ok(v) => s == Ok::<(Value, Seq<Seq<char>>), RuntimeError>((v, after)),
        Err(e) => s == Err::<(Value, Seq<Seq<char>>), RuntimeError>(e),
    }
}

pub open spec fn eval_exprs_matches(
    r: Result<Vec<Value>, RuntimeError>,
    after: Seq<Seq<char>>,
    s: Result<(Seq<Value>, Seq<Seq<char>>), RuntimeError>,
) -> bool {
    match r {
        Ok(vs) => s == Ok::<(Seq<Value>, Seq<Seq<char>>), RuntimeError>((vs@, after)),
        Err(e) => s == Err::<(Seq<Value>, Seq<Seq<char>>), RuntimeError>(e),
    }
}

pub open spec fn eval_stmt_matches(
    r: Result<(), RuntimeError>,
    after: Seq<Seq<char>>,
    s: Result<Seq<Seq<char>>, RuntimeError>,
) -> bool {
    match r {
        Ok(u) => s == Ok::<Seq<Seq<char>>, RuntimeError>(after),
        Err(e) => s == Err::<Seq<Seq<char>>, RuntimeError>(e),
    }
}

proof fn lemma_out_lines_push(o: Seq<String>, s: String)
    ensures
        out_lines(o.push(s)) == out_lines(o).push(s@),
{
    assert(out_lines(o.push(s)) =~= out_lines(o).push(s@));
}

// ---------------------------------------------------------------------------
// The environment: a stack of scopes
// ---------------------------------------------------------------------------
/// The scope chain: a stack of scopes, each mapping variable names to
/// values, with names unique per scope.  Lookup walks from the innermost
/// scope outward; scopes never outlive their introducing construct.
pub(crate) struct Environment {
    pub(crate) scopes: Vec<Vec<(String, Value)>>,
}

/// The model of the scope chain: the stack of scopes as sequences,
/// innermost last.
pub open spec fn env_model(scopes: Seq<Vec<(String, Value)>>) -> Seq<Seq<(String, Value)>> {
    scopes.map_values(|sc: Vec<(String, Value)>| sc@)
}

/// Lookup within one scope: the latest binding of the name wins.
pub open spec fn scope_lookup(entries: Seq<(String, Value)>, name: Seq<char>) -> Option<Value>
    decreases entries.len(),
{
    if entries.len() == 0 {
        None
    } else if entries.last().0@ == name {
        Some(entries.last().1)
    } else {
        scope_lookup(entries.drop_last(), name)
    }
}

/// Lookup through the scope chain, innermost scope first; `None` when the
/// name is bound nowhere.
pub open spec fn chain_lookup(scopes: Seq<Seq<(String, Value)>>, name: Seq<char>) -> Option<Value>
    decreases scopes.len(),
{
    if scopes.len() == 0 {
        None
    } else {
        match scope_lookup(scopes.last(), name) {
            Some(v) => Some(v),
            None => chain_lookup(scopes.drop_last(), name),
        }
    }
}

impl Environment {
    pub(crate) open spec fn model(&self) -> Seq<Seq<(String, Value)>> {
        env_model(self.scopes@)
    }

    /// Resolves a name through the scope chain, innermost scope first.
    fn lookup(&self, name: &String) -> (r: Option<Value>)
        ensures
            r == chain_lookup(self.model(), name@),
    {
        let ghost m = self.model();
        proof {
            assert(m.subrange(0, m.len() as int) =~= m);
        }
        let mut i: usize = self.scopes.len();
        while i > 0
            invariant
                i <= self.scopes@.len(),
                m == self.model(),
                m.len() == self.scopes@.len(),
                chain_lookup(m, name@) == chain_lookup(m.subrange(0, i as int), name@),
            decreases i,
        {
            i -= 1;
            let scope = &self.scopes[i];
            let ghost entries = scope@;
            proof {
                assert(m[i as int] == entries);
                assert(entries.subrange(0, entries.len() as int) =~= entries);
            }
            let mut j: usize = scope.len();
            while j > 0
                invariant
                    j <= entries.len(),
                    i < m.len(),
                    m == self.model(),
                    m.len() == self.scopes@.len(),
                    entries == scope@,
                    entries == self.scopes@[i as int]@,
                    m[i as int] == entries,
                    scope_lookup(entries, name@) == scope_lookup(
                        entries.subrange(0, j as int),
                        name@,
                    ),
                    chain_lookup(m, name@) == chain_lookup(m.subrange(0, i as int + 1), name@),
                decreases j,
            {
                j -= 1;
                proof {
                    assert(entries.subrange(0, j as int + 1).drop_last() =~= entries.subrange(
                        0,
                        j as int,
                    ));
                    assert(entries.subrange(0, j as int + 1).last() == entries[j as int]);
                }
                if scope[j].0 == *name {
                    proof {
                        assert(entries[j as int].0@ == name@);
                        assert(scope_lookup(entries.subrange(0, j as int + 1), name@) == Some(
                            entries[j as int].1,
                        ));
                        assert(scope_lookup(entries, name@) == Some(entries[j as int].1));
                        assert(m.subrange(0, i as int + 1)[i as int] == m[i as int]);
                        assert(m.subrange(0, i as int + 1).last() == entries);
                        assert(chain_lookup(m.subrange(0, i as int + 1), name@) == Some(
                            entries[j as int].1,
                        ));
                    }
                    return Some(duplicate_value(&scope[j].1));
                }
            }
            proof {
                assert(scope_lookup(entries.subrange(0, 0), name@) is None);
                assert(m.subrange(0, i as int + 1).drop_last() =~= m.subrange(0, i as int));
                assert(m.subrange(0, i as int + 1)[i as int] == m[i as int]);
                assert(m.subrange(0, i as int + 1).last() == entries);
                assert(chain_lookup(m.subrange(0, i as int + 1), name@) == chain_lookup(
                    m.subrange(0, i as int),
                    name@,
                ));
            }
        }
        proof {
            assert(chain_lookup(m.subrange(0, 0), name@) is None);
        }
        None
    }

    /// Opens a fresh, empty innermost scope.
    fn push_scope(&mut self)
        ensures
            final(self).model() == old(self).model().push(Seq::<(String, Value)>::empty()),
    {
        self.scopes.push(Vec::new());
        proof {
            assert(final(self).model() =~= old(self).model().push(
                Seq::<(String, Value)>::empty(),
            ));
        }
    }

    /// Closes the innermost scope; its bindings end with it.
    fn pop_scope(&mut self)
        requires
            old(self).scopes@.len() > 0,
        ensures
            final(self).model() == old(self).model().drop_last(),
    {
        let _ = self.scopes.pop();
        proof {
            assert(final(self).model() =~= old(self).model().drop_last());
        }
    }

    /// Binds a name in the innermost scope.
    fn define(&mut self, name: String, value: Value)
        requires
            old(self).scopes@.len() > 0,
        ensures
            final(self).model() == old(self).model().update(
                old(self).model().len() - 1,
                old(self).model().last().push((name, value)),
            ),
    {
        let mut top = match self.scopes.pop() {
            Some(t) => t,
            None => {
                proof {
                    assert(false);
                }
                Vec::new()
            },
        };
        top.push((name, value));
        self.scopes.push(top);
        proof {
            assert(final(self).model() =~= old(self).model().update(
                old(self).model().len() - 1,
                old(self).model().last().push((name, value)),
            ));
        }
    }
}

// ---------------------------------------------------------------------------
// The tree walk
// ---------------------------------------------------------------------------
proof fn lemma_prefix_trans(a: Seq<String>, b: Seq<String>, c: Seq<String>)
    requires
        a.is_prefix_of(b),
        b.is_prefix_of(c),
    ensures
        a.is_prefix_of(c),
{
    assert(a =~= c.subrange(0, a.len() as int));
}

proof fn lemma_prefix_push(a: Seq<String>, b: Seq<String>, x: String)
    requires
        a.is_prefix_of(b),
    ensures
        a.is_prefix_of(b.push(x)),
{
    assert(a =~= b.push(x).subrange(0, a.len() as int));
}

/// Evaluates one expression against the scope chain.  The output channel
/// only ever grows: whatever was printed before the call is a prefix of
/// what stands printed after it.  A literal evaluates to its value; a
/// variable reference to the innermost binding of its name, or to
/// [`RuntimeError::UndefinedVariableReference`] naming it when it is bound
/// nowhere — never to a silent fallback.
fn eval_expression(env: &Environment, expr: &Expression, out: &mut Vec<String>) -> (r: Result<
    Value,
    RuntimeError,
>)
    ensures
        old(out)@.is_prefix_of(final(out)@),
        eval_expr_matches(
            r,
            out_lines(final(out)@),
            spec_eval_expr(env.model(), *expr, out_lines(old(out)@)),
        ),
    decreases expr,
{
    match expr {
        Expression::Literal(v) => {
            proof {
                assert(old(out)@.is_prefix_of(out@));
            }
            Ok(duplicate_value(v))
        },
        Expression::VariableReference(name) => {
            proof {
                assert(old(out)@.is_prefix_of(out@));
            }
            match env.lookup(name) {
                Some(v) => Ok(v),
                None => Err(RuntimeError::UndefinedVariableReference(name.clone())),
            }
        },
        Expression::BinaryOp { op, left, right } => {
            let a = match eval_expression(env, left, out) {
                Ok(v) => v,
                Err(e) => {
                    return Err(e);
                },
            };
            let b = match eval_expression(env, right, out) {
                Ok(v) => v,
                Err(e) => {
                    proof {
                        lemma_prefix_trans(old(out)@, out@, out@);
                    }
                    return Err(e);
                },
            };
            apply_binary(*op, &a, &b)
        },
        Expression::LogicalOp { op, left, right } => {
            let a = match eval_expression(env, left, out) {
                Ok(v) => v,
                Err(e) => {
                    return Err(e);
                },
            };
            let la = match a {
                Value::Boolean(b) => b,
                _ => {
                    return Err(RuntimeError::TypeMismatch);
                },
            };
            let take_right = match op {
                LogicalOperator::And => la,
                LogicalOperator::Or => !la,
            };
            if !take_right {
                return Ok(Value::Boolean(la));
            }
            let b = match eval_expression(env, right, out) {
                Ok(v) => v,
                Err(e) => {
                    return Err(e);
                },
            };
            match b {
                Value::Boolean(bb) => Ok(Value::Boolean(bb)),
                _ => Err(RuntimeError::TypeMismatch),
            }
        },
        Expression::MethodCall { receiver, method, args } => {
            let recv = match eval_expression(env, receiver, out) {
                Ok(v) => v,
                Err(e) => {
                    return Err(e);
                },
            };
            let ghost mid = out@;
            let argv = match eval_expressions(env, args, out) {
                Ok(v) => v,
                Err(e) => {
                    proof {
                        lemma_prefix_trans(old(out)@, mid, out@);
                    }
                    return Err(e);
                },
            };
            proof {
                lemma_prefix_trans(old(out)@, mid, out@);
            }
            call_method(&recv, method, &argv)
        },
        Expression::FunctionCall { name, args } => {
            let argv = match eval_expressions(env, args, out) {
                Ok(v) => v,
                Err(e) => {
                    return Err(e);
                },
            };
            if str_eq(name.as_str(), "print") {
                if argv.len() == 1 {
                    let line = value_text(&argv[0]);
                    proof {
                        lemma_prefix_push(old(out)@, out@, line);
                        lemma_out_lines_push(out@, line);
                    }
                    out.push(line);
                    Ok(Value::Nil)
                } else {
                    Err(RuntimeError::TypeMismatch)
                }
            } else {
                Err(RuntimeError::UnrecognizedCallTarget(name.clone()))
            }
        },
    }
}

/// Evaluates an expression list in order, stopping at the first failure.
fn eval_expressions(env: &Environment, exprs: &Vec<Expression>, out: &mut Vec<String>) -> (r:
    Result<Vec<Value>, RuntimeError>)
    ensures
        old(out)@.is_prefix_of(final(out)@),
        r matches Ok(vs) ==> vs@.len() == exprs@.len(),
        eval_exprs_matches(
            r,
            out_lines(final(out)@),
            spec_eval_exprs_at(
                env.model(),
                exprs@,
                0,
                Seq::empty(),
                out_lines(old(out)@),
            ),
        ),
    decreases exprs,
{
    let ghost em = env.model();
    let mut vals: Vec<Value> = Vec::new();
    let mut k: usize = 0;
    while k < exprs.len()
        invariant
            k <= exprs@.len(),
            vals@.len() == k,
            old(out)@.is_prefix_of(out@),
            em == env.model(),
            spec_eval_exprs_at(em, exprs@, k as int, vals@, out_lines(out@))
                == spec_eval_exprs_at(em, exprs@, 0, Seq::empty(), out_lines(old(out)@)),
        decreases exprs@.len() - k,
    {
        let ghost mid = out@;
        let v = match eval_expression(env, &exprs[k], out) {
            Ok(v) => v,
            Err(e) => {
                proof {
                    lemma_prefix_trans(old(out)@, mid, out@);
                }
                return Err(e);
            },
        };
        proof {
            lemma_prefix_trans(old(out)@, mid, out@);
        }
        vals.push(v);
        k += 1;
    }
    Ok(vals)
}

/// Evaluates a statement list in order, stopping at the first failure.
/// Leaves the scope chain exactly as it found it and only appends to the
/// output channel.
fn eval_statements(env: &mut Environment, stmts: &Vec<Statement>, out: &mut Vec<String>) -> (r:
    Result<(), RuntimeError>)
    ensures
        final(env).model() == old(env).model(),
        old(out)@.is_prefix_of(final(out)@),
        eval_stmt_matches(
            r,
            out_lines(final(out)@),
            spec_eval_stmts_at(old(env).model(), stmts@, 0, out_lines(old(out)@)),
        ),
    decreases stmts,
{
    let ghost em = env.model();
    let mut k: usize = 0;
    while k < stmts.len()
        invariant
            k <= stmts@.len(),
            em == old(env).model(),
            env.model() == em,
            old(out)@.is_prefix_of(out@),
            spec_eval_stmts_at(em, stmts@, k as int, out_lines(out@)) == spec_eval_stmts_at(
                em,
                stmts@,
                0,
                out_lines(old(out)@),
            ),
        decreases stmts@.len() - k,
    {
        let ghost mid = out@;
        match eval_statement(env, &stmts[k], out) {
            Ok(()) => {
                proof {
                    lemma_prefix_trans(old(out)@, mid, out@);
                }
            },
            Err(e) => {
                proof {
                    lemma_prefix_trans(old(out)@, mid, out@);
                }
                return Err(e);
            },
        }
        k += 1;
    }
    Ok(())
}

/// Evaluates the unconditional trailing body of an `if` statement, if it
/// has one, in a fresh scope.
fn eval_else_body(
    env: &mut Environment,
    else_body: &Option<Vec<Statement>>,
    out: &mut Vec<String>,
) -> (r: Result<(), RuntimeError>)
    ensures
        final(env).model() == old(env).model(),
        old(out)@.is_prefix_of(final(out)@),
        eval_stmt_matches(
            r,
            out_lines(final(out)@),
            (match *else_body {
                Some(v) => spec_eval_stmts_at(
                    old(env).model().push(Seq::empty()),
                    v@,
                    0,
                    out_lines(old(out)@),
                ),
                None => Ok(out_lines(old(out)@)),
            }),
        ),
    decreases else_body,
{
    match else_body {
        Some(body) => {
            env.push_scope();
            let res = eval_statements(env, body, out);
            proof {
                assert(env.model().len() == env.scopes@.len());
            }
            env.pop_scope();
            proof {
                assert(env.model() =~= old(env).model());
            }
            res
        },
        None => Ok(()),
    }
}

/// Evaluates one statement.  Every scope it pushes it also pops — on
/// success and on failure alike — so the scope chain after the call
/// models exactly what it modelled before.
fn eval_statement(env: &mut Environment, stmt: &Statement, out: &mut Vec<String>) -> (r: Result<
    (),
    RuntimeError,
>)
    ensures
        final(env).model() == old(env).model(),
        old(out)@.is_prefix_of(final(out)@),
        eval_stmt_matches(
            r,
            out_lines(final(out)@),
            spec_eval_stmt(old(env).model(), *stmt, out_lines(old(out)@)),
        ),
    decreases stmt,
{
    let ghost em = env.model();
    match stmt {
        Statement::ExpressionStatement(e) => {
            match eval_expression(env, e, out) {
                Ok(v) => Ok(()),
                Err(err) => Err(err),
            }
        },
        Statement::Block(body) => {
            env.push_scope();
            let ghost pushed = env.model();
            let res = eval_statements(env, body, out);
            proof {
                assert(env.model().len() == old(env).model().len() + 1);
                assert(env.model().len() == env.scopes@.len());
            }
            env.pop_scope();
            proof {
                assert(env.model() =~= old(env).model());
            }
            res
        },
        Statement::IfStatement { branches, else_body } => {
            let mut k: usize = 0;
            while k < branches.len()
                invariant
                    k <= branches@.len(),
                    *branches == stmt->IfStatement_branches,
                    *else_body == stmt->IfStatement_else_body,
                    stmt matches Statement::IfStatement { .. },
                    em == old(env).model(),
                    env.model() == old(env).model(),
                    old(out)@.is_prefix_of(out@),
                    spec_eval_if(*stmt, em, k as int, out_lines(out@)) == spec_eval_stmt(
                        em,
                        *stmt,
                        out_lines(old(out)@),
                    ),
                decreases branches@.len() - k,
            {
                let ghost mid = out@;
                let cond = match eval_expression(env, &branches[k].condition, out) {
                    Ok(v) => v,
                    Err(e) => {
                        proof {
                            lemma_prefix_trans(old(out)@, mid, out@);
                        }
                        return Err(e);
                    },
                };
                proof {
                    lemma_prefix_trans(old(out)@, mid, out@);
                }
                let taken = match cond {
                    Value::Boolean(b) => b,
                    _ => {
                        return Err(RuntimeError::TypeMismatch);
                    },
                };
                if taken {
                    let ghost mid2 = out@;
                    env.push_scope();
                    proof {
                        assert(*branches == stmt->IfStatement_branches);
                        assert(decreases_to!(*stmt => stmt->IfStatement_branches));
                        assert(decreases_to!(
                            stmt->IfStatement_branches => stmt->IfStatement_branches[k as int]
                        ));
                        assert(decreases_to!(
                            stmt->IfStatement_branches[k as int]
                                => stmt->IfStatement_branches[k as int].body
                        ));
                    }
                    let res = eval_statements(env, &branches[k].body, out);
                    proof {
                        assert(env.model().len() == env.scopes@.len());
                    }
                    env.pop_scope();
                    proof {
                        assert(env.model() =~= old(env).model());
                        lemma_prefix_trans(old(out)@, mid2, out@);
                    }
                    return res;
                }
                k += 1;
            }
            proof {
                assert(decreases_to!(*stmt => stmt->IfStatement_else_body));
            }
            eval_else_body(env, else_body, out)
        },
        Statement::ForStatement { binding, iterable, body } => {
            let range = match eval_expression(env, iterable, out) {
                Ok(v) => v,
                Err(e) => {
                    return Err(e);
                },
            };
            let (start, end) = match range {
                Value::Range { start, end } => (start, end),
                _ => {
                    return Err(RuntimeError::TypeMismatch);
                },
            };
            if start > end {
                return Ok(());
            }
            let mut i: i64 = start;
            loop
                invariant
                    start <= i <= end,
                    *body == stmt->ForStatement_body,
                    *binding == stmt->ForStatement_binding,
                    stmt matches Statement::ForStatement { .. },
                    em == old(env).model(),
                    env.model() == old(env).model(),
                    old(out)@.is_prefix_of(out@),
                    spec_eval_for(*stmt, em, i as int, end as int, out_lines(out@))
                        == spec_eval_stmt(em, *stmt, out_lines(old(out)@)),
                decreases end - i,
            {
                let ghost mid = out@;
                env.push_scope();
                env.define(binding.clone(), Value::Number(i));
                proof {
                    assert(env.model() =~~= em.push(
                        seq![(stmt->ForStatement_binding, Value::Number(i))],
                    ));
                }
                let res = eval_statements(env, body, out);
                proof {
                    assert(env.model().len() == env.scopes@.len());
                }
                env.pop_scope();
                proof {
                    assert(env.model() =~= old(env).model());
                    lemma_prefix_trans(old(out)@, mid, out@);
                }
                match res {
                    Ok(()) => {},
                    Err(e) => {
                        return Err(e);
                    },
                }
                if i == end {
                    return Ok(());
                }
                i += 1;
            }
        },
    }
}

/// Runs a whole program in a single fresh top-level scope and returns the
/// lines its `print` calls wrote, in program order.
fn run_program(program: &Program) -> (r: Result<Vec<String>, RuntimeError>)
    ensures
        program.statements@.len() == 0 ==> (r matches Ok(v) && v@.len() == 0),
        r matches Ok(v) ==> spec_run_program(*program) == Ok::<Seq<Seq<char>>, RuntimeError>(
            out_lines(v@),
        ),
        r matches Err(e) ==> spec_run_program(*program) == Err::<Seq<Seq<char>>, RuntimeError>(e),
{
    let ghost m0 = Seq::<Seq<(String, Value)>>::empty().push(Seq::empty());
    let mut env = Environment { scopes: Vec::new() };
    proof {
        assert(env.model() =~= Seq::<Seq<(String, Value)>>::empty());
    }
    env.push_scope();
    let mut out: Vec<String> = Vec::new();
    proof {
        assert(out_lines(out@) =~= Seq::<Seq<char>>::empty());
    }
    let mut k: usize = 0;
    while k < program.statements.len()
        invariant
            k <= program.statements@.len(),
            program.statements@.len() == 0 ==> out@.len() == 0,
            env.model() == m0,
            m0 == Seq::<Seq<(String, Value)>>::empty().push(Seq::empty()),
            spec_eval_stmts_at(m0, program.statements@, k as int, out_lines(out@))
                == spec_run_program(*program),
        decreases program.statements@.len() - k,
    {
        match eval_statement(&mut env, &program.statements[k], &mut out) {
            Ok(()) => {},
            Err(e) => {
                return Err(e);
            },
        }
        k += 1;
    }
    Ok(out)
}

/// Parses and runs source text, returning the lines its `print` calls
/// wrote, in program order.
///
/// The call fails with a static error exactly when [`spec_parse`]
/// rejects the source, and then carries the very error the specification
/// grammar assigns; runtime failures are tagged as such, so no error is
/// ever swallowed or re-tagged.  On success the returned lines are
/// exactly what [`spec_run_program`] assigns to a program whose model is
/// the parsed one, and a runtime failure is exactly the one that
/// evaluator assigns.  A lexical failure comes out exactly when
/// [`spec_tokenize`] rejects the source, and a source with no tokens —
/// the empty source among them — runs successfully and prints nothing.
pub fn run_with_output(code: &str) -> (r: Result<Vec<String>, KleinError>)
    ensures
        r matches Ok(v) ==> (exists|p: Program|
            spec_parse(code@) == Ok::<crate::parser::ProgramModel, crate::parser::ParseErrorModel>(
                #[trigger] program_model(p),
            ) && spec_run_program(p) == Ok::<Seq<Seq<char>>, RuntimeError>(out_lines(v@))),
        r matches Err(KleinError::Runtime(e)) ==> (exists|p: Program|
            spec_parse(code@) == Ok::<crate::parser::ProgramModel, crate::parser::ParseErrorModel>(
                #[trigger] program_model(p),
            ) && spec_run_program(p) == Err::<Seq<Seq<char>>, RuntimeError>(e)),
        spec_parse(code@) matches Err(em) ==> (r matches Err(
            KleinError::Static(StaticError::Parse(e)),
        ) && parse_error_model(e) == em),
        r matches Err(KleinError::Static(se)) ==> (se matches StaticError::Parse(e)
            && spec_parse(code@) matches Err(em) && parse_error_model(e) == em),
        spec_tokenize(code@) is Err ==> (r matches Err(
            KleinError::Static(
                StaticError::Parse(
                    ParseError::Tokenize(crate::lexer::TokenizeError::UnrecognizedToken(t)),
                ),
            ),
        ) && t@ == spec_tokenize(code@)->Err_0),
        (spec_tokenize(code@) matches Ok(ts) && ts.len() == 0) ==> (r matches Ok(v) && v@.len()
            == 0),
        code@.len() == 0 ==> (r matches Ok(v) && v@.len() == 0),
{
    let program = match parse(code) {
        Ok(p) => p,
        Err(e) => {
            return Err(KleinError::Static(StaticError::Parse(e)));
        },
    };
    proof {
        assert(spec_parse(code@) == Ok::<crate::parser::ProgramModel, crate::parser::ParseErrorModel>(
            program_model(program),
        ));
    }
    match run_program(&program) {
        Ok(v) => Ok(v),
        Err(e) => Err(KleinError::Runtime(e)),
    }
}

/// Parses and runs source text for its effects alone.
///
/// The error taxonomy of [`run_with_output`] holds here unchanged; the
/// printed lines are discarded.
pub fn run(code: &str) -> (r: Result<(), KleinError>)
    ensures
        r is Ok ==> (exists|p: Program|
            spec_parse(code@) == Ok::<crate::parser::ProgramModel, crate::parser::ParseErrorModel>(
                #[trigger] program_model(p),
            ) && spec_run_program(p) is Ok),
        r matches Err(KleinError::Runtime(e)) ==> (exists|p: Program|
            spec_parse(code@) == Ok::<crate::parser::ProgramModel, crate::parser::ParseErrorModel>(
                #[trigger] program_model(p),
            ) && spec_run_program(p) == Err::<Seq<Seq<char>>, RuntimeError>(e)),
        spec_parse(code@) matches Err(em) ==> (r matches Err(
            KleinError::Static(StaticError::Parse(e)),
        ) && parse_error_model(e) == em),
        r matches Err(KleinError::Static(se)) ==> (se matches StaticError::Parse(e)
            && spec_parse(code@) matches Err(em) && parse_error_model(e) == em),
        spec_tokenize(code@) is Err ==> (r matches Err(
            KleinError::Static(
                StaticError::Parse(
                    ParseError::Tokenize(crate::lexer::TokenizeError::UnrecognizedToken(t)),
                ),
            ),
        ) && t@ == spec_tokenize(code@)->Err_0),
        (spec_tokenize(code@) matches Ok(ts) && ts.len() == 0) ==> r is Ok,
        code@.len() == 0 ==> r is Ok,
{
    match run_with_output(code) {
        Ok(_) => Ok(()),
        Err(e) => Err(e),
    }
}

} // verus!
