//! The evaluator: a tree walk over the special forms `car`, `cdr`, `quote`
//! and `cond`.

use crate::symbol::SymbolType;
use crate::value::{Value, ValueView};
use vstd::prelude::*;

verus! {

/// Why an evaluation failed.
#[derive(Clone, Copy, PartialEq, Eq, Debug, Structural)]
pub enum LispError {
    /// A `cond` ran out of clauses before a test was true.
    ConsNoMatchError,
    /// The value is no form that the evaluator knows, or an operand does
    /// not have the shape that its form asks for.
    ConsSyntaxError,
}

/// Which part of a pair a form takes.
#[derive(Clone, Copy, PartialEq, Eq, Debug, Structural)]
pub enum Part {
    Head,
    Tail,
}

/// The result of evaluating `v`.
///
/// Only a pair whose head is one of the symbols `Car`, `Cdr`, `Quote`,
/// `Cond` is evaluated; every other value, atoms included, is a
/// `ConsSyntaxError`. Only the first operand of `car`, `cdr` and `quote` is
/// looked at.
pub open spec fn eval_spec(v: ValueView) -> Result<ValueView, LispError>
    decreases v, 1int,
{
    match v {
        ValueView::Cons(h, operands) => match *h {
            ValueView::Symbol(SymbolType::Car) => function_spec(*operands, Part::Head),
            ValueView::Symbol(SymbolType::Cdr) => function_spec(*operands, Part::Tail),
            ValueView::Symbol(SymbolType::Cond) => cond_spec(*operands),
            ValueView::Symbol(SymbolType::Quote) => macro_spec(*operands),
            _ => Err(LispError::ConsSyntaxError),
        },
        _ => Err(LispError::ConsSyntaxError),
    }
}

/// `car` and `cdr`: the first operand is evaluated and must give a pair,
/// whose `part` is the result.
pub open spec fn function_spec(operands: ValueView, part: Part) -> Result<ValueView, LispError>
    decreases operands, 0int,
{
    match operands {
        ValueView::Cons(first, _) => match eval_spec(*first) {
            Ok(ValueView::Cons(h, t)) => match part {
                Part::Head => Ok(*h),
                Part::Tail => Ok(*t),
            },
            Ok(_) => Err(LispError::ConsSyntaxError),
            Err(e) => Err(e),
        },
        _ => Err(LispError::ConsSyntaxError),
    }
}

/// `quote`: the first operand, as it stands.
pub open spec fn macro_spec(operands: ValueView) -> Result<ValueView, LispError> {
    match operands {
        ValueView::Cons(first, _) => Ok(*first),
        _ => Err(LispError::ConsSyntaxError),
    }
}

/// `cond`: the clauses are tried from the left. A clause is a list of a
/// test and a result. A test that evaluates to `True` selects its clause,
/// whose result is evaluated and returned; one that evaluates to `Nil`
/// passes on to the next clause. A test that fails makes the `cond` fail in
/// the same way; a test that evaluates to anything else, a clause that is
/// no pair and a selected clause without a result are `ConsSyntaxError`.
/// When no clause is left the `cond` fails with `ConsNoMatchError`.
pub open spec fn cond_spec(clauses: ValueView) -> Result<ValueView, LispError>
    decreases clauses, 0int,
{
    match clauses {
        ValueView::Cons(clause, next) => match *clause {
            ValueView::Cons(test, after) => match eval_spec(*test) {
                Ok(ValueView::True) => match *after {
                    ValueView::Cons(result, _) => eval_spec(*result),
                    _ => Err(LispError::ConsSyntaxError),
                },
                Ok(ValueView::Nil) => cond_spec(*next),
                Ok(_) => Err(LispError::ConsSyntaxError),
                Err(e) => Err(e),
            },
            _ => Err(LispError::ConsSyntaxError),
        },
        _ => Err(LispError::ConsNoMatchError),
    }
}

/// Whether the outcome `r` of an evaluation is the outcome `expected`.
pub open spec fn agrees(r: Result<&Value, LispError>, expected: Result<ValueView, LispError>) -> bool {
    match r {
        Ok(v) => expected == Ok::<ValueView, LispError>(v@),
        Err(e) => expected == Err::<ValueView, LispError>(e),
    }
}

/// Evaluates `cons`. The result is a part of `cons` itself.
pub fn eval<'a>(cons: &'a Value) -> (r: Result<&'a Value, LispError>)
    ensures
        agrees(r, eval_spec(cons@)),
    decreases cons, 1int,
{
    proof {
        reveal_with_fuel(Value::model, 2);
    }
    match cons {
        Value::TCons(car, cdr) => match &**car {
            Value::TSymbol(SymbolType::Car) => do_function(&**cdr, Part::Head),
            Value::TSymbol(SymbolType::Cdr) => do_function(&**cdr, Part::Tail),
            Value::TSymbol(SymbolType::Cond) => do_cond(&**cdr),
            Value::TSymbol(SymbolType::Quote) => do_macro(&**cdr),
            _ => Err(LispError::ConsSyntaxError),
        },
        _ => Err(LispError::ConsSyntaxError),
    }
}

/// Evaluates the first of the operands `cons` and takes `part` of the pair
/// that it gives.
pub fn do_function<'a>(cons: &'a Value, part: Part) -> (r: Result<&'a Value, LispError>)
    ensures
        agrees(r, function_spec(cons@, part)),
    decreases cons, 0int,
{
    match cons {
        Value::TCons(first, _) => match eval(&**first) {
            Ok(Value::TCons(h, t)) => match part {
                Part::Head => Ok(&**h),
                Part::Tail => Ok(&**t),
            },
            Ok(_) => Err(LispError::ConsSyntaxError),
            Err(e) => Err(e),
        },
        _ => Err(LispError::ConsSyntaxError),
    }
}

/// Takes the first of the operands `cons`, unevaluated.
pub fn do_macro<'a>(cons: &'a Value) -> (r: Result<&'a Value, LispError>)
    ensures
        agrees(r, macro_spec(cons@)),
{
    match cons {
        Value::TCons(first, _) => Ok(&**first),
        _ => Err(LispError::ConsSyntaxError),
    }
}

/// Evaluates the clauses `cons` of a `cond` from the left.
pub fn do_cond<'a>(cons: &'a Value) -> (r: Result<&'a Value, LispError>)
    ensures
        agrees(r, cond_spec(cons@)),
    decreases cons, 0int,
{
    proof {
        reveal_with_fuel(Value::model, 3);
    }
    match cons {
        Value::TCons(clause, next) => match &**clause {
            Value::TCons(test, after) => match eval(&**test) {
                Ok(Value::TBoolT) => match &**after {
                    Value::TCons(result, _) => eval(&**result),
                    _ => Err(LispError::ConsSyntaxError),
                },
                Ok(Value::TNil) => do_cond(&**next),
                Ok(_) => Err(LispError::ConsSyntaxError),
                Err(e) => Err(e),
            },
            _ => Err(LispError::ConsSyntaxError),
        },
        _ => Err(LispError::ConsNoMatchError),
    }
}

} // verus!
