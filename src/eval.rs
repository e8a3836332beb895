//! Expression trees and their evaluation.
use vstd::prelude::*;

use crate::quantity::{
    value_mul, value_plus, value_result_model, EvalError, EvalErrorModel, Value, ValueModel,
};

verus! {

/// A parsed expression: a literal, or a sum or product of sub-expressions,
/// read left to right.
#[derive(Debug, PartialEq, Eq)]
pub enum Expr {
    Value(Value),
    Sum(Vec<Expr>),
    Product(Vec<Expr>),
}

/// What an expression stands for, with magnitudes as natural numbers.
pub enum ExprModel {
    Value(ValueModel),
    Sum(Seq<ExprModel>),
    Product(Seq<ExprModel>),
}

pub open spec fn expr_model(e: Expr) -> ExprModel
    decreases e,
{
    match e {
        Expr::Value(v) => ExprModel::Value(v@),
        Expr::Sum(es) => ExprModel::Sum(
            Seq::new(
                es.len() as nat,
                |i: int|
                    if 0 <= i < es.len() {
                        expr_model(es[i])
                    } else {
                        ExprModel::Sum(Seq::empty())
                    },
            ),
        ),
        Expr::Product(es) => ExprModel::Product(
            Seq::new(
                es.len() as nat,
                |i: int|
                    if 0 <= i < es.len() {
                        expr_model(es[i])
                    } else {
                        ExprModel::Sum(Seq::empty())
                    },
            ),
        ),
    }
}

pub open spec fn exprs_model(es: Seq<Expr>) -> Seq<ExprModel> {
    es.map_values(|e: Expr| expr_model(e))
}

impl View for Expr {
    type V = ExprModel;

    open spec fn view(&self) -> ExprModel {
        expr_model(*self)
    }
}

/// The value of an expression: a literal is itself; a sum or a product
/// evaluates its operands left to right and folds them with unit-checked
/// addition or multiplication. The first error met is the result.
pub open spec fn eval_model(e: ExprModel) -> Result<ValueModel, EvalErrorModel>
    decreases e, 0nat,
{
    match e {
        ExprModel::Value(v) => Ok(v),
        ExprModel::Sum(es) => fold_model(es, false, es.len()),
        ExprModel::Product(es) => fold_model(es, true, es.len()),
    }
}

/// The left fold of the first `n` operands of `es`.
pub open spec fn fold_model(es: Seq<ExprModel>, multiply: bool, n: nat) -> Result<
    ValueModel,
    EvalErrorModel,
>
    decreases es, n,
{
    if n == 0 || n > es.len() {
        Err(EvalErrorModel::NoOperands)
    } else if n == 1 {
        eval_model(es[0])
    } else {
        match fold_model(es, multiply, (n - 1) as nat) {
            Err(x) => Err(x),
            Ok(acc) => match eval_model(es[n - 1]) {
                Err(x) => Err(x),
                Ok(v) => if multiply {
                    value_mul(acc, v)
                } else {
                    value_plus(acc, v)
                },
            },
        }
    }
}

/// A sum or a product whose operands all evaluate, and no two of them to
/// values with the same unit, fails with a unit mismatch naming the units of
/// its first two operands.
pub proof fn law_distinct_units_mismatch(es: Seq<ExprModel>, multiply: bool)
    requires
        es.len() >= 2,
        forall|i: int| 0 <= i < es.len() ==> #[trigger] eval_model(es[i]) is Ok,
        forall|i: int, j: int|
            0 <= i < j < es.len() ==> (#[trigger] eval_model(es[i]))->Ok_0.unit != (
            #[trigger] eval_model(es[j]))->Ok_0.unit,
    ensures
        eval_model(
            if multiply {
                ExprModel::Product(es)
            } else {
                ExprModel::Sum(es)
            },
        ) == Err::<ValueModel, EvalErrorModel>(
            EvalErrorModel::UnitMismatch(
                eval_model(es[0])->Ok_0.unit,
                eval_model(es[1])->Ok_0.unit,
            ),
        ),
{
    assert(eval_model(es[0]) is Ok);
    assert(eval_model(es[1]) is Ok);
    assert(fold_model(es, multiply, 1) == eval_model(es[0]));
    assert(fold_model(es, multiply, 2) is Err);
    lemma_fold_error_persists(es, multiply, 2, es.len());
}

/// Evaluates an expression tree to a value.
pub fn eval(expr: Expr) -> (r: Result<Value, EvalError>)
    ensures
        value_result_model(r) == eval_model(expr@),
    decreases expr,
{
    let ghost e = expr;
    match expr {
        Expr::Product(v) => {
            proof {
                assert(exprs_model(v@) =~= expr_model(e)->Product_0);
            }
            fodl(v, true)
        },
        Expr::Sum(v) => {
            proof {
                assert(exprs_model(v@) =~= expr_model(e)->Sum_0);
            }
            fodl(v, false)
        },
        Expr::Value(v) => Ok(v),
    }
}

/// Once a prefix of the operands fails, every longer prefix fails the same way.
proof fn lemma_fold_error_persists(es: Seq<ExprModel>, multiply: bool, k: nat, m: nat)
    requires
        1 <= k <= m <= es.len(),
        fold_model(es, multiply, k) is Err,
    ensures
        fold_model(es, multiply, m) == fold_model(es, multiply, k),
    decreases m - k,
{
    if m > k {
        lemma_fold_error_persists(es, multiply, k, (m - 1) as nat);
    }
}

/// Evaluates the operands left to right and folds them with `mul` when
/// `multiply` holds, else with `plus`.
pub fn fodl(exprs: Vec<Expr>, multiply: bool) -> (r: Result<Value, EvalError>)
    ensures
        value_result_model(r) == fold_model(exprs_model(exprs@), multiply, exprs@.len()),
    decreases exprs,
{
    let ghost orig = exprs@;
    let ghost ms = exprs_model(exprs@);
    let n = exprs.len();
    if n == 0 {
        return Err(EvalError::NoOperands);
    }
    let mut rest = exprs;
    let first = rest.remove(0);
    proof {
        assert(decreases_to!(exprs => exprs[0]));
    }
    let mut acc = match eval(first) {
        Ok(v) => v,
        Err(x) => {
            proof {
                lemma_fold_error_persists(ms, multiply, 1, n as nat);
            }
            return Err(x);
        },
    };
    let mut k: usize = 1;
    while k < n
        invariant
            1 <= k <= n,
            n == orig.len(),
            orig == exprs@,
            ms == exprs_model(orig),
            rest@ == orig.subrange(k as int, n as int),
            acc@ == fold_model(ms, multiply, k as nat)->Ok_0,
            fold_model(ms, multiply, k as nat) is Ok,
            forall|j: int| 0 <= j < n ==> decreases_to!(exprs => #[trigger] orig[j]),
        decreases n - k,
    {
        let next = rest.remove(0);
        proof {
            assert(next == orig[k as int]);
            assert(ms[k as int] == expr_model(next));
            assert((k + 1) as nat - 1 == k as nat);
        }
        let v = match eval(next) {
            Ok(v) => v,
            Err(x) => {
                proof {
                    assert(fold_model(ms, multiply, k as nat + 1) == Err::<ValueModel, EvalErrorModel>(
                        x@,
                    ));
                    lemma_fold_error_persists(ms, multiply, k as nat + 1, n as nat);
                }
                return Err(x);
            },
        };
        let res = if multiply {
            acc.mul(v)
        } else {
            acc.plus(v)
        };
        match res {
            Ok(a) => {
                acc = a;
            },
            Err(x) => {
                proof {
                    assert(fold_model(ms, multiply, k as nat + 1) == Err::<ValueModel, EvalErrorModel>(
                        x@,
                    ));
                    lemma_fold_error_persists(ms, multiply, k as nat + 1, n as nat);
                }
                return Err(x);
            },
        }
        proof {
            assert(rest@ =~= orig.subrange(k as int + 1, n as int));
        }
        k = k + 1;
    }
    Ok(acc)
}

} // verus!
