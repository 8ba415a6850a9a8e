//! Evaluation of expressions.

use vstd::prelude::*;

use crate::cli::parsers::{expr_view, exprs_view, lemma_exprs_view, Expr, ExprModel, RawValueModel, Value as RawValue};
use crate::cli::{lemma_values_view, values_view, Env, TypeModel, Value, ValueModel};
use crate::feature::Feature;

verus! {

/// The value of an expression in an environment, or `None` where a variable
/// in it is unbound.  A variable has the value it is bound to; a vector, set
/// or tuple has the values of its members, in order.
pub open spec fn eval_model(e: ExprModel, env: Map<Seq<char>, (TypeModel, ValueModel)>) -> Option<ValueModel>
    decreases e, 0nat,
{
    match e {
        ExprModel::Var(id) => if env.contains_key(id) {
            Some(env[id].1)
        } else {
            None
        },
        ExprModel::Value(v) => match v {
            RawValueModel::Feature(s) => Some(ValueModel::Feature(s)),
            RawValueModel::Usize(x) => Some(ValueModel::Usize(x)),
            RawValueModel::Vec(es) => match eval_list(es, es.len(), env) {
                Some(vs) => Some(ValueModel::Vec(vs)),
                None => None,
            },
            RawValueModel::SetOf(es) => match eval_list(es, es.len(), env) {
                Some(vs) => Some(ValueModel::SetOf(vs)),
                None => None,
            },
            RawValueModel::Tuple(es) => match eval_list(es, es.len(), env) {
                Some(vs) => Some(ValueModel::Tuple(vs)),
                None => None,
            },
        },
    }
}

/// The values of the first `n` expressions of `es`, or `None` where one of
/// them has none.
pub open spec fn eval_list(es: Seq<ExprModel>, n: nat, env: Map<Seq<char>, (TypeModel, ValueModel)>) -> Option<
    Seq<ValueModel>,
>
    decreases es, n,
{
    if n == 0 || n > es.len() {
        Some(Seq::empty())
    } else {
        match eval_list(es, (n - 1) as nat, env) {
            None => None,
            Some(vs) => match eval_model(es[n - 1], env) {
                None => None,
                Some(v) => Some(vs.push(v)),
            },
        }
    }
}

/// The values of a vector of expressions.
fn eval_exprs(exprs: &Vec<Expr>, map: &Env) -> (r: Result<Vec<Value>, ()>)
    ensures
        match r {
            Ok(vs) => eval_list(exprs_view(exprs@), exprs@.len(), map@) == Some(values_view(vs@)),
            Err(_) => eval_list(exprs_view(exprs@), exprs@.len(), map@) is None,
        },
    decreases exprs@, 0nat,
{
    proof {
        lemma_exprs_view(exprs@);
    }
    let ghost es = exprs_view(exprs@);
    let mut out: Vec<Value> = Vec::new();
    let mut i: usize = 0;
    while i < exprs.len()
        invariant
            i <= exprs.len(),
            es == exprs_view(exprs@),
            es.len() == exprs.len(),
            forall|j: int| 0 <= j < exprs.len() ==> #[trigger] es[j] == expr_view(exprs@[j]),
            eval_list(es, i as nat, map@) == Some(values_view(out@)),
        decreases exprs.len() - i,
    {
        proof {
            assert(decreases_to!(exprs@ => exprs@[i as int]));
        }
        match eval_ref(&exprs[i], map) {
            Ok(v) => {
                proof {
                    lemma_values_view(out@);
                    lemma_values_view(out@.push(v));
                    assert(values_view(out@.push(v)) =~= values_view(out@).push(v@));
                }
                out.push(v);
            },
            Err(_) => {
                proof {
                    let k = (i + 1) as nat;
                    assert(eval_list(es, k, map@) is None);
                    lemma_eval_list_none(es, k, es.len(), map@);
                }
                return Err(());
            },
        }
        i = i + 1;
    }
    Ok(out)
}

/// Once the values of a prefix are undefined, so are those of every longer
/// prefix.
proof fn lemma_eval_list_none(es: Seq<ExprModel>, k: nat, n: nat, env: Map<Seq<char>, (TypeModel, ValueModel)>)
    requires
        k <= n <= es.len(),
        eval_list(es, k, env) is None,
    ensures
        eval_list(es, n, env) is None,
    decreases n - k,
{
    if k < n {
        lemma_eval_list_none(es, (k + 1) as nat, n, env);
    }
}

/// The value of a parsed value.
fn eval_value(val: &RawValue, map: &Env) -> (r: Result<Value, ()>)
    ensures
        match r {
            Ok(v) => eval_model(ExprModel::Value(val@), map@) == Some(v@),
            Err(_) => eval_model(ExprModel::Value(val@), map@) is None,
        },
    decreases val, 0nat,
{
    match val {
        RawValue::Feature(feature) => {
            let f = Feature::new(feature.clone());
            let r = Value::Feature(f);
            assert(r@ == ValueModel::Feature(feature@));
            Ok(r)
        },
        RawValue::Usize(x) => Ok(Value::Usize(*x)),
        RawValue::Vec(exprs) => {
            proof {
                assert(decreases_to!(*val => exprs@));
                assert(val@ == RawValueModel::Vec(exprs_view(exprs@)));
                lemma_exprs_view(exprs@);
            }
            match eval_exprs(exprs, map) {
                Ok(vs) => {
                    let r = Value::Vec(vs);
                    assert(r@ == ValueModel::Vec(values_view(vs@)));
                    Ok(r)
                },
                Err(_) => Err(()),
            }
        },
        RawValue::SetOf(exprs) => {
            proof {
                assert(decreases_to!(*val => exprs@));
                assert(val@ == RawValueModel::SetOf(exprs_view(exprs@)));
                lemma_exprs_view(exprs@);
            }
            match eval_exprs(exprs, map) {
                Ok(vs) => {
                    let r = Value::SetOf(vs);
                    assert(r@ == ValueModel::SetOf(values_view(vs@)));
                    Ok(r)
                },
                Err(_) => Err(()),
            }
        },
        RawValue::Tuple(exprs) => {
            proof {
                assert(decreases_to!(*val => exprs@));
                assert(val@ == RawValueModel::Tuple(exprs_view(exprs@)));
                lemma_exprs_view(exprs@);
            }
            match eval_exprs(exprs, map) {
                Ok(vs) => {
                    let r = Value::Tuple(vs);
                    assert(r@ == ValueModel::Tuple(values_view(vs@)));
                    Ok(r)
                },
                Err(_) => Err(()),
            }
        },
    }
}

/// The value of an expression.
fn eval_ref(expr: &Expr, map: &Env) -> (r: Result<Value, ()>)
    ensures
        match r {
            Ok(v) => eval_model(expr@, map@) == Some(v@),
            Err(_) => eval_model(expr@, map@) is None,
        },
    decreases expr, 1nat,
{
    match expr {
        Expr::Value(val) => eval_value(val, map),
        Expr::Var(var) => match map.get(var) {
            Some((_, val)) => Ok(val.dup()),
            None => Err(()),
        },
    }
}

/// Evaluation: the value of the expression, or `Err` where a variable in it
/// is unbound.
///
/// See [`eval_model`].
pub fn eval(expr: Expr, map: &Env) -> (r: Result<Value, ()>)
    ensures
        match r {
            Ok(v) => eval_model(expr@, map@) == Some(v@),
            Err(_) => eval_model(expr@, map@) is None,
        },
{
    eval_ref(&expr, map)
}

} // verus!
