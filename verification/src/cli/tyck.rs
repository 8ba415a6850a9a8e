//! Type checking of expressions.

use vstd::prelude::*;

use crate::cli::parsers::{expr_view, exprs_view, lemma_exprs_view, Expr, ExprModel, RawValueModel, Value as RawValue};
use crate::cli::{
    lemma_types_view, lexical_item_token_type, lexical_item_token_type_model, transferred_so_type,
    transferred_so_type_model, type_view, types_view, Env, Type, TypeModel, ValueModel,
};

verus! {

/// Whether `id` is bound to a value of type `t`.
pub open spec fn var_has_type(env: Map<Seq<char>, (TypeModel, ValueModel)>, id: Seq<char>, t: TypeModel) -> bool {
    env.contains_key(id) && env[id].0 == t
}

/// The rank of a type for the order in which the checks recurse: the type
/// of syntactic objects is checked through the other types.
pub open spec fn so_rank(t: TypeModel) -> nat {
    if t is SO {
        1
    } else {
        0
    }
}

/// Whether the expression has the type in the environment.
///
/// A variable has the type that it was bound with.  A feature value has type
/// `F`, a number `usize`; a vector value has type `[T]` and a set value type
/// `{T}` when each member has type `T`; a tuple value has type
/// `<T1, ..., Tn>` when it has `n` members, the `i`-th of type `Ti`.  A
/// syntactic object is a lexical item token, a set of syntactic objects, or
/// a transferred object `<SO, [F], {F}>`.
pub open spec fn tyck_model(t: TypeModel, e: ExprModel, env: Map<Seq<char>, (TypeModel, ValueModel)>) -> bool
    decreases e, so_rank(t),
{
    match t {
        TypeModel::SO => tyck_model(lexical_item_token_type_model(), e, env) || tyck_model(
            TypeModel::SetOf(Box::new(TypeModel::SO)),
            e,
            env,
        ) || tyck_model(transferred_so_type_model(), e, env) || (e is Var && var_has_type(
            env,
            e->Var_0,
            TypeModel::SO,
        )),
        TypeModel::Feature => match e {
            ExprModel::Var(id) => var_has_type(env, id, t),
            ExprModel::Value(RawValueModel::Feature(_)) => true,
            _ => false,
        },
        TypeModel::Usize => match e {
            ExprModel::Var(id) => var_has_type(env, id, t),
            ExprModel::Value(RawValueModel::Usize(_)) => true,
            _ => false,
        },
        TypeModel::Vec(u) => match e {
            ExprModel::Var(id) => var_has_type(env, id, t),
            ExprModel::Value(RawValueModel::Vec(es)) => 0 <= es.len() && forall|i: int|
                0 <= i < es.len() ==> tyck_model(*u, #[trigger] es[i], env),
            _ => false,
        },
        TypeModel::SetOf(u) => match e {
            ExprModel::Var(id) => var_has_type(env, id, t),
            ExprModel::Value(RawValueModel::SetOf(es)) => 0 <= es.len() && forall|i: int|
                0 <= i < es.len() ==> tyck_model(*u, #[trigger] es[i], env),
            _ => false,
        },
        TypeModel::Tuple(ts) => match e {
            ExprModel::Var(id) => var_has_type(env, id, t),
            ExprModel::Value(RawValueModel::Tuple(es)) => ts.len() == es.len() && forall|i: int|
                0 <= i < es.len() ==> tyck_model(ts[i], #[trigger] es[i], env),
            _ => false,
        },
    }
}

/// Whether a variable is bound with the type.
fn tyck_var(ty: &Type, id: &String, map: &Env) -> (r: Result<(), ()>)
    ensures
        r is Ok <==> var_has_type(map@, id@, ty@),
{
    match map.get(id) {
        Some((var_ty, _)) => if var_ty.same_as(ty) {
            Ok(())
        } else {
            Err(())
        },
        None => Err(()),
    }
}

/// Whether each member of `vals` has type `ty`.
fn tyck_members(ty: &Type, vals: &Vec<Expr>, map: &Env) -> (r: Result<(), ()>)
    ensures
        r is Ok <==> forall|i: int| 0 <= i < vals@.len() ==> tyck_model(ty@, #[trigger] exprs_view(vals@)[i], map@),
    decreases vals@, 0nat, 0nat,
{
    proof {
        lemma_exprs_view(vals@);
    }
    let mut i: usize = 0;
    while i < vals.len()
        invariant
            i <= vals.len(),
            exprs_view(vals@).len() == vals.len(),
            forall|j: int| 0 <= j < vals.len() ==> #[trigger] exprs_view(vals@)[j] == expr_view(vals@[j]),
            forall|j: int| 0 <= j < i ==> tyck_model(ty@, #[trigger] exprs_view(vals@)[j], map@),
        decreases vals.len() - i,
    {
        proof {
            assert(decreases_to!(vals@ => vals@[i as int]));
        }
        if tyck(ty, &vals[i], map).is_err() {
            assert(!tyck_model(ty@, exprs_view(vals@)[i as int], map@));
            return Err(());
        }
        i = i + 1;
    }
    Ok(())
}

/// Type checking of a vector value against `[ty]`.
fn tyck_vec(ty: &Type, expr: &Expr, map: &Env) -> (r: Result<(), ()>)
    ensures
        r is Ok <==> tyck_model(TypeModel::Vec(Box::new(ty@)), expr@, map@),
    decreases expr, 0nat, 1nat,
{
    match expr {
        Expr::Value(RawValue::Vec(vals)) => {
            proof {
                assert(decreases_to!(*expr => vals@));
                lemma_exprs_view(vals@);
                assert(expr@ == ExprModel::Value(RawValueModel::Vec(exprs_view(vals@))));
            }
            tyck_members(ty, vals, map)
        },
        Expr::Var(id) => {
            let t = Type::Vec(Box::new(ty.dup()));
            assert(t@ == TypeModel::Vec(Box::new(ty@)));
            tyck_var(&t, id, map)
        },
        _ => Err(()),
    }
}

/// Type checking of a set value against `{ty}`.
fn tyck_set(ty: &Type, expr: &Expr, map: &Env) -> (r: Result<(), ()>)
    ensures
        r is Ok <==> tyck_model(TypeModel::SetOf(Box::new(ty@)), expr@, map@),
    decreases expr, 0nat, 1nat,
{
    match expr {
        Expr::Value(RawValue::SetOf(vals)) => {
            proof {
                assert(decreases_to!(*expr => vals@));
                lemma_exprs_view(vals@);
                assert(expr@ == ExprModel::Value(RawValueModel::SetOf(exprs_view(vals@))));
            }
            let r = tyck_members(ty, vals, map);
            r
        },
        Expr::Var(id) => {
            let t = Type::SetOf(Box::new(ty.dup()));
            assert(t@ == TypeModel::SetOf(Box::new(ty@)));
            tyck_var(&t, id, map)
        },
        _ => Err(()),
    }
}

/// Whether the members of `vals` have the types `tys`, one by one.
fn tyck_tuple_members(tys: &Vec<Type>, vals: &Vec<Expr>, map: &Env) -> (r: Result<(), ()>)
    ensures
        r is Ok <==> (types_view(tys@).len() == exprs_view(vals@).len() && forall|i: int|
            0 <= i < vals@.len() ==> tyck_model(types_view(tys@)[i], #[trigger] exprs_view(vals@)[i], map@)),
    decreases vals@, 0nat, 0nat,
{
    proof {
        lemma_exprs_view(vals@);
        lemma_types_view(tys@);
    }
    if tys.len() != vals.len() {
        return Err(());
    }
    let mut i: usize = 0;
    while i < vals.len()
        invariant
            i <= vals.len(),
            tys.len() == vals.len(),
            exprs_view(vals@).len() == vals.len(),
            forall|j: int| 0 <= j < vals.len() ==> #[trigger] exprs_view(vals@)[j] == expr_view(vals@[j]),
            types_view(tys@).len() == tys.len(),
            forall|j: int| 0 <= j < tys.len() ==> #[trigger] types_view(tys@)[j] == type_view(tys@[j]),
            forall|j: int| 0 <= j < i ==> tyck_model(types_view(tys@)[j], #[trigger] exprs_view(vals@)[j], map@),
        decreases vals.len() - i,
    {
        proof {
            assert(decreases_to!(vals@ => vals@[i as int]));
        }
        if tyck(&tys[i], &vals[i], map).is_err() {
            assert(!tyck_model(types_view(tys@)[i as int], exprs_view(vals@)[i as int], map@));
            return Err(());
        }
        i = i + 1;
    }
    Ok(())
}

/// Type checking of a tuple value against `<tys>`.
fn tyck_tuple(tys: &Vec<Type>, expr: &Expr, map: &Env) -> (r: Result<(), ()>)
    ensures
        r is Ok <==> tyck_model(TypeModel::Tuple(types_view(tys@)), expr@, map@),
    decreases expr, 0nat, 1nat,
{
    proof {
        lemma_types_view(tys@);
    }
    match expr {
        Expr::Value(RawValue::Tuple(vals)) => {
            proof {
                assert(decreases_to!(*expr => vals@));
                lemma_exprs_view(vals@);
                assert(expr@ == ExprModel::Value(RawValueModel::Tuple(exprs_view(vals@))));
            }
            tyck_tuple_members(tys, vals, map)
        },
        Expr::Var(id) => {
            let mut v: Vec<Type> = Vec::new();
            let mut i: usize = 0;
            while i < tys.len()
                invariant
                    i <= tys.len(),
                    v@.len() == i,
                    forall|j: int| 0 <= j < i ==> #[trigger] type_view(v@[j]) == type_view(tys@[j]),
                decreases tys.len() - i,
            {
                v.push(tys[i].dup());
                i = i + 1;
            }
            proof {
                lemma_types_view(v@);
                assert(types_view(v@) =~= types_view(tys@));
            }
            let t = Type::Tuple(v);
            assert(t@ == TypeModel::Tuple(types_view(tys@)));
            tyck_var(&t, id, map)
        },
        _ => Err(()),
    }
}

/// Type checking of a feature.
fn tyck_feature(expr: &Expr, map: &Env) -> (r: Result<(), ()>)
    ensures
        r is Ok <==> tyck_model(TypeModel::Feature, expr@, map@),
{
    match expr {
        Expr::Value(RawValue::Feature(_)) => Ok(()),
        Expr::Var(id) => tyck_var(&Type::Feature, id, map),
        _ => Err(()),
    }
}

/// Type checking of a number.
fn tyck_usize(expr: &Expr, map: &Env) -> (r: Result<(), ()>)
    ensures
        r is Ok <==> tyck_model(TypeModel::Usize, expr@, map@),
{
    match expr {
        Expr::Value(RawValue::Usize(_)) => Ok(()),
        Expr::Var(id) => tyck_var(&Type::Usize, id, map),
        _ => Err(()),
    }
}

/// Type checking of a syntactic object.
fn tyck_so(expr: &Expr, map: &Env) -> (r: Result<(), ()>)
    ensures
        r is Ok <==> tyck_model(TypeModel::SO, expr@, map@),
    decreases expr, 1nat, 1nat,
{
    let lt = lexical_item_token_type();
    let inner = Type::SO;
    assert(inner@ == TypeModel::SO);
    let so_set = Type::SetOf(Box::new(inner));
    assert(so_set@ == TypeModel::SetOf(Box::new(TypeModel::SO)));
    let tt = transferred_so_type();
    assert(tyck_model(TypeModel::SO, expr@, map@) == (tyck_model(lt@, expr@, map@) || tyck_model(
        so_set@,
        expr@,
        map@,
    ) || tyck_model(tt@, expr@, map@) || (expr@ is Var && var_has_type(map@, expr@->Var_0, TypeModel::SO))));
    if tyck(&lt, expr, map).is_ok() {
        return Ok(());
    }
    if tyck(&so_set, expr, map).is_ok() {
        return Ok(());
    }
    if tyck(&tt, expr, map).is_ok() {
        return Ok(());
    }
    match expr {
        Expr::Var(id) => tyck_var(&Type::SO, id, map),
        _ => Err(()),
    }
}

/// Type checking: `Ok` exactly when the expression has the type.
///
/// See [`tyck_model`].
pub fn tyck(ty: &Type, expr: &Expr, map: &Env) -> (r: Result<(), ()>)
    ensures
        r is Ok <==> tyck_model(ty@, expr@, map@),
    decreases expr, so_rank(ty@), 2nat,
{
    match ty {
        Type::Feature => tyck_feature(expr, map),
        Type::Vec(t) => tyck_vec(t, expr, map),
        Type::SetOf(t) => tyck_set(t, expr, map),
        Type::Tuple(ts) => tyck_tuple(ts, expr, map),
        Type::Usize => tyck_usize(expr, map),
        Type::SO => tyck_so(expr, map),
    }
}

} // verus!
