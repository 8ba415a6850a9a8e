//! Conversion of values to the objects of the theory.

use vstd::prelude::*;

use crate::cli::{lemma_values_view, value_view, values_view, Value, ValueModel};
use crate::deriv::li::{LexicalItem, LiModel};
use crate::deriv::lit::{LexicalItemToken, LitModel};
use crate::deriv::so::{lemma_so_seq_view, so_eq, so_seq_view, so_view, SoModel, SyntacticObject};
use crate::deriv::{stages_view, LexicalArray, Lexicon, Stage, StageModel, UniversalGrammar, Workspace};
use crate::feature::{Feature, FeatureSet};
use crate::labels::Triggers;
use crate::text::features_view;
use crate::utils::FiniteSet;

verus! {

/// Taking one more element of a sequence adds it to the set of the taken
/// elements.
pub proof fn lemma_take_to_set_step<A>(q: Seq<A>, i: int)
    requires
        0 <= i < q.len(),
    ensures
        q.take(i + 1).to_set() == q.take(i).to_set().insert(q[i]),
{
    let a = q.take(i + 1);
    let b = q.take(i);
    assert(a =~= b.push(q[i]));
    assert forall|x: A| a.to_set().contains(x) == b.to_set().insert(q[i]).contains(x) by {
        if a.contains(x) {
            let k = choose|k: int| 0 <= k < a.len() && a[k] == x;
            if k < i {
                assert(b[k] == x);
            }
        }
        if b.contains(x) {
            let k = choose|k: int| 0 <= k < b.len() && b[k] == x;
            assert(a[k] == x);
        }
        if x == q[i] {
            assert(a[i] == x);
        }
    }
    assert(a.to_set() =~= b.to_set().insert(q[i]));
}

/// The features of a sequence of values that are all features.
pub open spec fn features_of(vs: Seq<ValueModel>) -> Option<Seq<Seq<char>>> {
    if forall|i: int| 0 <= i < vs.len() ==> #[trigger] vs[i] is Feature {
        Some(Seq::new(vs.len(), |i: int| vs[i]->Feature_0))
    } else {
        None
    }
}

/// A feature, from a feature value.
pub open spec fn to_feature_model(v: ValueModel) -> Option<Seq<char>> {
    match v {
        ValueModel::Feature(f) => Some(f),
        _ => None,
    }
}

/// A number, from a number value.
pub open spec fn to_usize_model(v: ValueModel) -> Option<usize> {
    match v {
        ValueModel::Usize(x) => Some(x),
        _ => None,
    }
}

/// A set of features `{F}`, from a set value of features.
pub open spec fn to_feature_set_model(v: ValueModel) -> Option<Set<Seq<char>>> {
    match v {
        ValueModel::SetOf(vs) => match features_of(vs) {
            Some(q) => Some(q.to_set()),
            None => None,
        },
        _ => None,
    }
}

/// A vector of features `[F]`, from a vector value of features.
pub open spec fn to_feature_vec_model(v: ValueModel) -> Option<Seq<Seq<char>>> {
    match v {
        ValueModel::Vec(vs) => features_of(vs),
        _ => None,
    }
}

/// A lexical item `<{F}, {F}, [F]>`: its semantic, syntactic and
/// phonological features, and no shorthand.
pub open spec fn to_lexical_item_model(v: ValueModel) -> Option<LiModel> {
    match v {
        ValueModel::Tuple(vs) => if vs.len() == 3 {
            match (to_feature_set_model(vs[0]), to_feature_set_model(vs[1]), to_feature_vec_model(vs[2])) {
                (Some(sem), Some(syn), Some(phon)) => Some(
                    LiModel { sem, syn, phon: phon.to_set(), shorthand: None },
                ),
                _ => None,
            }
        } else {
            None
        },
        _ => None,
    }
}

/// A lexical item token `<Li, usize>`.
pub open spec fn to_lexical_item_token_model(v: ValueModel) -> Option<LitModel> {
    match v {
        ValueModel::Tuple(vs) => if vs.len() == 2 {
            match (to_lexical_item_model(vs[0]), to_usize_model(vs[1])) {
                (Some(li), Some(k)) => Some(LitModel { li, k }),
                _ => None,
            }
        } else {
            None
        },
        _ => None,
    }
}

/// A lexicon `{Li}`.
pub open spec fn to_lexicon_model(v: ValueModel) -> Option<Set<LiModel>> {
    match v {
        ValueModel::SetOf(vs) => if forall|i: int| 0 <= i < vs.len() ==> #[trigger] to_lexical_item_model(vs[i]) is Some {
            Some(Seq::new(vs.len(), |i: int| to_lexical_item_model(vs[i])->Some_0).to_set())
        } else {
            None
        },
        _ => None,
    }
}

/// Universal Grammar `<{F}, {F}, {F}>`: its phonological, syntactic and
/// semantic features.
pub open spec fn to_ug_model(v: ValueModel) -> Option<(Set<Seq<char>>, Set<Seq<char>>, Set<Seq<char>>)> {
    match v {
        ValueModel::Tuple(vs) => if vs.len() == 3 {
            match (to_feature_set_model(vs[0]), to_feature_set_model(vs[1]), to_feature_set_model(vs[2])) {
                (Some(p), Some(s), Some(m)) => Some((p, s, m)),
                _ => None,
            }
        } else {
            None
        },
        _ => None,
    }
}

/// `s` with every element after its first occurrence left out.
pub open spec fn dedup(s: Seq<SoModel>) -> Seq<SoModel>
    decreases s.len(),
{
    if s.len() == 0 {
        Seq::empty()
    } else {
        let d = dedup(s.drop_last());
        if d.contains(s.last()) {
            d
        } else {
            d.push(s.last())
        }
    }
}

/// A syntactic object: a lexical item token; else a set of syntactic
/// objects, whose members are kept in the order written, each once; else a
/// transferred object `<SO, [F], {F}>`.
pub open spec fn to_so_model(v: ValueModel) -> Option<SoModel>
    decreases v, 0nat,
{
    match to_lexical_item_token_model(v) {
        Some(l) => Some(SoModel::Lit(l)),
        None => match v {
            ValueModel::SetOf(vs) => match so_list(vs, vs.len()) {
                Some(ms) => Some(SoModel::SoSet(dedup(ms))),
                None => None,
            },
            ValueModel::Tuple(vs) => if vs.len() == 3 {
                match (to_so_model(vs[0]), to_feature_vec_model(vs[1]), to_feature_set_model(vs[2])) {
                    (Some(so), Some(pf), Some(lf)) => Some(SoModel::Transfer { so: Box::new(so), pf, lf }),
                    _ => None,
                }
            } else {
                None
            },
            _ => None,
        },
    }
}

/// The syntactic objects of the first `n` values of `vs`, or `None` where one
/// of them is none.
pub open spec fn so_list(vs: Seq<ValueModel>, n: nat) -> Option<Seq<SoModel>>
    decreases vs, n,
{
    if n == 0 || n > vs.len() {
        Some(Seq::empty())
    } else {
        match so_list(vs, (n - 1) as nat) {
            None => None,
            Some(ms) => match to_so_model(vs[n - 1]) {
                None => None,
                Some(m) => Some(ms.push(m)),
            },
        }
    }
}

/// A stage `<La, Wksp>`: a set of lexical item tokens and a set of
/// syntactic objects.
pub open spec fn to_stage_model(v: ValueModel) -> Option<StageModel> {
    match v {
        ValueModel::Tuple(vs) => if vs.len() == 2 {
            match (vs[0], vs[1]) {
                (ValueModel::SetOf(ls), ValueModel::SetOf(ws)) => if (forall|i: int|
                    0 <= i < ls.len() ==> #[trigger] to_lexical_item_token_model(ls[i]) is Some) {
                    match so_list(ws, ws.len()) {
                        Some(ms) => Some(
                            StageModel {
                                la: Seq::new(ls.len(), |i: int| to_lexical_item_token_model(ls[i])->Some_0).to_set(),
                                w: ms.to_set(),
                            },
                        ),
                        None => None,
                    }
                } else {
                    None
                },
                _ => None,
            }
        } else {
            None
        },
        _ => None,
    }
}

/// A derivation `[Stage]`.
pub open spec fn to_derivation_model(v: ValueModel) -> Option<Seq<StageModel>> {
    match v {
        ValueModel::Vec(vs) => if forall|i: int| 0 <= i < vs.len() ==> #[trigger] to_stage_model(vs[i]) is Some {
            Some(Seq::new(vs.len(), |i: int| to_stage_model(vs[i])->Some_0))
        } else {
            None
        },
        _ => None,
    }
}

/// `F`.
pub fn to_feature(val: Value) -> (r: Result<Feature, ()>)
    ensures
        match r {
            Ok(f) => to_feature_model(val@) == Some(f@),
            Err(_) => to_feature_model(val@) is None,
        },
{
    match val {
        Value::Feature(f) => Ok(f),
        _ => Err(()),
    }
}

/// `usize`.
pub fn to_usize(val: Value) -> (r: Result<usize, ()>)
    ensures
        match r {
            Ok(x) => to_usize_model(val@) == Some(x),
            Err(_) => to_usize_model(val@) is None,
        },
{
    match val {
        Value::Usize(x) => Ok(x),
        _ => Err(()),
    }
}

/// The features of a vector of values, where all are features.
fn features_of_values(vals: &Vec<Value>) -> (r: Result<Vec<Feature>, ()>)
    ensures
        match r {
            Ok(fs) => features_of(values_view(vals@)) == Some(features_view(fs@)),
            Err(_) => features_of(values_view(vals@)) is None,
        },
{
    proof {
        lemma_values_view(vals@);
    }
    let ghost vs = values_view(vals@);
    let mut out: Vec<Feature> = Vec::new();
    let mut i: usize = 0;
    while i < vals.len()
        invariant
            i <= vals.len(),
            vs == values_view(vals@),
            vs.len() == vals.len(),
            forall|j: int| 0 <= j < vals.len() ==> #[trigger] vs[j] == value_view(vals@[j]),
            out@.len() == i,
            forall|j: int| 0 <= j < i ==> #[trigger] vs[j] is Feature && out@[j]@ == vs[j]->Feature_0,
        decreases vals.len() - i,
    {
        match &vals[i] {
            Value::Feature(f) => {
                out.push(f.dup());
            },
            _ => {
                assert(!(vs[i as int] is Feature));
                return Err(());
            },
        }
        i = i + 1;
    }
    assert(features_view(out@) =~= Seq::new(vs.len(), |k: int| vs[k]->Feature_0));
    Ok(out)
}

/// `{F}`.
fn to_feature_set(val: &Value) -> (r: Result<FeatureSet, ()>)
    ensures
        match r {
            Ok(s) => to_feature_set_model(val@) == Some(s@),
            Err(_) => to_feature_set_model(val@) is None,
        },
{
    match val {
        Value::SetOf(vals) => {
            let fs = match features_of_values(vals) {
                Ok(fs) => fs,
                Err(_) => {
                    return Err(());
                },
            };
            let ghost q = features_view(fs@);
            let mut s = FeatureSet::new();
            let mut i: usize = 0;
            while i < fs.len()
                invariant
                    i <= fs.len(),
                    q == features_view(fs@),
                    s@ == q.take(i as int).to_set(),
                decreases fs.len() - i,
            {
                proof {
                    lemma_take_to_set_step(q, i as int);
                }
                s.insert(fs[i].dup());
                i = i + 1;
            }
            assert(q.take(i as int) =~= q);
            Ok(s)
        },
        _ => Err(()),
    }
}

/// `[F]`.
fn to_feature_vec(val: &Value) -> (r: Result<Vec<Feature>, ()>)
    ensures
        match r {
            Ok(v) => to_feature_vec_model(val@) == Some(features_view(v@)),
            Err(_) => to_feature_vec_model(val@) is None,
        },
{
    match val {
        Value::Vec(vals) => features_of_values(vals),
        _ => Err(()),
    }
}

/// A lexical item from a reference to a value.
fn lexical_item_of(val: &Value) -> (r: Result<LexicalItem, ()>)
    ensures
        match r {
            Ok(li) => to_lexical_item_model(val@) == Some(li@),
            Err(_) => to_lexical_item_model(val@) is None,
        },
{
    match val {
        Value::Tuple(vals) => {
            proof {
                lemma_values_view(vals@);
            }
            if vals.len() != 3 {
                return Err(());
            }
            let sem = to_feature_set(&vals[0])?;
            let syn = to_feature_set(&vals[1])?;
            let phon_vec = to_feature_vec(&vals[2])?;
            let mut phon = FeatureSet::new();
            let ghost q = features_view(phon_vec@);
            let mut i: usize = 0;
            while i < phon_vec.len()
                invariant
                    i <= phon_vec.len(),
                    q == features_view(phon_vec@),
                    phon@ == q.take(i as int).to_set(),
                decreases phon_vec.len() - i,
            {
                proof {
                    lemma_take_to_set_step(q, i as int);
                }
                phon.insert(phon_vec[i].dup());
                i = i + 1;
            }
            assert(q.take(i as int) =~= q);
            Ok(LexicalItem::new(sem, syn, phon, None))
        },
        _ => Err(()),
    }
}

/// Lexical item `<{F}, {F}, [F]>`.
pub fn to_lexical_item(val: Value) -> (r: Result<LexicalItem, ()>)
    ensures
        match r {
            Ok(li) => to_lexical_item_model(val@) == Some(li@),
            Err(_) => to_lexical_item_model(val@) is None,
        },
{
    lexical_item_of(&val)
}

/// A lexical item token from a reference to a value.
fn lexical_item_token_of(val: &Value) -> (r: Result<LexicalItemToken, ()>)
    ensures
        match r {
            Ok(l) => to_lexical_item_token_model(val@) == Some(l@),
            Err(_) => to_lexical_item_token_model(val@) is None,
        },
{
    match val {
        Value::Tuple(vals) => {
            proof {
                lemma_values_view(vals@);
            }
            if vals.len() != 2 {
                return Err(());
            }
            let li = lexical_item_of(&vals[0])?;
            let k = match &vals[1] {
                Value::Usize(k) => *k,
                _ => {
                    return Err(());
                },
            };
            Ok(LexicalItemToken::new(li, k))
        },
        _ => Err(()),
    }
}

/// Lexical item token `<Li, usize>`.
pub fn to_lexical_item_token(val: Value) -> (r: Result<LexicalItemToken, ()>)
    ensures
        match r {
            Ok(l) => to_lexical_item_token_model(val@) == Some(l@),
            Err(_) => to_lexical_item_token_model(val@) is None,
        },
{
    lexical_item_token_of(&val)
}

/// Lexicon `{Li}`.
pub fn to_lexicon(val: Value) -> (r: Result<Lexicon, ()>)
    ensures
        match r {
            Ok(lex) => to_lexicon_model(val@) == Some(lex@),
            Err(_) => to_lexicon_model(val@) is None,
        },
{
    match &val {
        Value::SetOf(vals) => {
            proof {
                lemma_values_view(vals@);
            }
            let ghost vs = values_view(vals@);
            assert(val@ == ValueModel::SetOf(vs));
            let ghost q = Seq::new(vs.len(), |i: int| to_lexical_item_model(vs[i])->Some_0);
            let mut lex: Lexicon = FiniteSet::new();
            let mut i: usize = 0;
            while i < vals.len()
                invariant
                    i <= vals.len(),
                    vs == values_view(vals@),
                    vs.len() == vals.len(),
                    forall|j: int| 0 <= j < vals.len() ==> #[trigger] vs[j] == value_view(vals@[j]),
                    q == Seq::new(vs.len(), |i: int| to_lexical_item_model(vs[i])->Some_0),
                    val@ == ValueModel::SetOf(vs),
                    forall|j: int| 0 <= j < i ==> #[trigger] to_lexical_item_model(vs[j]) is Some,
                    lex@ == q.take(i as int).to_set(),
                decreases vals.len() - i,
            {
                match lexical_item_of(&vals[i]) {
                    Ok(li) => {
                        proof {
                            lemma_take_to_set_step(q, i as int);
                        }
                        lex.insert(li);
                    },
                    Err(_) => {
                        assert(!(to_lexical_item_model(vs[i as int]) is Some));
                        return Err(());
                    },
                }
                i = i + 1;
            }
            assert(q.take(i as int) =~= q);
            Ok(lex)
        },
        _ => Err(()),
    }
}

/// Universal Grammar `<{F}, {F}, {F}>`.
pub fn to_ug<T: Triggers>(val: Value) -> (r: Result<UniversalGrammar<T>, ()>)
    ensures
        match r {
            Ok(ug) => to_ug_model(val@) == Some((ug.phon_f@, ug.syn_f@, ug.sem_f@)),
            Err(_) => to_ug_model(val@) is None,
        },
{
    match &val {
        Value::Tuple(vals) => {
            proof {
                lemma_values_view(vals@);
            }
            if vals.len() != 3 {
                return Err(());
            }
            let phon_f = to_feature_set(&vals[0])?;
            let syn_f = to_feature_set(&vals[1])?;
            let sem_f = to_feature_set(&vals[2])?;
            Ok(UniversalGrammar::new(phon_f, syn_f, sem_f))
        },
        _ => Err(()),
    }
}

/// The syntactic objects of a vector of values.
fn so_list_of(vals: &Vec<Value>) -> (r: Result<Vec<SyntacticObject>, ()>)
    ensures
        match r {
            Ok(v) => so_list(values_view(vals@), vals@.len()) == Some(so_seq_view(v@)),
            Err(_) => so_list(values_view(vals@), vals@.len()) is None,
        },
    decreases vals@, 0nat,
{
    proof {
        lemma_values_view(vals@);
    }
    let ghost vs = values_view(vals@);
    let mut out: Vec<SyntacticObject> = Vec::new();
    let mut i: usize = 0;
    while i < vals.len()
        invariant
            i <= vals.len(),
            vs == values_view(vals@),
            vs.len() == vals.len(),
            forall|j: int| 0 <= j < vals.len() ==> #[trigger] vs[j] == value_view(vals@[j]),
            so_list(vs, i as nat) == Some(so_seq_view(out@)),
        decreases vals.len() - i,
    {
        proof {
            assert(decreases_to!(vals@ => vals@[i as int]));
        }
        match so_of(&vals[i]) {
            Ok(x) => {
                proof {
                    crate::deriv::so::lemma_so_seq_view_push(out@, x);
                }
                out.push(x);
            },
            Err(_) => {
                proof {
                    lemma_so_list_none(vs, (i + 1) as nat, vs.len());
                }
                return Err(());
            },
        }
        i = i + 1;
    }
    Ok(out)
}

/// Once the objects of a prefix are undefined, so are those of every longer
/// prefix.
proof fn lemma_so_list_none(vs: Seq<ValueModel>, k: nat, n: nat)
    requires
        k <= n <= vs.len(),
        so_list(vs, k) is None,
    ensures
        so_list(vs, n) is None,
    decreases n - k,
{
    if k < n {
        lemma_so_list_none(vs, (k + 1) as nat, n);
    }
}

/// The objects of `v`, each once, in the order of their first occurrence.
fn dedup_sos(v: Vec<SyntacticObject>) -> (r: Vec<SyntacticObject>)
    ensures
        so_seq_view(r@) == dedup(so_seq_view(v@)),
{
    proof {
        lemma_so_seq_view(v@);
    }
    let ghost m = so_seq_view(v@);
    let mut out: Vec<SyntacticObject> = Vec::new();
    let mut i: usize = 0;
    while i < v.len()
        invariant
            i <= v.len(),
            m == so_seq_view(v@),
            m.len() == v.len(),
            forall|j: int| 0 <= j < v.len() ==> #[trigger] m[j] == so_view(v@[j]),
            so_seq_view(out@) == dedup(m.take(i as int)),
        decreases v.len() - i,
    {
        proof {
            lemma_so_seq_view(out@);
            assert(m.take(i + 1).drop_last() =~= m.take(i as int));
            assert(m.take(i + 1).last() == m[i as int]);
        }
        let mut found = false;
        let mut j: usize = 0;
        while j < out.len()
            invariant
                j <= out.len(),
                i < v.len(),
                so_seq_view(out@).len() == out.len(),
                forall|k: int| 0 <= k < out.len() ==> #[trigger] so_seq_view(out@)[k] == so_view(out@[k]),
                found == exists|k: int| 0 <= k < j && so_view(out@[k]) == so_view(v@[i as int]),
            decreases out.len() - j,
        {
            if so_eq(&out[j], &v[i]) {
                found = true;
            }
            j = j + 1;
        }
        proof {
            if found {
                let k = choose|k: int| 0 <= k < j && so_view(out@[k]) == so_view(v@[i as int]);
                assert(so_seq_view(out@)[k] == m[i as int]);
                assert(so_seq_view(out@).contains(m[i as int]));
            } else {
                assert forall|k: int| 0 <= k < so_seq_view(out@).len() implies so_seq_view(out@)[k] != m[i as int] by {
                    assert(so_seq_view(out@)[k] == so_view(out@[k]));
                }
            }
        }
        if !found {
            let x = crate::deriv::so::so_dup(&v[i]);
            proof {
                crate::deriv::so::lemma_so_seq_view_push(out@, x);
            }
            out.push(x);
        }
        i = i + 1;
    }
    assert(m.take(i as int) =~= m);
    out
}

/// A syntactic object from a reference to a value.
fn so_of(val: &Value) -> (r: Result<SyntacticObject, ()>)
    ensures
        match r {
            Ok(x) => to_so_model(val@) == Some(x@),
            Err(_) => to_so_model(val@) is None,
        },
    decreases val, 1nat,
{
    if let Ok(lit) = lexical_item_token_of(val) {
        return Ok(SyntacticObject::LexicalItemToken(lit));
    }
    match val {
        Value::SetOf(vals) => {
            proof {
                assert(decreases_to!(*val => vals@));
                lemma_values_view(vals@);
            }
            match so_list_of(vals) {
                Ok(v) => {
                    let d = dedup_sos(v);
                    proof {
                        lemma_so_seq_view(d@);
                    }
                    Ok(SyntacticObject::SoSet(d))
                },
                Err(_) => Err(()),
            }
        },
        Value::Tuple(vals) => {
            proof {
                lemma_values_view(vals@);
            }
            if vals.len() != 3 {
                return Err(());
            }
            proof {
                assert(decreases_to!(*val => vals@));
                assert(decreases_to!(vals@ => vals@[0]));
            }
            let so = so_of(&vals[0])?;
            let pf = to_feature_vec(&vals[1])?;
            let lf = to_feature_set(&vals[2])?;
            proof {
                assert(crate::deriv::so::fvec_view(pf@) == features_view(pf@));
            }
            Ok(SyntacticObject::Transfer { so: Box::new(so), pf, lf })
        },
        _ => Err(()),
    }
}

/// Syntactic object: a lexical item token, a set of syntactic objects, or a
/// transferred object.
pub fn to_so(val: Value) -> (r: Result<SyntacticObject, ()>)
    ensures
        match r {
            Ok(x) => to_so_model(val@) == Some(x@),
            Err(_) => to_so_model(val@) is None,
        },
{
    so_of(&val)
}

/// A stage from a reference to a value.
fn stage_of(val: &Value) -> (r: Result<Stage, ()>)
    ensures
        match r {
            Ok(s) => to_stage_model(val@) == Some(s@),
            Err(_) => to_stage_model(val@) is None,
        },
{
    match val {
        Value::Tuple(vals) => {
            proof {
                lemma_values_view(vals@);
            }
            if vals.len() != 2 {
                return Err(());
            }
            assert(val@ == ValueModel::Tuple(values_view(vals@)));
            let (lits, sos) = match (&vals[0], &vals[1]) {
                (Value::SetOf(l), Value::SetOf(w)) => (l, w),
                _ => {
                    assert(!(values_view(vals@)[0] is SetOf && values_view(vals@)[1] is SetOf));
                    return Err(());
                },
            };
            proof {
                lemma_values_view(lits@);
                lemma_values_view(sos@);
                assert(values_view(vals@)[0] == ValueModel::SetOf(values_view(lits@)));
                assert(values_view(vals@)[1] == ValueModel::SetOf(values_view(sos@)));
            }
            let ghost ls = values_view(lits@);
            let ghost q = Seq::new(ls.len(), |i: int| to_lexical_item_token_model(ls[i])->Some_0);
            let mut la = FiniteSet::new();
            let mut i: usize = 0;
            while i < lits.len()
                invariant
                    i <= lits.len(),
                    ls == values_view(lits@),
                    ls.len() == lits.len(),
                    forall|j: int| 0 <= j < lits.len() ==> #[trigger] ls[j] == value_view(lits@[j]),
                    q == Seq::new(ls.len(), |i: int| to_lexical_item_token_model(ls[i])->Some_0),
                    val@ == ValueModel::Tuple(values_view(vals@)),
                    values_view(vals@).len() == 2,
                    values_view(vals@)[0] == ValueModel::SetOf(ls),
                    forall|j: int| 0 <= j < i ==> #[trigger] to_lexical_item_token_model(ls[j]) is Some,
                    la@ == q.take(i as int).to_set(),
                decreases lits.len() - i,
            {
                match lexical_item_token_of(&lits[i]) {
                    Ok(l) => {
                        proof {
                            lemma_take_to_set_step(q, i as int);
                        }
                        la.insert(l);
                    },
                    Err(_) => {
                        assert(!(to_lexical_item_token_model(ls[i as int]) is Some));
                        return Err(());
                    },
                }
                i = i + 1;
            }
            assert(q.take(i as int) =~= q);
            let v = so_list_of(sos)?;
            proof {
                lemma_so_seq_view(v@);
            }
            let ghost m = so_seq_view(v@);
            let mut w = FiniteSet::new();
            let mut k: usize = 0;
            while k < v.len()
                invariant
                    k <= v.len(),
                    m == so_seq_view(v@),
                    m.len() == v.len(),
                    forall|j: int| 0 <= j < v.len() ==> #[trigger] m[j] == so_view(v@[j]),
                    w@ == m.take(k as int).to_set(),
                decreases v.len() - k,
            {
                proof {
                    lemma_take_to_set_step(m, k as int);
                }
                w.insert(crate::deriv::so::so_dup(&v[k]));
                k = k + 1;
            }
            assert(m.take(k as int) =~= m);
            Ok(Stage { la: LexicalArray::new(la), w: Workspace::new(w) })
        },
        _ => Err(()),
    }
}

/// Stage `<La, Wksp>`.
pub fn to_stage(val: Value) -> (r: Result<Stage, ()>)
    ensures
        match r {
            Ok(s) => to_stage_model(val@) == Some(s@),
            Err(_) => to_stage_model(val@) is None,
        },
{
    stage_of(&val)
}

/// Derivation `[Stage]`.
pub fn to_derivation(val: Value) -> (r: Result<Vec<Stage>, ()>)
    ensures
        match r {
            Ok(d) => to_derivation_model(val@) == Some(stages_view(d@)),
            Err(_) => to_derivation_model(val@) is None,
        },
{
    match &val {
        Value::Vec(vals) => {
            proof {
                lemma_values_view(vals@);
            }
            let ghost vs = values_view(vals@);
            assert(val@ == ValueModel::Vec(vs));
            let mut out: Vec<Stage> = Vec::new();
            let mut i: usize = 0;
            while i < vals.len()
                invariant
                    i <= vals.len(),
                    vs == values_view(vals@),
                    vs.len() == vals.len(),
                    forall|j: int| 0 <= j < vals.len() ==> #[trigger] vs[j] == value_view(vals@[j]),
                    out@.len() == i,
                    val@ == ValueModel::Vec(vs),
                    forall|j: int| 0 <= j < i ==> #[trigger] to_stage_model(vs[j]) == Some(out@[j]@),
                decreases vals.len() - i,
            {
                match stage_of(&vals[i]) {
                    Ok(s) => {
                        out.push(s);
                    },
                    Err(_) => {
                        assert(!(to_stage_model(vs[i as int]) is Some));
                        return Err(());
                    },
                }
                i = i + 1;
            }
            assert(stages_view(out@) =~= Seq::new(vs.len(), |i: int| to_stage_model(vs[i])->Some_0));
            Ok(out)
        },
        _ => Err(()),
    }
}

} // verus!
