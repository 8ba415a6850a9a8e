//! The operations of the grammar: Select, Merge and Transfer.

use vstd::prelude::*;

use crate::deriv::li::LiModel;
use crate::deriv::lit::{LexicalItemToken, LitModel};
use crate::deriv::so::{
    fvec_view, is_complement_model, is_final_model, is_maximal_projection_model,
    is_specifier_model, lemma_so_seq_view, so_dup, so_eq, so_seq_view, so_view, stack_walk,
    SoModel, SyntacticObject,
};
use crate::deriv::{
    ws_walk_contains, LexicalArray, Stage, StageModel, Workspace,
};
use crate::feature::{
    canon, comp_feature, comp_model, strong_light_verb_feature, strong_light_verb_model, Feature,
    FeatureSet,
};
use crate::labels::{label_of, spec_label, Triggers};
use crate::utils::Elem;

verus! {

/// Why Select failed.
pub enum SelectError {
    /// The lexical array does not hold the token.
    NotInLexicalArray,
}

/// Why Merge failed.
pub enum MergeError {
    /// The two objects are the same.
    NotDistinct,
    /// The trigger features of the first object are undefined.
    TriggersOfAUndefined,
    /// The first object has no trigger feature.
    NoTriggerOnA,
    /// The trigger features of the second object are undefined.
    TriggersOfBUndefined,
    /// The second object has a trigger feature.
    TriggerOnB,
}

/// Select, on models.
///
/// From Definition 12 in C&S 2016, p. 47: if A is in LA, then
/// Select(A, <LA, W>) = <LA - {A}, W + {A}>.
pub open spec fn select_model(a: LitModel, s: StageModel) -> Option<StageModel> {
    if s.la.contains(a) {
        Some(StageModel { la: s.la.remove(a), w: s.w.insert(SoModel::Lit(a)) })
    } else {
        None
    }
}

/// Select.
///
/// See [`select_model`].
pub fn select(a: LexicalItemToken, s: Stage) -> (r: Result<Stage, SelectError>)
    ensures
        match r {
            Ok(t) => select_model(a@, s@) == Some(t@),
            Err(_) => select_model(a@, s@) is None,
        },
{
    let Stage { la, w } = s;
    let mut la = la.0;
    let mut w = w.0;
    if !la.remove(&a) {
        return Err(SelectError::NotInLexicalArray);
    }
    w.insert(SyntacticObject::LexicalItemToken(a));
    Ok(Stage { la: LexicalArray(la), w: Workspace(w) })
}

/// The set {A, B} built from two objects.
fn pair(a: SyntacticObject, b: SyntacticObject) -> (r: SyntacticObject)
    ensures
        r@ == SoModel::SoSet(seq![a@, b@]),
{
    let v = vec![a, b];
    proof {
        lemma_so_seq_view(v@);
        assert(so_seq_view(v@) =~= seq![so_view(v@[0]), so_view(v@[1])]);
    }
    SyntacticObject::SoSet(v)
}

/// Token-based Merge, on models.
///
/// From Definition 13 in C&S 2016, p. 47: for distinct A, B,
/// Merge(A, B) = {A, B}.
pub open spec fn token_merge_model(a: SoModel, b: SoModel) -> Result<SoModel, MergeError> {
    if a == b {
        Err(MergeError::NotDistinct)
    } else {
        Ok(SoModel::SoSet(seq![a, b]))
    }
}

/// Token-based Merge.
///
/// See [`token_merge_model`].
pub fn token_based_merge(a: SyntacticObject, b: SyntacticObject, _w: &Workspace) -> (r: Result<
    SyntacticObject,
    MergeError,
>)
    ensures
        match (r, token_merge_model(a@, b@)) {
            (Ok(x), Ok(y)) => x@ == y,
            (Err(e), Err(f)) => e == f,
            _ => false,
        },
{
    if so_eq(&a, &b) {
        return Err(MergeError::NotDistinct);
    }
    Ok(pair(a, b))
}

/// Triggered Merge, on models.
///
/// From Definition 27 in C&S 2016, p. 64: for distinct A, B where
/// Triggers(A) is nonempty and Triggers(B) is empty, Merge(A, B) = {A, B}.
pub open spec fn triggered_merge_model<T: Triggers>(a: SoModel, b: SoModel, w: Set<SoModel>) -> Result<
    SoModel,
    MergeError,
> {
    if a == b {
        Err(MergeError::NotDistinct)
    } else {
        match T::spec_triggers(a, w) {
            None => Err(MergeError::TriggersOfAUndefined),
            Some(ta) => if ta == Set::<Seq<char>>::empty() {
                Err(MergeError::NoTriggerOnA)
            } else {
                match T::spec_triggers(b, w) {
                    None => Err(MergeError::TriggersOfBUndefined),
                    Some(tb) => if tb != Set::<Seq<char>>::empty() {
                        Err(MergeError::TriggerOnB)
                    } else {
                        Ok(SoModel::SoSet(seq![a, b]))
                    },
                }
            },
        }
    }
}

/// Whether a result of Merge agrees with a result on models.
pub open spec fn merge_result_is(r: Result<SyntacticObject, MergeError>, m: Result<SoModel, MergeError>) -> bool {
    match (r, m) {
        (Ok(x), Ok(y)) => x@ == y,
        (Err(e), Err(f)) => e == f,
        _ => false,
    }
}

/// Triggered Merge.
///
/// See [`triggered_merge_model`].
pub fn triggered_merge_with_so<T: Triggers>(a: SyntacticObject, b: SyntacticObject, w: &Workspace) -> (r:
    Result<SyntacticObject, MergeError>)
    ensures
        merge_result_is(r, triggered_merge_model::<T>(a@, b@, w@)),
{
    if so_eq(&a, &b) {
        return Err(MergeError::NotDistinct);
    }
    let tfs_a = match T::triggers(&a, w) {
        Ok(t) => t,
        Err(_) => {
            return Err(MergeError::TriggersOfAUndefined);
        },
    };
    if tfs_a.is_empty() {
        return Err(MergeError::NoTriggerOnA);
    }
    let tfs_b = match T::triggers(&b, w) {
        Ok(t) => t,
        Err(_) => {
            return Err(MergeError::TriggersOfBUndefined);
        },
    };
    if !tfs_b.is_empty() {
        return Err(MergeError::TriggerOnB);
    }
    Ok(pair(a, b))
}

pub use triggered_merge_with_so as triggered_merge;

/// Merge of an object with a feature, on models: the object must have a
/// trigger feature, and the result carries the feature.
pub open spec fn merge_with_feature_model<T: Triggers>(a: SoModel, f: Seq<char>, w: Set<SoModel>) -> Result<
    SoModel,
    MergeError,
> {
    match T::spec_triggers(a, w) {
        None => Err(MergeError::TriggersOfAUndefined),
        Some(ta) => if ta == Set::<Seq<char>>::empty() {
            Err(MergeError::NoTriggerOnA)
        } else {
            Ok(SoModel::WithFeature { so: Box::new(a), f })
        },
    }
}

/// Merge of an object with a feature.
///
/// See [`merge_with_feature_model`].
pub fn triggered_merge_with_f<T: Triggers>(a: SyntacticObject, b: Feature, w: &Workspace) -> (r:
    Result<SyntacticObject, MergeError>)
    ensures
        merge_result_is(r, merge_with_feature_model::<T>(a@, b@, w@)),
{
    let tfs_a = match T::triggers(&a, w) {
        Ok(t) => t,
        Err(_) => {
            return Err(MergeError::TriggersOfAUndefined);
        },
    };
    if tfs_a.is_empty() {
        return Err(MergeError::NoTriggerOnA);
    }
    Ok(SyntacticObject::WithFeature { so: Box::new(a), f: b })
}


/// Strong phase on models: `so` is the maximal projection of a lexical item
/// token of the workspace whose syntactic features include `C` or `v*`.
pub open spec fn strong_phase_model<T: Triggers>(so: SoModel, w: Set<SoModel>) -> bool {
    exists|l: LitModel|
        #[trigger] ws_walk_contains(w, SoModel::Lit(l), true) && is_maximal_projection_model::<T>(
            so,
            l,
            w,
        ) && (l.li.syn.contains(comp_model()) || l.li.syn.contains(strong_light_verb_model()))
}

/// Whether `so` is a strong phase in the workspace.
///
/// See [`strong_phase_model`].
pub fn is_strong_phase<T: Triggers>(so: &SyntacticObject, w: &Workspace) -> (r: bool)
    ensures
        r == strong_phase_model::<T>(so@, w@),
{
    let mut it = w.contained_sos(false);
    let items = it.to_vec();
    let ghost walk = stack_walk(w.0.listing(), true);
    proof {
        lemma_so_seq_view(items@);
    }
    let c = comp_feature();
    let v = strong_light_verb_feature();
    let mut i: usize = 0;
    while i < items.len()
        invariant
            i <= items.len(),
            so_seq_view(items@) == walk,
            walk == stack_walk(w.0.listing(), true),
            walk.len() == items.len(),
            c@ == comp_model(),
            v@ == strong_light_verb_model(),
            forall|x: SoModel| walk.contains(x) <==> ws_walk_contains(w@, x, true),
            forall|j: int| 0 <= j < items.len() ==> #[trigger] so_seq_view(items@)[j] == so_view(items@[j]),
            forall|j: int| 0 <= j < i && (#[trigger] walk[j]) is Lit ==> !(
                is_maximal_projection_model::<T>(so@, walk[j]->Lit_0, w@) && (walk[j]->Lit_0.li.syn.contains(comp_model())
                    || walk[j]->Lit_0.li.syn.contains(strong_light_verb_model()))),
        decreases items.len() - i,
    {
        match &items[i] {
            SyntacticObject::LexicalItemToken(maybe_label) => {
                if so.is_maximal_projection_of::<T>(maybe_label, w) && (
                maybe_label.li.syn.contains(&c) || maybe_label.li.syn.contains(&v)) {
                    assert(walk[i as int] == SoModel::Lit(maybe_label@));
                    assert(walk.contains(walk[i as int]));
                    assert(ws_walk_contains(w@, SoModel::Lit(maybe_label@), true));
                    return true;
                }
            },
            _ => {},
        }
        i = i + 1;
    }
    assert forall|l: LitModel| #[trigger] ws_walk_contains(w@, SoModel::Lit(l), true) implies !(
    is_maximal_projection_model::<T>(so@, l, w@) && (l.li.syn.contains(comp_model())
        || l.li.syn.contains(strong_light_verb_model()))) by {
        assert(walk.contains(SoModel::Lit(l)));
        let k = choose|k: int| 0 <= k < walk.len() && walk[k] == SoModel::Lit(l);
        assert(walk[k]->Lit_0 == l);
    }
    false
}

/// The phonological form that Transfer gives `so` within the phase `phase`,
/// or `None` where Transfer is not defined (a set that does not have exactly
/// two elements, or two final elements neither of which is the complement or
/// specifier of the other).
///
/// A lexical item token gives its phonological features in increasing order;
/// in a set, an element that is not final contributes nothing, and of two
/// final elements the head or specifier comes before the other.
pub open spec fn transfer_pf_model<T: Triggers>(phase: SoModel, so: SoModel, w: Set<SoModel>) -> Option<
    Seq<Seq<char>>,
>
    decreases so,
{
    match so {
        SoModel::Lit(l) => Some(canon(l.li.phon)),
        SoModel::SoSet(s) => if s.len() != 2 {
            None
        } else {
            let x1 = s[0];
            let x2 = s[1];
            let f1 = is_final_model(x1, so, phase);
            let f2 = is_final_model(x2, so, phase);
            if f1 && transfer_pf_model::<T>(phase, x1, w) is None {
                None
            } else if f2 && transfer_pf_model::<T>(phase, x2, w) is None {
                None
            } else if f1 && f2 {
                let p1 = transfer_pf_model::<T>(phase, x1, w)->0;
                let p2 = transfer_pf_model::<T>(phase, x2, w)->0;
                if is_complement_model::<T>(x2, x1, so, w) || is_specifier_model::<T>(x1, x2, so, w) {
                    Some(p1 + p2)
                } else if is_complement_model::<T>(x1, x2, so, w) || is_specifier_model::<T>(
                    x2,
                    x1,
                    so,
                    w,
                ) {
                    Some(p2 + p1)
                } else {
                    None
                }
            } else if f1 {
                transfer_pf_model::<T>(phase, x1, w)
            } else if f2 {
                transfer_pf_model::<T>(phase, x2, w)
            } else {
                Some(Seq::empty())
            }
        },
        SoModel::Transfer { pf, .. } => Some(pf),
        SoModel::WithFeature { so: inner, .. } => transfer_pf_model::<T>(phase, *inner, w),
    }
}

/// The semantic form that Transfer gives `so`: the union of the semantic
/// features of its lexical item tokens, or `None` where a set does not have
/// exactly two elements.
pub open spec fn transfer_lf_model(so: SoModel) -> Option<Set<Seq<char>>>
    decreases so,
{
    match so {
        SoModel::Lit(l) => Some(l.li.sem),
        SoModel::SoSet(s) => if s.len() != 2 {
            None
        } else {
            match (transfer_lf_model(s[0]), transfer_lf_model(s[1])) {
                (Some(a), Some(b)) => Some(a.union(b)),
                _ => None,
            }
        },
        SoModel::Transfer { lf, .. } => Some(lf),
        SoModel::WithFeature { so: inner, .. } => transfer_lf_model(*inner),
    }
}

/// Transfer on models: the object together with its phonological and
/// semantic forms.
pub open spec fn transfer_model<T: Triggers>(phase: SoModel, so: SoModel, w: Set<SoModel>) -> Option<
    SoModel,
> {
    match (transfer_pf_model::<T>(phase, so, w), transfer_lf_model(so)) {
        (Some(pf), Some(lf)) => Some(SoModel::Transfer { so: Box::new(so), pf, lf }),
        _ => None,
    }
}

/// The phonological form of Transfer.
///
/// See [`transfer_pf_model`].
fn transfer_pf<T: Triggers>(phase: &SyntacticObject, so: &SyntacticObject, w: &Workspace) -> (r:
    Option<Vec<Feature>>)
    ensures
        match r {
            Some(v) => transfer_pf_model::<T>(phase@, so@, w@) == Some(fvec_view(v@)),
            None => transfer_pf_model::<T>(phase@, so@, w@) is None,
        },
    decreases so,
{
    match so {
        SyntacticObject::LexicalItemToken(lit) => Some(lit.li.phon.to_vec()),
        SyntacticObject::SoSet(set) => {
            proof {
                lemma_so_seq_view(set@);
                assert(decreases_to!(*so => so->SoSet_0));
            }
            if set.len() != 2 {
                return None;
            }
            let x1 = &set[0];
            let x2 = &set[1];
            let f1 = x1.is_final(so, phase);
            let pf1 = if f1 {
                match transfer_pf::<T>(phase, x1, w) {
                    Some(p) => Some(p),
                    None => {
                        return None;
                    },
                }
            } else {
                None
            };
            let f2 = x2.is_final(so, phase);
            let pf2 = if f2 {
                match transfer_pf::<T>(phase, x2, w) {
                    Some(p) => Some(p),
                    None => {
                        return None;
                    },
                }
            } else {
                None
            };
            match (pf1, pf2) {
                (Some(mut pf1), Some(mut pf2)) => {
                    if x2.is_complement_of::<T>(x1, so, w) || x1.is_specifier_of::<T>(x2, so, w) {
                        let ghost a = fvec_view(pf1@);
                        let ghost b = fvec_view(pf2@);
                        pf1.append(&mut pf2);
                        assert(fvec_view(pf1@) =~= a + b);
                        Some(pf1)
                    } else if x1.is_complement_of::<T>(x2, so, w) || x2.is_specifier_of::<T>(
                        x1,
                        so,
                        w,
                    ) {
                        let ghost a = fvec_view(pf1@);
                        let ghost b = fvec_view(pf2@);
                        pf2.append(&mut pf1);
                        assert(fvec_view(pf2@) =~= b + a);
                        Some(pf2)
                    } else {
                        None
                    }
                },
                (Some(pf1), None) => Some(pf1),
                (None, Some(pf2)) => Some(pf2),
                (None, None) => {
                    let v: Vec<Feature> = Vec::new();
                    assert(fvec_view(v@) =~= Seq::<Seq<char>>::empty());
                    Some(v)
                },
            }
        },
        SyntacticObject::Transfer { pf, .. } => Some(crate::deriv::so::fvec_dup(pf)),
        SyntacticObject::WithFeature { so: inner, .. } => transfer_pf::<T>(phase, inner, w),
    }
}

/// The semantic form of Transfer.
///
/// See [`transfer_lf_model`].
fn transfer_lf(phase: &SyntacticObject, so: &SyntacticObject) -> (r: Option<FeatureSet>)
    ensures
        match r {
            Some(s) => transfer_lf_model(so@) == Some(s@),
            None => transfer_lf_model(so@) is None,
        },
    decreases so,
{
    match so {
        SyntacticObject::LexicalItemToken(lit) => Some(lit.li.sem.clone()),
        SyntacticObject::SoSet(set) => {
            proof {
                lemma_so_seq_view(set@);
                assert(decreases_to!(*so => so->SoSet_0));
            }
            if set.len() != 2 {
                return None;
            }
            let mut acc = match transfer_lf(phase, &set[0]) {
                Some(s) => s,
                None => {
                    return None;
                },
            };
            let second = match transfer_lf(phase, &set[1]) {
                Some(s) => s,
                None => {
                    return None;
                },
            };
            acc.extend(&second);
            Some(acc)
        },
        SyntacticObject::Transfer { lf, .. } => Some(lf.clone()),
        SyntacticObject::WithFeature { so: inner, .. } => transfer_lf(phase, inner),
    }
}

/// Transfer, where it is defined.
pub(crate) fn try_transfer<T: Triggers>(phase: &SyntacticObject, so: SyntacticObject, w: &Workspace) -> (r:
    Option<SyntacticObject>)
    ensures
        match r {
            Some(x) => transfer_model::<T>(phase@, so@, w@) == Some(x@),
            None => transfer_model::<T>(phase@, so@, w@) is None,
        },
{
    let pf = match transfer_pf::<T>(phase, &so, w) {
        Some(p) => p,
        None => {
            return None;
        },
    };
    let lf = match transfer_lf(phase, &so) {
        Some(l) => l,
        None => {
            return None;
        },
    };
    Some(SyntacticObject::Transfer { so: Box::new(so), pf, lf })
}

/// Transfer: the object together with its phonological and semantic forms
/// within the phase `phase`.
///
/// See [`transfer_model`].
pub fn transfer<T: Triggers>(phase: &SyntacticObject, so: SyntacticObject, w: &Workspace) -> (r:
    SyntacticObject)
    requires
        transfer_model::<T>(phase@, so@, w@) is Some,
    ensures
        transfer_model::<T>(phase@, so@, w@) == Some(r@),
{
    match try_transfer::<T>(phase, so, w) {
        Some(x) => x,
        None => {
            proof {
                assert(false);
            }
            SyntacticObject::SoSet(Vec::new())
        },
    }
}


/// What Cyclic-Transfer does at a set, on models.
pub enum UnwindAction {
    /// Go on into the elements.
    Unwind,
    /// Transfer the first element, the complement of the head.
    TransferFirst,
    /// Transfer the second element, the complement of the head.
    TransferSecond,
}

/// What Cyclic-Transfer does at the set `so` with elements `s`.
pub open spec fn unwind_action<T: Triggers>(
    so: SoModel,
    s: Seq<SoModel>,
    head: SoModel,
    w: Set<SoModel>,
) -> UnwindAction {
    if s.len() == 2 {
        if is_complement_model::<T>(s[0], head, so, w) {
            UnwindAction::TransferFirst
        } else if is_complement_model::<T>(s[1], head, so, w) {
            UnwindAction::TransferSecond
        } else {
            UnwindAction::Unwind
        }
    } else {
        UnwindAction::Unwind
    }
}

/// Cyclic-Transfer below the head `head`, on models: `Ok` with the new object
/// where the complement of `head` was transferred somewhere in `so`, `Err`
/// with the (possibly rebuilt) object where it was not, and `None` where a
/// Transfer that it makes is not defined.
///
/// At a set whose first or second element is the complement of `head`, that
/// element is transferred within the set; at any other set, the walk goes on
/// into every element, in order; any other object is left as it is.
pub open spec fn unwind_model<T: Triggers>(so: SoModel, head: SoModel, w: Set<SoModel>) -> Option<
    Result<SoModel, SoModel>,
>
    decreases so, 0nat,
{
    match so {
        SoModel::SoSet(s) => match unwind_action::<T>(so, s, head, w) {
            UnwindAction::TransferFirst => match transfer_model::<T>(so, s[0], w) {
                Some(t) => Some(Ok(SoModel::SoSet(seq![t, s[1]]))),
                None => None,
            },
            UnwindAction::TransferSecond => match transfer_model::<T>(so, s[1], w) {
                Some(t) => Some(Ok(SoModel::SoSet(seq![s[0], t]))),
                None => None,
            },
            UnwindAction::Unwind => match unwind_children_model::<T>(s, s.len(), head, w) {
                Some((c, true)) => Some(Ok(SoModel::SoSet(c))),
                Some((c, false)) => Some(Err(SoModel::SoSet(c))),
                None => None,
            },
        },
        _ => Some(Err(so)),
    }
}

/// Cyclic-Transfer below `head` applied to the first `n` elements of `s`:
/// the rebuilt elements, and whether any of them had a complement
/// transferred.
pub open spec fn unwind_children_model<T: Triggers>(
    s: Seq<SoModel>,
    n: nat,
    head: SoModel,
    w: Set<SoModel>,
) -> Option<(Seq<SoModel>, bool)>
    decreases s, n,
{
    if n == 0 || n > s.len() {
        Some((Seq::empty(), false))
    } else {
        match unwind_children_model::<T>(s, (n - 1) as nat, head, w) {
            None => None,
            Some((c, ok)) => match unwind_model::<T>(s[n - 1], head, w) {
                None => None,
                Some(Ok(x)) => Some((c.push(x), true)),
                Some(Err(x)) => Some((c.push(x), ok)),
            },
        }
    }
}

/// Cyclic-Transfer on models: find the label of `so` and transfer the
/// complement of that head.  `Err(())` where `so` has no label or no
/// complement of its head was found; `None` where a Transfer that it makes is
/// not defined.
pub open spec fn cyclic_transfer_model<T: Triggers>(so: SoModel, w: Set<SoModel>) -> Option<
    Result<SoModel, ()>,
> {
    match spec_label::<T>(so, w) {
        Some(l) => match unwind_model::<T>(so, SoModel::Lit(l), w) {
            None => None,
            Some(Ok(x)) => Some(Ok(x)),
            Some(Err(_)) => Some(Err(())),
        },
        None => Some(Err(())),
    }
}

/// Once Cyclic-Transfer is undefined on a prefix of the elements, it is
/// undefined on every longer prefix.
proof fn lemma_unwind_children_none<T: Triggers>(
    s: Seq<SoModel>,
    k: nat,
    n: nat,
    head: SoModel,
    w: Set<SoModel>,
)
    requires
        k <= n <= s.len(),
        unwind_children_model::<T>(s, k, head, w) is None,
    ensures
        unwind_children_model::<T>(s, n, head, w) is None,
    decreases n - k,
{
    if k < n {
        lemma_unwind_children_none::<T>(s, k, (n - 1) as nat, head, w);
    }
}

/// Cyclic-Transfer below `head`, where every Transfer it makes is defined.
fn unwind_and_transfer<T: Triggers>(so: SyntacticObject, head: &SyntacticObject, w: &Workspace) -> (r:
    Option<Result<SyntacticObject, SyntacticObject>>)
    ensures
        match (r, unwind_model::<T>(so@, head@, w@)) {
            (None, None) => true,
            (Some(Ok(x)), Some(Ok(y))) => x@ == y,
            (Some(Err(x)), Some(Err(y))) => x@ == y,
            _ => false,
        },
    decreases so@, 0nat,
{
    let ghost som = so@;
    match so {
        SyntacticObject::SoSet(set) => {
            proof {
                lemma_so_seq_view(set@);
            }
            let ghost s = so_seq_view(set@);
            let so_ref = SyntacticObject::SoSet(set);
            let set = match &so_ref {
                SyntacticObject::SoSet(v) => v,
                _ => {
                    proof {
                        assert(false);
                    }
                    return None;
                },
            };
            let first = set.len() == 2 && set[0].is_complement_of::<T>(head, &so_ref, w);
            let second = !first && set.len() == 2 && set[1].is_complement_of::<T>(
                head,
                &so_ref,
                w,
            );
            if first {
                let x2 = so_dup(&set[1]);
                let x1 = so_dup(&set[0]);
                let t = match try_transfer::<T>(&so_ref, x1, w) {
                    Some(t) => t,
                    None => {
                        return None;
                    },
                };
                return Some(Ok(pair(t, x2)));
            }
            if second {
                let x1 = so_dup(&set[0]);
                let x2 = so_dup(&set[1]);
                let t = match try_transfer::<T>(&so_ref, x2, w) {
                    Some(t) => t,
                    None => {
                        return None;
                    },
                };
                return Some(Ok(pair(x1, t)));
            }
            assert(unwind_action::<T>(som, s, head@, w@) == UnwindAction::Unwind);
            let mut out: Vec<SyntacticObject> = Vec::new();
            let mut is_ok = false;
            let mut i: usize = 0;
            assert(unwind_children_model::<T>(s, 0, head@, w@) == Some((Seq::<SoModel>::empty(), false)));
            while i < set.len()
                invariant
                    i <= set.len(),
                    s == so_seq_view(set@),
                    s.len() == set.len(),
                    som == SoModel::SoSet(s),
                    som == so@,
                    unwind_action::<T>(som, s, head@, w@) == UnwindAction::Unwind,
                    forall|j: int| 0 <= j < set.len() ==> #[trigger] s[j] == so_view(set@[j]),
                    unwind_children_model::<T>(s, i as nat, head@, w@) == Some((so_seq_view(out@), is_ok)),
                decreases set.len() - i,
            {
                proof {
                    assert(decreases_to!(som => som->SoSet_0));
                    assert(decreases_to!(som->SoSet_0 => som->SoSet_0[i as int]));
                    assert(decreases_to!(som => s[i as int]));
                    lemma_so_seq_view(out@);
                }
                let child = so_dup(&set[i]);
                proof {
                    assert(child@ == s[i as int]);
                    assert(decreases_to!(som => child@));
                }
                match unwind_and_transfer::<T>(child, head, w) {
                    None => {
                        proof {
                            lemma_unwind_children_none::<T>(s, (i + 1) as nat, s.len(), head@, w@);
                        }
                        return None;
                    },
                    Some(Ok(x)) => {
                        proof {
                            crate::deriv::so::lemma_so_seq_view_push(out@, x);
                        }
                        out.push(x);
                        is_ok = true;
                    },
                    Some(Err(x)) => {
                        proof {
                            crate::deriv::so::lemma_so_seq_view_push(out@, x);
                        }
                        out.push(x);
                    },
                }
                i = i + 1;
            }
            if is_ok {
                Some(Ok(SyntacticObject::SoSet(out)))
            } else {
                Some(Err(SyntacticObject::SoSet(out)))
            }
        },
        _ => Some(Err(so)),
    }
}

/// Cyclic-Transfer, where every Transfer it makes is defined.
pub fn try_cyclic_transfer<T: Triggers>(so: SyntacticObject, w: &Workspace) -> (r: Option<
    Result<SyntacticObject, ()>,
>)
    ensures
        match (r, cyclic_transfer_model::<T>(so@, w@)) {
            (None, None) => true,
            (Some(Ok(x)), Some(Ok(y))) => x@ == y,
            (Some(Err(_)), Some(Err(_))) => true,
            _ => false,
        },
{
    let head = match label_of::<T>(&so, w) {
        Ok(label) => SyntacticObject::LexicalItemToken(label.elem_dup()),
        Err(_) => {
            return Some(Err(()));
        },
    };
    match unwind_and_transfer::<T>(so, &head, w) {
        None => None,
        Some(Ok(x)) => Some(Ok(x)),
        Some(Err(_)) => Some(Err(())),
    }
}

/// Cyclic-Transfer: transfer the complement of the head of `so`.
///
/// See [`cyclic_transfer_model`].
pub fn cyclic_transfer<T: Triggers>(so: SyntacticObject, w: &Workspace) -> (r: Result<
    SyntacticObject,
    (),
>)
    requires
        cyclic_transfer_model::<T>(so@, w@) is Some,
    ensures
        match (r, cyclic_transfer_model::<T>(so@, w@)) {
            (Ok(x), Some(Ok(y))) => x@ == y,
            (Err(_), Some(Err(_))) => true,
            _ => false,
        },
{
    match try_cyclic_transfer::<T>(so, w) {
        Some(r) => r,
        None => {
            proof {
                assert(false);
            }
            Err(())
        },
    }
}

} // verus!
