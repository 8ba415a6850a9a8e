//! Trigger features and labels.

use vstd::prelude::*;

use crate::deriv::lit::{LexicalItemToken, LitModel};
use crate::deriv::so::{lemma_so_seq_view, so_seq_view, SoModel, SyntacticObject};
use crate::deriv::{ws_contains, Workspace};
use crate::feature::{
    canon, epp_feature, epp_model, wh_feature, wh_model, Feature, FeatureSet, CATSEL_FEATURE_PREFIX,
};

verus! {

/// A way to compute the trigger features of syntactic objects.
///
/// From Definition 26 in C&S 2016, p. 63: Triggers maps a syntactic object
/// to a subset of its trigger features; it is defined on lexical item tokens
/// and on sets {B, C} where exactly one of Triggers(B), Triggers(C) is empty,
/// and undefined otherwise.
pub trait Triggers {
    /// The trigger features of `so` in a workspace `w`, or `None` where they
    /// are undefined.
    spec fn spec_triggers(so: SoModel, w: Set<SoModel>) -> Option<Set<Seq<char>>>;

    fn triggers(so: &SyntacticObject, w: &Workspace) -> (r: Result<FeatureSet, ()>)
        ensures
            match r {
                Ok(s) => Self::spec_triggers(so@, w@) == Some(s@),
                Err(_) => Self::spec_triggers(so@, w@) is None,
            },
    ;
}

/// Label, on models.
///
/// From Definition 28 in C&S 2016, p. 65: the label of a lexical item token
/// is itself; the label of a set {A, B} contained in the workspace, where
/// Triggers(A) is nonempty and Triggers(B) is empty, is the label of A; the
/// label of a transferred object is that of the object it holds.
pub open spec fn spec_label<T: Triggers>(so: SoModel, w: Set<SoModel>) -> Option<LitModel>
    decreases so,
{
    match so {
        SoModel::Lit(l) => Some(l),
        SoModel::SoSet(s) => if !ws_contains(w, so) {
            None
        } else if s.len() == 2 {
            match (T::spec_triggers(s[0], w), T::spec_triggers(s[1], w)) {
                (Some(tb), Some(tc)) => if tb != Set::<Seq<char>>::empty() && tc == Set::<
                    Seq<char>,
                >::empty() {
                    spec_label::<T>(s[0], w)
                } else if tc != Set::<Seq<char>>::empty() && tb == Set::<Seq<char>>::empty() {
                    spec_label::<T>(s[1], w)
                } else {
                    None
                },
                _ => None,
            }
        } else {
            None
        },
        SoModel::Transfer { so: inner, .. } => spec_label::<T>(*inner, w),
        SoModel::WithFeature { so: inner, .. } => spec_label::<T>(*inner, w),
    }
}

/// Label.
///
/// See [`spec_label`].
pub fn label_of<'a, T: Triggers>(so: &'a SyntacticObject, w: &Workspace) -> (r: Result<
    &'a LexicalItemToken,
    (),
>)
    ensures
        match r {
            Ok(l) => spec_label::<T>(so@, w@) == Some(l@),
            Err(_) => spec_label::<T>(so@, w@) is None,
        },
    decreases so,
{
    match so {
        SyntacticObject::LexicalItemToken(lit) => Ok(lit),
        SyntacticObject::SoSet(set) => {
            if !w.contains(so) {
                return Err(());
            }
            proof {
                lemma_so_seq_view(set@);
            }
            if set.len() == 2 {
                let b = &set[0];
                let c = &set[1];
                let tfs_b = match T::triggers(b, w) {
                    Ok(t) => t,
                    Err(_) => {
                        return Err(());
                    },
                };
                let tfs_c = match T::triggers(c, w) {
                    Ok(t) => t,
                    Err(_) => {
                        return Err(());
                    },
                };
                proof {
                    assert(decreases_to!(*so => so->SoSet_0));
                }
                if !tfs_b.is_empty() && tfs_c.is_empty() {
                    label_of::<T>(b, w)
                } else if !tfs_c.is_empty() && tfs_b.is_empty() {
                    label_of::<T>(c, w)
                } else {
                    Err(())
                }
            } else {
                Err(())
            }
        },
        SyntacticObject::Transfer { so: inner, .. } => label_of::<T>(inner, w),
        SyntacticObject::WithFeature { so: inner, .. } => label_of::<T>(inner, w),
    }
}

/// Whether a feature is a trigger feature of the basic triggers: `wh`,
/// `EPP`, or a category-selection feature such as `=V`.
pub open spec fn is_trigger_feature(f: Seq<char>) -> bool {
    f == wh_model() || f == epp_model() || (f.len() > 0 && f[0] == CATSEL_FEATURE_PREFIX)
}

/// Whether `f` is a category-selection feature whose category is among
/// `syn`.
pub open spec fn selects(f: Seq<char>, syn: Set<Seq<char>>) -> bool {
    f.len() > 0 && f[0] == CATSEL_FEATURE_PREFIX && syn.contains(f.drop_first())
}

/// The first feature of `q` that selects a category of `syn`.
pub open spec fn first_selecting(q: Seq<Seq<char>>, syn: Set<Seq<char>>) -> Option<Seq<char>>
    decreases q.len(),
{
    if q.len() == 0 {
        None
    } else if selects(q[0], syn) {
        Some(q[0])
    } else {
        first_selecting(q.drop_first(), syn)
    }
}

/// Checking one trigger feature of `from` against an object whose label is
/// `label`: `wh` if both have it, otherwise the first category-selection
/// feature whose category the label has, otherwise `EPP`.  The checked
/// feature is removed.
pub open spec fn check_tf_model(from: Set<Seq<char>>, label: Option<LitModel>) -> Option<
    Set<Seq<char>>,
> {
    match label {
        None => None,
        Some(l) => {
            let syn = l.li.syn;
            if from.contains(wh_model()) && syn.contains(wh_model()) {
                Some(from.remove(wh_model()))
            } else {
                match first_selecting(canon(from), syn) {
                    Some(f) => Some(from.remove(f)),
                    None => if from.contains(epp_model()) {
                        Some(from.remove(epp_model()))
                    } else {
                        None
                    },
                }
            }
        },
    }
}

/// The trigger features of the basic triggers, on models.
pub open spec fn basic_triggers(so: SoModel, w: Set<SoModel>) -> Option<Set<Seq<char>>>
    decreases so, 0nat,
{
    match so {
        SoModel::Lit(l) => Some(l.li.syn.filter(|f: Seq<char>| is_trigger_feature(f))),
        SoModel::SoSet(s) => if s.len() == 2 {
            match (basic_triggers(s[0], w), basic_triggers(s[1], w)) {
                (Some(tb), Some(tc)) => if tb != Set::<Seq<char>>::empty() && tc == Set::<
                    Seq<char>,
                >::empty() {
                    check_tf_model(tb, basic_label(s[1], w))
                } else if tc != Set::<Seq<char>>::empty() && tb == Set::<Seq<char>>::empty() {
                    check_tf_model(tc, basic_label(s[0], w))
                } else {
                    None
                },
                _ => None,
            }
        } else {
            None
        },
        SoModel::Transfer { so: inner, .. } => basic_triggers(*inner, w),
        SoModel::WithFeature { so: inner, .. } => basic_triggers(*inner, w),
    }
}

/// The label under the basic triggers, on models.
pub open spec fn basic_label(so: SoModel, w: Set<SoModel>) -> Option<LitModel>
    decreases so, 0nat,
{
    match so {
        SoModel::Lit(l) => Some(l),
        SoModel::SoSet(s) => if !ws_contains(w, so) {
            None
        } else if s.len() == 2 {
            match (basic_triggers(s[0], w), basic_triggers(s[1], w)) {
                (Some(tb), Some(tc)) => if tb != Set::<Seq<char>>::empty() && tc == Set::<
                    Seq<char>,
                >::empty() {
                    basic_label(s[0], w)
                } else if tc != Set::<Seq<char>>::empty() && tb == Set::<Seq<char>>::empty() {
                    basic_label(s[1], w)
                } else {
                    None
                },
                _ => None,
            }
        } else {
            None
        },
        SoModel::Transfer { so: inner, .. } => basic_label(*inner, w),
        SoModel::WithFeature { so: inner, .. } => basic_label(*inner, w),
    }
}

/// The basic triggers: the trigger features of a lexical item token are its
/// `wh`, `EPP` and category-selection features, and Merge checks one of them
/// at a time.
pub struct BasicTriggers;

impl Triggers for BasicTriggers {
    open spec fn spec_triggers(so: SoModel, w: Set<SoModel>) -> Option<Set<Seq<char>>> {
        basic_triggers(so, w)
    }

    fn triggers(so: &SyntacticObject, w: &Workspace) -> (r: Result<FeatureSet, ()>) {
        basic_triggers_of(so, w)
    }
}

/// Label under the basic triggers is the generic label for them.
pub proof fn lemma_basic_label(so: SoModel, w: Set<SoModel>)
    ensures
        spec_label::<BasicTriggers>(so, w) == basic_label(so, w),
    decreases so,
{
    match so {
        SoModel::SoSet(s) => {
            if s.len() == 2 {
                lemma_basic_label(s[0], w);
                lemma_basic_label(s[1], w);
            }
        },
        SoModel::Transfer { so: inner, .. } => {
            lemma_basic_label(*inner, w);
        },
        SoModel::WithFeature { so: inner, .. } => {
            lemma_basic_label(*inner, w);
        },
        _ => {},
    }
}

impl BasicTriggers {
    /// Check one trigger feature of `from` against `wrt`.
    fn check_tf(tfs: FeatureSet, wrt: &SyntacticObject, w: &Workspace) -> (r: Result<
        FeatureSet,
        (),
    >)
        ensures
            match r {
                Ok(s) => check_tf_model(tfs@, basic_label(wrt@, w@)) == Some(s@),
                Err(_) => check_tf_model(tfs@, basic_label(wrt@, w@)) is None,
            },
        decreases wrt, 1nat,
    {
        let ghost start = tfs@;
        let mut from = tfs;
        let label = match basic_label_of(wrt, w) {
            Ok(l) => l,
            Err(_) => {
                return Err(());
            },
        };
        let wrt_syn = &label.li.syn;
        let wh = wh_feature();
        if from.contains(&wh) && wrt_syn.contains(&wh) {
            from.remove(&wh);
            return Ok(from);
        }
        let ghost q = canon(from@);
        let ghost from0 = from@;
        from.lemma_canon();
        assert(q.skip(0) =~= q);
        let n = from.len();
        let mut i: usize = 0;
        while i < n
            invariant
                n == from@.len(),
                i <= n,
                from@ == from0,
                from0 == start,
                start == tfs@,
                q == canon(from0),
                wrt_syn@ == label@.li.syn,
                basic_label(wrt@, w@) == Some(label@),
                !(from0.contains(wh_model()) && wrt_syn@.contains(wh_model())),
                from.listing() == q,
                q.len() == n,
                first_selecting(q, wrt_syn@) == first_selecting(q.skip(i as int), wrt_syn@),
            decreases n - i,
        {
            let f = from.get(i);
            let ghost qi = q.skip(i as int);
            assert(qi[0] == f@);
            if f.is_catsel() {
                let cat = f.drop_prefix();
                if wrt_syn.contains(&cat) {
                    assert(selects(qi[0], wrt_syn@));
                    assert(first_selecting(qi, wrt_syn@) == Some(f@));
                    let ghost fv = f@;
                    let g = f.dup();
                    from.remove(&g);
                    assert(from@ == from0.remove(fv));
                    assert(first_selecting(canon(from0), wrt_syn@) == Some(fv));
                    assert(check_tf_model(from0, Some(label@)) == Some(from0.remove(fv)));

                    return Ok(from);
                }
            }
            assert(qi.drop_first() =~= q.skip(i + 1));
            i = i + 1;
        }
        let epp = epp_feature();
        if from.contains(&epp) {
            from.remove(&epp);
            return Ok(from);
        }
        Err(())
    }
}


/// The trigger features of the basic triggers.
fn basic_triggers_of(so: &SyntacticObject, w: &Workspace) -> (r: Result<FeatureSet, ()>)
    ensures
        match r {
            Ok(s) => basic_triggers(so@, w@) == Some(s@),
            Err(_) => basic_triggers(so@, w@) is None,
        },
    decreases so, 0nat,
{
    match so {
        SyntacticObject::LexicalItemToken(lit) => {
            let syn = &lit.li.syn;
            syn.lemma_canon();
            let ghost q = syn.listing();
            let wh = wh_feature();
            let epp = epp_feature();
            let mut r = FeatureSet::new();
            let n = syn.len();
            let mut i: usize = 0;
            while i < n
                invariant
                    n == q.len(),
                    q.len() == syn@.len(),
                    q == syn.listing(),
                    syn@ == q.to_set(),
                    i <= n,
                    wh@ == wh_model(),
                    epp@ == epp_model(),
                    r@ == q.take(i as int).to_set().filter(|f: Seq<char>| is_trigger_feature(f)),
                decreases n - i,
            {
                let f = syn.get(i);
                let ghost before = r@;
                let keep = f.same_as(&wh) || f.same_as(&epp) || f.is_catsel();
                assert(f@ == q[i as int]);
                assert(keep == is_trigger_feature(q[i as int]));
                if keep {
                    r.insert(f.dup());
                }
                assert(r@ == if keep { before.insert(q[i as int]) } else { before });
                let ghost t0 = q.take(i as int);
                let ghost t1 = q.take(i + 1);
                assert(r@ =~= t1.to_set().filter(|f: Seq<char>| is_trigger_feature(f))) by {
                    assert forall|x: Seq<char>| t1.to_set().contains(x) <==> (t0.to_set().contains(x)
                        || x == q[i as int]) by {
                        if t1.to_set().contains(x) {
                            let k = choose|k: int| 0 <= k < t1.len() && t1[k] == x;
                            if k < i {
                                assert(t0[k] == x);
                            }
                        }
                        if t0.to_set().contains(x) {
                            let k = choose|k: int| 0 <= k < t0.len() && t0[k] == x;
                            assert(t1[k] == x);
                        }
                        if x == q[i as int] {
                            assert(t1[i as int] == x);
                        }
                    }
                }
                i = i + 1;
            }
            assert(q.take(i as int) =~= q);
            assert(r@ =~= syn@.filter(|f: Seq<char>| is_trigger_feature(f)));
            Ok(r)
        },
        SyntacticObject::SoSet(set) => {
            proof {
                lemma_so_seq_view(set@);
                assert(decreases_to!(*so => so->SoSet_0));
            }
            if set.len() == 2 {
                let tfs_b = match basic_triggers_of(&set[0], w) {
                    Ok(t) => t,
                    Err(_) => {
                        return Err(());
                    },
                };
                let tfs_c = match basic_triggers_of(&set[1], w) {
                    Ok(t) => t,
                    Err(_) => {
                        return Err(());
                    },
                };
                if !tfs_b.is_empty() && tfs_c.is_empty() {
                    BasicTriggers::check_tf(tfs_b, &set[1], w)
                } else if !tfs_c.is_empty() && tfs_b.is_empty() {
                    BasicTriggers::check_tf(tfs_c, &set[0], w)
                } else {
                    Err(())
                }
            } else {
                Err(())
            }
        },
        SyntacticObject::Transfer { so: inner, .. } => basic_triggers_of(inner, w),
        SyntacticObject::WithFeature { so: inner, .. } => basic_triggers_of(inner, w),
    }
}

/// The label under the basic triggers.
fn basic_label_of<'a>(so: &'a SyntacticObject, w: &Workspace) -> (r: Result<
    &'a LexicalItemToken,
    (),
>)
    ensures
        match r {
            Ok(l) => basic_label(so@, w@) == Some(l@),
            Err(_) => basic_label(so@, w@) is None,
        },
    decreases so, 0nat,
{
    match so {
        SyntacticObject::LexicalItemToken(lit) => Ok(lit),
        SyntacticObject::SoSet(set) => {
            if !w.contains(so) {
                return Err(());
            }
            proof {
                lemma_so_seq_view(set@);
                assert(decreases_to!(*so => so->SoSet_0));
            }
            if set.len() == 2 {
                let tfs_b = match basic_triggers_of(&set[0], w) {
                    Ok(t) => t,
                    Err(_) => {
                        return Err(());
                    },
                };
                let tfs_c = match basic_triggers_of(&set[1], w) {
                    Ok(t) => t,
                    Err(_) => {
                        return Err(());
                    },
                };
                if !tfs_b.is_empty() && tfs_c.is_empty() {
                    basic_label_of(&set[0], w)
                } else if !tfs_c.is_empty() && tfs_b.is_empty() {
                    basic_label_of(&set[1], w)
                } else {
                    Err(())
                }
            } else {
                Err(())
            }
        },
        SyntacticObject::Transfer { so: inner, .. } => basic_label_of(inner, w),
        SyntacticObject::WithFeature { so: inner, .. } => basic_label_of(inner, w),
    }
}

} // verus!
