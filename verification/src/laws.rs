//! Properties that hold across the operations of the library.

use vstd::prelude::*;

use crate::deriv::li::LiModel;
use crate::deriv::lit::LitModel;
use crate::deriv::occur::{
    children, contained_occurrences_model, lemma_occ_list_valid, proper_prefix, valid_position,
};
use crate::deriv::so::{
    is_complement_model, is_final_model, is_specifier_model,
    c_commands_model, equiv_in, in_equiv, lemma_equiv_in, lemma_in_equiv, lemma_so_equiv_cases,
    lemma_so_equiv_unfold, preorder, preorder_rev, sisters_model, so_binary_branching, so_contains,
    so_equiv, so_immediately_contains, SoModel,
};
use crate::deriv::{
    derivation_model, derive_by_merge_model, derive_by_select_model, derive_by_transfer_model,
    derive_step_model, equiv_in_ws, merge_gives, select_gives, transfer_attempt_model, ws_equiv,
    ws_has_equiv, StageModel,
};
use crate::feature::{canon, epp_model, lemma_canon_finite, wh_model};
use crate::labels::{
    basic_label, basic_triggers, check_tf_model, first_selecting, is_trigger_feature, selects, Triggers,
};
use crate::ops::{
    unwind_action, unwind_children_model, unwind_model, UnwindAction, transfer_pf_model, cyclic_transfer_model, select_model, token_merge_model, transfer_model, triggered_merge_model,
    MergeError,
};
use crate::cli::engine::{set_lex_post, set_ug_post, Engine, EngineError, Report};
use crate::cli::eval::{eval_list, eval_model};
use crate::cli::parsers::{ExprModel, RawValueModel};
use crate::cli::tyck::{so_rank, tyck_model};
use crate::cli::conv::{
    so_list, to_feature_set_model, to_feature_vec_model, to_lexical_item_token_model, to_so_model,
};
use crate::cli::{
    feature_set_type_model, feature_vec_type_model, lexical_item_token_type_model,
    lexical_item_type_model, transferred_so_type_model, TypeModel, ValueModel,
};

verus! {

/// Immediate containment is containment: if B immediately contains A, then B
/// contains A.
pub proof fn law_immediate_containment_is_containment(b: SoModel, a: SoModel)
    requires
        so_immediately_contains(b, a),
    ensures
        so_contains(b, a),
{
}

/// Containment is transitive: if C contains B and B contains A, then C
/// contains A.
pub proof fn law_containment_transitive(c: SoModel, b: SoModel, a: SoModel)
    requires
        so_contains(c, b),
        so_contains(b, a),
    ensures
        so_contains(c, a),
    decreases c,
{
    match c {
        SoModel::Lit(_) => {},
        SoModel::SoSet(s) => {
            if s.contains(b) {
                let i = choose|i: int| 0 <= i < s.len() && s[i] == b;
                assert(so_contains(s[i], a));
            } else {
                let i = choose|i: int| 0 <= i < s.len() && so_contains(#[trigger] s[i], b);
                law_containment_transitive(s[i], b, a);
            }
        },
        SoModel::Transfer { so, .. } => {
            if *so != b {
                law_containment_transitive(*so, b, a);
            }
        },
        SoModel::WithFeature { so, .. } => {
            if *so != b {
                law_containment_transitive(*so, b, a);
            }
        },
    }
}

/// The height of a syntactic object: how deep its sets, and the objects that
/// transferred objects hold, nest.
pub open spec fn so_height(x: SoModel) -> nat
    decreases x, 1nat,
{
    match x {
        SoModel::Lit(_) => 0,
        SoModel::SoSet(s) => 1 + height_max(s, s.len()),
        SoModel::Transfer { so, .. } => 1 + so_height(*so),
        SoModel::WithFeature { so, .. } => 1 + so_height(*so),
    }
}

/// The greatest height among `s[0]`, ..., `s[n - 1]`.
pub open spec fn height_max(s: Seq<SoModel>, n: nat) -> nat
    decreases s, n,
{
    if n == 0 || n > s.len() {
        0
    } else {
        let h = so_height(s[n - 1]);
        let m = height_max(s, (n - 1) as nat);
        if h > m {
            h
        } else {
            m
        }
    }
}

/// Each of the first `n` members is no higher than their greatest height.
proof fn lemma_height_max(s: Seq<SoModel>, n: nat, i: int)
    requires
        n <= s.len(),
        0 <= i < n,
    ensures
        so_height(s[i]) <= height_max(s, n),
    decreases n,
{
    if i < n - 1 {
        lemma_height_max(s, (n - 1) as nat, i);
    }
}

/// What an object contains is lower than the object.
pub proof fn lemma_contained_lower(b: SoModel, a: SoModel)
    requires
        so_contains(b, a),
    ensures
        so_height(a) < so_height(b),
    decreases b,
{
    match b {
        SoModel::Lit(_) => {},
        SoModel::SoSet(s) => {
            if s.contains(a) {
                let i = choose|i: int| 0 <= i < s.len() && s[i] == a;
                lemma_height_max(s, s.len(), i);
            } else {
                let i = choose|i: int| 0 <= i < s.len() && so_contains(#[trigger] s[i], a);
                lemma_contained_lower(s[i], a);
                lemma_height_max(s, s.len(), i);
            }
        },
        SoModel::Transfer { so, .. } => {
            if *so != a {
                lemma_contained_lower(*so, a);
            }
        },
        SoModel::WithFeature { so, .. } => {
            if *so != a {
                lemma_contained_lower(*so, a);
            }
        },
    }
}

/// Nothing contains itself.
pub proof fn law_nothing_contains_itself(x: SoModel)
    ensures
        !so_contains(x, x),
{
    if so_contains(x, x) {
        lemma_contained_lower(x, x);
    }
}

/// Merge does not depend on the order of its arguments, up to the order of
/// the members of the pair: Merge(A, B) fails exactly when Merge(B, A) does,
/// and otherwise the two pairs are the same set.
pub proof fn law_merge_symmetric_up_to_order(a: SoModel, b: SoModel)
    ensures
        token_merge_model(a, b) is Err <==> token_merge_model(b, a) is Err,
        token_merge_model(a, b) is Ok ==> so_equiv(
            token_merge_model(a, b)->Ok_0,
            token_merge_model(b, a)->Ok_0,
        ),
{
    if a != b {
        let xs = seq![a, b];
        let ys = seq![b, a];
        law_so_equiv_reflexive(a);
        law_so_equiv_reflexive(b);
        assert forall|i: int| 0 <= i < xs.len() implies equiv_in(#[trigger] xs[i], ys, ys.len()) by {
            lemma_equiv_in(xs[i], ys, ys.len());
            if i == 0 {
                assert(so_equiv(xs[i], ys[1]));
            } else {
                assert(so_equiv(xs[i], ys[0]));
            }
        }
        assert forall|j: int| 0 <= j < ys.len() implies in_equiv(xs, #[trigger] ys[j], xs.len()) by {
            lemma_in_equiv(xs, ys[j], xs.len());
            if j == 0 {
                assert(so_equiv(xs[1], ys[j]));
            } else {
                assert(so_equiv(xs[0], ys[j]));
            }
        }
        lemma_so_equiv_unfold(xs, ys);
    }
}

/// Whether the syntactic features of every lexical item token in an object
/// form a finite set, as those of every object that the library builds do.
pub open spec fn finite_features(x: SoModel) -> bool
    decreases x,
{
    match x {
        SoModel::Lit(l) => l.li.syn.finite(),
        SoModel::SoSet(s) => 0 <= s.len() && forall|i: int| 0 <= i < s.len() ==> finite_features(#[trigger] s[i]),
        SoModel::Transfer { so, .. } => finite_features(*so),
        SoModel::WithFeature { so, .. } => finite_features(*so),
    }
}

/// The feature that checking picks among `q` is one of `q`.
proof fn lemma_first_selecting_in(q: Seq<Seq<char>>, syn: Set<Seq<char>>)
    ensures
        first_selecting(q, syn) matches Some(f) ==> q.contains(f),
    decreases q.len(),
{
    if q.len() > 0 && !selects(q[0], syn) {
        lemma_first_selecting_in(q.drop_first(), syn);
        if first_selecting(q, syn) is Some {
            let f = first_selecting(q, syn)->Some_0;
            let k = choose|k: int| 0 <= k < q.drop_first().len() && q.drop_first()[k] == f;
            assert(q[k + 1] == f);
        }
    } else if q.len() > 0 {
        assert(q[0] == q[0]);
    }
}

/// Checking a trigger feature of a finite set removes exactly one of its
/// features.
proof fn lemma_check_tf_removes_one(from: Set<Seq<char>>, label: Option<LitModel>)
    requires
        from.finite(),
    ensures
        check_tf_model(from, label) matches Some(t) ==> exists|tf: Seq<char>| #[trigger] from.contains(tf)
            && t == from.remove(tf),
{
    if check_tf_model(from, label) is Some {
        let t = check_tf_model(from, label)->Some_0;
        let syn = label->Some_0.li.syn;
        if from.contains(wh_model()) && syn.contains(wh_model()) {
            assert(from.contains(wh_model()) && t == from.remove(wh_model()));
        } else {
            lemma_canon_finite(from);
            lemma_first_selecting_in(canon(from), syn);
            match first_selecting(canon(from), syn) {
                Some(f) => {
                    assert(canon(from).to_set().contains(f));
                    assert(from.contains(f) && t == from.remove(f));
                },
                None => {
                    assert(from.contains(epp_model()) && t == from.remove(epp_model()));
                },
            }
        }
    }
}

/// The trigger features of an object whose tokens have finitely many
/// syntactic features are finite.
proof fn lemma_basic_triggers_finite(x: SoModel, w: Set<SoModel>)
    requires
        finite_features(x),
    ensures
        basic_triggers(x, w) matches Some(t) ==> t.finite(),
    decreases x,
{
    match x {
        SoModel::Lit(l) => {
            l.li.syn.lemma_len_filter(|f: Seq<char>| is_trigger_feature(f));
        },
        SoModel::SoSet(s) => {
            if s.len() == 2 {
                lemma_basic_triggers_finite(s[0], w);
                lemma_basic_triggers_finite(s[1], w);
            }
        },
        SoModel::Transfer { so, .. } => {
            lemma_basic_triggers_finite(*so, w);
        },
        SoModel::WithFeature { so, .. } => {
            lemma_basic_triggers_finite(*so, w);
        },
    }
}

/// Triggers of a set (Definition 26): a set has trigger features only where
/// it is a pair {B, C} in which B has some and C has none; its trigger
/// features are then those of B less exactly one of them.
pub proof fn law_set_triggers_lose_one(s: Seq<SoModel>, w: Set<SoModel>)
    requires
        finite_features(SoModel::SoSet(s)),
    ensures
        basic_triggers(SoModel::SoSet(s), w) matches Some(t) ==> {
            &&& s.len() == 2
            &&& exists|b: int| #![trigger s[b]] 0 <= b < 2 && {
                let c = 1 - b;
                &&& basic_triggers(s[b], w) is Some
                &&& basic_triggers(s[b], w)->Some_0 != Set::<Seq<char>>::empty()
                &&& basic_triggers(s[c], w) == Some(Set::<Seq<char>>::empty())
                &&& exists|tf: Seq<char>| #[trigger] basic_triggers(s[b], w)->Some_0.contains(tf)
                    && t == basic_triggers(s[b], w)->Some_0.remove(tf)
            }
        },
{
    if basic_triggers(SoModel::SoSet(s), w) is Some {
        assert(s.len() == 2);
        lemma_basic_triggers_finite(s[0], w);
        lemma_basic_triggers_finite(s[1], w);
        let tb = basic_triggers(s[0], w)->Some_0;
        let tc = basic_triggers(s[1], w)->Some_0;
        if tb != Set::<Seq<char>>::empty() && tc == Set::<Seq<char>>::empty() {
            lemma_check_tf_removes_one(tb, basic_label(s[1], w));
            assert(s[0] == s[0]);
        } else {
            lemma_check_tf_removes_one(tc, basic_label(s[0], w));
            assert(s[1] == s[1]);
        }
    }
}

/// Whether no object within `so` carries a checked feature.
pub open spec fn no_checked_feature(so: SoModel) -> bool
    decreases so,
{
    match so {
        SoModel::Lit(_) => true,
        SoModel::SoSet(s) => forall|i: int| 0 <= i < s.len() ==> no_checked_feature(#[trigger] s[i]),
        SoModel::Transfer { so, .. } => no_checked_feature(*so),
        SoModel::WithFeature { .. } => false,
    }
}

/// A walk of the members `s[0]`, ..., `s[n - 1]` visits `x` exactly when one
/// of them is `x` or contains it.
proof fn lemma_walk_rev_contains(s: Seq<SoModel>, n: nat, x: SoModel)
    requires
        n <= s.len(),
        forall|i: int|
            0 <= i < s.len() ==> (preorder(#[trigger] s[i], true).drop_first().contains(x) <==> so_contains(
                s[i],
                x,
            )),
    ensures
        preorder_rev(s, n, true).contains(x) <==> exists|i: int|
            0 <= i < n && (s[i] == x || so_contains(#[trigger] s[i], x)),
    decreases n,
{
    if n > 0 {
        lemma_walk_rev_contains(s, (n - 1) as nat, x);
        let k = n - 1;
        let p = preorder(s[k], true);
        let r = preorder_rev(s, (n - 1) as nat, true);
        assert(preorder_rev(s, n, true) == p + r);
        assert(p[0] == s[k]) by {
            lemma_preorder_head(s[k], true);
        }
        assert(p =~= seq![s[k]] + p.drop_first());
        if (p + r).contains(x) {
            let j = choose|j: int| 0 <= j < (p + r).len() && (p + r)[j] == x;
            if j == 0 {
                assert(s[k] == x);
            } else if j < p.len() {
                assert(p.drop_first()[j - 1] == x);
                assert(p.drop_first().contains(x));
            } else {
                assert(r[j - p.len()] == x);
                assert(r.contains(x));
            }
        }
        if exists|i: int| 0 <= i < n && (s[i] == x || so_contains(#[trigger] s[i], x)) {
            let i = choose|i: int| 0 <= i < n && (s[i] == x || so_contains(#[trigger] s[i], x));
            if i == k {
                if s[k] == x {
                    assert((p + r)[0] == x);
                } else {
                    assert(p.drop_first().contains(x));
                    let j = choose|j: int| 0 <= j < p.drop_first().len() && p.drop_first()[j] == x;
                    assert((p + r)[j + 1] == x);
                }
            } else {
                assert(r.contains(x));
                let j = choose|j: int| 0 <= j < r.len() && r[j] == x;
                assert((p + r)[p.len() + j] == x);
            }
        }
    }
}

/// A walk starts with the object it walks.
proof fn lemma_preorder_head(so: SoModel, d: bool)
    ensures
        preorder(so, d).len() >= 1,
        preorder(so, d)[0] == so,
{
}

/// The walk of a syntactic object that enters transferred objects, leaving
/// out the object itself (what `contained_sos(false, true)` lists), visits
/// exactly the objects that it contains, where no object in it carries a
/// checked feature.
pub proof fn law_walk_is_containment(so: SoModel, x: SoModel)
    requires
        no_checked_feature(so),
    ensures
        preorder(so, true).drop_first().contains(x) <==> so_contains(so, x),
    decreases so,
{
    match so {
        SoModel::Lit(_) => {
            assert(preorder(so, true).drop_first() =~= Seq::<SoModel>::empty());
        },
        SoModel::SoSet(s) => {
            assert forall|i: int| 0 <= i < s.len() implies (preorder(#[trigger] s[i], true).drop_first().contains(
                x,
            ) <==> so_contains(s[i], x)) by {
                law_walk_is_containment(s[i], x);
            }
            lemma_walk_rev_contains(s, s.len(), x);
            assert(preorder(so, true).drop_first() =~= preorder_rev(s, s.len(), true));
            if s.contains(x) {
                let i = choose|i: int| 0 <= i < s.len() && s[i] == x;
                assert(s[i] == x || so_contains(s[i], x));
            }
            if exists|i: int| 0 <= i < s.len() && (s[i] == x || so_contains(#[trigger] s[i], x)) {
                let i = choose|i: int| 0 <= i < s.len() && (s[i] == x || so_contains(#[trigger] s[i], x));
                if s[i] == x {
                    assert(s.contains(x));
                }
            }
        },
        SoModel::Transfer { so: inner, .. } => {
            law_walk_is_containment(*inner, x);
            let p = preorder(*inner, true);
            lemma_preorder_head(*inner, true);
            assert(preorder(so, true).drop_first() =~= p);
            assert(p =~= seq![*inner] + p.drop_first());
            if p.contains(x) {
                let j = choose|j: int| 0 <= j < p.len() && p[j] == x;
                if j > 0 {
                    assert(p.drop_first()[j - 1] == x);
                }
            }
            if so_contains(*inner, x) {
                let j = choose|j: int| 0 <= j < p.drop_first().len() && p.drop_first()[j] == x;
                assert(p[j + 1] == x);
            }
            if *inner == x {
                assert(p[0] == x);
            }
        },
        SoModel::WithFeature { .. } => {},
    }
}

/// Merge forms the pair {A, B}: its result immediately contains both A and B,
/// which are sisters in it.
pub proof fn law_merge_forms_sisters(a: SoModel, b: SoModel)
    requires
        token_merge_model(a, b) is Ok,
    ensures
        so_immediately_contains(token_merge_model(a, b)->Ok_0, a),
        so_immediately_contains(token_merge_model(a, b)->Ok_0, b),
        sisters_model(a, b, token_merge_model(a, b)->Ok_0),
{
    assert(seq![a, b][0] == a);
    assert(seq![a, b][1] == b);
}

/// Merge keeps binary branching: the Merge of two binary-branching objects is
/// binary branching.
pub proof fn law_merge_binary_branching(a: SoModel, b: SoModel)
    requires
        token_merge_model(a, b) is Ok,
        so_binary_branching(a),
        so_binary_branching(b),
    ensures
        so_binary_branching(token_merge_model(a, b)->Ok_0),
{
    let s = seq![a, b];
    assert(forall|i: int| 0 <= i < s.len() ==> #[trigger] s[i] == a || s[i] == b);
}

/// Triggered Merge is not symmetric: where Merge(A, B) succeeds, Merge(B, A)
/// fails, because B has no trigger feature.
pub proof fn law_triggered_merge_not_symmetric<T: Triggers>(a: SoModel, b: SoModel, w: Set<SoModel>)
    requires
        triggered_merge_model::<T>(a, b, w) is Ok,
    ensures
        triggered_merge_model::<T>(b, a, w) == Err::<SoModel, MergeError>(MergeError::NoTriggerOnA),
        triggered_merge_model::<T>(a, b, w) == token_merge_model(a, b),
{
}

/// Sisterhood is symmetric.
pub proof fn law_sisters_symmetric(a: SoModel, b: SoModel, under: SoModel)
    ensures
        sisters_model(a, b, under) <==> sisters_model(b, a, under),
{
}

/// The members of a set are visited by the walk of any longer prefix of it.
proof fn lemma_member_in_walk_rev(s: Seq<SoModel>, n: nat, i: int, d: bool)
    requires
        0 <= i < n <= s.len(),
    ensures
        preorder_rev(s, n, d).contains(s[i]),
    decreases n,
{
    let p = preorder(s[n - 1], d);
    let r = preorder_rev(s, (n - 1) as nat, d);
    assert(preorder_rev(s, n, d) == p + r);
    if i == n - 1 {
        lemma_preorder_head(s[i], d);
        assert((p + r)[0] == s[i]);
    } else {
        lemma_member_in_walk_rev(s, (n - 1) as nat, i, d);
        let j = choose|j: int| 0 <= j < r.len() && r[j] == s[i];
        assert((p + r)[p.len() + j] == s[i]);
    }
}

/// A sister c-commands: if A and B are sisters in D, then A c-commands B in
/// D.
pub proof fn law_sister_c_commands(a: SoModel, b: SoModel, under: SoModel)
    requires
        sisters_model(a, b, under),
    ensures
        c_commands_model(a, b, under),
{
    match under {
        SoModel::SoSet(s) => {
            let i = choose|i: int| 0 <= i < s.len() && s[i] == b;
            lemma_member_in_walk_rev(s, s.len(), i, false);
            assert(preorder(under, false).drop_first() =~= preorder_rev(s, s.len(), false));
            assert(preorder(under, false).drop_first().contains(b));
            assert(sisters_model(b, a, under));
        },
        _ => {},
    }
}

/// Select moves a token from the lexical array into the workspace: after
/// Select(A, S), A is no longer in the lexical array, the workspace holds A,
/// and everything else is kept.
pub proof fn law_select_moves_token(a: LitModel, s: StageModel)
    requires
        s.la.contains(a),
    ensures
        select_model(a, s) is Some,
        !select_model(a, s)->Some_0.la.contains(a),
        select_model(a, s)->Some_0.w.contains(SoModel::Lit(a)),
        select_model(a, s)->Some_0.la.insert(a) == s.la,
        s.w.subset_of(select_model(a, s)->Some_0.w),
{
    assert(s.la.remove(a).insert(a) =~= s.la);
}

/// Transfer keeps the object it transfers: its result is a transferred
/// object that holds it.
pub proof fn law_transfer_keeps_object<T: Triggers>(phase: SoModel, so: SoModel, w: Set<SoModel>)
    requires
        transfer_model::<T>(phase, so, w) is Some,
    ensures
        transfer_model::<T>(phase, so, w)->Some_0 is Transfer,
        *transfer_model::<T>(phase, so, w)->Some_0->Transfer_so == so,
{
}

/// Transfer spells out a head before its complement (PF): in a pair of a
/// lexical item token H and its complement C, written in either order, where
/// H is final, PF is that of H followed by that of C where C is final, and
/// that of H alone where C is not.
pub proof fn law_head_before_complement<T: Triggers>(phase: SoModel, s: Seq<SoModel>, h_at: int, w: Set<SoModel>)
    requires
        s.len() == 2,
        0 <= h_at < 2,
        s[h_at] is Lit,
        is_complement_model::<T>(s[1 - h_at], s[h_at], SoModel::SoSet(s), w),
        is_final_model(s[h_at], SoModel::SoSet(s), phase),
        transfer_pf_model::<T>(phase, s[h_at], w) is Some,
        is_final_model(s[1 - h_at], SoModel::SoSet(s), phase) ==> transfer_pf_model::<T>(phase, s[1 - h_at], w) is Some,
    ensures
        transfer_pf_model::<T>(phase, SoModel::SoSet(s), w) == if is_final_model(s[1 - h_at], SoModel::SoSet(s), phase) {
            Some(transfer_pf_model::<T>(phase, s[h_at], w)->Some_0 + transfer_pf_model::<T>(phase, s[1 - h_at], w)->Some_0)
        } else {
            transfer_pf_model::<T>(phase, s[h_at], w)
        },
{
    let so = SoModel::SoSet(s);
    let h = s[h_at];
    let c = s[1 - h_at];
    if h_at == 1 {
        // H has trigger features (it merged with C), so C cannot have merged
        // with H; and H is no set, so C is no specifier of it.
        assert(!is_complement_model::<T>(h, c, so, w));
        assert(!is_specifier_model::<T>(c, h, so, w));
    }
}

/// Transfer spells out a specifier before its sister (PF): in a pair {X, Y}
/// in which X is the specifier of Y and both are final, written in either
/// order, PF is that of X followed by that of Y.
pub proof fn law_specifier_before_sister<T: Triggers>(phase: SoModel, s: Seq<SoModel>, x_at: int, w: Set<SoModel>)
    requires
        s.len() == 2,
        0 <= x_at < 2,
        is_specifier_model::<T>(s[x_at], s[1 - x_at], SoModel::SoSet(s), w),
        is_final_model(s[x_at], SoModel::SoSet(s), phase),
        is_final_model(s[1 - x_at], SoModel::SoSet(s), phase),
        transfer_pf_model::<T>(phase, s[x_at], w) is Some,
        transfer_pf_model::<T>(phase, s[1 - x_at], w) is Some,
    ensures
        transfer_pf_model::<T>(phase, SoModel::SoSet(s), w) == Some(
            transfer_pf_model::<T>(phase, s[x_at], w)->Some_0 + transfer_pf_model::<T>(phase, s[1 - x_at], w)->Some_0,
        ),
{
    let so = SoModel::SoSet(s);
    let x = s[x_at];
    let y = s[1 - x_at];
    // Y merged with X: Y has trigger features, X has none, and Y is a set.
    assert(!is_complement_model::<T>(y, x, so, w));
    if x_at == 1 {
        assert(!is_complement_model::<T>(x, y, so, w));
        assert(!is_specifier_model::<T>(y, x, so, w));
    }
}

/// The trigger features of a lexical item token are exactly those of its
/// syntactic features that are `wh`, `EPP`, or a category-selection feature
/// (one that starts with `=`).
pub proof fn law_token_triggers(l: LitModel, w: Set<SoModel>)
    ensures
        basic_triggers(SoModel::Lit(l), w) is Some,
        forall|f: Seq<char>| #[trigger] basic_triggers(SoModel::Lit(l), w)->Some_0.contains(f) <==> (l.li.syn.contains(f)
            && (f == seq!['w', 'h'] || f == seq!['E', 'P', 'P'] || (f.len() > 0 && f[0] == '='))),
{
}

/// A walk of the members of a set visits each member.
proof fn lemma_walk_rev_has_member(s: Seq<SoModel>, n: nat, i: int, d: bool)
    requires
        n <= s.len(),
        0 <= i < n,
    ensures
        preorder_rev(s, n, d).contains(s[i]),
    decreases n,
{
    let p = preorder(s[n - 1], d);
    let r = preorder_rev(s, (n - 1) as nat, d);
    assert(preorder_rev(s, n, d) == p + r);
    if i == n - 1 {
        lemma_preorder_head(s[i], d);
        assert((p + r)[0] == s[i]);
    } else {
        lemma_walk_rev_has_member(s, (n - 1) as nat, i, d);
        let k = choose|k: int| 0 <= k < r.len() && r[k] == s[i];
        assert((p + r)[p.len() + k] == s[i]);
    }
}

/// C-command reaches all the way down (Definition 21): where A and C are
/// sisters in D, A c-commands C and everything that C contains, at any
/// depth.
pub proof fn law_sister_c_commands_all_it_contains(a: SoModel, c: SoModel, b: SoModel, under: SoModel)
    requires
        sisters_model(a, c, under),
        b == c || so_contains(c, b),
    ensures
        c_commands_model(a, b, under),
{
    let s = under->SoSet_0;
    let i = choose|i: int| 0 <= i < s.len() && s[i] == c;
    lemma_walk_rev_has_member(s, s.len(), i, false);
    assert(preorder(under, false).drop_first() =~= preorder_rev(s, s.len(), false));
    assert(preorder(under, false).drop_first().contains(c));
    assert(sisters_model(c, a, under));
}

/// Select takes the selected token out of the lexical array: where S2 comes
/// from S1 by Derive-by-Select, the lexical array of S2 is that of S1 less
/// one of its tokens A, and the workspace of S2 is that of S1 with A added;
/// so no stage that keeps the lexical array of S1 comes from S1 by Select.
pub proof fn law_select_takes_token_out(s1: StageModel, s2: StageModel)
    ensures
        derive_by_select_model(s1, s2) ==> exists|a: LitModel| #[trigger] s1.la.contains(a) && !s2.la.contains(a)
            && s2.la == s1.la.remove(a) && ws_equiv(s1.w.insert(SoModel::Lit(a)), s2.w),
        s2.la == s1.la ==> !derive_by_select_model(s1, s2),
{
    reveal(derive_by_select_model);
    if derive_by_select_model(s1, s2) {
        let a = choose|a: LitModel| #[trigger] s1.la.contains(a) && select_gives(a, s1, s2);
        assert(s2.la == s1.la.remove(a));
        assert(!s2.la.contains(a));
    }
}

/// The pair {A, B} is the same set as {B, A}.
proof fn lemma_pair_swap_equiv(a: SoModel, b: SoModel)
    ensures
        so_equiv(SoModel::SoSet(seq![a, b]), SoModel::SoSet(seq![b, a])),
{
    let xs = seq![a, b];
    let ys = seq![b, a];
    law_so_equiv_reflexive(a);
    law_so_equiv_reflexive(b);
    assert forall|i: int| 0 <= i < xs.len() implies equiv_in(#[trigger] xs[i], ys, ys.len()) by {
        lemma_equiv_in(xs[i], ys, ys.len());
        if i == 0 {
            assert(so_equiv(xs[i], ys[1]));
        } else {
            assert(so_equiv(xs[i], ys[0]));
        }
    }
    assert forall|j: int| 0 <= j < ys.len() implies in_equiv(xs, #[trigger] ys[j], xs.len()) by {
        lemma_in_equiv(xs, ys[j], xs.len());
        if j == 0 {
            assert(so_equiv(xs[1], ys[j]));
        } else {
            assert(so_equiv(xs[0], ys[j]));
        }
    }
    lemma_so_equiv_unfold(xs, ys);
}

/// Cyclic-Transfer does not depend on the order in which the members of a
/// pair are written, where neither member is the complement of the head: it
/// succeeds on {A, B} exactly when it succeeds below A or below B, and it
/// gives on {B, A} the same rebuilt members in the other order.
pub proof fn law_cyclic_transfer_ignores_order<T: Triggers>(a: SoModel, b: SoModel, head: SoModel, w: Set<SoModel>)
    requires
        !is_complement_model::<T>(a, head, SoModel::SoSet(seq![a, b]), w),
        !is_complement_model::<T>(b, head, SoModel::SoSet(seq![a, b]), w),
        unwind_model::<T>(a, head, w) is Some,
        unwind_model::<T>(b, head, w) is Some,
    ensures
        unwind_model::<T>(SoModel::SoSet(seq![a, b]), head, w) is Some,
        unwind_model::<T>(SoModel::SoSet(seq![a, b]), head, w)->Some_0 is Ok <==> (unwind_model::<T>(a, head, w)->Some_0 is Ok
            || unwind_model::<T>(b, head, w)->Some_0 is Ok),
        unwind_model::<T>(SoModel::SoSet(seq![b, a]), head, w)->Some_0 is Ok <==> unwind_model::<T>(
            SoModel::SoSet(seq![a, b]),
            head,
            w,
        )->Some_0 is Ok,
        ({
            let ra = match unwind_model::<T>(a, head, w)->Some_0 { Ok(x) => x, Err(x) => x };
            let rb = match unwind_model::<T>(b, head, w)->Some_0 { Ok(x) => x, Err(x) => x };
            let r1 = match unwind_model::<T>(SoModel::SoSet(seq![a, b]), head, w)->Some_0 { Ok(x) => x, Err(x) => x };
            let r2 = match unwind_model::<T>(SoModel::SoSet(seq![b, a]), head, w)->Some_0 { Ok(x) => x, Err(x) => x };
            r1 == SoModel::SoSet(seq![ra, rb]) && r2 == SoModel::SoSet(seq![rb, ra])
        }),
{
    let so1 = SoModel::SoSet(seq![a, b]);
    let so2 = SoModel::SoSet(seq![b, a]);
    lemma_pair_swap_equiv(a, b);
    lemma_pair_swap_equiv(b, a);
    // Being the complement of the head does not depend on the order.
    assert(!is_complement_model::<T>(a, head, so2, w)) by {
        if is_complement_model::<T>(a, head, so2, w) {
            let m = triggered_merge_model::<T>(head, a, w)->Ok_0;
            law_so_equiv_transitive(so1, so2, m);
        }
    }
    assert(!is_complement_model::<T>(b, head, so2, w)) by {
        if is_complement_model::<T>(b, head, so2, w) {
            let m = triggered_merge_model::<T>(head, b, w)->Ok_0;
            law_so_equiv_transitive(so1, so2, m);
        }
    }
    lemma_unwind_pair::<T>(a, b, head, w);
    lemma_unwind_pair::<T>(b, a, head, w);
}

/// Cyclic-Transfer below the head on a pair neither member of which is the
/// complement of the head goes into each member in turn.
proof fn lemma_unwind_pair<T: Triggers>(a: SoModel, b: SoModel, head: SoModel, w: Set<SoModel>)
    requires
        !is_complement_model::<T>(a, head, SoModel::SoSet(seq![a, b]), w),
        !is_complement_model::<T>(b, head, SoModel::SoSet(seq![a, b]), w),
        unwind_model::<T>(a, head, w) is Some,
        unwind_model::<T>(b, head, w) is Some,
    ensures
        ({
            let ua = unwind_model::<T>(a, head, w)->Some_0;
            let ub = unwind_model::<T>(b, head, w)->Some_0;
            let ra = match ua { Ok(x) => x, Err(x) => x };
            let rb = match ub { Ok(x) => x, Err(x) => x };
            unwind_model::<T>(SoModel::SoSet(seq![a, b]), head, w) == if ua is Ok || ub is Ok {
                Some(Ok(SoModel::SoSet(seq![ra, rb])))
            } else {
                Some(Err(SoModel::SoSet(seq![ra, rb])))
            }
        }),
{
    let s = seq![a, b];
    let so = SoModel::SoSet(s);
    let ua = unwind_model::<T>(a, head, w)->Some_0;
    let ub = unwind_model::<T>(b, head, w)->Some_0;
    let ra = match ua { Ok(x) => x, Err(x) => x };
    let rb = match ub { Ok(x) => x, Err(x) => x };
    assert(s[0] == a && s[1] == b);
    assert(unwind_action::<T>(so, s, head, w) == UnwindAction::Unwind);
    assert(unwind_children_model::<T>(s, 0, head, w) == Some((Seq::<SoModel>::empty(), false)));
    let c1 = unwind_children_model::<T>(s, 1, head, w);
    assert(c1 == Some((Seq::<SoModel>::empty().push(ra), ua is Ok)));
    let c2 = unwind_children_model::<T>(s, 2, head, w);
    assert(c2 == Some((Seq::<SoModel>::empty().push(ra).push(rb), ua is Ok || ub is Ok)));
    assert(Seq::<SoModel>::empty().push(ra).push(rb) =~= seq![ra, rb]);
}

/// A single stage is a derivation when its lexical array holds only tokens of
/// lexical items of the lexicon and its workspace is empty.
pub proof fn law_single_stage_derivation<T: Triggers>(lex: Set<LiModel>, s: StageModel)
    requires
        forall|l: LitModel| #[trigger] s.la.contains(l) ==> lex.contains(l.li),
        s.w == Set::<SoModel>::empty(),
    ensures
        derivation_model::<T>(lex, seq![s]),
{
    reveal(derivation_model);
}

/// Every nonempty prefix of a derivation is a derivation.
pub proof fn law_derivation_prefix<T: Triggers>(lex: Set<LiModel>, stages: Seq<StageModel>, k: int)
    requires
        derivation_model::<T>(lex, stages),
        1 <= k <= stages.len(),
    ensures
        derivation_model::<T>(lex, stages.take(k)),
{
    reveal(derivation_model);
    let t = stages.take(k);
    assert forall|i: int| 0 <= i < t.len() - 1 implies derive_step_model::<T>(#[trigger] t[i], t[i + 1]) by {
        assert(t[i] == stages[i]);
        assert(t[i + 1] == stages[i + 1]);
    }
}

/// A derivation extended by a stage that is derived from its last stage is a
/// derivation.
pub proof fn law_derivation_extend<T: Triggers>(lex: Set<LiModel>, stages: Seq<StageModel>, s: StageModel)
    requires
        derivation_model::<T>(lex, stages),
        derive_step_model::<T>(stages.last(), s),
    ensures
        derivation_model::<T>(lex, stages.push(s)),
{
    reveal(derivation_model);
    let t = stages.push(s);
    assert forall|i: int| 0 <= i < t.len() - 1 implies derive_step_model::<T>(#[trigger] t[i], t[i + 1]) by {
        if i < stages.len() - 1 {
            assert(t[i] == stages[i]);
            assert(t[i + 1] == stages[i + 1]);
        } else {
            assert(t[i] == stages.last());
            assert(t[i + 1] == s);
        }
    }
}

/// Every syntactic object is the same as itself.
pub proof fn law_so_equiv_reflexive(a: SoModel)
    ensures
        so_equiv(a, a),
    decreases a,
{
    lemma_so_equiv_cases(a, a);
    match a {
        SoModel::Lit(_) => {},
        SoModel::SoSet(xs) => {
            assert forall|i: int| 0 <= i < xs.len() implies equiv_in(#[trigger] xs[i], xs, xs.len()) by {
                law_so_equiv_reflexive(xs[i]);
                lemma_equiv_in(xs[i], xs, xs.len());
            }
            assert forall|j: int| 0 <= j < xs.len() implies in_equiv(xs, #[trigger] xs[j], xs.len()) by {
                law_so_equiv_reflexive(xs[j]);
                lemma_in_equiv(xs, xs[j], xs.len());
            }
            lemma_so_equiv_unfold(xs, xs);
        },
        SoModel::Transfer { so, .. } => {
            law_so_equiv_reflexive(*so);
        },
        SoModel::WithFeature { so, .. } => {
            law_so_equiv_reflexive(*so);
        },
    }
}

/// Sameness is symmetric: if A is the same as B, B is the same as A.
pub proof fn law_so_equiv_symmetric(a: SoModel, b: SoModel)
    requires
        so_equiv(a, b),
    ensures
        so_equiv(b, a),
    decreases a,
{
    lemma_so_equiv_cases(a, b);
    lemma_so_equiv_cases(b, a);
    match a {
        SoModel::Lit(_) => {},
        SoModel::SoSet(xs) => {
            let ys = b->SoSet_0;
            lemma_so_equiv_unfold(xs, ys);
            lemma_so_equiv_unfold(ys, xs);
            assert forall|j: int| 0 <= j < ys.len() implies equiv_in(#[trigger] ys[j], xs, xs.len()) by {
                assert(in_equiv(xs, ys[j], xs.len()));
                lemma_in_equiv(xs, ys[j], xs.len());
                let i = choose|i: int| 0 <= i < xs.len() && so_equiv(#[trigger] xs[i], ys[j]);
                law_so_equiv_symmetric(xs[i], ys[j]);
                lemma_equiv_in(ys[j], xs, xs.len());
            }
            assert forall|i: int| 0 <= i < xs.len() implies in_equiv(ys, #[trigger] xs[i], ys.len()) by {
                assert(equiv_in(xs[i], ys, ys.len()));
                lemma_equiv_in(xs[i], ys, ys.len());
                let j = choose|j: int| 0 <= j < ys.len() && so_equiv(xs[i], #[trigger] ys[j]);
                law_so_equiv_symmetric(xs[i], ys[j]);
                lemma_in_equiv(ys, xs[i], ys.len());
            }
        },
        SoModel::Transfer { so, .. } => {
            law_so_equiv_symmetric(*so, *b->Transfer_so);
        },
        SoModel::WithFeature { so, .. } => {
            law_so_equiv_symmetric(*so, *b->WithFeature_so);
        },
    }
}

/// Sameness is transitive: if A is the same as B and B as C, then A is the
/// same as C.
pub proof fn law_so_equiv_transitive(a: SoModel, b: SoModel, c: SoModel)
    requires
        so_equiv(a, b),
        so_equiv(b, c),
    ensures
        so_equiv(a, c),
    decreases a,
{
    lemma_so_equiv_cases(a, b);
    lemma_so_equiv_cases(b, c);
    lemma_so_equiv_cases(a, c);
    match a {
        SoModel::Lit(_) => {},
        SoModel::SoSet(xs) => {
            let ys = b->SoSet_0;
            let zs = c->SoSet_0;
            lemma_so_equiv_unfold(xs, ys);
            lemma_so_equiv_unfold(ys, zs);
            lemma_so_equiv_unfold(xs, zs);
            assert forall|i: int| 0 <= i < xs.len() implies equiv_in(#[trigger] xs[i], zs, zs.len()) by {
                assert(equiv_in(xs[i], ys, ys.len()));
                lemma_equiv_in(xs[i], ys, ys.len());
                let j = choose|j: int| 0 <= j < ys.len() && so_equiv(xs[i], #[trigger] ys[j]);
                assert(equiv_in(ys[j], zs, zs.len()));
                lemma_equiv_in(ys[j], zs, zs.len());
                let k = choose|k: int| 0 <= k < zs.len() && so_equiv(ys[j], #[trigger] zs[k]);
                law_so_equiv_transitive(xs[i], ys[j], zs[k]);
                lemma_equiv_in(xs[i], zs, zs.len());
            }
            assert forall|k: int| 0 <= k < zs.len() implies in_equiv(xs, #[trigger] zs[k], xs.len()) by {
                assert(in_equiv(ys, zs[k], ys.len()));
                lemma_in_equiv(ys, zs[k], ys.len());
                let j = choose|j: int| 0 <= j < ys.len() && so_equiv(#[trigger] ys[j], zs[k]);
                assert(in_equiv(xs, ys[j], xs.len()));
                lemma_in_equiv(xs, ys[j], xs.len());
                let i = choose|i: int| 0 <= i < xs.len() && so_equiv(#[trigger] xs[i], ys[j]);
                law_so_equiv_transitive(xs[i], ys[j], zs[k]);
                lemma_in_equiv(xs, zs[k], xs.len());
            }
        },
        SoModel::Transfer { so, .. } => {
            law_so_equiv_transitive(*so, *b->Transfer_so, *c->Transfer_so);
        },
        SoModel::WithFeature { so, .. } => {
            law_so_equiv_transitive(*so, *b->WithFeature_so, *c->WithFeature_so);
        },
    }
}

/// Every workspace is the same as itself.
pub proof fn law_ws_equiv_reflexive(w: Set<SoModel>)
    ensures
        ws_equiv(w, w),
{
    assert forall|x: SoModel| #[trigger] w.contains(x) implies equiv_in_ws(x, w) by {
        law_so_equiv_reflexive(x);
        reveal(equiv_in_ws);
    }
    assert forall|y: SoModel| #[trigger] w.contains(y) implies ws_has_equiv(w, y) by {
        law_so_equiv_reflexive(y);
        reveal(ws_has_equiv);
    }
}

/// Sameness of workspaces is transitive.
pub proof fn law_ws_equiv_transitive(w1: Set<SoModel>, w2: Set<SoModel>, w3: Set<SoModel>)
    requires
        ws_equiv(w1, w2),
        ws_equiv(w2, w3),
    ensures
        ws_equiv(w1, w3),
{
    assert forall|x: SoModel| #[trigger] w1.contains(x) implies equiv_in_ws(x, w3) by {
        assert(equiv_in_ws(x, w2));
        reveal(equiv_in_ws);
        let y = choose|y: SoModel| w2.contains(y) && #[trigger] so_equiv(x, y);
        assert(equiv_in_ws(y, w3));
        let z = choose|z: SoModel| w3.contains(z) && #[trigger] so_equiv(y, z);
        law_so_equiv_transitive(x, y, z);
    }
    assert forall|z: SoModel| #[trigger] w3.contains(z) implies ws_has_equiv(w1, z) by {
        assert(ws_has_equiv(w2, z));
        reveal(ws_has_equiv);
        let y = choose|y: SoModel| w2.contains(y) && #[trigger] so_equiv(y, z);
        assert(ws_has_equiv(w1, y));
        let x = choose|x: SoModel| w1.contains(x) && #[trigger] so_equiv(x, y);
        law_so_equiv_transitive(x, y, z);
    }
}

/// Select gives a step of a derivation: for A in the lexical array of S,
/// the stage Select(A, S) comes from S by Derive-by-Select.
pub proof fn law_select_is_a_step<T: Triggers>(a: LitModel, s: StageModel)
    requires
        s.la.contains(a),
    ensures
        derive_by_select_model(s, select_model(a, s)->Some_0),
        derive_step_model::<T>(s, select_model(a, s)->Some_0),
{
    law_ws_equiv_reflexive(select_model(a, s)->Some_0.w);
    assert(select_gives(a, s, select_model(a, s)->Some_0));
    reveal(derive_by_select_model);
}

/// The order in which the members of sets are written in a stage does not
/// matter to a step: where S2 comes from S1 by a step, so does every stage
/// with the lexical array of S2 and the same workspace as S2.
pub proof fn law_step_ignores_set_order<T: Triggers>(s1: StageModel, s2: StageModel, s3: StageModel)
    requires
        derive_step_model::<T>(s1, s2),
        s2.la == s3.la,
        ws_equiv(s2.w, s3.w),
    ensures
        derive_step_model::<T>(s1, s3),
{
    reveal(derive_by_select_model);
    reveal(derive_by_merge_model);
    reveal(derive_by_transfer_model);
    reveal(transfer_attempt_model);
    if derive_by_select_model(s1, s2) {
        let a = choose|a: LitModel| #[trigger] s1.la.contains(a) && select_gives(a, s1, s2);
        law_ws_equiv_transitive(select_model(a, s1)->Some_0.w, s2.w, s3.w);
        assert(select_gives(a, s1, s3));
    } else if derive_by_merge_model::<T>(s1, s2) {
        let (a, b) = choose|a: SoModel, b: SoModel|
            #![trigger s1.w.contains(a), merge_gives::<T>(a, b, s1.w, s2.w)]
            s1.w.contains(a) && (preorder(a, true).drop_first().contains(b) || s1.w.contains(b))
                && merge_gives::<T>(a, b, s1.w, s2.w);
        let ab = triggered_merge_model::<T>(a, b, s1.w)->Ok_0;
        law_ws_equiv_transitive(s1.w.remove(a).remove(b).insert(ab), s2.w, s3.w);
        assert(merge_gives::<T>(a, b, s1.w, s3.w));
    } else {
        let so1 = choose|so1: SoModel| #[trigger] s1.w.contains(so1) && transfer_attempt_model::<T>(so1, s1.w, s2.w) == Some(true);
        let t = transfer_model::<T>(so1, so1, s1.w)->Some_0;
        if ws_equiv(s1.w.remove(so1).insert(t), s2.w) {
            law_ws_equiv_transitive(s1.w.remove(so1).insert(t), s2.w, s3.w);
        } else {
            let c = cyclic_transfer_model::<T>(so1, s1.w)->Some_0->Ok_0;
            law_ws_equiv_transitive(s1.w.remove(so1).insert(c), s2.w, s3.w);
        }
        assert(transfer_attempt_model::<T>(so1, s1.w, s3.w) == Some(true));
    }
}

/// The lexicon and Universal Grammar can be set in either order: setting
/// the lexicon and then UG leaves the engine as setting UG and then the
/// lexicon does, with the same reports.
pub proof fn law_lex_and_ug_set_in_either_order(
    e0: Engine,
    e1: Engine,
    e2: Engine,
    f1: Engine,
    f2: Engine,
    lex_e: ExprModel,
    ug_e: ExprModel,
    r1: Result<Report, EngineError>,
    r2: Result<Report, EngineError>,
    s1: Result<Report, EngineError>,
    s2: Result<Report, EngineError>,
)
    requires
        e1.env() == e0.env() && e1.il() == e0.il() && e1.ug() == e0.ug(),
        set_lex_post(e0.env(), e0.lex(), e1.lex(), lex_e, r1),
        e2.env() == e1.env() && e2.il() == e1.il() && e2.lex() == e1.lex(),
        set_ug_post(e1.env(), e1.ug(), e2.ug(), ug_e, r2),
        f1.env() == e0.env() && f1.il() == e0.il() && f1.lex() == e0.lex(),
        set_ug_post(e0.env(), e0.ug(), f1.ug(), ug_e, s1),
        f2.env() == f1.env() && f2.il() == f1.il() && f2.ug() == f1.ug(),
        set_lex_post(f1.env(), f1.lex(), f2.lex(), lex_e, s2),
    ensures
        e2.env() == f2.env(),
        e2.lex() == f2.lex(),
        e2.ug() == f2.ug(),
        e2.il() == f2.il(),
        r1 == s2,
        r2 == s1,
{
}

/// Immediate containment of occurrences is containment.
pub proof fn law_occ_immediate_is_containment(p: Seq<SoModel>, q: Seq<SoModel>)
    requires
        p.len() + 1 == q.len(),
        q.take(p.len() as int) == p,
    ensures
        proper_prefix(p, q),
{
}

/// Every occurrence contained in an object is a valid position (Definition
/// 16) of at least two objects that starts at the object.
pub proof fn law_contained_occurrences_are_positions(under: SoModel)
    ensures
        forall|j: int| #![trigger contained_occurrences_model(under)[j]]
            0 <= j < contained_occurrences_model(under).len() ==> {
                let q = contained_occurrences_model(under)[j];
                &&& valid_position(q)
                &&& q.len() >= 2
                &&& q[0] == under
            },
{
    let path = seq![under];
    lemma_occ_list_valid(path, under, children(under).len());
    assert forall|j: int| #![trigger contained_occurrences_model(under)[j]]
        0 <= j < contained_occurrences_model(under).len() implies {
            let q = contained_occurrences_model(under)[j];
            &&& valid_position(q)
            &&& q.len() >= 2
            &&& q[0] == under
        } by {
        let q = contained_occurrences_model(under)[j];
        assert(q.take(1)[0] == path[0]);
    }
}

/// Containment of occurrences is transitive.
pub proof fn law_occ_containment_transitive(p: Seq<SoModel>, q: Seq<SoModel>, r: Seq<SoModel>)
    requires
        proper_prefix(p, q),
        proper_prefix(q, r),
    ensures
        proper_prefix(p, r),
{
    assert(r.take(p.len() as int) =~= r.take(q.len() as int).take(p.len() as int));
}

/// The values of a list of expressions, each of which has one, are defined.
proof fn lemma_eval_list_defined(es: Seq<ExprModel>, n: nat, env: Map<Seq<char>, (TypeModel, ValueModel)>)
    requires
        n <= es.len(),
        forall|i: int| 0 <= i < n ==> #[trigger] eval_model(es[i], env) is Some,
    ensures
        eval_list(es, n, env) is Some,
    decreases n,
{
    if n > 0 {
        lemma_eval_list_defined(es, (n - 1) as nat, env);
        assert(eval_model(es[n - 1], env) is Some);
    }
}

/// The values of the first `n` expressions are taken member by member:
/// they are defined exactly when each member's is, and then they are those.
proof fn lemma_eval_list_members(es: Seq<ExprModel>, n: nat, env: Map<Seq<char>, (TypeModel, ValueModel)>)
    requires
        n <= es.len(),
    ensures
        eval_list(es, n, env) is Some <==> forall|i: int| 0 <= i < n ==> #[trigger] eval_model(es[i], env) is Some,
        eval_list(es, n, env) is Some ==> {
            &&& eval_list(es, n, env)->Some_0.len() == n
            &&& forall|i: int| 0 <= i < n ==> #[trigger] eval_list(es, n, env)->Some_0[i] == eval_model(es[i], env)->Some_0
        },
    decreases n,
{
    if n > 0 {
        lemma_eval_list_members(es, (n - 1) as nat, env);
        if eval_list(es, n, env) is Some {
            let vs = eval_list(es, n, env)->Some_0;
            let ws = eval_list(es, (n - 1) as nat, env)->Some_0;
            assert(vs == ws.push(eval_model(es[n - 1], env)->Some_0));
            assert forall|i: int| 0 <= i < n implies #[trigger] eval_model(es[i], env) is Some by {
                if i < n - 1 {
                    assert(eval_model(es[i], env) is Some);
                }
            }
            assert forall|i: int| 0 <= i < n implies #[trigger] vs[i] == eval_model(es[i], env)->Some_0 by {
                if i < n - 1 {
                    assert(ws[i] == eval_model(es[i], env)->Some_0);
                }
            }
        } else {
            if eval_list(es, (n - 1) as nat, env) is Some {
                assert(!(eval_model(es[n - 1], env) is Some));
            } else {
                let i = choose|i: int| 0 <= i < n - 1 && !(#[trigger] eval_model(es[i], env) is Some);
                assert(!(eval_model(es[i], env) is Some));
            }
        }
    }
}

/// Whether `v` holds the values of the expressions `es`, member by member.
pub open spec fn values_of_members(es: Seq<ExprModel>, env: Map<Seq<char>, (TypeModel, ValueModel)>, vs: Seq<ValueModel>) -> bool {
    &&& vs.len() == es.len()
    &&& forall|i: int| 0 <= i < es.len() ==> eval_model(#[trigger] es[i], env) == Some(vs[i])
}

/// Evaluation goes member by member: a vector, set or tuple has a value
/// exactly when each member has one, and then it holds those values in
/// order; a variable has one exactly when it is bound.
pub proof fn law_eval_member_by_member(es: Seq<ExprModel>, id: Seq<char>, env: Map<Seq<char>, (TypeModel, ValueModel)>)
    ensures
        eval_model(ExprModel::Var(id), env) is Some <==> env.contains_key(id),
        eval_model(ExprModel::Value(RawValueModel::Vec(es)), env) is Some <==> forall|i: int|
            0 <= i < es.len() ==> #[trigger] eval_model(es[i], env) is Some,
        eval_model(ExprModel::Value(RawValueModel::SetOf(es)), env) is Some <==> forall|i: int|
            0 <= i < es.len() ==> #[trigger] eval_model(es[i], env) is Some,
        eval_model(ExprModel::Value(RawValueModel::Tuple(es)), env) is Some <==> forall|i: int|
            0 <= i < es.len() ==> #[trigger] eval_model(es[i], env) is Some,
        forall|vs: Seq<ValueModel>| eval_model(ExprModel::Value(RawValueModel::Vec(es)), env) == Some(
            ValueModel::Vec(vs),
        ) <==> #[trigger] values_of_members(es, env, vs),
        forall|vs: Seq<ValueModel>| eval_model(ExprModel::Value(RawValueModel::SetOf(es)), env) == Some(
            ValueModel::SetOf(vs),
        ) <==> #[trigger] values_of_members(es, env, vs),
        forall|vs: Seq<ValueModel>| eval_model(ExprModel::Value(RawValueModel::Tuple(es)), env) == Some(
            ValueModel::Tuple(vs),
        ) <==> #[trigger] values_of_members(es, env, vs),
{
    lemma_eval_list_members(es, es.len(), env);
    assert forall|vs: Seq<ValueModel>| #[trigger] values_of_members(es, env, vs) implies eval_list(es, es.len(), env) == Some(vs) by {
        assert forall|i: int| 0 <= i < es.len() implies #[trigger] eval_model(es[i], env) is Some by {
            assert(eval_model(es[i], env) == Some(vs[i]));
        }
        assert(eval_list(es, es.len(), env)->Some_0 =~= vs);
    }
}

/// Whether a value is of a type: a feature of `F`, a number of `usize`, a
/// vector or set of `[T]` or `{T}` when each member is of `T`, a tuple of
/// `<T1, ..., Tn>` when it has `n` members, the `i`-th of `Ti`; a value is
/// of `SO` when it is of `Lit`, of `{SO}` or of `<SO, [F], {F}>`.
pub open spec fn value_of_type(v: ValueModel, t: TypeModel) -> bool
    decreases v, so_rank(t),
{
    match t {
        TypeModel::SO => value_of_type(v, lexical_item_token_type_model()) || value_of_type(
            v,
            TypeModel::SetOf(Box::new(TypeModel::SO)),
        ) || value_of_type(v, transferred_so_type_model()),
        TypeModel::Feature => v is Feature,
        TypeModel::Usize => v is Usize,
        TypeModel::Vec(u) => match v {
            ValueModel::Vec(vs) => 0 <= vs.len() && forall|i: int| 0 <= i < vs.len() ==> value_of_type(#[trigger] vs[i], *u),
            _ => false,
        },
        TypeModel::SetOf(u) => match v {
            ValueModel::SetOf(vs) => 0 <= vs.len() && forall|i: int| 0 <= i < vs.len() ==> value_of_type(#[trigger] vs[i], *u),
            _ => false,
        },
        TypeModel::Tuple(ts) => match v {
            ValueModel::Tuple(vs) => ts.len() == vs.len() && forall|i: int|
                0 <= i < vs.len() ==> value_of_type(#[trigger] vs[i], ts[i]),
            _ => false,
        },
    }
}

/// Whether every name is bound to a value of the type it was bound with, as
/// `let` makes sure.
pub open spec fn bindings_typed(env: Map<Seq<char>, (TypeModel, ValueModel)>) -> bool {
    forall|id: Seq<char>| #[trigger] env.contains_key(id) ==> value_of_type(env[id].1, env[id].0)
}

/// The value of a well-typed expression is of its type.
pub proof fn lemma_value_of_type(t: TypeModel, e: ExprModel, env: Map<Seq<char>, (TypeModel, ValueModel)>)
    requires
        bindings_typed(env),
        tyck_model(t, e, env),
        eval_model(e, env) is Some,
    ensures
        value_of_type(eval_model(e, env)->Some_0, t),
    decreases e, so_rank(t),
{
    let v = eval_model(e, env)->Some_0;
    if t is SO {
        if tyck_model(lexical_item_token_type_model(), e, env) {
            lemma_value_of_type(lexical_item_token_type_model(), e, env);
        } else if tyck_model(TypeModel::SetOf(Box::new(TypeModel::SO)), e, env) {
            lemma_value_of_type(TypeModel::SetOf(Box::new(TypeModel::SO)), e, env);
        } else if tyck_model(transferred_so_type_model(), e, env) {
            lemma_value_of_type(transferred_so_type_model(), e, env);
        } else {
            assert(env.contains_key(e->Var_0));
        }
    } else {
        match e {
            ExprModel::Var(id) => {
                assert(env.contains_key(id));
            },
            ExprModel::Value(r) => match r {
                RawValueModel::Vec(es) => {
                    let u = t->Vec_0;
                    lemma_eval_list_members(es, es.len(), env);
                    let vs = v->Vec_0;
                    assert forall|i: int| 0 <= i < vs.len() implies value_of_type(#[trigger] vs[i], *u) by {
                        assert(tyck_model(*u, es[i], env));
                        assert(eval_model(es[i], env) is Some);
                        lemma_value_of_type(*u, es[i], env);
                    }
                },
                RawValueModel::SetOf(es) => {
                    let u = t->SetOf_0;
                    lemma_eval_list_members(es, es.len(), env);
                    let vs = v->SetOf_0;
                    assert forall|i: int| 0 <= i < vs.len() implies value_of_type(#[trigger] vs[i], *u) by {
                        assert(tyck_model(*u, es[i], env));
                        assert(eval_model(es[i], env) is Some);
                        lemma_value_of_type(*u, es[i], env);
                    }
                },
                RawValueModel::Tuple(es) => {
                    let ts = t->Tuple_0;
                    lemma_eval_list_members(es, es.len(), env);
                    let vs = v->Tuple_0;
                    assert forall|i: int| 0 <= i < vs.len() implies value_of_type(#[trigger] vs[i], ts[i]) by {
                        assert(tyck_model(ts[i], es[i], env));
                        assert(eval_model(es[i], env) is Some);
                        lemma_value_of_type(ts[i], es[i], env);
                    }
                },
                _ => {},
            },
        }
    }
}

/// A value of `{F}` or `[F]` makes a feature set or vector.
proof fn lemma_feature_values_convert(v: ValueModel)
    ensures
        value_of_type(v, feature_set_type_model()) ==> to_feature_set_model(v) is Some,
        value_of_type(v, feature_vec_type_model()) ==> to_feature_vec_model(v) is Some,
{
    if value_of_type(v, feature_set_type_model()) {
        let vs = v->SetOf_0;
        assert forall|i: int| 0 <= i < vs.len() implies #[trigger] vs[i] is Feature by {
            assert(value_of_type(vs[i], TypeModel::Feature));
        }
    }
    if value_of_type(v, feature_vec_type_model()) {
        let vs = v->Vec_0;
        assert forall|i: int| 0 <= i < vs.len() implies #[trigger] vs[i] is Feature by {
            assert(value_of_type(vs[i], TypeModel::Feature));
        }
    }
}

/// A value of `Lit` makes a lexical item token.
proof fn lemma_token_value_converts(v: ValueModel)
    requires
        value_of_type(v, lexical_item_token_type_model()),
    ensures
        to_lexical_item_token_model(v) is Some,
{
    let vs = v->Tuple_0;
    assert(value_of_type(vs[0], lexical_item_type_model()));
    assert(value_of_type(vs[1], TypeModel::Usize));
    let ls = vs[0]->Tuple_0;
    assert(value_of_type(ls[0], feature_set_type_model()));
    assert(value_of_type(ls[1], feature_set_type_model()));
    assert(value_of_type(ls[2], feature_vec_type_model()));
    lemma_feature_values_convert(ls[0]);
    lemma_feature_values_convert(ls[1]);
    lemma_feature_values_convert(ls[2]);
}

/// A value of `SO` makes a syntactic object.
proof fn lemma_so_value_converts(v: ValueModel)
    requires
        value_of_type(v, TypeModel::SO),
    ensures
        to_so_model(v) is Some,
    decreases v, 1nat,
{
    if to_lexical_item_token_model(v) is None {
        if value_of_type(v, lexical_item_token_type_model()) {
            lemma_token_value_converts(v);
        } else if value_of_type(v, TypeModel::SetOf(Box::new(TypeModel::SO))) {
            let vs = v->SetOf_0;
            lemma_so_list_converts(vs, vs.len());
        } else {
            assert(value_of_type(v, transferred_so_type_model()));
            let ts = seq![TypeModel::SO, feature_vec_type_model(), feature_set_type_model()];
            assert(transferred_so_type_model() == TypeModel::Tuple(ts));
            let vs = v->Tuple_0;
            assert(vs.len() == 3);
            assert(value_of_type(vs[0], ts[0]));
            assert(value_of_type(vs[1], ts[1]));
            assert(value_of_type(vs[2], ts[2]));
            assert(value_of_type(vs[0], TypeModel::SO));
            assert(value_of_type(vs[1], feature_vec_type_model()));
            assert(value_of_type(vs[2], feature_set_type_model()));
            lemma_so_value_converts(vs[0]);
            lemma_feature_values_convert(vs[1]);
            lemma_feature_values_convert(vs[2]);
        }
    }
}

/// Values of `SO` make a list of syntactic objects.
proof fn lemma_so_list_converts(vs: Seq<ValueModel>, n: nat)
    requires
        n <= vs.len(),
        forall|i: int| 0 <= i < vs.len() ==> value_of_type(#[trigger] vs[i], TypeModel::SO),
    ensures
        so_list(vs, n) is Some,
    decreases vs, n,
{
    if n > 0 {
        lemma_so_list_converts(vs, (n - 1) as nat);
        lemma_so_value_converts(vs[n - 1]);
    }
}

/// A value that type-checks as a syntactic object converts to one: where
/// every name is bound to a value of its type, an expression of type `SO`
/// has a value, and that value is a lexical item token, a set of syntactic
/// objects or a transferred object.
pub proof fn law_so_values_convert(e: ExprModel, env: Map<Seq<char>, (TypeModel, ValueModel)>)
    requires
        bindings_typed(env),
        tyck_model(TypeModel::SO, e, env),
    ensures
        eval_model(e, env) is Some,
        to_so_model(eval_model(e, env)->Some_0) is Some,
{
    law_well_typed_evaluates(TypeModel::SO, e, env);
    lemma_value_of_type(TypeModel::SO, e, env);
    lemma_so_value_converts(eval_model(e, env)->Some_0);
}

/// A well-typed expression has a value: where an expression has a type in an
/// environment, evaluating it there does not fail.
pub proof fn law_well_typed_evaluates(t: TypeModel, e: ExprModel, env: Map<Seq<char>, (TypeModel, ValueModel)>)
    requires
        tyck_model(t, e, env),
    ensures
        eval_model(e, env) is Some,
    decreases e, so_rank(t),
{
    if t is SO {
        if tyck_model(lexical_item_token_type_model(), e, env) {
            law_well_typed_evaluates(lexical_item_token_type_model(), e, env);
        } else if tyck_model(TypeModel::SetOf(Box::new(TypeModel::SO)), e, env) {
            law_well_typed_evaluates(TypeModel::SetOf(Box::new(TypeModel::SO)), e, env);
        } else if tyck_model(transferred_so_type_model(), e, env) {
            law_well_typed_evaluates(transferred_so_type_model(), e, env);
        }
    } else {
        match e {
            ExprModel::Var(_) => {},
            ExprModel::Value(v) => match v {
                RawValueModel::Vec(es) => {
                    let u = t->Vec_0;
                    assert forall|i: int| 0 <= i < es.len() implies #[trigger] eval_model(es[i], env) is Some by {
                        assert(tyck_model(*u, es[i], env));
                        law_well_typed_evaluates(*u, es[i], env);
                    }
                    lemma_eval_list_defined(es, es.len(), env);
                },
                RawValueModel::SetOf(es) => {
                    let u = t->SetOf_0;
                    assert forall|i: int| 0 <= i < es.len() implies #[trigger] eval_model(es[i], env) is Some by {
                        assert(tyck_model(*u, es[i], env));
                        law_well_typed_evaluates(*u, es[i], env);
                    }
                    lemma_eval_list_defined(es, es.len(), env);
                },
                RawValueModel::Tuple(es) => {
                    let ts = t->Tuple_0;
                    assert forall|i: int| 0 <= i < es.len() implies #[trigger] eval_model(es[i], env) is Some by {
                        assert(tyck_model(ts[i], es[i], env));
                        law_well_typed_evaluates(ts[i], es[i], env);
                    }
                    lemma_eval_list_defined(es, es.len(), env);
                },
                _ => {},
            },
        }
    }
}

} // verus!
