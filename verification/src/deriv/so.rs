//! Syntactic objects.

use vstd::prelude::*;

use crate::deriv::lit::{LexicalItemToken, LitModel};
use crate::feature::{Feature, FeatureSet};
use crate::deriv::Workspace;
use crate::deriv::ws_walk_contains;
use crate::labels::{label_of, spec_label, Triggers};
use crate::ops::{merge_result_is, triggered_merge_model, triggered_merge_with_so};
use crate::utils::Elem;

verus! {

/// The model of a syntactic object.
pub enum SoModel {
    Lit(LitModel),
    SoSet(Seq<SoModel>),
    Transfer { so: Box<SoModel>, pf: Seq<Seq<char>>, lf: Set<Seq<char>> },
    WithFeature { so: Box<SoModel>, f: Seq<char> },
}

/// Syntactic object.
///
/// From Definition 37, C&S 2016, p. 68: a syntactic object is a lexical item
/// token, a set of syntactic objects, or the result of transferring a
/// syntactic object, which keeps the object together with its phonological
/// (PF) and semantic (LF) interface representations.  A syntactic object can
/// also carry a feature that Merge checked against it.
pub enum SyntacticObject {
    LexicalItemToken(LexicalItemToken),
    SoSet(Vec<SyntacticObject>),
    Transfer { so: Box<SyntacticObject>, pf: Vec<Feature>, lf: FeatureSet },
    WithFeature { so: Box<SyntacticObject>, f: Feature },
}

/// The models of a feature vector.
pub open spec fn fvec_view(v: Seq<Feature>) -> Seq<Seq<char>> {
    v.map_values(|f: Feature| f@)
}

/// The models of the first `n` objects of `s`.
pub open spec fn so_view_prefix(s: Seq<SyntacticObject>, n: nat) -> Seq<SoModel>
    decreases s, n,
{
    if n == 0 || n > s.len() {
        Seq::empty()
    } else {
        so_view_prefix(s, (n - 1) as nat).push(so_view(s[n - 1]))
    }
}

/// The model of a syntactic object.
pub open spec fn so_view(t: SyntacticObject) -> SoModel
    decreases t, 0nat,
{
    match t {
        SyntacticObject::LexicalItemToken(l) => SoModel::Lit(l@),
        SyntacticObject::SoSet(v) => SoModel::SoSet(so_view_prefix(v@, v@.len())),
        SyntacticObject::Transfer { so, pf, lf } => SoModel::Transfer {
            so: Box::new(so_view(*so)),
            pf: fvec_view(pf@),
            lf: lf@,
        },
        SyntacticObject::WithFeature { so, f } => SoModel::WithFeature {
            so: Box::new(so_view(*so)),
            f: f@,
        },
    }
}

/// The models of a vector of syntactic objects.
pub open spec fn so_seq_view(s: Seq<SyntacticObject>) -> Seq<SoModel> {
    so_view_prefix(s, s.len())
}

pub proof fn lemma_so_view_prefix(s: Seq<SyntacticObject>, n: nat)
    requires
        n <= s.len(),
    ensures
        so_view_prefix(s, n).len() == n,
        forall|i: int| 0 <= i < n ==> #[trigger] so_view_prefix(s, n)[i] == so_view(s[i]),
    decreases n,
{
    if n > 0 {
        lemma_so_view_prefix(s, (n - 1) as nat);
    }
}

/// The models of a vector of objects have its length and are taken element by
/// element.
pub proof fn lemma_so_seq_view(s: Seq<SyntacticObject>)
    ensures
        so_seq_view(s).len() == s.len(),
        forall|i: int| 0 <= i < s.len() ==> #[trigger] so_seq_view(s)[i] == so_view(s[i]),
{
    lemma_so_view_prefix(s, s.len());
}

impl View for SyntacticObject {
    type V = SoModel;

    open spec fn view(&self) -> SoModel {
        so_view(*self)
    }
}

/// Immediate containment on models (Definition 8): B immediately contains A
/// iff A is a member of B.  Only a set has members: a lexical item token, a
/// transferred object and an object that carries a feature are no sets and
/// immediately contain nothing.
pub open spec fn so_immediately_contains(b: SoModel, a: SoModel) -> bool {
    match b {
        SoModel::SoSet(s) => s.contains(a),
        _ => false,
    }
}

/// Containment on models: the transitive closure of immediate containment,
/// which also reaches into the object that a transferred object (or one
/// that carries a feature) holds.  Transfer keeps the object it transfers,
/// and the objects within it stay in the workspace: their labels are still
/// asked for when the phase that holds a transferred complement is merged
/// further (Cyclic-Transfer is followed by Merge).
pub open spec fn so_contains(b: SoModel, a: SoModel) -> bool
    decreases b,
{
    match b {
        SoModel::Lit(_) => false,
        SoModel::SoSet(s) => s.contains(a) || exists|i: int|
            0 <= i < s.len() && so_contains(#[trigger] s[i], a),
        SoModel::Transfer { so, .. } => *so == a || so_contains(*so, a),
        SoModel::WithFeature { so, .. } => *so == a || so_contains(*so, a),
    }
}

/// Binary branching on models.
pub open spec fn so_binary_branching(b: SoModel) -> bool
    decreases b,
{
    match b {
        SoModel::Lit(_) => true,
        SoModel::SoSet(s) => s.len() == 2 && (forall|i: int|
            0 <= i < s.len() ==> so_binary_branching(#[trigger] s[i])),
        SoModel::Transfer { so, .. } => so_binary_branching(*so),
        SoModel::WithFeature { so, .. } => so_binary_branching(*so),
    }
}

/// The pre-order walk of a syntactic object that a stack visits: the object
/// itself, then its children from the last to the first.  The walk enters a
/// transferred object only when `into_transfer` holds, and does not enter an
/// object that carries a checked feature.
pub open spec fn preorder(so: SoModel, into_transfer: bool) -> Seq<SoModel>
    decreases so, 0nat,
{
    match so {
        SoModel::SoSet(s) => seq![so] + preorder_rev(s, s.len(), into_transfer),
        SoModel::Transfer { so: inner, .. } => if into_transfer {
            seq![so] + preorder(*inner, into_transfer)
        } else {
            seq![so]
        },
        _ => seq![so],
    }
}

/// The walks of `s[n - 1]`, ..., `s[0]`, one after the other: what a stack
/// holding the first `n` objects of `s` (with `s[n - 1]` on top) visits.
pub open spec fn preorder_rev(s: Seq<SoModel>, n: nat, into_transfer: bool) -> Seq<SoModel>
    decreases s, n,
{
    if n == 0 || n > s.len() {
        Seq::empty()
    } else {
        preorder(s[n - 1], into_transfer) + preorder_rev(s, (n - 1) as nat, into_transfer)
    }
}

/// What a stack visits.
pub open spec fn stack_walk(s: Seq<SoModel>, into_transfer: bool) -> Seq<SoModel> {
    preorder_rev(s, s.len(), into_transfer)
}

pub proof fn lemma_preorder_rev_prefix(s: Seq<SoModel>, t: Seq<SoModel>, n: nat, d: bool)
    requires
        n <= s.len(),
        n <= t.len(),
        s.take(n as int) == t.take(n as int),
    ensures
        preorder_rev(s, n, d) == preorder_rev(t, n, d),
    decreases n,
{
    if n > 0 {
        assert(s[n - 1] == s.take(n as int)[n - 1]);
        assert(t[n - 1] == t.take(n as int)[n - 1]);
        assert(s.take(n - 1) =~= s.take(n as int).take(n - 1));
        assert(t.take(n - 1) =~= t.take(n as int).take(n - 1));
        lemma_preorder_rev_prefix(s, t, (n - 1) as nat, d);
    }
}

/// The walk of a stack `a + b` visits `b` first, then `a`.
pub proof fn lemma_stack_walk_concat(a: Seq<SoModel>, b: Seq<SoModel>, d: bool)
    ensures
        stack_walk(a + b, d) == stack_walk(b, d) + stack_walk(a, d),
    decreases b.len(),
{
    if b.len() == 0 {
        assert(a + b =~= a);
        assert(stack_walk(b, d) =~= Seq::<SoModel>::empty());
        assert(stack_walk(a, d) =~= Seq::<SoModel>::empty() + stack_walk(a, d));
    } else {
        let b1 = b.drop_last();
        lemma_stack_walk_concat(a, b1, d);
        let ab = a + b;
        assert((a + b1) =~= ab.take(ab.len() - 1));
        assert(ab.take(ab.len() - 1).take(ab.len() - 1) =~= ab.take(ab.len() - 1));
        lemma_preorder_rev_prefix(ab, a + b1, (ab.len() - 1) as nat, d);
        assert(b1.take(b1.len() as int) =~= b.take(b1.len() as int));
        lemma_preorder_rev_prefix(b1, b, b1.len(), d);
        assert(ab[ab.len() - 1] == b[b.len() - 1]);
        assert(stack_walk(ab, d) =~= preorder(b[b.len() - 1], d) + stack_walk(a + b1, d));
        assert(stack_walk(b, d) =~= preorder(b[b.len() - 1], d) + stack_walk(b1, d));
    }
}

/// The children that a stack walk pushes when it visits `so`.
pub open spec fn pushed_children(so: SoModel, d: bool) -> Seq<SoModel> {
    match so {
        SoModel::SoSet(s) => s,
        SoModel::Transfer { so: inner, .. } => if d {
            seq![*inner]
        } else {
            Seq::empty()
        },
        _ => Seq::empty(),
    }
}

/// Popping `x` from a stack and pushing its children leaves the rest of the
/// walk.
pub proof fn lemma_stack_walk_step(rest: Seq<SoModel>, x: SoModel, d: bool)
    ensures
        stack_walk(rest.push(x), d) == seq![x] + stack_walk(rest + pushed_children(x, d), d),
{
    let st = rest.push(x);
    assert(st.take(rest.len() as int) =~= rest.take(rest.len() as int));
    lemma_preorder_rev_prefix(st, rest, rest.len(), d);
    lemma_stack_walk_concat(rest, pushed_children(x, d), d);
    match x {
        SoModel::SoSet(s) => {
            assert(preorder(x, d) == seq![x] + stack_walk(s, d));
        },
        SoModel::Transfer { so: inner, .. } => {
            if d {
                let c = seq![*inner];
                assert(stack_walk(c, d) =~= preorder(*inner, d) + preorder_rev(c, 0, d));
                assert(stack_walk(c, d) =~= preorder(*inner, d));
            } else {
                assert(stack_walk(Seq::<SoModel>::empty(), d) =~= Seq::<SoModel>::empty());
            }
        },
        _ => {
            assert(stack_walk(Seq::<SoModel>::empty(), d) =~= Seq::<SoModel>::empty());
        },
    }
    assert(stack_walk(st, d) =~= preorder(x, d) + stack_walk(rest, d));
}


/// Whether two feature vectors hold the same features in the same order.
pub fn fvec_eq(a: &Vec<Feature>, b: &Vec<Feature>) -> (r: bool)
    ensures
        r == (fvec_view(a@) == fvec_view(b@)),
{
    if a.len() != b.len() {
        assert(fvec_view(a@).len() != fvec_view(b@).len());
        return false;
    }
    let mut i: usize = 0;
    while i < a.len()
        invariant
            a.len() == b.len(),
            i <= a.len(),
            forall|j: int| 0 <= j < i ==> a@[j]@ == b@[j]@,
        decreases a.len() - i,
    {
        if !a[i].same_as(&b[i]) {
            assert(fvec_view(a@)[i as int] != fvec_view(b@)[i as int]);
            return false;
        }
        i = i + 1;
    }
    assert(fvec_view(a@) =~= fvec_view(b@));
    true
}

/// A copy of a feature vector.
pub fn fvec_dup(a: &Vec<Feature>) -> (r: Vec<Feature>)
    ensures
        fvec_view(r@) == fvec_view(a@),
{
    let mut r: Vec<Feature> = Vec::new();
    let mut i: usize = 0;
    while i < a.len()
        invariant
            i <= a.len(),
            r@.len() == i,
            forall|j: int| 0 <= j < i ==> #[trigger] r@[j]@ == a@[j]@,
        decreases a.len() - i,
    {
        r.push(a[i].dup());
        i = i + 1;
    }
    assert(fvec_view(r@) =~= fvec_view(a@));
    r
}

/// Whether two syntactic objects have the same model.
pub fn so_eq(a: &SyntacticObject, b: &SyntacticObject) -> (r: bool)
    ensures
        r == (a@ == b@),
    decreases a,
{
    match (a, b) {
        (SyntacticObject::LexicalItemToken(x), SyntacticObject::LexicalItemToken(y)) => x.elem_eq(
            y,
        ),
        (SyntacticObject::SoSet(v), SyntacticObject::SoSet(w)) => {
            proof {
                lemma_so_seq_view(v@);
                lemma_so_seq_view(w@);
            }
            if v.len() != w.len() {
                assert(so_seq_view(v@).len() != so_seq_view(w@).len());
                return false;
            }
            let mut i: usize = 0;
            while i < v.len()
                invariant
                    v.len() == w.len(),
                    i <= v.len(),
                    so_seq_view(v@).len() == v.len(),
                    so_seq_view(w@).len() == w.len(),
                    forall|j: int| 0 <= j < v.len() ==> #[trigger] so_seq_view(v@)[j] == so_view(v@[j]),
                    forall|j: int| 0 <= j < w.len() ==> #[trigger] so_seq_view(w@)[j] == so_view(w@[j]),
                    forall|j: int| 0 <= j < i ==> so_view(v@[j]) == so_view(w@[j]),
                    *a == SyntacticObject::SoSet(*v),
                    *b == SyntacticObject::SoSet(*w),
                decreases v.len() - i,
            {
                proof {
                    assert(decreases_to!(*a => a->SoSet_0));
                }
                if !so_eq(&v[i], &w[i]) {
                    assert(so_seq_view(v@)[i as int] != so_seq_view(w@)[i as int]);
                    return false;
                }
                i = i + 1;
            }
            assert(so_seq_view(v@) =~= so_seq_view(w@));
            true
        },
        (
            SyntacticObject::Transfer { so: s1, pf: p1, lf: l1 },
            SyntacticObject::Transfer { so: s2, pf: p2, lf: l2 },
        ) => {
            let e = so_eq(s1, s2);
            e && fvec_eq(p1, p2) && l1.same_as(l2)
        },
        (
            SyntacticObject::WithFeature { so: s1, f: f1 },
            SyntacticObject::WithFeature { so: s2, f: f2 },
        ) => {
            let e = so_eq(s1, s2);
            e && f1.same_as(f2)
        },
        _ => false,
    }
}

/// Sameness of syntactic objects as sets: two objects are the same when they
/// differ at most in the order in which the members of their sets are written,
/// or in members written more than once.  A set has no order: {A, B} and
/// {B, A} are one set.
pub closed spec fn so_equiv(a: SoModel, b: SoModel) -> bool
    decreases a, 0nat, 0nat,
{
    match a {
        SoModel::Lit(x) => b == SoModel::Lit(x),
        SoModel::SoSet(xs) => match b {
            SoModel::SoSet(ys) => {
                &&& 0 <= xs.len()
                &&& forall|i: int| 0 <= i < xs.len() ==> equiv_in(#[trigger] xs[i], ys, ys.len())
                &&& forall|j: int| 0 <= j < ys.len() ==> in_equiv(xs, #[trigger] ys[j], xs.len())
            },
            _ => false,
        },
        SoModel::Transfer { so: s1, pf: p1, lf: l1 } => match b {
            SoModel::Transfer { so: s2, pf: p2, lf: l2 } => so_equiv(*s1, *s2) && p1 == p2 && l1 == l2,
            _ => false,
        },
        SoModel::WithFeature { so: s1, f: f1 } => match b {
            SoModel::WithFeature { so: s2, f: f2 } => so_equiv(*s1, *s2) && f1 == f2,
            _ => false,
        },
    }
}

/// Whether `x` is the same as a set as one of `ys[0]`, ..., `ys[m - 1]`.
pub open spec fn equiv_in(x: SoModel, ys: Seq<SoModel>, m: nat) -> bool
    decreases x, 1nat, m,
{
    if m == 0 || m > ys.len() {
        false
    } else {
        so_equiv(x, ys[m - 1]) || equiv_in(x, ys, (m - 1) as nat)
    }
}

/// Whether one of `xs[0]`, ..., `xs[m - 1]` is the same as a set as `y`.
pub open spec fn in_equiv(xs: Seq<SoModel>, y: SoModel, m: nat) -> bool
    decreases xs, 1nat, m,
{
    if m == 0 || m > xs.len() {
        false
    } else {
        so_equiv(xs[m - 1], y) || in_equiv(xs, y, (m - 1) as nat)
    }
}

/// `equiv_in` holds exactly when one of the first `m` objects is the same.
pub proof fn lemma_equiv_in(x: SoModel, ys: Seq<SoModel>, m: nat)
    requires
        m <= ys.len(),
    ensures
        equiv_in(x, ys, m) <==> exists|j: int| 0 <= j < m && so_equiv(x, #[trigger] ys[j]),
    decreases m,
{
    if m > 0 {
        lemma_equiv_in(x, ys, (m - 1) as nat);
        if equiv_in(x, ys, m) && !so_equiv(x, ys[m - 1]) {
            let j = choose|j: int| 0 <= j < m - 1 && so_equiv(x, #[trigger] ys[j]);
            assert(0 <= j < m && so_equiv(x, ys[j]));
        }
        if exists|j: int| 0 <= j < m && so_equiv(x, #[trigger] ys[j]) {
            let j = choose|j: int| 0 <= j < m && so_equiv(x, #[trigger] ys[j]);
            if j < m - 1 {
                assert(exists|k: int| 0 <= k < m - 1 && so_equiv(x, #[trigger] ys[k]));
            }
        }
    }
}

/// `in_equiv` holds exactly when one of the first `m` objects is the same.
pub proof fn lemma_in_equiv(xs: Seq<SoModel>, y: SoModel, m: nat)
    requires
        m <= xs.len(),
    ensures
        in_equiv(xs, y, m) <==> exists|i: int| 0 <= i < m && so_equiv(#[trigger] xs[i], y),
    decreases m,
{
    if m > 0 {
        lemma_in_equiv(xs, y, (m - 1) as nat);
        if in_equiv(xs, y, m) && !so_equiv(xs[m - 1], y) {
            let i = choose|i: int| 0 <= i < m - 1 && so_equiv(#[trigger] xs[i], y);
            assert(0 <= i < m && so_equiv(xs[i], y));
        }
        if exists|i: int| 0 <= i < m && so_equiv(#[trigger] xs[i], y) {
            let i = choose|i: int| 0 <= i < m && so_equiv(#[trigger] xs[i], y);
            if i < m - 1 {
                assert(exists|k: int| 0 <= k < m - 1 && so_equiv(#[trigger] xs[k], y));
            }
        }
    }
}

/// Whether each of `xs` is the same as a set as some member of `ys`.
pub open spec fn each_equiv_in(xs: Seq<SoModel>, ys: Seq<SoModel>) -> bool {
    forall|i: int| #![trigger xs[i]]
        0 <= i < xs.len() ==> exists|j: int| 0 <= j < ys.len() && so_equiv(xs[i], #[trigger] ys[j])
}

/// One step of the definition of sameness on two sets.
pub proof fn lemma_so_equiv_unfold(xs: Seq<SoModel>, ys: Seq<SoModel>)
    ensures
        so_equiv(SoModel::SoSet(xs), SoModel::SoSet(ys)) <==> ((forall|i: int|
            0 <= i < xs.len() ==> equiv_in(#[trigger] xs[i], ys, ys.len())) && (forall|j: int|
            0 <= j < ys.len() ==> in_equiv(xs, #[trigger] ys[j], xs.len()))),
{
    reveal_with_fuel(so_equiv, 2);
}

/// Two sets are the same exactly when each member of either is the same as
/// some member of the other.
pub proof fn lemma_so_equiv_sets(xs: Seq<SoModel>, ys: Seq<SoModel>)
    ensures
        so_equiv(SoModel::SoSet(xs), SoModel::SoSet(ys)) <==> each_equiv_in(xs, ys) && each_in_equiv(
            xs,
            ys,
        ),
{
    lemma_so_equiv_unfold(xs, ys);
    lemma_each_equiv_in(xs, ys);
    lemma_each_in_equiv(xs, ys);
}

proof fn lemma_each_equiv_in(xs: Seq<SoModel>, ys: Seq<SoModel>)
    ensures
        (forall|i: int| 0 <= i < xs.len() ==> equiv_in(#[trigger] xs[i], ys, ys.len())) <==> each_equiv_in(xs, ys),
{
    if forall|i: int| 0 <= i < xs.len() ==> equiv_in(#[trigger] xs[i], ys, ys.len()) {
        assert forall|i: int| #![trigger xs[i]] 0 <= i < xs.len() implies exists|j: int|
            0 <= j < ys.len() && so_equiv(xs[i], #[trigger] ys[j]) by {
            lemma_equiv_in(xs[i], ys, ys.len());
        }
    }
    if each_equiv_in(xs, ys) {
        assert forall|i: int| 0 <= i < xs.len() implies equiv_in(#[trigger] xs[i], ys, ys.len()) by {
            lemma_equiv_in(xs[i], ys, ys.len());
        }
    }
}

proof fn lemma_each_in_equiv(xs: Seq<SoModel>, ys: Seq<SoModel>)
    ensures
        (forall|j: int| 0 <= j < ys.len() ==> in_equiv(xs, #[trigger] ys[j], xs.len())) <==> each_in_equiv(xs, ys),
{
    if forall|j: int| 0 <= j < ys.len() ==> in_equiv(xs, #[trigger] ys[j], xs.len()) {
        assert forall|j: int| #![trigger ys[j]] 0 <= j < ys.len() implies exists|i: int|
            0 <= i < xs.len() && so_equiv(#[trigger] xs[i], ys[j]) by {
            lemma_in_equiv(xs, ys[j], xs.len());
        }
    }
    if each_in_equiv(xs, ys) {
        assert forall|j: int| 0 <= j < ys.len() implies in_equiv(xs, #[trigger] ys[j], xs.len()) by {
            lemma_in_equiv(xs, ys[j], xs.len());
        }
    }
}

/// Whether each of `ys` is the same as a set as some member of `xs`.
pub open spec fn each_in_equiv(xs: Seq<SoModel>, ys: Seq<SoModel>) -> bool {
    forall|j: int| #![trigger ys[j]]
        0 <= j < ys.len() ==> exists|i: int| 0 <= i < xs.len() && so_equiv(#[trigger] xs[i], ys[j])
}

/// Sameness, case by case: a token is the same only as itself; a set only as
/// a set (see [`lemma_so_equiv_sets`]); a transferred object, or one that
/// carries a feature, is the same as one of its kind that holds the same
/// object and has the same interface representations, or feature.
pub proof fn lemma_so_equiv_cases(a: SoModel, b: SoModel)
    ensures
        a is Lit ==> (so_equiv(a, b) <==> b == a),
        a is SoSet && so_equiv(a, b) ==> b is SoSet,
        a is Transfer ==> (so_equiv(a, b) <==> b is Transfer && so_equiv(*a->Transfer_so, *b->Transfer_so)
            && a->Transfer_pf == b->Transfer_pf && a->Transfer_lf == b->Transfer_lf),
        a is WithFeature ==> (so_equiv(a, b) <==> b is WithFeature && so_equiv(
            *a->WithFeature_so,
            *b->WithFeature_so,
        ) && a->WithFeature_f == b->WithFeature_f),
{
    reveal_with_fuel(so_equiv, 2);
}

/// Whether a syntactic object is the same as a set as one of `v`.
fn so_equiv_some(a: &SyntacticObject, v: &Vec<SyntacticObject>) -> (r: bool)
    ensures
        r == exists|j: int| 0 <= j < so_seq_view(v@).len() && so_equiv(a@, #[trigger] so_seq_view(v@)[j]),
    decreases a, 1nat,
{
    proof {
        lemma_so_seq_view(v@);
    }
    let ghost ys = so_seq_view(v@);
    let mut j: usize = 0;
    while j < v.len()
        invariant
            j <= v.len(),
            ys == so_seq_view(v@),
            ys.len() == v.len(),
            forall|t: int| 0 <= t < v.len() ==> #[trigger] ys[t] == so_view(v@[t]),
            forall|t: int| 0 <= t < j ==> !so_equiv(a@, #[trigger] ys[t]),
        decreases v.len() - j,
    {
        if so_equiv_exec(a, &v[j]) {
            assert(so_equiv(a@, ys[j as int]));
            return true;
        }
        j = j + 1;
    }
    false
}

/// Whether two syntactic objects are the same as sets.
///
/// See [`so_equiv`].
pub fn so_equiv_exec(a: &SyntacticObject, b: &SyntacticObject) -> (r: bool)
    ensures
        r == so_equiv(a@, b@),
    decreases a, 0nat,
{
    proof {
        lemma_so_equiv_cases(a@, b@);
    }
    match a {
        SyntacticObject::LexicalItemToken(x) => match b {
            SyntacticObject::LexicalItemToken(y) => x.elem_eq(y),
            _ => false,
        },
        SyntacticObject::SoSet(v) => match b {
            SyntacticObject::SoSet(w) => {
                proof {
                    lemma_so_seq_view(v@);
                    lemma_so_seq_view(w@);
                }
                let ghost xs = so_seq_view(v@);
                let ghost ys = so_seq_view(w@);
                proof {
                    lemma_so_equiv_sets(xs, ys);
                }
                assert(a@ == SoModel::SoSet(xs));
                assert(b@ == SoModel::SoSet(ys));
                let mut i: usize = 0;
                while i < v.len()
                    invariant
                        i <= v.len(),
                        xs == so_seq_view(v@),
                        ys == so_seq_view(w@),
                        xs.len() == v.len(),
                        ys.len() == w.len(),
                        forall|t: int| 0 <= t < v.len() ==> #[trigger] xs[t] == so_view(v@[t]),
                        forall|t: int| 0 <= t < w.len() ==> #[trigger] ys[t] == so_view(w@[t]),
                        forall|t: int| #![trigger xs[t]] 0 <= t < i ==> exists|j: int|
                            0 <= j < ys.len() && so_equiv(xs[t], #[trigger] ys[j]),
                        *a == SyntacticObject::SoSet(*v),
                        *b == SyntacticObject::SoSet(*w),
                    decreases v.len() - i,
                {
                    proof {
                        assert(decreases_to!(*a => a->SoSet_0));
                    }
                    assert(v@[i as int]@ == xs[i as int]);
                    if !so_equiv_some(&v[i], w) {
                        assert(!(exists|j: int| 0 <= j < ys.len() && so_equiv(xs[i as int], #[trigger] ys[j])));
                        proof {
                            lemma_so_equiv_sets(xs, ys);
                        }
                        return false;
                    }
                    i = i + 1;
                }
                let mut j: usize = 0;
                while j < w.len()
                    invariant
                        j <= w.len(),
                        xs == so_seq_view(v@),
                        ys == so_seq_view(w@),
                        xs.len() == v.len(),
                        ys.len() == w.len(),
                        forall|t: int| 0 <= t < v.len() ==> #[trigger] xs[t] == so_view(v@[t]),
                        forall|t: int| 0 <= t < w.len() ==> #[trigger] ys[t] == so_view(w@[t]),
                        forall|t: int| #![trigger ys[t]] 0 <= t < j ==> exists|i: int|
                            0 <= i < xs.len() && so_equiv(#[trigger] xs[i], ys[t]),
                        *a == SyntacticObject::SoSet(*v),
                        *b == SyntacticObject::SoSet(*w),
                    decreases w.len() - j,
                {
                    let mut i: usize = 0;
                    let mut found = false;
                    while i < v.len()
                        invariant
                            i <= v.len(),
                            j < w.len(),
                            xs == so_seq_view(v@),
                            ys == so_seq_view(w@),
                            xs.len() == v.len(),
                            ys.len() == w.len(),
                            forall|t: int| 0 <= t < v.len() ==> #[trigger] xs[t] == so_view(v@[t]),
                            forall|t: int| 0 <= t < w.len() ==> #[trigger] ys[t] == so_view(w@[t]),
                            found ==> exists|t: int| 0 <= t < xs.len() && so_equiv(#[trigger] xs[t], ys[j as int]),
                            !found ==> forall|t: int| 0 <= t < i ==> !so_equiv(#[trigger] xs[t], ys[j as int]),
                            *a == SyntacticObject::SoSet(*v),
                            *b == SyntacticObject::SoSet(*w),
                        decreases v.len() - i,
                    {
                        proof {
                            assert(decreases_to!(*a => a->SoSet_0));
                        }
                        if !found && so_equiv_exec(&v[i], &w[j]) {
                            found = true;
                            assert(so_equiv(xs[i as int], ys[j as int]));
                        }
                        i = i + 1;
                    }
                    if !found {
                        assert(!(exists|t: int| 0 <= t < xs.len() && so_equiv(#[trigger] xs[t], ys[j as int])));
                        assert(a@ == SoModel::SoSet(xs));
                        assert(b@ == SoModel::SoSet(ys));
                        proof {
                            lemma_so_equiv_sets(xs, ys);
                            assert(!each_in_equiv(xs, ys));
                        }
                        return false;
                    }
                    j = j + 1;
                }
                proof {
                    lemma_so_equiv_sets(xs, ys);
                }
                true
            },
            _ => false,
        },
        SyntacticObject::Transfer { so: s1, pf: p1, lf: l1 } => match b {
            SyntacticObject::Transfer { so: s2, pf: p2, lf: l2 } => {
                let e = so_equiv_exec(s1, s2);
                e && fvec_eq(p1, p2) && l1.same_as(l2)
            },
            _ => false,
        },
        SyntacticObject::WithFeature { so: s1, f: f1 } => match b {
            SyntacticObject::WithFeature { so: s2, f: f2 } => {
                let e = so_equiv_exec(s1, s2);
                e && f1.same_as(f2)
            },
            _ => false,
        },
    }
}

/// A copy of a syntactic object, with the same model.
pub fn so_dup(a: &SyntacticObject) -> (r: SyntacticObject)
    ensures
        r@ == a@,
    decreases a,
{
    match a {
        SyntacticObject::LexicalItemToken(x) => SyntacticObject::LexicalItemToken(x.elem_dup()),
        SyntacticObject::SoSet(v) => {
            let mut r: Vec<SyntacticObject> = Vec::new();
            let mut i: usize = 0;
            while i < v.len()
                invariant
                    i <= v.len(),
                    r@.len() == i,
                    forall|j: int| 0 <= j < i ==> #[trigger] so_view(r@[j]) == so_view(v@[j]),
                    *a == SyntacticObject::SoSet(*v),
                decreases v.len() - i,
            {
                proof {
                    assert(decreases_to!(*a => a->SoSet_0));
                }
                r.push(so_dup(&v[i]));
                i = i + 1;
            }
            proof {
                lemma_so_seq_view(v@);
                lemma_so_seq_view(r@);
                assert(so_seq_view(r@) =~= so_seq_view(v@));
            }
            SyntacticObject::SoSet(r)
        },
        SyntacticObject::Transfer { so, pf, lf } => SyntacticObject::Transfer {
            so: Box::new(so_dup(so)),
            pf: fvec_dup(pf),
            lf: lf.clone(),
        },
        SyntacticObject::WithFeature { so, f } => SyntacticObject::WithFeature {
            so: Box::new(so_dup(so)),
            f: f.dup(),
        },
    }
}

impl Elem for SyntacticObject {
    fn elem_eq(&self, other: &Self) -> (r: bool) {
        so_eq(self, other)
    }

    fn elem_dup(&self) -> (r: Self) {
        so_dup(self)
    }
}


/// The models of a vector extended by one object.
pub proof fn lemma_so_seq_view_push(s: Seq<SyntacticObject>, y: SyntacticObject)
    ensures
        so_seq_view(s.push(y)) == so_seq_view(s).push(so_view(y)),
{
    lemma_so_seq_view(s);
    lemma_so_seq_view(s.push(y));
    assert(so_seq_view(s.push(y)) =~= so_seq_view(s).push(so_view(y)));
}

/// The models of a vector without its last object.
pub proof fn lemma_so_seq_view_drop_last(s: Seq<SyntacticObject>)
    requires
        s.len() > 0,
    ensures
        so_seq_view(s) == so_seq_view(s.drop_last()).push(so_view(s.last())),
{
    lemma_so_seq_view(s);
    lemma_so_seq_view(s.drop_last());
    assert(so_seq_view(s) =~= so_seq_view(s.drop_last()).push(so_view(s.last())));
}

/// An iterator over the syntactic objects contained in a syntactic object.
///
/// It keeps a stack of the objects still to visit; a visited set pushes its
/// children, and a visited transferred object pushes the object it holds
/// when `pic_compliant` is set.
pub struct ContainedSyntacticObjects {
    stack: Vec<SyntacticObject>,
    pic_compliant: bool,
}

impl ContainedSyntacticObjects {
    /// The objects that the iterator still yields, in order.
    pub closed spec fn remaining(&self) -> Seq<SoModel> {
        stack_walk(so_seq_view(self.stack@), self.pic_compliant)
    }

    pub closed spec fn pic(&self) -> bool {
        self.pic_compliant
    }

    pub(crate) fn new(stack: Vec<SyntacticObject>, pic_compliant: bool) -> (r: Self)
        ensures
            r.remaining() == stack_walk(so_seq_view(stack@), pic_compliant),
            r.pic() == pic_compliant,
    {
        ContainedSyntacticObjects { stack, pic_compliant }
    }

    /// The next object of the walk, if any.
    pub fn next(&mut self) -> (r: Option<SyntacticObject>)
        ensures
            final(self).pic() == old(self).pic(),
            match r {
                None => old(self).remaining().len() == 0 && final(self).remaining() == old(
                    self,
                ).remaining(),
                Some(x) => old(self).remaining().len() > 0 && x@ == old(self).remaining()[0]
                    && final(self).remaining() == old(self).remaining().drop_first(),
            },
    {
        let ghost d = self.pic_compliant;
        match self.stack.pop() {
            None => {
                assert(so_seq_view(self.stack@).len() == 0) by {
                    lemma_so_seq_view(self.stack@);
                }
                assert(self.remaining() =~= Seq::<SoModel>::empty());
                None
            },
            Some(x) => {
                let ghost rest = self.stack@;
                proof {
                    lemma_so_seq_view_drop_last(old(self).stack@);
                    assert(old(self).stack@.drop_last() == rest);
                    lemma_stack_walk_step(so_seq_view(rest), x@, d);
                }
                match &x {
                    SyntacticObject::SoSet(v) => {
                        let mut i: usize = 0;
                        while i < v.len()
                            invariant
                                i <= v.len(),
                                so_seq_view(self.stack@) == so_seq_view(rest) + so_seq_view(
                                    v@,
                                ).take(i as int),
                                self.pic_compliant == d,
                            decreases v.len() - i,
                        {
                            let c = so_dup(&v[i]);
                            proof {
                                lemma_so_seq_view_push(self.stack@, c);
                                lemma_so_seq_view(v@);
                                assert(so_seq_view(v@).take(i + 1) =~= so_seq_view(v@).take(
                                    i as int,
                                ).push(so_view(c)));
                            }
                            self.stack.push(c);
                            i = i + 1;
                        }
                        proof {
                            lemma_so_seq_view(v@);
                            assert(so_seq_view(v@).take(i as int) =~= so_seq_view(v@));
                        }
                    },
                    SyntacticObject::Transfer { so, .. } => {
                        if self.pic_compliant {
                            let c = so_dup(so);
                            proof {
                                lemma_so_seq_view_push(self.stack@, c);
                                assert(so_seq_view(rest) + seq![so_view(c)] =~= so_seq_view(
                                    rest,
                                ).push(so_view(c)));
                            }
                            self.stack.push(c);
                        } else {
                            assert(so_seq_view(rest) + Seq::<SoModel>::empty() =~= so_seq_view(
                                rest,
                            ));
                        }
                    },
                    _ => {
                        assert(so_seq_view(rest) + Seq::<SoModel>::empty() =~= so_seq_view(rest));
                    },
                }
                assert(so_seq_view(self.stack@) == so_seq_view(rest) + pushed_children(x@, d));
                assert(old(self).remaining() == seq![x@] + self.remaining());
                assert(self.remaining() =~= old(self).remaining().drop_first());
                Some(x)
            },
        }
    }

    /// All the objects that the iterator still yields, in order.
    pub fn to_vec(&mut self) -> (r: Vec<SyntacticObject>)
        ensures
            so_seq_view(r@) == old(self).remaining(),
            final(self).remaining().len() == 0,
    {
        let mut r: Vec<SyntacticObject> = Vec::new();
        let ghost start = self.remaining();
        proof {
            lemma_so_seq_view(r@);
        }
        loop
            invariant
                so_seq_view(r@) + self.remaining() == start,
                start == old(self).remaining(),
            decreases self.remaining().len(),
        {
            let ghost before = self.remaining();
            match self.next() {
                None => {
                    assert(so_seq_view(r@) =~= start);
                    return r;
                },
                Some(x) => {
                    proof {
                        lemma_so_seq_view_push(r@, x);
                    }
                    r.push(x);
                    assert(so_seq_view(r@) + self.remaining() =~= start);
                },
            }
        }
    }
}

impl SyntacticObject {
    pub fn is_lexical_item_token(&self) -> (r: bool)
        ensures
            r == (self@ is Lit),
    {
        match self {
            SyntacticObject::LexicalItemToken(_) => true,
            _ => false,
        }
    }

    pub fn is_set(&self) -> (r: bool)
        ensures
            r == (self@ is SoSet),
    {
        match self {
            SyntacticObject::SoSet(_) => true,
            _ => false,
        }
    }

    /// Immediate containment.
    ///
    /// From Definition 8, C&S 2016, p. 46: B immediately contains A iff A is an
    /// element of B.  A transferred object is no set, so it immediately
    /// contains nothing.
    pub fn immediately_contains(&self, a: &SyntacticObject) -> (r: bool)
        ensures
            r == so_immediately_contains(self@, a@),
    {
        match self {
            SyntacticObject::LexicalItemToken(_) => false,
            SyntacticObject::SoSet(b) => {
                proof {
                    lemma_so_seq_view(b@);
                }
                let mut i: usize = 0;
                while i < b.len()
                    invariant
                        i <= b.len(),
                        self@ == SoModel::SoSet(so_seq_view(b@)),
                        so_seq_view(b@).len() == b.len(),
                        forall|j: int| 0 <= j < b.len() ==> #[trigger] so_seq_view(b@)[j] == so_view(b@[j]),
                        forall|j: int| 0 <= j < i ==> so_seq_view(b@)[j] != a@,
                    decreases b.len() - i,
                {
                    if so_eq(&b[i], a) {
                        assert(so_seq_view(b@)[i as int] == a@);
                        return true;
                    }
                    i = i + 1;
                }
                false
            },
            SyntacticObject::Transfer { .. } => false,
            SyntacticObject::WithFeature { .. } => false,
        }
    }

    /// Containment.
    ///
    /// From Definition 9, C&S 2016, p. 46: B contains A iff B immediately
    /// contains A, or B immediately contains some C that contains A.  A
    /// transferred object contains the object it holds and what that
    /// contains (see [`so_contains`]).
    pub fn contains(&self, a: &SyntacticObject) -> (r: bool)
        ensures
            r == so_contains(self@, a@),
        decreases self,
    {
        match self {
            SyntacticObject::LexicalItemToken(_) => false,
            SyntacticObject::SoSet(b) => {
                if self.immediately_contains(a) {
                    return true;
                }
                proof {
                    lemma_so_seq_view(b@);
                }
                let mut i: usize = 0;
                while i < b.len()
                    invariant
                        i <= b.len(),
                        *self == SyntacticObject::SoSet(*b),
                        self@ == SoModel::SoSet(so_seq_view(b@)),
                        !so_seq_view(b@).contains(a@),
                        so_seq_view(b@).len() == b.len(),
                        forall|j: int| 0 <= j < b.len() ==> #[trigger] so_seq_view(b@)[j] == so_view(b@[j]),
                        forall|j: int| 0 <= j < i ==> !so_contains(#[trigger] so_seq_view(b@)[j], a@),
                    decreases b.len() - i,
                {
                    proof {
                        assert(decreases_to!(*self => self->SoSet_0));
                    }
                    if b[i].contains(a) {
                        assert(so_contains(so_seq_view(b@)[i as int], a@));
                        return true;
                    }
                    i = i + 1;
                }
                false
            },
            SyntacticObject::Transfer { so, .. } => so_eq(so, a) || so.contains(a),
            SyntacticObject::WithFeature { so, .. } => so_eq(so, a) || so.contains(a),
        }
    }

    /// Sisterhood.
    ///
    /// From Definition 19, C&S 2016, p. 52: distinct A and B are sisters in C
    /// iff both are elements of C.
    pub fn sisters_with(&self, other: &SyntacticObject, under: &SyntacticObject) -> (r: bool)
        ensures
            r == (self@ != other@ && so_immediately_contains(under@, self@)
                && so_immediately_contains(under@, other@)),
    {
        !so_eq(self, other) && under.immediately_contains(self) && under.immediately_contains(
            other,
        )
    }

    /// Binary branching.
    ///
    /// From Definition 24, C&S 2016, p. 57: an object is binary branching iff
    /// it and everything it contains is a lexical item token or immediately
    /// contains exactly two objects.
    pub fn is_binary_branching(&self) -> (r: bool)
        ensures
            r == so_binary_branching(self@),
        decreases self,
    {
        match self {
            SyntacticObject::LexicalItemToken(_) => true,
            SyntacticObject::SoSet(set) => {
                proof {
                    lemma_so_seq_view(set@);
                }
                let mut all = true;
                let mut i: usize = 0;
                while i < set.len()
                    invariant
                        i <= set.len(),
                        *self == SyntacticObject::SoSet(*set),
                        so_seq_view(set@).len() == set.len(),
                        forall|j: int| 0 <= j < set.len() ==> #[trigger] so_seq_view(set@)[j] == so_view(set@[j]),
                        all == (forall|j: int| 0 <= j < i ==> so_binary_branching(#[trigger] so_seq_view(set@)[j])),
                    decreases set.len() - i,
                {
                    proof {
                        assert(decreases_to!(*self => self->SoSet_0));
                    }
                    let b = set[i].is_binary_branching();
                    proof {
                        if !b {
                            assert(!so_binary_branching(so_seq_view(set@)[i as int]));
                        }
                    }
                    all = all && b;
                    i = i + 1;
                }
                all && set.len() == 2
            },
            SyntacticObject::Transfer { so, .. } => so.is_binary_branching(),
            SyntacticObject::WithFeature { so, .. } => so.is_binary_branching(),
        }
    }

    /// The objects contained in `self`, in the order of a stack walk; with
    /// `start_with_self`, `self` comes first.  The walk enters transferred
    /// objects when `pic_compliant` is set.
    pub fn contained_sos(&self, start_with_self: bool, pic_compliant: bool) -> (r:
        ContainedSyntacticObjects)
        ensures
            r.pic() == pic_compliant,
            r.remaining() == if start_with_self {
                preorder(self@, pic_compliant)
            } else {
                preorder(self@, pic_compliant).drop_first()
            },
    {
        let mut stack: Vec<SyntacticObject> = Vec::new();
        stack.push(so_dup(self));
        proof {
            lemma_so_seq_view(stack@);
            assert(so_seq_view(stack@) =~= seq![self@]);
            assert(stack_walk(seq![self@], pic_compliant) =~= preorder(self@, pic_compliant)
                + preorder_rev(seq![self@], 0, pic_compliant));
            assert(stack_walk(seq![self@], pic_compliant) =~= preorder(self@, pic_compliant));
        }
        let mut it = ContainedSyntacticObjects::new(stack, pic_compliant);
        if !start_with_self {
            let _ = it.next();
        }
        it
    }

    pub fn is_minimal_projection(&self) -> (r: bool)
        ensures
            r == (self@ is Lit),
    {
        match self {
            SyntacticObject::LexicalItemToken(_) => true,
            _ => false,
        }
    }
}


/// Sisterhood on models.
pub open spec fn sisters_model(a: SoModel, b: SoModel, under: SoModel) -> bool {
    a != b && so_immediately_contains(under, a) && so_immediately_contains(under, b)
}

/// C-command on models.
///
/// From Definition 21, C&S 2016, p. 53: A c-commands B in D iff some C that
/// D contains is a sister of A in D, and B = C or C contains B.  The objects
/// that D contains are those of a walk of D that does not enter transferred
/// objects.
pub open spec fn c_commands_model(a: SoModel, b: SoModel, under: SoModel) -> bool {
    exists|c: SoModel|
        #[trigger] preorder(under, false).drop_first().contains(c) && sisters_model(c, a, under) && (
        b == c || so_contains(c, b))
}

/// Whether `x` occurs in `parent` only at its highest position within
/// `under`: no object of a walk of `under` (entering transferred objects)
/// immediately contains `x` and contains `parent`.
pub open spec fn is_final_model(x: SoModel, parent: SoModel, under: SoModel) -> bool {
    !exists|c: SoModel|
        #[trigger] preorder(under, true).contains(c) && so_immediately_contains(c, x)
            && so_contains(c, parent)
}

/// Maximal projection on models: `so` is labelled by `lit`, and no object
/// of the workspace that immediately contains `so` has the same label.
pub open spec fn is_maximal_projection_model<T: Triggers>(
    so: SoModel,
    lit: LitModel,
    w: Set<SoModel>,
) -> bool {
    match spec_label::<T>(so, w) {
        Some(label) => label == lit && !exists|d: SoModel|
            #[trigger] ws_walk_contains(w, d, true) && so_immediately_contains(d, so)
                && spec_label::<T>(d, w) == Some(label),
        None => false,
    }
}

/// The object with every copy of `old` within it replaced by `new`: where
/// the object is `old` itself it becomes `new`; within a set each member is
/// updated; other objects stay as they are.
pub open spec fn update_copies_model(so: SoModel, old: SoModel, new: SoModel) -> SoModel
    decreases so, 1nat,
{
    if so == old {
        new
    } else {
        match so {
            SoModel::SoSet(xs) => SoModel::SoSet(update_copies_prefix(xs, xs.len(), old, new)),
            _ => so,
        }
    }
}

/// The first `n` members of `xs`, each updated.
pub open spec fn update_copies_prefix(xs: Seq<SoModel>, n: nat, old: SoModel, new: SoModel) -> Seq<SoModel>
    decreases xs, n,
{
    if n == 0 || n > xs.len() {
        Seq::empty()
    } else {
        update_copies_prefix(xs, (n - 1) as nat, old, new).push(update_copies_model(xs[n - 1], old, new))
    }
}

/// The updated members have the length of the members, and each is the
/// update of the member at its place.
pub proof fn lemma_update_copies_prefix(xs: Seq<SoModel>, n: nat, old: SoModel, new: SoModel)
    requires
        n <= xs.len(),
    ensures
        update_copies_prefix(xs, n, old, new).len() == n,
        forall|i: int| 0 <= i < n ==> #[trigger] update_copies_prefix(xs, n, old, new)[i]
            == update_copies_model(xs[i], old, new),
    decreases n,
{
    if n > 0 {
        lemma_update_copies_prefix(xs, (n - 1) as nat, old, new);
    }
}

/// The object with every copy of `old_goal` within it replaced by
/// `new_goal`.
///
/// See [`update_copies_model`].
pub fn update_goal_copies(so: SyntacticObject, old_goal: &SyntacticObject, new_goal: &SyntacticObject) -> (r:
    SyntacticObject)
    ensures
        r@ == update_copies_model(so@, old_goal@, new_goal@),
{
    update_copies_of(&so, old_goal, new_goal)
}

/// The update of an object that is borrowed.
fn update_copies_of(so: &SyntacticObject, old_goal: &SyntacticObject, new_goal: &SyntacticObject) -> (r:
    SyntacticObject)
    ensures
        r@ == update_copies_model(so@, old_goal@, new_goal@),
    decreases so,
{
    if so_eq(so, old_goal) {
        return so_dup(new_goal);
    }
    match so {
        SyntacticObject::SoSet(set) => {
            let ghost xs = so_seq_view(set@);
            proof {
                lemma_so_seq_view(set@);
                lemma_update_copies_prefix(xs, xs.len(), old_goal@, new_goal@);
            }
            let mut out: Vec<SyntacticObject> = Vec::new();
            let mut i: usize = 0;
            while i < set.len()
                invariant
                    i <= set.len(),
                    xs == so_seq_view(set@),
                    xs.len() == set.len(),
                    forall|t: int| 0 <= t < set.len() ==> #[trigger] xs[t] == so_view(set@[t]),
                    out@.len() == i,
                    forall|t: int| 0 <= t < i ==> #[trigger] so_view(out@[t]) == update_copies_model(
                        xs[t],
                        old_goal@,
                        new_goal@,
                    ),
                    *so == SyntacticObject::SoSet(*set),
                decreases set.len() - i,
            {
                proof {
                    assert(decreases_to!(*so => so->SoSet_0));
                }
                let u = update_copies_of(&set[i], old_goal, new_goal);
                out.push(u);
                i = i + 1;
            }
            proof {
                lemma_so_seq_view(out@);
                assert(so_seq_view(out@) =~= update_copies_prefix(xs, xs.len(), old_goal@, new_goal@));
            }
            SyntacticObject::SoSet(out)
        },
        _ => so_dup(so),
    }
}

/// Whether `small` pied-pipes to `maybe_larger`: the two are one object, or
/// the second contains the first.
pub fn pied_pipes_to(small: &SyntacticObject, maybe_larger: &SyntacticObject) -> (r: bool)
    ensures
        r == (small@ == maybe_larger@ || so_contains(maybe_larger@, small@)),
{
    so_eq(small, maybe_larger) || maybe_larger.contains(small)
}

/// Complement on models: Merge(head, x) gives `under` (as a set, see
/// [`so_equiv`]), and the head is a lexical item token.
pub open spec fn is_complement_model<T: Triggers>(
    x: SoModel,
    head: SoModel,
    under: SoModel,
    w: Set<SoModel>,
) -> bool {
    match triggered_merge_model::<T>(head, x, w) {
        Ok(merged) => so_equiv(under, merged) && head is Lit,
        Err(_) => false,
    }
}

/// Specifier on models: Merge(head, x) gives `under` (as a set, see
/// [`so_equiv`]), and the head is a set.
pub open spec fn is_specifier_model<T: Triggers>(
    x: SoModel,
    head: SoModel,
    under: SoModel,
    w: Set<SoModel>,
) -> bool {
    match triggered_merge_model::<T>(head, x, w) {
        Ok(merged) => so_equiv(under, merged) && head is SoSet,
        Err(_) => false,
    }
}

impl SyntacticObject {
    /// Roothood.
    ///
    /// From Definition 11, C&S 2016, p. 47: X is a root in W iff X is an
    /// element of W.
    pub fn is_root(&self, w: &Workspace) -> (r: bool)
        ensures
            r == w@.contains(self@),
    {
        w.immediately_contains(self)
    }

    /// C-command.
    ///
    /// See [`c_commands_model`].
    pub fn c_commands(&self, other: &SyntacticObject, under: &SyntacticObject) -> (r: bool)
        ensures
            r == c_commands_model(self@, other@, under@),
    {
        let mut it = under.contained_sos(false, false);
        let items = it.to_vec();
        let ghost walk = preorder(under@, false).drop_first();
        proof {
            lemma_so_seq_view(items@);
        }
        let mut i: usize = 0;
        while i < items.len()
            invariant
                i <= items.len(),
                so_seq_view(items@) == walk,
                walk == preorder(under@, false).drop_first(),
                walk.len() == items.len(),
                forall|j: int| 0 <= j < items.len() ==> #[trigger] so_seq_view(items@)[j] == so_view(items@[j]),
                forall|j: int| 0 <= j < i ==> !(sisters_model(#[trigger] walk[j], self@, under@) && (other@ == walk[j]
                    || so_contains(walk[j], other@))),
            decreases items.len() - i,
        {
            let so = &items[i];
            if so.sisters_with(self, under) && (so_eq(other, so) || so.contains(other)) {
                let ghost c = walk[i as int];
                assert(so@ == c);
                assert(preorder(under@, false).drop_first().contains(c));
                assert(sisters_model(c, self@, under@) && (other@ == c || so_contains(c, other@)));
                return true;
            }
            i = i + 1;
        }
        assert forall|c: SoModel| #[trigger] walk.contains(c) implies !(sisters_model(c, self@, under@)
            && (other@ == c || so_contains(c, other@))) by {
            let k = choose|k: int| 0 <= k < walk.len() && walk[k] == c;
        }
        false
    }

    /// Asymmetric c-command: A c-commands B and A and B are not sisters.
    pub fn asymmetrically_c_commands(&self, other: &SyntacticObject, under: &SyntacticObject) -> (r:
        bool)
        ensures
            r == (!sisters_model(self@, other@, under@) && c_commands_model(self@, other@, under@)),
    {
        !self.sisters_with(other, under) && self.c_commands(other, under)
    }

    /// Whether `self`, an element of `parent`, is final in `under`.
    ///
    /// See [`is_final_model`].
    pub fn is_final(&self, parent: &SyntacticObject, under: &SyntacticObject) -> (r: bool)
        requires
            so_immediately_contains(parent@, self@),
        ensures
            r == is_final_model(self@, parent@, under@),
    {
        let mut it = under.contained_sos(true, true);
        let items = it.to_vec();
        let ghost walk = preorder(under@, true);
        proof {
            lemma_so_seq_view(items@);
        }
        let mut i: usize = 0;
        while i < items.len()
            invariant
                i <= items.len(),
                so_seq_view(items@) == walk,
                walk == preorder(under@, true),
                walk.len() == items.len(),
                forall|j: int| 0 <= j < items.len() ==> #[trigger] so_seq_view(items@)[j] == so_view(items@[j]),
                forall|j: int| 0 <= j < i ==> !(so_immediately_contains(#[trigger] walk[j], self@) && so_contains(walk[j], parent@)),
            decreases items.len() - i,
        {
            let c = &items[i];
            if c.immediately_contains(self) && c.contains(parent) {
                let ghost cm = walk[i as int];
                assert(c@ == cm);
                assert(preorder(under@, true).contains(cm));
                return false;
            }
            i = i + 1;
        }
        assert forall|c: SoModel| #[trigger] walk.contains(c) implies !(so_immediately_contains(c, self@)
            && so_contains(c, parent@)) by {
            let k = choose|k: int| 0 <= k < walk.len() && walk[k] == c;
        }
        true
    }

    /// Maximal projection.
    ///
    /// See [`is_maximal_projection_model`].
    pub fn is_maximal_projection_of<T: Triggers>(&self, lit: &LexicalItemToken, w: &Workspace) -> (r:
        bool)
        ensures
            r == is_maximal_projection_model::<T>(self@, lit@, w@),
    {
        match label_of::<T>(self, w) {
            Ok(label) => {
                if !label.elem_eq(lit) {
                    return false;
                }
                let mut it = w.contained_sos(false);
                let items = it.to_vec();
                let ghost walk = stack_walk(w.0.listing(), true);
                proof {
                    lemma_so_seq_view(items@);
                }
                let mut i: usize = 0;
                while i < items.len()
                    invariant
                        i <= items.len(),
                        so_seq_view(items@) == walk,
                        walk.len() == items.len(),
                        forall|x: SoModel| walk.contains(x) <==> ws_walk_contains(w@, x, true),
                        forall|j: int| 0 <= j < items.len() ==> #[trigger] so_seq_view(items@)[j] == so_view(items@[j]),
                        spec_label::<T>(self@, w@) == Some(label@),
                        forall|j: int| 0 <= j < i ==> !(so_immediately_contains(#[trigger] walk[j], self@)
                            && spec_label::<T>(walk[j], w@) == Some(label@)),
                    decreases items.len() - i,
                {
                    let d = &items[i];
                    if d.immediately_contains(self) {
                        let same = match label_of::<T>(d, w) {
                            Ok(ld) => ld.elem_eq(label),
                            Err(_) => false,
                        };
                        if same {
                            assert(walk.contains(walk[i as int]));
                            return false;
                        }
                    }
                    i = i + 1;
                }
                assert forall|d: SoModel| #[trigger] ws_walk_contains(w@, d, true) implies !(
                so_immediately_contains(d, self@) && spec_label::<T>(d, w@) == Some(label@)) by {
                    assert(walk.contains(d));
                    let k = choose|k: int| 0 <= k < walk.len() && walk[k] == d;
                }
                true
            },
            Err(_) => false,
        }
    }

    /// Intermediate projection: neither a maximal nor a minimal projection.
    pub fn is_intermediate_projection_of<T: Triggers>(
        &self,
        lit: &LexicalItemToken,
        w: &Workspace,
    ) -> (r: bool)
        ensures
            r == (!is_maximal_projection_model::<T>(self@, lit@, w@) && !(self@ is Lit)),
    {
        !self.is_maximal_projection_of::<T>(lit, w) && !self.is_minimal_projection()
    }

    /// Whether `self` is the complement of `head` in `under`.
    ///
    /// See [`is_complement_model`].
    pub fn is_complement_of<T: Triggers>(
        &self,
        head: &SyntacticObject,
        under: &SyntacticObject,
        w: &Workspace,
    ) -> (r: bool)
        ensures
            r == is_complement_model::<T>(self@, head@, under@, w@),
    {
        match triggered_merge_with_so::<T>(so_dup(head), so_dup(self), w) {
            Ok(merged) => so_equiv_exec(under, &merged) && head.is_lexical_item_token(),
            Err(_) => false,
        }
    }

    /// Whether `self` is the specifier of `head` in `under`.
    ///
    /// See [`is_specifier_model`].
    pub fn is_specifier_of<T: Triggers>(
        &self,
        head: &SyntacticObject,
        under: &SyntacticObject,
        w: &Workspace,
    ) -> (r: bool)
        ensures
            r == is_specifier_model::<T>(self@, head@, under@, w@),
    {
        match triggered_merge_with_so::<T>(so_dup(head), so_dup(self), w) {
            Ok(merged) => so_equiv_exec(under, &merged) && head.is_set(),
            Err(_) => false,
        }
    }
}

} // verus!
