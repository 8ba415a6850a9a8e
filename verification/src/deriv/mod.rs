//! Derivations: stages, workspaces, and the check that a sequence of stages
//! is a derivation.

pub mod li;
pub mod lit;
pub mod so;
pub mod occur;
pub mod draw;

use vstd::prelude::*;

use crate::deriv::lit::{LexicalItemToken, LitModel};
use crate::deriv::so::{
    preorder, so_contains, so_dup, so_equiv, so_equiv_exec, so_seq_view, so_view, stack_walk,
    lemma_so_seq_view, SoModel, SyntacticObject,
};
use crate::deriv::li::{LexicalItem, LiModel};
use crate::feature::{Feature, FeatureSet};
use crate::labels::Triggers;
use crate::ops::{
    cyclic_transfer_model, select, select_model, strong_phase_model, transfer_model,
    triggered_merge_model, triggered_merge_with_so, try_cyclic_transfer, is_strong_phase,
    try_transfer,
};
use crate::utils::{Elem, FiniteSet};

verus! {

/// Containment in a workspace: W contains A iff A is a root of W or some root
/// of W contains A.
pub open spec fn ws_contains(w: Set<SoModel>, a: SoModel) -> bool {
    w.contains(a) || exists|b: SoModel| w.contains(b) && so_contains(b, a)
}

/// Whether a walk of the roots of `w` visits `x`.
pub open spec fn ws_walk_contains(w: Set<SoModel>, x: SoModel, into_transfer: bool) -> bool {
    exists|b: SoModel| #[trigger] w.contains(b) && preorder(b, into_transfer).contains(x)
}

/// A stack walk visits exactly what the walks of its objects visit.
pub proof fn lemma_stack_walk_contains(s: Seq<SoModel>, x: SoModel, d: bool)
    ensures
        stack_walk(s, d).contains(x) <==> exists|i: int|
            0 <= i < s.len() && #[trigger] preorder(s[i], d).contains(x),
    decreases s.len(),
{
    if s.len() > 0 {
        let s1 = s.drop_last();
        lemma_stack_walk_contains(s1, x, d);
        assert(s1.take(s1.len() as int) =~= s.take(s1.len() as int));
        crate::deriv::so::lemma_preorder_rev_prefix(s1, s, s1.len(), d);
        assert(stack_walk(s, d) == preorder(s[s.len() - 1], d) + stack_walk(s1, d));
        if stack_walk(s, d).contains(x) {
            let k = choose|k: int| 0 <= k < stack_walk(s, d).len() && stack_walk(s, d)[k] == x;
            let p = preorder(s[s.len() - 1], d);
            if k < p.len() {
                assert(p[k] == x);
                assert(p.contains(x));
                assert(preorder(s[s.len() - 1], d).contains(x));
            } else {
                assert(stack_walk(s1, d)[k - p.len()] == x);
                assert(stack_walk(s1, d).contains(x));
                let i = choose|i: int| 0 <= i < s1.len() && #[trigger] preorder(s1[i], d).contains(x);
                assert(s[i] == s1[i]);
                assert(preorder(s[i], d).contains(x));
            }
        }
        if exists|i: int| 0 <= i < s.len() && #[trigger] preorder(s[i], d).contains(x) {
            let i = choose|i: int| 0 <= i < s.len() && #[trigger] preorder(s[i], d).contains(x);
            let p = preorder(s[s.len() - 1], d);
            let q = stack_walk(s1, d);
            if i == s.len() - 1 {
                let k = choose|k: int| 0 <= k < p.len() && p[k] == x;
                assert((p + q)[k] == x);
            } else {
                assert(s1[i] == s[i]);
                assert(q.contains(x));
                let k = choose|k: int| 0 <= k < q.len() && q[k] == x;
                assert((p + q)[p.len() + k] == x);
            }
        }
    } else {
        assert(stack_walk(s, d) =~= Seq::<SoModel>::empty());
    }
}

/// Whether `x` is the same as a set (see [`so_equiv`]) as some object of `w`.
#[verifier::opaque]
pub open spec fn equiv_in_ws(x: SoModel, w: Set<SoModel>) -> bool {
    exists|y: SoModel| w.contains(y) && #[trigger] so_equiv(x, y)
}

/// Whether some object of `w` is the same as a set as `y`.
#[verifier::opaque]
pub open spec fn ws_has_equiv(w: Set<SoModel>, y: SoModel) -> bool {
    exists|x: SoModel| w.contains(x) && #[trigger] so_equiv(x, y)
}

/// Sameness of workspaces: each object of either is the same as a set (see
/// [`so_equiv`]) as some object of the other, so that the order in which the
/// members of a set are written does not matter.
pub open spec fn ws_equiv(w1: Set<SoModel>, w2: Set<SoModel>) -> bool {
    &&& forall|x: SoModel| #[trigger] w1.contains(x) ==> equiv_in_ws(x, w2)
    &&& forall|y: SoModel| #[trigger] w2.contains(y) ==> ws_has_equiv(w1, y)
}

/// Whether `x` is the same as a set as some object of `w`.
fn equiv_member(x: &SyntacticObject, w: &FiniteSet<SyntacticObject>) -> (r: bool)
    ensures
        r == equiv_in_ws(x@, w@),
{
    reveal(equiv_in_ws);
    let n = w.len();
    let mut k: usize = 0;
    while k < n
        invariant
            n == w.listing().len(),
            k <= n,
            forall|t: int| 0 <= t < k ==> !so_equiv(x@, #[trigger] w.listing()[t]),
        decreases n - k,
    {
        if so_equiv_exec(x, w.get(k)) {
            assert(w@.contains(w.listing()[k as int]));
            reveal(equiv_in_ws);
            return true;
        }
        k = k + 1;
    }
    assert forall|y: SoModel| w@.contains(y) implies !#[trigger] so_equiv(x@, y) by {
        let t = choose|t: int| 0 <= t < w.listing().len() && w.listing()[t] == y;
    }
    false
}

/// Whether some object of `w` is the same as a set as `y`.
fn member_equiv(w: &FiniteSet<SyntacticObject>, y: &SyntacticObject) -> (r: bool)
    ensures
        r == ws_has_equiv(w@, y@),
{
    reveal(ws_has_equiv);
    let n = w.len();
    let mut k: usize = 0;
    while k < n
        invariant
            n == w.listing().len(),
            k <= n,
            forall|t: int| 0 <= t < k ==> !so_equiv(#[trigger] w.listing()[t], y@),
        decreases n - k,
    {
        if so_equiv_exec(w.get(k), y) {
            assert(w@.contains(w.listing()[k as int]));
            reveal(ws_has_equiv);
            return true;
        }
        k = k + 1;
    }
    assert forall|x: SoModel| w@.contains(x) implies !#[trigger] so_equiv(x, y@) by {
        let t = choose|t: int| 0 <= t < w.listing().len() && w.listing()[t] == x;
    }
    false
}

/// Whether two workspaces are the same.
///
/// See [`ws_equiv`].
fn ws_equiv_exec(a: &FiniteSet<SyntacticObject>, b: &FiniteSet<SyntacticObject>) -> (r: bool)
    ensures
        r == ws_equiv(a@, b@),
{
    let n = a.len();
    let mut i: usize = 0;
    while i < n
        invariant
            n == a.listing().len(),
            i <= n,
            forall|t: int| 0 <= t < i ==> equiv_in_ws(#[trigger] a.listing()[t], b@),
        decreases n - i,
    {
        if !equiv_member(a.get(i), b) {
            assert(a@.contains(a.listing()[i as int]));
            return false;
        }
        i = i + 1;
    }
    let m = b.len();
    let mut j: usize = 0;
    while j < m
        invariant
            m == b.listing().len(),
            j <= m,
            forall|t: int| 0 <= t < j ==> ws_has_equiv(a@, #[trigger] b.listing()[t]),
        decreases m - j,
    {
        if !member_equiv(a, b.get(j)) {
            assert(b@.contains(b.listing()[j as int]));
            return false;
        }
        j = j + 1;
    }
    assert forall|x: SoModel| #[trigger] a@.contains(x) implies equiv_in_ws(x, b@) by {
        let t = choose|t: int| 0 <= t < a.listing().len() && a.listing()[t] == x;
    }
    assert forall|y: SoModel| #[trigger] b@.contains(y) implies ws_has_equiv(a@, y) by {
        let t = choose|t: int| 0 <= t < b.listing().len() && b.listing()[t] == y;
    }
    true
}

/// Lexical array.
///
/// From Definition 6 in C&S 2016, p. 45: a finite set of lexical item tokens.
pub struct LexicalArray(pub FiniteSet<LexicalItemToken>);

impl View for LexicalArray {
    type V = Set<LitModel>;

    open spec fn view(&self) -> Set<LitModel> {
        self.0@
    }
}

impl LexicalArray {
    pub fn new(set: FiniteSet<LexicalItemToken>) -> (r: Self)
        ensures
            r@ == set@,
    {
        LexicalArray(set)
    }
}

/// Workspace: the set of syntactic objects of a stage.
///
/// See [`Stage`].
pub struct Workspace(pub FiniteSet<SyntacticObject>);

impl View for Workspace {
    type V = Set<SoModel>;

    open spec fn view(&self) -> Set<SoModel> {
        self.0@
    }
}

impl Workspace {
    pub fn new(set: FiniteSet<SyntacticObject>) -> (r: Self)
        ensures
            r@ == set@,
    {
        Workspace(set)
    }

    /// Immediate containment: W immediately contains A iff A is an element of W.
    pub fn immediately_contains(&self, so: &SyntacticObject) -> (r: bool)
        ensures
            r == self@.contains(so@),
    {
        self.0.contains(so)
    }

    /// Containment.
    ///
    /// Derived from Definition 9, C&S 2016, p. 46: W contains A iff W
    /// immediately contains A, or W immediately contains some B that contains
    /// A.
    pub fn contains(&self, so: &SyntacticObject) -> (r: bool)
        ensures
            r == ws_contains(self@, so@),
    {
        if self.0.contains(so) {
            return true;
        }
        let n = self.0.len();
        let mut i: usize = 0;
        while i < n
            invariant
                n == self.0.listing().len(),
                i <= n,
                !self@.contains(so@),
                forall|j: int| 0 <= j < i ==> !so_contains(#[trigger] self.0.listing()[j], so@),
            decreases n - i,
        {
            if self.0.get(i).contains(so) {
                assert(self@.contains(self.0.listing()[i as int]));
                return true;
            }
            i = i + 1;
        }
        assert forall|b: SoModel| self@.contains(b) implies !so_contains(b, so@) by {
            let k = choose|k: int| 0 <= k < self.0.listing().len() && self.0.listing()[k] == b;
        }
        false
    }

    /// The objects contained in the workspace, roots included, in the order of
    /// a stack walk that starts from the roots.  The walk enters transferred
    /// objects unless `pic_compliant` is set.
    pub fn contained_sos(&self, pic_compliant: bool) -> (r: ContainedSyntacticObjects)
        ensures
            r.pic() == pic_compliant,
            r.remaining() == stack_walk(self.0.listing(), !pic_compliant),
            forall|x: SoModel|
                r.remaining().contains(x) <==> ws_walk_contains(self@, x, !pic_compliant),
    {
        let n = self.0.len();
        let mut stack: Vec<SyntacticObject> = Vec::new();
        let mut i: usize = 0;
        while i < n
            invariant
                n == self.0.listing().len(),
                i <= n,
                so_seq_view(stack@) == self.0.listing().take(i as int),
            decreases n - i,
        {
            let c = so_dup(self.0.get(i));
            proof {
                crate::deriv::so::lemma_so_seq_view_push(stack@, c);
                assert(self.0.listing().take(i + 1) =~= self.0.listing().take(i as int).push(
                    c@,
                ));
            }
            stack.push(c);
            i = i + 1;
        }
        assert(self.0.listing().take(i as int) =~= self.0.listing());
        let r = ContainedSyntacticObjects::new(stack, pic_compliant);
        let ghost d = !pic_compliant;
        assert forall|x: SoModel| r.remaining().contains(x) <==> ws_walk_contains(self@, x, d) by {
            lemma_stack_walk_contains(self.0.listing(), x, d);
            if r.remaining().contains(x) {
                let k = choose|k: int|
                    0 <= k < self.0.listing().len() && #[trigger] preorder(
                        self.0.listing()[k],
                        d,
                    ).contains(x);
                assert(self@.contains(self.0.listing()[k]));
            }
            if ws_walk_contains(self@, x, d) {
                let b = choose|b: SoModel| #[trigger] self@.contains(b) && preorder(b, d).contains(x);
                let k = choose|k: int| 0 <= k < self.0.listing().len() && self.0.listing()[k] == b;
                assert(preorder(self.0.listing()[k], d).contains(x));
            }
        }
        r
    }
}

/// An iterator over the syntactic objects contained in a [`Workspace`].
///
/// It keeps a stack of the objects still to visit; a visited set pushes its
/// children, and a visited transferred object pushes the object it holds
/// unless `pic_compliant` is set.
pub struct ContainedSyntacticObjects {
    inner: crate::deriv::so::ContainedSyntacticObjects,
}

impl ContainedSyntacticObjects {
    /// The objects that the iterator still yields, in order.
    pub closed spec fn remaining(&self) -> Seq<SoModel> {
        self.inner.remaining()
    }

    pub closed spec fn pic(&self) -> bool {
        !self.inner.pic()
    }

    fn new(stack: Vec<SyntacticObject>, pic_compliant: bool) -> (r: Self)
        ensures
            r.remaining() == stack_walk(so_seq_view(stack@), !pic_compliant),
            r.pic() == pic_compliant,
    {
        ContainedSyntacticObjects {
            inner: crate::deriv::so::ContainedSyntacticObjects::new(stack, !pic_compliant),
        }
    }

    /// The next object of the walk, if any.
    pub fn next(&mut self) -> (r: Option<SyntacticObject>)
        ensures
            final(self).pic() == old(self).pic(),
            match r {
                None => old(self).remaining().len() == 0 && final(self).remaining() == old(
                    self,
                ).remaining(),
                Some(x) => old(self).remaining().len() > 0 && x@ == old(self).remaining()[0]
                    && final(self).remaining() == old(self).remaining().drop_first(),
            },
    {
        self.inner.next()
    }

    /// All the objects that the iterator still yields, in order.
    pub fn to_vec(&mut self) -> (r: Vec<SyntacticObject>)
        ensures
            so_seq_view(r@) == old(self).remaining(),
            final(self).remaining().len() == 0,
    {
        self.inner.to_vec()
    }
}


/// The model of a stage.
pub struct StageModel {
    pub la: Set<LitModel>,
    pub w: Set<SoModel>,
}

/// Stage.
///
/// From Definition 10, C&S 2016, p. 46: a pair of a lexical array and a set
/// of syntactic objects, the workspace of the stage.
pub struct Stage {
    pub la: LexicalArray,
    pub w: Workspace,
}

impl View for Stage {
    type V = StageModel;

    open spec fn view(&self) -> StageModel {
        StageModel { la: self.la@, w: self.w@ }
    }
}

impl Stage {
    /// A copy of the stage.
    pub fn dup(&self) -> (r: Stage)
        ensures
            r@ == self@,
    {
        Stage { la: LexicalArray(self.la.0.dup()), w: Workspace(self.w.0.dup()) }
    }

    /// Whether two stages have the same lexical array and workspace.
    pub fn same_as(&self, other: &Stage) -> (r: bool)
        ensures
            r == (self@ == other@),
    {
        self.la.0.same_as(&other.la.0) && self.w.0.same_as(&other.w.0)
    }
}


/// Universal Grammar.
///
/// From Definition 1 in C&S 2016, p. 44: the phonological, syntactic and
/// semantic features, together with the operations, which the type parameter
/// chooses through its trigger features.
pub struct UniversalGrammar<T: Triggers> {
    pub phon_f: FeatureSet,
    pub syn_f: FeatureSet,
    pub sem_f: FeatureSet,
    pub phantom: core::marker::PhantomData<T>,
}

impl<T: Triggers> UniversalGrammar<T> {
    pub fn new(phon_f: FeatureSet, syn_f: FeatureSet, sem_f: FeatureSet) -> (r: Self)
        ensures
            r.phon_f@ == phon_f@,
            r.syn_f@ == syn_f@,
            r.sem_f@ == sem_f@,
    {
        UniversalGrammar { phon_f, syn_f, sem_f, phantom: core::marker::PhantomData }
    }
}

/// Lexicon.
///
/// From Definition 3 in C&S 2016, p. 44: a finite set of lexical items.
pub type Lexicon = FiniteSet<LexicalItem>;

/// For a phonological form, the pairs of syntactic features and new
/// phonological form that realize it.
pub type RealizeMap = Vec<(Vec<Feature>, Vec<(Vec<Feature>, Vec<Feature>)>)>;

/// I-language.
///
/// From Definition 4 in C&S 2016, p. 45: a pair of a lexicon and Universal
/// Grammar.
pub struct ILanguage<T: Triggers> {
    pub lex: Lexicon,
    pub ug: UniversalGrammar<T>,
    pub realize_map: RealizeMap,
}

/// Whether Select(A, S1) gives the stage S2: the same lexical array, and the
/// same workspace (see [`ws_equiv`]).
pub open spec fn select_gives(a: LitModel, s1: StageModel, s2: StageModel) -> bool {
    match select_model(a, s1) {
        Some(s) => s.la == s2.la && ws_equiv(s.w, s2.w),
        None => false,
    }
}

/// Derive-by-Select on models: for some A in LA(i),
/// <LA(i+1), W(i+1)> = Select(A, <LA(i), W(i)>).
#[verifier::opaque]
pub open spec fn derive_by_select_model(s1: StageModel, s2: StageModel) -> bool {
    exists|a: LitModel| #[trigger] s1.la.contains(a) && select_gives(a, s1, s2)
}

/// Whether merging A and B within W1 gives the workspace W2:
/// W2 = (W1 - {A, B}) + {Merge(A, B)} (see [`ws_equiv`]).
pub open spec fn merge_gives<T: Triggers>(a: SoModel, b: SoModel, w1: Set<SoModel>, w2: Set<SoModel>) -> bool {
    match triggered_merge_model::<T>(a, b, w1) {
        Ok(ab) => ws_equiv(w1.remove(a).remove(b).insert(ab), w2),
        Err(_) => false,
    }
}

/// Derive-by-Merge on models: LA(i) = LA(i+1), and for some A in W(i) and
/// some B that A contains (entering transferred objects) or that is in W(i),
/// W(i+1) = (W(i) - {A, B}) + {Merge(A, B)}.
#[verifier::opaque]
pub open spec fn derive_by_merge_model<T: Triggers>(s1: StageModel, s2: StageModel) -> bool {
    &&& s1.la == s2.la
    &&& s1.w != Set::<SoModel>::empty()
    &&& exists|a: SoModel, b: SoModel|
        #![trigger s1.w.contains(a), merge_gives::<T>(a, b, s1.w, s2.w)]
        s1.w.contains(a) && (preorder(a, true).drop_first().contains(b) || s1.w.contains(b))
            && merge_gives::<T>(a, b, s1.w, s2.w)
}

/// What trying Transfer on the root `so1` of W(i) gives: whether `so1` is a
/// strong phase and transferring it, or else cyclically transferring it,
/// gives W(i+1); `None` where a Transfer made on the way is not defined.
#[verifier::opaque]
pub open spec fn transfer_attempt_model<T: Triggers>(
    so1: SoModel,
    w1: Set<SoModel>,
    w2: Set<SoModel>,
) -> Option<bool> {
    if !strong_phase_model::<T>(so1, w1) {
        Some(false)
    } else {
        match transfer_model::<T>(so1, so1, w1) {
            None => None,
            Some(t) => if ws_equiv(w1.remove(so1).insert(t), w2) {
                Some(true)
            } else {
                match cyclic_transfer_model::<T>(so1, w1) {
                    None => None,
                    Some(Err(_)) => Some(false),
                    Some(Ok(c)) => Some(ws_equiv(w1.remove(so1).insert(c), w2)),
                }
            },
        }
    }
}

/// Derive-by-Transfer on models: LA(i) = LA(i+1), and W(i+1) comes from W(i)
/// by transferring, or cyclically transferring, a root of W(i) that is a
/// strong phase.
#[verifier::opaque]
pub open spec fn derive_by_transfer_model<T: Triggers>(s1: StageModel, s2: StageModel) -> bool {
    &&& s1.la == s2.la
    &&& s1.w != Set::<SoModel>::empty()
    &&& exists|so1: SoModel| #[trigger] s1.w.contains(so1) && transfer_attempt_model::<T>(so1, s1.w, s2.w) == Some(true)
}

/// Whether checking Derive-by-Transfer is defined: some root succeeds, or
/// every Transfer that the check makes is defined.
#[verifier::opaque]
pub open spec fn transfer_attempts_defined<T: Triggers>(s1: StageModel, s2: StageModel) -> bool {
    (s1.la == s2.la && s1.w != Set::<SoModel>::empty()) ==> ((exists|so1: SoModel|
        #[trigger] s1.w.contains(so1) && transfer_attempt_model::<T>(so1, s1.w, s2.w) == Some(true))
        || forall|so1: SoModel|
        #[trigger] s1.w.contains(so1) ==> transfer_attempt_model::<T>(so1, s1.w, s2.w) is Some)
}

/// Whether the stage `s2` comes from `s1` by one step of a derivation.
pub open spec fn derive_step_model<T: Triggers>(s1: StageModel, s2: StageModel) -> bool {
    derive_by_select_model(s1, s2) || derive_by_merge_model::<T>(s1, s2) || derive_by_transfer_model::<
        T,
    >(s1, s2)
}

/// Derivation on models.
///
/// From Definition 14, C&S 2016, p. 48: a nonempty sequence of stages whose
/// first lexical array holds only tokens of lexical items of the lexicon,
/// whose first workspace is empty, and each of whose stages comes from the
/// one before by Select, Merge or Transfer.
#[verifier::opaque]
pub open spec fn derivation_model<T: Triggers>(lex: Set<LiModel>, stages: Seq<StageModel>) -> bool {
    &&& stages.len() >= 1
    &&& forall|l: LitModel| #[trigger] stages[0].la.contains(l) ==> lex.contains(l.li)
    &&& stages[0].w == Set::<SoModel>::empty()
    &&& forall|i: int| 0 <= i < stages.len() - 1 ==> derive_step_model::<T>(#[trigger] stages[i], stages[i + 1])
}

/// Whether checking a derivation is defined: at each pair of stages that the
/// check reaches (the first stage being fine and every earlier pair being a
/// step) and that is neither Select nor Merge, checking Derive-by-Transfer
/// is defined (see [`transfer_attempts_defined`]).
#[verifier::opaque]
pub open spec fn derivation_transfers_defined<T: Triggers>(lex: Set<LiModel>, stages: Seq<StageModel>) -> bool {
    (stages.len() >= 1 && (forall|l: LitModel| #[trigger] stages[0].la.contains(l) ==> lex.contains(l.li))
        && stages[0].w == Set::<SoModel>::empty()) ==> forall|i: int|
        0 <= i < stages.len() - 1 && (forall|j: int| 0 <= j < i ==> derive_step_model::<T>(#[trigger] stages[j], stages[j + 1]))
            && !derive_by_select_model(#[trigger] stages[i], stages[i + 1]) && !derive_by_merge_model::<T>(stages[i], stages[i + 1])
            ==> transfer_attempts_defined::<T>(stages[i], stages[i + 1])
}

/// The models of a sequence of stages.
pub open spec fn stages_view(stages: Seq<Stage>) -> Seq<StageModel> {
    stages.map_values(|s: Stage| s@)
}

/// Derive-by-Select.
///
/// See [`derive_by_select_model`].
fn derive_by_select(stage1: &Stage, stage2: &Stage) -> (r: bool)
    ensures
        r == derive_by_select_model(stage1@, stage2@),
{
    let la1 = &stage1.la.0;
    let n = la1.len();
    let mut i: usize = 0;
    while i < n
        invariant
            n == la1.listing().len(),
            la1@ == stage1@.la,
            i <= n,
            forall|j: int| 0 <= j < i ==> !select_gives(#[trigger] la1.listing()[j], stage1@, stage2@),
        decreases n - i,
    {
        let lit = la1.get(i).elem_dup();
        let ghost lv = lit@;
        match select(lit, stage1.dup()) {
            Ok(stage) => {
                if stage.la.0.same_as(&stage2.la.0) && ws_equiv_exec(&stage.w.0, &stage2.w.0) {
                    assert(la1@.contains(la1.listing()[i as int]));
                    assert(select_gives(la1.listing()[i as int], stage1@, stage2@));
                    reveal(derive_by_select_model);
                    return true;
                }
            },
            Err(_) => {},
        }
        i = i + 1;
    }
    assert forall|a: LitModel| #[trigger] stage1@.la.contains(a) implies !select_gives(a, stage1@, stage2@) by {
        let k = choose|k: int| 0 <= k < la1.listing().len() && la1.listing()[k] == a;
    }
    reveal(derive_by_select_model);
    false
}

/// Derive-by-Merge.
///
/// See [`derive_by_merge_model`].
fn derive_by_merge<T: Triggers>(stage1: &Stage, stage2: &Stage) -> (r: bool)
    ensures
        r == derive_by_merge_model::<T>(stage1@, stage2@),
{
    let w1 = &stage1.w;
    let w2 = &stage2.w;
    if !stage1.la.0.same_as(&stage2.la.0) {
        reveal(derive_by_merge_model);
        return false;
    }
    if w1.0.is_empty() {
        reveal(derive_by_merge_model);
        return false;
    }
    let roots = &w1.0;
    let n = roots.len();
    let mut i: usize = 0;
    while i < n
        invariant
            n == roots.listing().len(),
            roots@ == stage1@.w,
            w2@ == stage2@.w,
            w1@ == stage1@.w,
            stage1@.la == stage2@.la,
            stage1@.w != Set::<SoModel>::empty(),
            i <= n,
            forall|j: int, b: SoModel|
                0 <= j < i && (preorder(roots.listing()[j], true).drop_first().contains(b)
                    || stage1@.w.contains(b)) ==> !#[trigger] merge_gives::<T>(roots.listing()[j], b, stage1@.w, stage2@.w),
        decreases n - i,
    {
        let a = roots.get(i);
        let ghost am = a@;
        let mut it = a.contained_sos(false, true);
        let mut cands = it.to_vec();
        proof {
            lemma_so_seq_view(cands@);
        }
        let m1 = cands.len();
        let mut k: usize = 0;
        while k < n
            invariant
                n == roots.listing().len(),
                k <= n,
                cands@.len() == m1 + k,
                forall|j: int| 0 <= j < m1 ==> so_view(#[trigger] cands@[j]) == preorder(am, true).drop_first()[j],
                forall|j: int| 0 <= j < k ==> so_view(#[trigger] cands@[m1 + j]) == roots.listing()[j],
                m1 == preorder(am, true).drop_first().len(),
            decreases n - k,
        {
            cands.push(so_dup(roots.get(k)));
            k = k + 1;
        }
        let mut j: usize = 0;
        while j < cands.len()
            invariant
                j <= cands@.len(),
                cands@.len() == m1 + n,
                n == roots.listing().len(),
                i < n,
                roots@ == stage1@.w,
                w2@ == stage2@.w,
                w1@ == stage1@.w,
                stage1@.la == stage2@.la,
                stage1@.w != Set::<SoModel>::empty(),
                am == roots.listing()[i as int],
                a@ == am,
                forall|t: int| 0 <= t < m1 ==> so_view(#[trigger] cands@[t]) == preorder(am, true).drop_first()[t],
                forall|t: int| 0 <= t < n ==> so_view(#[trigger] cands@[m1 + t]) == roots.listing()[t],
                m1 == preorder(am, true).drop_first().len(),
                forall|t: int| 0 <= t < j ==> !#[trigger] merge_gives::<T>(am, so_view(cands@[t]), stage1@.w, stage2@.w),
            decreases cands@.len() - j,
        {
            let b = &cands[j];
            let ghost bm = so_view(cands@[j as int]);
            assert(b@ == bm);
            let mut w = w1.0.dup();
            w.remove(a);
            w.remove(b);
            let merged = triggered_merge_with_so::<T>(so_dup(a), so_dup(b), w1);
            let found = match merged {
                Ok(ab) => {
                    w.insert(ab);
                    ws_equiv_exec(&w, &w2.0)
                },
                Err(_) => false,
            };
            if found {
                proof {
                    assert(roots.listing()[i as int] == am);
                    assert(roots@.contains(am));
                    if j < m1 {
                        assert(preorder(am, true).drop_first().contains(bm));
                    } else {
                        let t = j - m1;
                        assert(cands@[m1 + t] == cands@[j as int]);
                        assert(roots.listing()[t] == bm);
                        assert(roots@.contains(roots.listing()[t]));
                    }
                    assert(merge_gives::<T>(am, bm, stage1@.w, stage2@.w));
                    reveal(derive_by_merge_model);
                }
                return true;
            }
            assert(!merge_gives::<T>(am, bm, stage1@.w, stage2@.w));
            j = j + 1;
        }
        proof {
            assert forall|b: SoModel|
                (preorder(am, true).drop_first().contains(b) || stage1@.w.contains(b)) implies !#[trigger] merge_gives::<T>(
                am,
                b,
                stage1@.w,
                stage2@.w,
            ) by {
                if preorder(am, true).drop_first().contains(b) {
                    let t = choose|t: int| 0 <= t < m1 && preorder(am, true).drop_first()[t] == b;
                    assert(so_view(cands@[t]) == b);
                } else {
                    let t = choose|t: int| 0 <= t < n && roots.listing()[t] == b;
                    assert(so_view(cands@[m1 + t]) == b);
                }
            }
        }
        i = i + 1;
    }
    assert forall|a: SoModel, b: SoModel| stage1@.w.contains(a) && (preorder(a, true).drop_first().contains(b)
        || stage1@.w.contains(b)) implies !#[trigger] merge_gives::<T>(a, b, stage1@.w, stage2@.w) by {
        let t = choose|t: int| 0 <= t < n && roots.listing()[t] == a;
    }
    reveal(derive_by_merge_model);
    false
}


/// Trying Transfer on the root `so1`.
///
/// See [`transfer_attempt_model`].
fn transfer_attempt<T: Triggers>(so1: &SyntacticObject, w1: &Workspace, w2: &Workspace) -> (r:
    Option<bool>)
    ensures
        r == transfer_attempt_model::<T>(so1@, w1@, w2@),
{
    reveal(transfer_attempt_model);
    if !is_strong_phase::<T>(so1, w1) {
        return Some(false);
    }
    let t = match try_transfer::<T>(so1, so_dup(so1), w1) {
        Some(t) => t,
        None => {
            return None;
        },
    };
    let mut w = w1.0.dup();
    w.remove(so1);
    w.insert(t);
    if ws_equiv_exec(&w, &w2.0) {
        return Some(true);
    }
    match try_cyclic_transfer::<T>(so_dup(so1), w1) {
        None => None,
        Some(Err(_)) => Some(false),
        Some(Ok(c)) => {
            let mut w = w1.0.dup();
            w.remove(so1);
            w.insert(c);
            Some(ws_equiv_exec(&w, &w2.0))
        },
    }
}

/// Derive-by-Transfer: `true` where Transfer on some root gives the next
/// workspace, whatever the other roots give; otherwise `None` where a
/// Transfer on some root is undefined.
///
/// See [`derive_by_transfer_model`].
fn try_derive_by_transfer<T: Triggers>(stage1: &Stage, stage2: &Stage) -> (r: Option<bool>)
    ensures
        r == if transfer_attempts_defined::<T>(stage1@, stage2@) {
            Some(derive_by_transfer_model::<T>(stage1@, stage2@))
        } else {
            None
        },
{
    reveal(transfer_attempts_defined);
    reveal(derive_by_transfer_model);
    let w1 = &stage1.w;
    let w2 = &stage2.w;
    if !stage1.la.0.same_as(&stage2.la.0) {
        return Some(false);
    }
    if w1.0.is_empty() {
        return Some(false);
    }
    let roots = &w1.0;
    let n = roots.len();
    let mut found = false;
    let mut undefined = false;
    let mut i: usize = 0;
    while i < n
        invariant
            n == roots.listing().len(),
            roots@ == stage1@.w,
            w1@ == stage1@.w,
            w2@ == stage2@.w,
            stage1@.la == stage2@.la,
            stage1@.w != Set::<SoModel>::empty(),
            i <= n,
            found == exists|j: int| 0 <= j < i && transfer_attempt_model::<T>(#[trigger] roots.listing()[j], stage1@.w, stage2@.w) == Some(true),
            undefined == exists|j: int| 0 <= j < i && transfer_attempt_model::<T>(#[trigger] roots.listing()[j], stage1@.w, stage2@.w) is None,
        decreases n - i,
    {
        match transfer_attempt::<T>(roots.get(i), w1, w2) {
            None => {
                undefined = true;
            },
            Some(b) => {
                found = found || b;
            },
        }
        i = i + 1;
    }
    if found {
        let ghost j = choose|j: int| 0 <= j < n && transfer_attempt_model::<T>(#[trigger] roots.listing()[j], stage1@.w, stage2@.w) == Some(true);
        assert(stage1@.w.contains(roots.listing()[j]));
        return Some(true);
    }
    assert forall|so1: SoModel| #[trigger] stage1@.w.contains(so1) implies transfer_attempt_model::<T>(so1, stage1@.w, stage2@.w) != Some(true) by {
        let k = choose|k: int| 0 <= k < n && roots.listing()[k] == so1;
    }
    if undefined {
        let ghost j = choose|j: int| 0 <= j < n && transfer_attempt_model::<T>(#[trigger] roots.listing()[j], stage1@.w, stage2@.w) is None;
        assert(stage1@.w.contains(roots.listing()[j]));
        return None;
    }
    assert forall|so1: SoModel| #[trigger] stage1@.w.contains(so1) implies transfer_attempt_model::<T>(so1, stage1@.w, stage2@.w) is Some by {
        let k = choose|k: int| 0 <= k < n && roots.listing()[k] == so1;
    }
    Some(false)
}

/// Derive-by-Transfer.
///
/// See [`derive_by_transfer_model`].
fn derive_by_transfer<T: Triggers>(stage1: &Stage, stage2: &Stage) -> (r: bool)
    requires
        transfer_attempts_defined::<T>(stage1@, stage2@),
    ensures
        r == derive_by_transfer_model::<T>(stage1@, stage2@),
{
    match try_derive_by_transfer::<T>(stage1, stage2) {
        Some(b) => b,
        None => false,
    }
}

/// Check if the sequence of stages is a derivation from the I-language,
/// where the check is defined; `None` where a pair of stages is related by
/// none of Select, Merge or a Transfer that succeeds, and a Transfer tried
/// on it is undefined.
///
/// See [`derivation_model`].
pub fn try_is_derivation<T: Triggers>(il: &ILanguage<T>, stages: &[Stage]) -> (r: Option<bool>)
    ensures
        r == if derivation_transfers_defined::<T>(il.lex@, stages_view(stages@)) {
            Some(derivation_model::<T>(il.lex@, stages_view(stages@)))
        } else {
            None
        },
{
    let ghost sv = stages_view(stages@);
    if stages.len() < 1 {
        proof {
            reveal(derivation_transfers_defined);
            reveal(derivation_model);
        }
        return Some(false);
    }
    assert(sv[0] == stages@[0]@);
    let la1 = &stages[0].la.0;
    let n = la1.len();
    let mut i: usize = 0;
    while i < n
        invariant
            n == la1.listing().len(),
            sv == stages_view(stages@),
            sv.len() >= 1,
            la1@ == sv[0].la,
            i <= n,
            forall|j: int| 0 <= j < i ==> il.lex@.contains(#[trigger] la1.listing()[j].li),
        decreases n - i,
    {
        let lit = la1.get(i);
        if !il.lex.contains(&lit.li) {
            assert(sv[0].la.contains(la1.listing()[i as int]));
            assert(!il.lex@.contains(la1.listing()[i as int].li));
            proof {
                reveal(derivation_transfers_defined);
                reveal(derivation_model);
            }
            return Some(false);
        }
        i = i + 1;
    }
    assert forall|l: LitModel| #[trigger] sv[0].la.contains(l) implies il.lex@.contains(l.li) by {
        let k = choose|k: int| 0 <= k < n && la1.listing()[k] == l;
    }
    if !stages[0].w.0.is_empty() {
        proof {
            reveal(derivation_transfers_defined);
            reveal(derivation_model);
        }
        return Some(false);
    }
    let m = stages.len();
    let mut k: usize = 0;
    while k + 1 < m
        invariant
            m == stages@.len(),
            sv == stages_view(stages@),
            sv.len() == m,
            k + 1 <= m,
            forall|j: int| 0 <= j < k ==> derive_step_model::<T>(#[trigger] sv[j], sv[j + 1]),
            forall|j: int| 0 <= j < k ==> (!derive_by_select_model(#[trigger] sv[j], sv[j + 1])
                && !derive_by_merge_model::<T>(sv[j], sv[j + 1])) ==> transfer_attempts_defined::<T>(sv[j], sv[j + 1]),
            forall|l: LitModel| #[trigger] sv[0].la.contains(l) ==> il.lex@.contains(l.li),
            sv[0].w == Set::<SoModel>::empty(),
        decreases m - k,
    {
        let stage1 = &stages[k];
        let stage2 = &stages[k + 1];
        assert(sv[k as int] == stage1@);
        assert(sv[k + 1] == stage2@);
        let sel = derive_by_select(stage1, stage2);
        let mer = !sel && derive_by_merge::<T>(stage1, stage2);
        let step_ok = if sel || mer {
            true
        } else {
            match try_derive_by_transfer::<T>(stage1, stage2) {
                None => {
                    proof {
                        lemma_derivation_undefined_at::<T>(il.lex@, sv, k as int);
                    }
                    return None;
                },
                Some(b) => b,
            }
        };
        if !step_ok {
            proof {
                lemma_derivation_fails_at::<T>(il.lex@, sv, k as int);
            }
            return Some(false);
        }
        k = k + 1;
    }
    proof {
        lemma_derivation_holds::<T>(il.lex@, sv);
    }
    Some(true)
}

/// Where the check meets an undefined Transfer at the pair `k`, the
/// derivation check is not defined.
proof fn lemma_derivation_undefined_at<T: Triggers>(lex: Set<LiModel>, sv: Seq<StageModel>, k: int)
    requires
        0 <= k < sv.len() - 1,
        forall|j: int| 0 <= j < k ==> derive_step_model::<T>(#[trigger] sv[j], sv[j + 1]),
        forall|l: LitModel| #[trigger] sv[0].la.contains(l) ==> lex.contains(l.li),
        sv[0].w == Set::<SoModel>::empty(),
        !derive_by_select_model(sv[k], sv[k + 1]),
        !derive_by_merge_model::<T>(sv[k], sv[k + 1]),
        !transfer_attempts_defined::<T>(sv[k], sv[k + 1]),
    ensures
        !derivation_transfers_defined::<T>(lex, sv),
{
    reveal(derivation_transfers_defined);
}

/// Where the pair `k` is not a step, and every earlier one is, the sequence
/// is not a derivation, and the check was defined.
proof fn lemma_derivation_fails_at<T: Triggers>(lex: Set<LiModel>, sv: Seq<StageModel>, k: int)
    requires
        0 <= k < sv.len() - 1,
        forall|j: int| 0 <= j < k ==> derive_step_model::<T>(#[trigger] sv[j], sv[j + 1]),
        forall|j: int| 0 <= j < k ==> (!derive_by_select_model(#[trigger] sv[j], sv[j + 1])
            && !derive_by_merge_model::<T>(sv[j], sv[j + 1])) ==> transfer_attempts_defined::<T>(sv[j], sv[j + 1]),
        !derive_step_model::<T>(sv[k], sv[k + 1]),
        (!derive_by_select_model(sv[k], sv[k + 1]) && !derive_by_merge_model::<T>(sv[k], sv[k + 1]))
            ==> transfer_attempts_defined::<T>(sv[k], sv[k + 1]),
    ensures
        derivation_transfers_defined::<T>(lex, sv),
        !derivation_model::<T>(lex, sv),
{
    reveal(derivation_transfers_defined);
    reveal(derivation_model);
    assert forall|i: int|
        0 <= i < sv.len() - 1 && (forall|j: int| 0 <= j < i ==> derive_step_model::<T>(#[trigger] sv[j], sv[j + 1]))
            && !derive_by_select_model(#[trigger] sv[i], sv[i + 1]) && !derive_by_merge_model::<T>(sv[i], sv[i + 1])
            implies transfer_attempts_defined::<T>(sv[i], sv[i + 1]) by {
        if i > k {
            assert(derive_step_model::<T>(sv[k], sv[k + 1]));
        }
    }
    assert(!derive_step_model::<T>(sv[k], sv[k + 1]));
}

/// Where every pair is a step, the sequence is a derivation, and the check
/// was defined.
proof fn lemma_derivation_holds<T: Triggers>(lex: Set<LiModel>, sv: Seq<StageModel>)
    requires
        sv.len() >= 1,
        forall|j: int| 0 <= j < sv.len() - 1 ==> derive_step_model::<T>(#[trigger] sv[j], sv[j + 1]),
        forall|j: int| 0 <= j < sv.len() - 1 ==> (!derive_by_select_model(#[trigger] sv[j], sv[j + 1])
            && !derive_by_merge_model::<T>(sv[j], sv[j + 1])) ==> transfer_attempts_defined::<T>(sv[j], sv[j + 1]),
        forall|l: LitModel| #[trigger] sv[0].la.contains(l) ==> lex.contains(l.li),
        sv[0].w == Set::<SoModel>::empty(),
    ensures
        derivation_transfers_defined::<T>(lex, sv),
        derivation_model::<T>(lex, sv),
{
    reveal(derivation_transfers_defined);
    reveal(derivation_model);
}

/// Check if the sequence of stages is a derivation from the I-language.
///
/// From Definition 14, C&S 2016, p. 48; see [`derivation_model`].  The
/// derivation is defined with respect to an I-language, which includes the
/// operations as well as the lexicon.
pub fn is_derivation<T: Triggers>(il: &ILanguage<T>, stages: &[Stage]) -> (r: bool)
    requires
        derivation_transfers_defined::<T>(il.lex@, stages_view(stages@)),
    ensures
        r == derivation_model::<T>(il.lex@, stages_view(stages@)),
{
    match try_is_derivation::<T>(il, stages) {
        Some(b) => b,
        None => false,
    }
}

} // verus!
