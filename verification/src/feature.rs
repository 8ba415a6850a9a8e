//! Features and finite sets of features.
//!
//! A feature is identified by a string.  A set of features is kept as a
//! vector that is strictly increasing in the lexicographic order of the
//! strings (the order in which an ordered set of strings is walked), so that
//! two sets hold the same features exactly when their vectors agree.

use vstd::prelude::*;

use crate::utils::Elem;

verus! {

/// The prefix that marks a category-selection feature, as in `=V`.
pub const CATSEL_FEATURE_PREFIX: char = '=';

/// Features are identified by strings.
pub struct Feature(pub String);

impl View for Feature {
    type V = Seq<char>;

    open spec fn view(&self) -> Seq<char> {
        self.0@
    }
}

impl Clone for Feature {
    fn clone(&self) -> (r: Self)
        ensures
            r@ == self@,
    {
        Feature(self.0.clone())
    }
}

/// Strict lexicographic order on character sequences, comparing characters
/// by their code points.
pub open spec fn seq_lt(a: Seq<char>, b: Seq<char>) -> bool
    decreases a.len(),
{
    if a.len() == 0 {
        b.len() > 0
    } else if b.len() == 0 {
        false
    } else if a[0] != b[0] {
        (a[0] as int) < (b[0] as int)
    } else {
        seq_lt(a.drop_first(), b.drop_first())
    }
}

/// The order is irreflexive.
pub proof fn lemma_seq_lt_irrefl(a: Seq<char>)
    ensures
        !seq_lt(a, a),
    decreases a.len(),
{
    if a.len() > 0 {
        lemma_seq_lt_irrefl(a.drop_first());
    }
}

/// The order is transitive.
pub proof fn lemma_seq_lt_trans(a: Seq<char>, b: Seq<char>, c: Seq<char>)
    requires
        seq_lt(a, b),
        seq_lt(b, c),
    ensures
        seq_lt(a, c),
    decreases a.len(),
{
    if a.len() > 0 && b.len() > 0 && c.len() > 0 {
        if a[0] == b[0] && b[0] == c[0] {
            lemma_seq_lt_trans(a.drop_first(), b.drop_first(), c.drop_first());
        }
    }
}

/// Two distinct sequences are ordered one way or the other.
pub proof fn lemma_seq_lt_total(a: Seq<char>, b: Seq<char>)
    ensures
        a != b ==> (seq_lt(a, b) || seq_lt(b, a)),
        !(seq_lt(a, b) && seq_lt(b, a)),
    decreases a.len(),
{
    if a.len() > 0 && b.len() > 0 {
        lemma_seq_lt_total(a.drop_first(), b.drop_first());
        if a[0] == b[0] {
            if a != b {
                assert(a =~= seq![a[0]] + a.drop_first());
                assert(b =~= seq![b[0]] + b.drop_first());
                assert(a.drop_first() != b.drop_first());
            }
        } else {
            assert((a[0] as int) != (b[0] as int));
        }
    } else if a.len() == 0 && b.len() == 0 {
        assert(a =~= b);
    }
}

/// A sequence of features that is strictly increasing in the order.
pub open spec fn sorted_strict(q: Seq<Seq<char>>) -> bool {
    forall|i: int, j: int| 0 <= i < j < q.len() ==> seq_lt(#[trigger] q[i], #[trigger] q[j])
}

/// The elements of a finite set of features, in increasing order.
pub open spec fn canon(s: Set<Seq<char>>) -> Seq<Seq<char>> {
    choose|q: Seq<Seq<char>>| sorted_strict(q) && q.to_set() == s
}

/// `x` put into its place in the increasing sequence `q`.
pub open spec fn insert_sorted(q: Seq<Seq<char>>, x: Seq<char>) -> Seq<Seq<char>>
    decreases q.len(),
{
    if q.len() == 0 {
        seq![x]
    } else if seq_lt(x, q[0]) {
        seq![x] + q
    } else {
        seq![q[0]] + insert_sorted(q.drop_first(), x)
    }
}

/// Putting a new element into its place keeps the sequence increasing and
/// adds the element to its elements.
proof fn lemma_insert_sorted(q: Seq<Seq<char>>, x: Seq<char>)
    requires
        sorted_strict(q),
        !q.contains(x),
    ensures
        sorted_strict(insert_sorted(q, x)),
        insert_sorted(q, x).to_set() == q.to_set().insert(x),
        insert_sorted(q, x).len() == q.len() + 1,
        forall|y: Seq<char>| #[trigger] insert_sorted(q, x).contains(y) ==> y == x || q.contains(y),
    decreases q.len(),
{
    let r = insert_sorted(q, x);
    if q.len() == 0 {
        assert(r.to_set() =~= q.to_set().insert(x)) by {
            assert forall|y: Seq<char>| r.to_set().contains(y) <==> q.to_set().insert(x).contains(y) by {
                if r.contains(y) {
                    assert(r[0] == y);
                }
                if y == x {
                    assert(r[0] == x);
                }
            }
        }
    } else if seq_lt(x, q[0]) {
        assert forall|i: int, j: int| 0 <= i < j < r.len() implies seq_lt(#[trigger] r[i], #[trigger] r[j]) by {
            if i == 0 {
                assert(r[j] == q[j - 1]);
                if j - 1 > 0 {
                    assert(seq_lt(q[0], q[j - 1]));
                    lemma_seq_lt_trans(x, q[0], q[j - 1]);
                }
            } else {
                assert(r[i] == q[i - 1] && r[j] == q[j - 1]);
            }
        }
        assert(r.to_set() =~= q.to_set().insert(x)) by {
            assert forall|y: Seq<char>| r.to_set().contains(y) <==> q.to_set().insert(x).contains(y) by {
                if r.contains(y) {
                    let k = choose|k: int| 0 <= k < r.len() && r[k] == y;
                    if k > 0 {
                        assert(q[k - 1] == y);
                    }
                }
                if q.contains(y) {
                    let k = choose|k: int| 0 <= k < q.len() && q[k] == y;
                    assert(r[k + 1] == y);
                }
                if y == x {
                    assert(r[0] == x);
                }
            }
        }
        assert forall|y: Seq<char>| #[trigger] r.contains(y) implies y == x || q.contains(y) by {
            let k = choose|k: int| 0 <= k < r.len() && r[k] == y;
            if k > 0 {
                assert(q[k - 1] == y);
            }
        }
    } else {
        let t = q.drop_first();
        assert(sorted_strict(t)) by {
            assert forall|i: int, j: int| 0 <= i < j < t.len() implies seq_lt(#[trigger] t[i], #[trigger] t[j]) by {
                assert(t[i] == q[i + 1] && t[j] == q[j + 1]);
            }
        }
        assert(!t.contains(x)) by {
            if t.contains(x) {
                let k = choose|k: int| 0 <= k < t.len() && t[k] == x;
                assert(q[k + 1] == x);
            }
        }
        lemma_insert_sorted(t, x);
        let u = insert_sorted(t, x);
        assert(r == seq![q[0]] + u);
        assert(q[0] != x) by {
            assert(q.contains(q[0]));
        }
        lemma_seq_lt_total(x, q[0]);
        assert forall|i: int, j: int| 0 <= i < j < r.len() implies seq_lt(#[trigger] r[i], #[trigger] r[j]) by {
            if i == 0 {
                assert(r[j] == u[j - 1]);
                assert(u.contains(u[j - 1]));
                if u[j - 1] == x {
                } else {
                    assert(t.contains(u[j - 1]));
                    let k = choose|k: int| 0 <= k < t.len() && t[k] == u[j - 1];
                    assert(q[k + 1] == t[k]);
                }
            } else {
                assert(r[i] == u[i - 1] && r[j] == u[j - 1]);
            }
        }
        assert(r.to_set() =~= q.to_set().insert(x)) by {
            assert forall|y: Seq<char>| r.to_set().contains(y) <==> q.to_set().insert(x).contains(y) by {
                if r.contains(y) {
                    let k = choose|k: int| 0 <= k < r.len() && r[k] == y;
                    if k == 0 {
                        assert(q[0] == y);
                    } else {
                        assert(u[k - 1] == y);
                        assert(u.contains(y));
                        if y != x {
                            let m = choose|m: int| 0 <= m < t.len() && t[m] == y;
                            assert(q[m + 1] == y);
                        }
                    }
                }
                if q.contains(y) {
                    let k = choose|k: int| 0 <= k < q.len() && q[k] == y;
                    if k == 0 {
                        assert(r[0] == y);
                    } else {
                        assert(t[k - 1] == y);
                        assert(t.to_set().contains(y));
                        assert(u.to_set().contains(y));
                        let m = choose|m: int| 0 <= m < u.len() && u[m] == y;
                        assert(r[m + 1] == y);
                    }
                }
                if y == x {
                    assert(u.to_set().contains(x));
                    let m = choose|m: int| 0 <= m < u.len() && u[m] == x;
                    assert(r[m + 1] == x);
                }
            }
        }
        assert forall|y: Seq<char>| #[trigger] r.contains(y) implies y == x || q.contains(y) by {
            let k = choose|k: int| 0 <= k < r.len() && r[k] == y;
            if k == 0 {
                assert(q[0] == y);
            } else {
                assert(u[k - 1] == y);
                assert(u.contains(y));
                if y != x {
                    let m = choose|m: int| 0 <= m < t.len() && t[m] == y;
                    assert(q[m + 1] == y);
                }
            }
        }
    }
}

/// Every finite set of features has an increasing listing, so `canon`
/// lists it.
pub proof fn lemma_canon_finite(s: Set<Seq<char>>)
    requires
        s.finite(),
    ensures
        sorted_strict(canon(s)),
        canon(s).to_set() == s,
    decreases s.len(),
{
    if s.len() == 0 {
        assert(s =~= Set::<Seq<char>>::empty());
        let q = Seq::<Seq<char>>::empty();
        assert(q.to_set() =~= s);
        assert(sorted_strict(q));
    } else {
        let x = s.choose();
        let s1 = s.remove(x);
        lemma_canon_finite(s1);
        let q1 = canon(s1);
        assert(!q1.contains(x)) by {
            if q1.contains(x) {
                assert(q1.to_set().contains(x));
            }
        }
        lemma_insert_sorted(q1, x);
        let q = insert_sorted(q1, x);
        assert(q.to_set() =~= s);
        assert(sorted_strict(q) && q.to_set() == s);
    }
}

/// A strictly increasing sequence holds no element twice.
pub proof fn lemma_sorted_no_dup(q: Seq<Seq<char>>)
    requires
        sorted_strict(q),
    ensures
        q.no_duplicates(),
{
    assert forall|i: int, j: int| 0 <= i < q.len() && 0 <= j < q.len() && i != j implies q[i]
        != q[j] by {
        if i < j {
            assert(seq_lt(q[i], q[j]));
        } else {
            assert(seq_lt(q[j], q[i]));
        }
        if q[i] == q[j] {
            lemma_seq_lt_irrefl(q[i]);
        }
    }
}

/// Two strictly increasing sequences with the same elements are equal.
pub proof fn lemma_sorted_unique(p: Seq<Seq<char>>, q: Seq<Seq<char>>)
    requires
        sorted_strict(p),
        sorted_strict(q),
        p.to_set() == q.to_set(),
    ensures
        p == q,
    decreases p.len(),
{
    if p.len() == 0 {
        if q.len() > 0 {
            assert(q.to_set().contains(q[0]));
            assert(!p.to_set().contains(q[0]));
        }
        assert(p =~= q);
    } else {
        assert(p.to_set().contains(p[0]));
        assert(q.to_set().contains(p[0]));
        assert(q.len() > 0);
        assert(p.to_set().contains(q[0]));
        let i = choose|i: int| 0 <= i < p.len() && p[i] == q[0];
        let j = choose|j: int| 0 <= j < q.len() && q[j] == p[0];
        if p[0] != q[0] {
            lemma_seq_lt_total(p[0], q[0]);
            assert(i != 0);
            assert(j != 0);
            assert(seq_lt(p[0], p[i]));
            assert(seq_lt(q[0], q[j]));
            lemma_seq_lt_total(p[0], q[0]);
        }
        lemma_sorted_no_dup(p);
        lemma_sorted_no_dup(q);
        let p1 = p.drop_first();
        let q1 = q.drop_first();
        assert forall|x: Seq<char>| p1.to_set().contains(x) implies q1.to_set().contains(x) by {
            let k = choose|k: int| 0 <= k < p1.len() && p1[k] == x;
            assert(p[k + 1] == x);
            assert(q.to_set().contains(x));
            let m = choose|m: int| 0 <= m < q.len() && q[m] == x;
            if m == 0 {
                assert(p[0] == p[k + 1]);
            }
            assert(q1[m - 1] == x);
        }
        assert forall|x: Seq<char>| q1.to_set().contains(x) implies p1.to_set().contains(x) by {
            let k = choose|k: int| 0 <= k < q1.len() && q1[k] == x;
            assert(q[k + 1] == x);
            assert(p.to_set().contains(x));
            let m = choose|m: int| 0 <= m < p.len() && p[m] == x;
            if m == 0 {
                assert(q[0] == q[k + 1]);
            }
            assert(p1[m - 1] == x);
        }
        assert(p1.to_set() =~= q1.to_set());
        lemma_sorted_unique(p1, q1);
        assert(p =~= seq![p[0]] + p1);
        assert(q =~= seq![q[0]] + q1);
    }
}

/// A strictly increasing sequence is the canonical listing of its elements.
pub proof fn lemma_canon_of_sorted(q: Seq<Seq<char>>)
    requires
        sorted_strict(q),
    ensures
        canon(q.to_set()) == q,
{
    let c = canon(q.to_set());
    assert(sorted_strict(c) && c.to_set() == q.to_set());
    lemma_sorted_unique(c, q);
}

impl Feature {
    pub fn new(s: String) -> (r: Self)
        ensures
            r@ == s@,
    {
        Feature(s)
    }

    /// A copy of the feature.
    pub fn dup(&self) -> (r: Feature)
        ensures
            r@ == self@,
    {
        Feature(self.0.clone())
    }

    /// Whether two features are the same.
    pub fn same_as(&self, other: &Feature) -> (r: bool)
        ensures
            r == (self@ == other@),
    {
        self.0 == other.0
    }

    /// Whether `self` comes strictly before `other` in the order of features.
    pub fn less_than(&self, other: &Feature) -> (r: bool)
        ensures
            r == seq_lt(self@, other@),
    {
        let a = self.0.as_str();
        let b = other.0.as_str();
        let na = a.unicode_len();
        let nb = b.unicode_len();
        assert(self@.skip(0) =~= self@);
        assert(other@.skip(0) =~= other@);
        let mut i: usize = 0;
        while i < na && i < nb
            invariant
                na == self@.len(),
                nb == other@.len(),
                a@ == self@,
                b@ == other@,
                i <= na,
                i <= nb,
                seq_lt(self@, other@) == seq_lt(self@.skip(i as int), other@.skip(i as int)),
            decreases na - i,
        {
            let ca = a.get_char(i);
            let cb = b.get_char(i);
            let ghost sa = self@.skip(i as int);
            let ghost sb = other@.skip(i as int);
            assert(sa[0] == ca && sb[0] == cb);
            if ca != cb {
                return (ca as u32) < (cb as u32);
            }
            assert(sa.drop_first() =~= self@.skip(i + 1));
            assert(sb.drop_first() =~= other@.skip(i + 1));
            i = i + 1;
        }
        i < nb
    }

    /// The feature without its first character: for a category-selection
    /// feature such as `=V`, the category it selects, `V`.
    pub fn drop_prefix(&self) -> (r: Feature)
        requires
            self@.len() > 0,
        ensures
            r@ == self@.drop_first(),
    {
        let s = self.0.as_str();
        let n = s.unicode_len();
        let t = s.substring_char(1, n);
        assert(t@ =~= self@.drop_first());
        Feature(t.to_owned())
    }

    /// Whether the feature starts with the category-selection prefix `=`.
    pub fn is_catsel(&self) -> (r: bool)
        ensures
            r == (self@.len() > 0 && self@[0] == CATSEL_FEATURE_PREFIX),
    {
        let s = self.0.as_str();
        if s.unicode_len() == 0 {
            false
        } else {
            s.get_char(0) == CATSEL_FEATURE_PREFIX
        }
    }
}


impl Elem for Feature {
    fn elem_eq(&self, other: &Self) -> (r: bool) {
        self.same_as(other)
    }

    fn elem_dup(&self) -> (r: Self) {
        self.dup()
    }
}

/// The model of the wh feature `wh`.
pub open spec fn wh_model() -> Seq<char> {
    seq!['w', 'h']
}

/// The model of the EPP feature `EPP`.
pub open spec fn epp_model() -> Seq<char> {
    seq!['E', 'P', 'P']
}

/// The model of the complementizer feature `C`.
pub open spec fn comp_model() -> Seq<char> {
    seq!['C']
}

/// The model of the strong light verb feature `v*`.
pub open spec fn strong_light_verb_model() -> Seq<char> {
    seq!['v', '*']
}

/// The wh feature.
pub fn wh_feature() -> (r: Feature)
    ensures
        r@ == wh_model(),
{
    proof {
        reveal_strlit("wh");
    }
    Feature::new(String::from_str("wh"))
}

/// The EPP feature.
pub fn epp_feature() -> (r: Feature)
    ensures
        r@ == epp_model(),
{
    proof {
        reveal_strlit("EPP");
    }
    Feature::new(String::from_str("EPP"))
}

/// The complementizer feature.
pub fn comp_feature() -> (r: Feature)
    ensures
        r@ == comp_model(),
{
    proof {
        reveal_strlit("C");
    }
    Feature::new(String::from_str("C"))
}

/// The strong light verb feature.
pub fn strong_light_verb_feature() -> (r: Feature)
    ensures
        r@ == strong_light_verb_model(),
{
    proof {
        reveal_strlit("v*");
    }
    Feature::new(String::from_str("v*"))
}

/// A finite set of features.
pub struct FeatureSet {
    elems: Vec<Feature>,
}

impl FeatureSet {
    /// The features of the set, in increasing order.
    pub closed spec fn listing(&self) -> Seq<Seq<char>> {
        self.elems@.map_values(|f: Feature| f@)
    }

    #[verifier::type_invariant]
    closed spec fn inv(&self) -> bool {
        sorted_strict(self.listing())
    }
}

impl View for FeatureSet {
    type V = Set<Seq<char>>;

    open spec fn view(&self) -> Set<Seq<char>> {
        self.listing().to_set()
    }
}

impl FeatureSet {
    /// The listing is the canonical, increasing enumeration of the set.
    proof fn lemma_listing(&self)
        requires
            sorted_strict(self.listing()),
        ensures
            self.listing() == canon(self@),
            sorted_strict(self.listing()),
            self.listing().no_duplicates(),
            self.listing().len() == self@.len(),
            self@.finite(),
    {
        lemma_canon_of_sorted(self.listing());
        lemma_sorted_no_dup(self.listing());
        self.listing().unique_seq_to_set();
    }

    /// The listing of the set is its canonical enumeration.
    pub fn lemma_canon(&self)
        ensures
            self.listing() == canon(self@),
            self.listing().len() == self@.len(),
            self@.finite(),
    {
        proof {
            use_type_invariant(self);
            self.lemma_listing();
        }
    }

    /// The empty set.
    pub fn new() -> (r: Self)
        ensures
            r@ == Set::<Seq<char>>::empty(),
    {
        let r = FeatureSet { elems: Vec::new() };
        assert(r.listing() =~= Seq::<Seq<char>>::empty());
        assert(r@ =~= Set::<Seq<char>>::empty());
        r
    }

    /// The number of features in the set.
    pub fn len(&self) -> (r: usize)
        ensures
            r == self@.len(),
    {
        proof {
            use_type_invariant(self);
            self.lemma_listing();
        }
        self.elems.len()
    }

    pub fn is_empty(&self) -> (r: bool)
        ensures
            r == (self@.len() == 0),
            r == (self@ == Set::<Seq<char>>::empty()),
    {
        proof {
            use_type_invariant(self);
            self.lemma_listing();
        }
        if self.elems.len() == 0 {
            assert(self@ =~= Set::<Seq<char>>::empty());
            true
        } else {
            assert(self@.contains(self.listing()[0]));
            false
        }
    }

    /// The `i`-th feature in increasing order.
    pub fn get(&self, i: usize) -> (r: &Feature)
        requires
            i < self@.len(),
        ensures
            r@ == self.listing()[i as int],
    {
        proof {
            use_type_invariant(self);
            self.lemma_listing();
        }
        &self.elems[i]
    }

    /// Whether the set holds the feature `f`.
    pub fn contains(&self, f: &Feature) -> (r: bool)
        ensures
            r == self@.contains(f@),
    {
        let mut i: usize = 0;
        while i < self.elems.len()
            invariant
                i <= self.elems.len(),
                forall|j: int| 0 <= j < i ==> self.listing()[j] != f@,
            decreases self.elems.len() - i,
        {
            if self.elems[i].same_as(f) {
                assert(self.listing()[i as int] == f@);
                return true;
            }
            i = i + 1;
        }
        false
    }

    /// Insert `f`; the result says whether it was not there before.
    pub fn insert(&mut self, f: Feature) -> (r: bool)
        ensures
            final(self)@ == old(self)@.insert(f@),
            r == !old(self)@.contains(f@),
    {
        proof {
            use_type_invariant(&*self);
        }
        let ghost old_list = self.listing();
        let n = self.elems.len();
        let mut i: usize = 0;
        while i < n && self.elems[i].less_than(&f)
            invariant
                n == self.elems.len(),
                old_list == self.listing(),
                sorted_strict(old_list),
                i <= n,
                forall|j: int| 0 <= j < i ==> seq_lt(#[trigger] old_list[j], f@),
            decreases n - i,
        {
            i = i + 1;
        }
        if i < n && self.elems[i].same_as(&f) {
            assert(old_list[i as int] == f@);
            assert(self@.insert(f@) =~= self@);
            return false;
        }
        proof {
            if i < n {
                lemma_seq_lt_total(old_list[i as int], f@);
                assert(seq_lt(f@, old_list[i as int]));
                assert forall|j: int| i < j < n implies seq_lt(f@, #[trigger] old_list[j]) by {
                    lemma_seq_lt_trans(f@, old_list[i as int], old_list[j]);
                }
            }
            assert forall|j: int| 0 <= j < n implies old_list[j] != f@ by {
                if j < i {
                    lemma_seq_lt_irrefl(f@);
                } else {
                    lemma_seq_lt_irrefl(f@);
                    if j > i {
                        lemma_seq_lt_trans(f@, old_list[i as int], old_list[j]);
                    }
                }
            }
        }
        let ghost fv = f@;
        let mut elems: Vec<Feature> = Vec::new();
        std::mem::swap(&mut elems, &mut self.elems);
        elems.insert(i, f);
        let ghost new_list = elems@.map_values(|g: Feature| g@);
        assert(new_list =~= old_list.insert(i as int, fv));
        assert(sorted_strict(new_list)) by {
            assert forall|a: int, b: int| 0 <= a < b < new_list.len() implies seq_lt(
                #[trigger] new_list[a],
                #[trigger] new_list[b],
            ) by {
                if a < i && b < i {
                } else if a < i && b == i {
                } else if a < i && b > i {
                    assert(new_list[b] == old_list[b - 1]);
                } else if a == i {
                    assert(new_list[b] == old_list[b - 1]);
                } else {
                    assert(new_list[a] == old_list[a - 1]);
                    assert(new_list[b] == old_list[b - 1]);
                }
            }
        }
        assert(new_list.to_set() =~= old_list.to_set().insert(fv)) by {
            assert forall|x: Seq<char>| new_list.to_set().contains(x) implies old_list.to_set().insert(
                fv,
            ).contains(x) by {
                let k = choose|k: int| 0 <= k < new_list.len() && new_list[k] == x;
                if k < i {
                    assert(old_list[k] == x);
                } else if k > i {
                    assert(old_list[k - 1] == x);
                }
            }
            assert forall|x: Seq<char>| old_list.to_set().insert(fv).contains(x) implies new_list.to_set().contains(
                x,
            ) by {
                if x == fv {
                    assert(new_list[i as int] == x);
                } else {
                    let k = choose|k: int| 0 <= k < old_list.len() && old_list[k] == x;
                    if k < i {
                        assert(new_list[k] == x);
                    } else {
                        assert(new_list[k + 1] == x);
                    }
                }
            }
        }
        self.elems = elems;
        assert(self.listing() == new_list);
        true
    }

    /// Remove `f`; the result says whether it was there.
    pub fn remove(&mut self, f: &Feature) -> (r: bool)
        ensures
            final(self)@ == old(self)@.remove(f@),
            r == old(self)@.contains(f@),
    {
        proof {
            use_type_invariant(&*self);
            lemma_sorted_no_dup(self.listing());
        }
        let ghost old_list = self.listing();
        let n = self.elems.len();
        let mut i: usize = 0;
        while i < n
            invariant
                n == self.elems.len(),
                old_list == self.listing(),
                sorted_strict(old_list),
                old_list.no_duplicates(),
                old(self)@ == old_list.to_set(),
                i <= n,
                forall|j: int| 0 <= j < i ==> old_list[j] != f@,
            decreases n - i,
        {
            if self.elems[i].same_as(f) {
                let mut elems: Vec<Feature> = Vec::new();
                std::mem::swap(&mut elems, &mut self.elems);
                elems.remove(i);
                let ghost new_list = elems@.map_values(|g: Feature| g@);
                assert(new_list =~= old_list.remove(i as int));
                assert(sorted_strict(new_list)) by {
                    assert forall|a: int, b: int| 0 <= a < b < new_list.len() implies seq_lt(
                        #[trigger] new_list[a],
                        #[trigger] new_list[b],
                    ) by {
                        if b >= i {
                            assert(new_list[b] == old_list[b + 1]);
                        } else {
                            assert(new_list[b] == old_list[b]);
                        }
                        if a >= i {
                            assert(new_list[a] == old_list[a + 1]);
                        } else {
                            assert(new_list[a] == old_list[a]);
                        }
                    }
                }
                assert(new_list.to_set() =~= old_list.to_set().remove(f@)) by {
                    assert forall|x: Seq<char>| old_list.to_set().remove(f@).contains(x) implies new_list.to_set().contains(x) by {
                        let k = choose|k: int| 0 <= k < old_list.len() && old_list[k] == x;
                        if k < i {
                            assert(new_list[k] == x);
                        } else {
                            assert(k != i);
                            assert(new_list[k - 1] == x);
                        }
                    }
                    assert forall|x: Seq<char>| new_list.to_set().contains(x) implies old_list.to_set().remove(f@).contains(x) by {
                        let k = choose|k: int| 0 <= k < new_list.len() && new_list[k] == x;
                        if k < i {
                            assert(old_list[k] == x);
                            assert(old_list[i as int] == f@);
                        } else {
                            assert(old_list[k + 1] == x);
                            assert(old_list[i as int] == f@);
                        }
                    }
                }
                self.elems = elems;
                assert(self.listing() == new_list);
                return true;
            }
            i = i + 1;
        }
        assert(self@.remove(f@) =~= self@);
        false
    }

    /// Whether two sets hold the same features.
    pub fn same_as(&self, other: &FeatureSet) -> (r: bool)
        ensures
            r == (self@ == other@),
    {
        proof {
            use_type_invariant(self);
            use_type_invariant(other);
            self.lemma_listing();
            other.lemma_listing();
        }
        if self.elems.len() != other.elems.len() {
            assert(self@.len() != other@.len());
            return false;
        }
        let mut i: usize = 0;
        while i < self.elems.len()
            invariant
                self.listing() == canon(self@),
                other.listing() == canon(other@),
                self.elems.len() == other.elems.len(),
                i <= self.elems.len(),
                forall|j: int| 0 <= j < i ==> self.listing()[j] == other.listing()[j],
            decreases self.elems.len() - i,
        {
            if !self.elems[i].same_as(&other.elems[i]) {
                assert(self.listing()[i as int] != other.listing()[i as int]);
                return false;
            }
            i = i + 1;
        }
        assert(self.listing() =~= other.listing());
        true
    }

    /// The features of the set in increasing order.
    pub fn to_vec(&self) -> (r: Vec<Feature>)
        ensures
            r@.map_values(|f: Feature| f@) == canon(self@),
    {
        proof {
            use_type_invariant(self);
            self.lemma_listing();
        }
        let mut r: Vec<Feature> = Vec::new();
        let mut i: usize = 0;
        while i < self.elems.len()
            invariant
                i <= self.elems.len(),
                r@.len() == i,
                forall|j: int| 0 <= j < i ==> #[trigger] r@[j]@ == self.listing()[j],
            decreases self.elems.len() - i,
        {
            r.push(self.elems[i].dup());
            i = i + 1;
        }
        assert(r@.map_values(|f: Feature| f@) =~= self.listing());
        r
    }

    /// Add every feature of `other`.
    pub fn extend(&mut self, other: &FeatureSet)
        ensures
            final(self)@ == old(self)@.union(other@),
    {
        proof {
            use_type_invariant(other);
            other.lemma_listing();
        }
        let mut i: usize = 0;
        while i < other.elems.len()
            invariant
                i <= other.elems.len(),
                self@ == old(self)@.union(other.listing().take(i as int).to_set()),
            decreases other.elems.len() - i,
        {
            let ghost before = self@;
            self.insert(other.elems[i].dup());
            let ghost t0 = other.listing().take(i as int);
            let ghost t1 = other.listing().take(i + 1);
            assert(t1.to_set() =~= t0.to_set().insert(other.listing()[i as int])) by {
                assert forall|x: Seq<char>| t1.to_set().contains(x) implies t0.to_set().insert(other.listing()[i as int]).contains(x) by {
                    let k = choose|k: int| 0 <= k < t1.len() && t1[k] == x;
                    if k < i {
                        assert(t0[k] == x);
                    }
                }
                assert forall|x: Seq<char>| t0.to_set().insert(other.listing()[i as int]).contains(x) implies t1.to_set().contains(x) by {
                    if x == other.listing()[i as int] {
                        assert(t1[i as int] == x);
                    } else {
                        let k = choose|k: int| 0 <= k < t0.len() && t0[k] == x;
                        assert(t1[k] == x);
                    }
                }
            }
            assert(self@ =~= old(self)@.union(other.listing().take(i + 1).to_set()));
            i = i + 1;
        }
        assert(other.listing().take(i as int) =~= other.listing());
    }
}

impl Elem for FeatureSet {
    fn elem_eq(&self, other: &Self) -> (r: bool) {
        self.same_as(other)
    }

    fn elem_dup(&self) -> (r: Self) {
        self.clone()
    }
}

impl Clone for FeatureSet {
    fn clone(&self) -> (r: Self)
        ensures
            r@ == self@,
    {
        proof {
            use_type_invariant(self);
        }
        let mut elems: Vec<Feature> = Vec::new();
        let mut i: usize = 0;
        while i < self.elems.len()
            invariant
                i <= self.elems.len(),
                elems@.len() == i,
                forall|j: int| 0 <= j < i ==> #[trigger] elems@[j]@ == self.listing()[j],
            decreases self.elems.len() - i,
        {
            elems.push(self.elems[i].dup());
            i = i + 1;
        }
        assert(elems@.map_values(|f: Feature| f@) =~= self.listing());
        let r = FeatureSet { elems };
        assert(r.listing() == self.listing());
        r
    }
}

} // verus!
