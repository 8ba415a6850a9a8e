//! Occurrences.

use vstd::prelude::*;

use crate::deriv::so::{
    lemma_so_seq_view, so_eq, so_immediately_contains, so_view, SoModel, SyntacticObject,
};

verus! {

/// Occurrence.
///
/// From Definition 17 in C&S 2016, p. 52: B *occurs* in A at position P iff
/// P = <A, ..., B>.  We also say B has an occurrence in A at position P.
/// We call P the position of B.
pub struct Occurrence<'a> {
    pub position: Vec<&'a SyntacticObject>,
}

/// The models of the objects along a position.
pub open spec fn position_view(p: Seq<&SyntacticObject>) -> Seq<SoModel> {
    p.map_values(|x: &SyntacticObject| so_view(*x))
}

impl<'a> View for Occurrence<'a> {
    type V = Seq<SoModel>;

    open spec fn view(&self) -> Seq<SoModel> {
        position_view(self.position@)
    }
}

/// A valid position (Definition 16): a non-empty path in which each object
/// immediately contains the next.
pub open spec fn valid_position(p: Seq<SoModel>) -> bool {
    &&& p.len() > 0
    &&& forall|i: int| 0 <= i < p.len() - 1 ==> so_immediately_contains(#[trigger] p[i], p[i + 1])
}

/// `p` is a proper prefix of `q`.
pub open spec fn proper_prefix(p: Seq<SoModel>, q: Seq<SoModel>) -> bool {
    p.len() < q.len() && q.take(p.len() as int) == p
}

/// Sisterhood for occurrences (Definition 20): the two positions differ,
/// have the same length n >= 2 and agree on their first n - 1 objects, the
/// last of which is `under`.
pub open spec fn occ_sisters_model(a: Seq<SoModel>, b: Seq<SoModel>, under: SoModel) -> bool {
    &&& a != b
    &&& a.len() >= 2
    &&& a.len() == b.len()
    &&& a.take(a.len() - 1) == b.take(b.len() - 1)
    &&& a[a.len() - 2] == under
}

/// The objects that an object immediately contains, in order: the members
/// of a set; nothing else has any.
pub open spec fn children(x: SoModel) -> Seq<SoModel> {
    match x {
        SoModel::SoSet(xs) => xs,
        _ => Seq::empty(),
    }
}

/// The positions below the first `n` children of `x`, where `path` is the
/// position of `x`: for each child C in turn, the position of C, then the
/// positions below C.
pub open spec fn occ_list(path: Seq<SoModel>, x: SoModel, n: nat) -> Seq<Seq<SoModel>>
    decreases x, n,
{
    if n == 0 || n > children(x).len() {
        Seq::empty()
    } else {
        let c = children(x)[n - 1];
        proof {
            assert(decreases_to!(x => c)) by {
                match x {
                    SoModel::SoSet(xs) => {},
                    SoModel::Transfer { so, .. } => { assert(c == *so); },
                    SoModel::WithFeature { so, .. } => { assert(c == *so); },
                    SoModel::Lit(_) => {},
                }
            }
        }
        occ_list(path, x, (n - 1) as nat) + seq![path.push(c)] + occ_list(
            path.push(c),
            c,
            children(c).len(),
        )
    }
}

/// The occurrences contained in a syntactic object, as positions: every
/// path <under, ..., B> with at least two objects, listed in the order of a
/// pre-order walk.
pub open spec fn contained_occurrences_model(under: SoModel) -> Seq<Seq<SoModel>> {
    occ_list(seq![under], under, children(under).len())
}

/// Each child of an object is immediately contained in it.
pub proof fn lemma_children_contained(x: SoModel, i: int)
    requires
        0 <= i < children(x).len(),
    ensures
        so_immediately_contains(x, children(x)[i]),
{
    match x {
        SoModel::SoSet(xs) => {
            assert(xs.contains(xs[i]));
        },
        _ => {},
    }
}

/// The positions below `x` extend its position `path`, and each is a valid
/// position where `path` is.
pub proof fn lemma_occ_list_valid(path: Seq<SoModel>, x: SoModel, n: nat)
    requires
        valid_position(path),
        path.last() == x,
        n <= children(x).len(),
    ensures
        forall|j: int| #![trigger occ_list(path, x, n)[j]] 0 <= j < occ_list(path, x, n).len() ==> {
            let q = occ_list(path, x, n)[j];
            &&& q.len() > path.len()
            &&& q.take(path.len() as int) == path
            &&& valid_position(q)
        },
    decreases x, n,
{
    if n > 0 {
        let c = children(x)[n - 1];
        assert(decreases_to!(x => c)) by {
            match x {
                SoModel::SoSet(xs) => {},
                SoModel::Transfer { so, .. } => { assert(c == *so); },
                SoModel::WithFeature { so, .. } => { assert(c == *so); },
                SoModel::Lit(_) => {},
            }
        }
        let pc = path.push(c);
        lemma_children_contained(x, n - 1);
        assert(valid_position(pc)) by {
            assert forall|i: int| 0 <= i < pc.len() - 1 implies so_immediately_contains(#[trigger] pc[i], pc[i + 1]) by {
                if i < path.len() - 1 {
                    assert(pc[i] == path[i] && pc[i + 1] == path[i + 1]);
                } else {
                    assert(pc[i] == x);
                    assert(pc[i + 1] == c);
                }
            }
        }
        assert(pc.take(path.len() as int) =~= path);
        lemma_occ_list_valid(path, x, (n - 1) as nat);
        lemma_occ_list_valid(pc, c, children(c).len());
        let a = occ_list(path, x, (n - 1) as nat);
        let b = occ_list(pc, c, children(c).len());
        let all = occ_list(path, x, n);
        assert(all == a + seq![pc] + b);
        assert forall|j: int| #![trigger all[j]] 0 <= j < all.len() implies {
            let q = all[j];
            &&& q.len() > path.len()
            &&& q.take(path.len() as int) == path
            &&& valid_position(q)
        } by {
            if j < a.len() {
                assert(all[j] == a[j]);
            } else if j == a.len() {
                assert(all[j] == pc);
            } else {
                let q = b[j - a.len() - 1];
                assert(all[j] == q);
                assert(q.take(pc.len() as int) == pc);
                assert(q.take(path.len() as int) =~= pc.take(path.len() as int));
            }
        }
    }
}

/// The models of a sequence of occurrences.
pub open spec fn occs_view(s: Seq<Occurrence>) -> Seq<Seq<SoModel>> {
    s.map_values(|o: Occurrence| o@)
}

/// C-command for occurrences (Definition 22): some occurrence of `under` is a
/// sister of `a` and either is `b` or contains it.
pub open spec fn occ_c_commands_model(a: Seq<SoModel>, b: Seq<SoModel>, under: SoModel) -> bool {
    exists|i: int|
        0 <= i < contained_occurrences_model(under).len() && occ_sisters_model(
            #[trigger] contained_occurrences_model(under)[i],
            a,
            under,
        ) && (b == contained_occurrences_model(under)[i] || proper_prefix(
            contained_occurrences_model(under)[i],
            b,
        ))
}

/// Whether the first `n` objects of two positions have the same models.
fn same_prefix(p: &Vec<&SyntacticObject>, q: &Vec<&SyntacticObject>, n: usize) -> (r: bool)
    requires
        n <= p.len(),
        n <= q.len(),
    ensures
        r == (position_view(p@).take(n as int) == position_view(q@).take(n as int)),
{
    let mut i: usize = 0;
    while i < n
        invariant
            n <= p.len(),
            n <= q.len(),
            i <= n,
            forall|j: int| 0 <= j < i ==> so_view(*p@[j]) == so_view(*q@[j]),
        decreases n - i,
    {
        if !so_eq(p[i], q[i]) {
            assert(position_view(p@).take(n as int)[i as int] != position_view(q@).take(n as int)[i as int]);
            return false;
        }
        i = i + 1;
    }
    assert(position_view(p@).take(n as int) =~= position_view(q@).take(n as int));
    true
}

impl<'a> Occurrence<'a> {
    /// Check if an occurrence is valid, defined in Definition 16.
    ///
    /// From Definition 16 in C&S 2016, p. 51: the *position* of SO_n in SO_1
    /// is a *path*, a sequence of syntactic objects <SO_1, SO_2, ..., SO_n>
    /// where for all 0 < i < n, SO_{i+1} is in SO_i.
    pub fn check(&self) -> (r: bool)
        ensures
            r == valid_position(self@),
    {
        let n = self.position.len();
        if n == 0 {
            return false;
        }
        let mut i: usize = 0;
        while i + 1 < n
            invariant
                n == self.position@.len(),
                n > 0,
                i + 1 <= n,
                forall|j: int| 0 <= j < i ==> so_immediately_contains(#[trigger] self@[j], self@[j + 1]),
            decreases n - i,
        {
            if !self.position[i].immediately_contains(self.position[i + 1]) {
                assert(!so_immediately_contains(self@[i as int], self@[i + 1]));
                return false;
            }
            i = i + 1;
        }
        true
    }

    /// Immediate containment for occurrences.
    ///
    /// From Definition 18 in C&S 2016, p. 52: in C, occurrence B_P
    /// *immediately contains* occurrence A_P' iff P = <X_1, ..., X_n> and
    /// P' = <X_1, ..., X_n, X_{n+1}>.
    pub fn immediately_contains(&self, other: &Occurrence) -> (r: bool)
        ensures
            r == (self@.len() + 1 == other@.len() && other@.take(self@.len() as int) == self@),
    {
        let len = self.position.len();
        if other.position.len() == 0 || len != other.position.len() - 1 {
            return false;
        }
        let r = same_prefix(&self.position, &other.position, len);
        assert(position_view(self.position@).take(len as int) =~= self@);
        r
    }

    /// Containment for occurrences: the transitive closure of immediate
    /// containment, that is, the position of `self` is a proper prefix of
    /// that of `other`.
    pub fn contains(&self, other: &Occurrence) -> (r: bool)
        ensures
            r == proper_prefix(self@, other@),
    {
        let len = self.position.len();
        if len >= other.position.len() {
            return false;
        }
        let r = same_prefix(&self.position, &other.position, len);
        assert(position_view(self.position@).take(len as int) =~= self@);
        r
    }

    /// Sisterhood for occurrences.
    ///
    /// From Definition 20, C&S 2016, p. 53: let A, B, C be syntactic objects
    /// (where A is not B); then in C, A_P is a *sister* of B_P' iff
    /// P = <X_1, ..., X_{n-1}, X_n> (where X_{n-1} = C and X_n = A) and
    /// P' = <X_1, ..., X_{n-1}, X'_n> (where X'_n = B).
    pub fn sisters_with(&self, other: &Occurrence, under: &SyntacticObject) -> (r: bool)
        ensures
            r == occ_sisters_model(self@, other@, under@),
    {
        let n = self.position.len();
        let m = other.position.len();
        if n < 2 || n != m {
            return false;
        }
        let equal = same_prefix(&self.position, &other.position, n);
        let prefix = same_prefix(&self.position, &other.position, n - 1);
        proof {
            assert(position_view(self.position@).take(n as int) =~= self@);
            assert(position_view(other.position@).take(n as int) =~= other@);
        }
        !equal && prefix && so_eq(self.position[n - 2], under)
    }

    /// C-command for occurrences.
    ///
    /// From Definition 22, C&S 2016, p. 53: in D, A_P *c-commands* B_P' iff
    /// there is an occurrence C_P'' such that C_P'' is a sister of A_P in D,
    /// and either B_P' = C_P'' or C_P'' contains B_P', in D.
    pub fn c_commands(&self, other: &Occurrence, under: &SyntacticObject) -> (r: bool)
        ensures
            r == occ_c_commands_model(self@, other@, under@),
    {
        let occs = under.iter_contained_as_occ();
        let n = occs.len();
        let mut i: usize = 0;
        while i < n
            invariant
                n == occs@.len(),
                i <= n,
                forall|j: int| 0 <= j < n ==> #[trigger] occs@[j]@ == contained_occurrences_model(under@)[j],
                contained_occurrences_model(under@).len() == n,
                forall|j: int| 0 <= j < i ==> !(occ_sisters_model(
                    #[trigger] contained_occurrences_model(under@)[j],
                    self@,
                    under@,
                ) && (other@ == contained_occurrences_model(under@)[j] || proper_prefix(
                    contained_occurrences_model(under@)[j],
                    other@,
                ))),
            decreases n - i,
        {
            let occ = &occs[i];
            let s = occ.sisters_with(self, under);
            if s {
                let e = occ.position.len() == other.position.len() && same_prefix(
                    &occ.position,
                    &other.position,
                    occ.position.len(),
                );
                if e || occ.contains(other) {
                    proof {
                        assert(position_view(occ.position@).take(occ.position@.len() as int) =~= occ@);
                        assert(position_view(other.position@).take(other.position@.len() as int) =~= other@);
                    }
                    return true;
                }
                proof {
                    assert(position_view(occ.position@).take(occ.position@.len() as int) =~= occ@);
                    assert(position_view(other.position@).take(other.position@.len() as int) =~= other@);
                }
            }
            i = i + 1;
        }
        false
    }

    /// Asymmetric c-command: A_P c-commands B_P' and A_P and B_P' are not
    /// sisters.
    pub fn asymmetrically_c_commands(&self, other: &Occurrence, under: &SyntacticObject) -> (r:
        bool)
        ensures
            r == (!occ_sisters_model(self@, other@, under@) && occ_c_commands_model(
                self@,
                other@,
                under@,
            )),
    {
        !self.sisters_with(other, under) && self.c_commands(other, under)
    }
}

/// A copy of a position.
fn copy_position<'a>(p: &Vec<&'a SyntacticObject>) -> (r: Vec<&'a SyntacticObject>)
    ensures
        r@ == p@,
{
    let mut r: Vec<&'a SyntacticObject> = Vec::new();
    let mut i: usize = 0;
    while i < p.len()
        invariant
            i <= p.len(),
            r@ == p@.take(i as int),
        decreases p.len() - i,
    {
        r.push(p[i]);
        i = i + 1;
        assert(r@ =~= p@.take(i as int));
    }
    assert(p@.take(i as int) =~= p@);
    r
}

/// The child of `x` at `i`, as a reference into `x`.
fn child_at<'a>(x: &'a SyntacticObject, i: usize) -> (r: &'a SyntacticObject)
    requires
        i < children(x@).len(),
    ensures
        r@ == children(x@)[i as int],
        decreases_to!(*x => *r),
{
    match x {
        SyntacticObject::SoSet(v) => {
            proof {
                lemma_so_seq_view(v@);
            }
            &v[i]
        },
        _ => {
            proof {
                assert(children(x@).len() == 0);
            }
            x
        },
    }
}

/// The number of children of `x`.
fn children_len(x: &SyntacticObject) -> (r: usize)
    ensures
        r == children(x@).len(),
{
    match x {
        SyntacticObject::SoSet(v) => {
            proof {
                lemma_so_seq_view(v@);
            }
            v.len()
        },
        _ => 0,
    }
}

/// Adds to `out` the occurrences below `x`, whose position is `path`.
fn collect_occurrences<'a>(path: &Vec<&'a SyntacticObject>, x: &'a SyntacticObject, out: &mut Vec<Occurrence<'a>>)
    ensures
        occs_view(final(out)@) == occs_view(old(out)@) + occ_list(
            position_view(path@),
            x@,
            children(x@).len(),
        ),
    decreases x,
{
    let k = children_len(x);
    let ghost pv = position_view(path@);
    let ghost start = occs_view(out@);
    let mut i: usize = 0;
    while i < k
        invariant
            i <= k,
            k == children(x@).len(),
            pv == position_view(path@),
            occs_view(out@) == start + occ_list(pv, x@, i as nat),
        decreases k - i,
    {
        let c = child_at(x, i);
        let mut p = copy_position(path);
        p.push(c);
        let ghost cpv = position_view(p@);
        assert(cpv =~= pv.push(c@));
        let occ = Occurrence { position: copy_position(&p) };
        out.push(occ);
        assert(occs_view(out@) =~= start + occ_list(pv, x@, i as nat) + seq![pv.push(c@)]);
        collect_occurrences(&p, c, out);
        assert(occ_list(pv, x@, (i + 1) as nat) == occ_list(pv, x@, i as nat) + seq![pv.push(c@)]
            + occ_list(pv.push(c@), c@, children(c@).len()));
        assert(occs_view(out@) =~= start + occ_list(pv, x@, (i + 1) as nat));
        i = i + 1;
    }
}

impl SyntacticObject {
    /// The occurrences contained in `self`: every path <self, ..., B> with
    /// at least two objects, in the order of a pre-order walk.
    pub fn iter_contained_as_occ(&self) -> (r: Vec<Occurrence<'_>>)
        ensures
            r@.len() == contained_occurrences_model(self@).len(),
            forall|j: int| 0 <= j < r@.len() ==> #[trigger] r@[j]@ == contained_occurrences_model(self@)[j],
    {
        let mut path: Vec<&SyntacticObject> = Vec::new();
        path.push(self);
        assert(position_view(path@) =~= seq![self@]);
        let mut out: Vec<Occurrence<'_>> = Vec::new();
        assert(occs_view(out@) =~= Seq::<Seq<SoModel>>::empty());
        collect_occurrences(&path, self, &mut out);
        assert(occs_view(out@) =~= contained_occurrences_model(self@));
        assert forall|j: int| 0 <= j < out@.len() implies #[trigger] out@[j]@ == contained_occurrences_model(self@)[j] by {
            assert(occs_view(out@)[j] == out@[j]@);
        }
        out
    }
}

} // verus!
