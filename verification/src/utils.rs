//! Finite sets of values that are compared through their models.

use vstd::prelude::*;

verus! {

/// Values that can be compared and copied through their model.
pub trait Elem: View + Sized {
    /// Whether two values have the same model.
    fn elem_eq(&self, other: &Self) -> (r: bool)
        ensures
            r == (self@ == other@),
    ;

    /// A copy of the value, with the same model.
    fn elem_dup(&self) -> (r: Self)
        ensures
            r@ == self@,
    ;
}

impl Elem for usize {
    fn elem_eq(&self, other: &Self) -> (r: bool) {
        *self == *other
    }

    fn elem_dup(&self) -> (r: Self) {
        *self
    }
}

/// A finite set, kept as a vector in which no model occurs twice.
pub struct FiniteSet<T: View> {
    items: Vec<T>,
}

impl<T: View> FiniteSet<T> {
    /// The models of the elements, in the order in which the set keeps them.
    pub closed spec fn listing(&self) -> Seq<T::V> {
        self.items@.map_values(|x: T| x@)
    }

    #[verifier::type_invariant]
    closed spec fn inv(&self) -> bool {
        self.listing().no_duplicates()
    }
}

impl<T: View> View for FiniteSet<T> {
    type V = Set<T::V>;

    open spec fn view(&self) -> Set<T::V> {
        self.listing().to_set()
    }
}

/// A set with no element twice has as many elements as its listing.
pub proof fn lemma_listing_len<A>(q: Seq<A>)
    requires
        q.no_duplicates(),
    ensures
        q.to_set().len() == q.len(),
        q.to_set().finite(),
{
    q.unique_seq_to_set();
}

impl<T: Elem> FiniteSet<T> {
    /// The empty set.
    pub fn new() -> (r: Self)
        ensures
            r@ == Set::<T::V>::empty(),
            r.listing().len() == 0,
    {
        let r = FiniteSet { items: Vec::new() };
        assert(r.listing() =~= Seq::<T::V>::empty());
        assert(r@ =~= Set::<T::V>::empty());
        r
    }

    /// The listing holds each element once, and the set is finite.
    pub fn lemma_listing(&self)
        ensures
            self.listing().no_duplicates(),
            self.listing().len() == self@.len(),
            self@.finite(),
    {
        proof {
            use_type_invariant(self);
            lemma_listing_len(self.listing());
        }
    }

    /// The number of elements.
    pub fn len(&self) -> (r: usize)
        ensures
            r == self@.len(),
            r == self.listing().len(),
    {
        self.lemma_listing();
        self.items.len()
    }

    pub fn is_empty(&self) -> (r: bool)
        ensures
            r == (self@.len() == 0),
            r == (self@ == Set::<T::V>::empty()),
    {
        self.lemma_listing();
        if self.items.len() == 0 {
            assert(self@ =~= Set::<T::V>::empty());
            true
        } else {
            assert(self@.contains(self.listing()[0]));
            false
        }
    }

    /// The `i`-th element in the order in which the set keeps them.
    pub fn get(&self, i: usize) -> (r: &T)
        requires
            i < self.listing().len(),
        ensures
            r@ == self.listing()[i as int],
    {
        &self.items[i]
    }

    /// Whether the set holds an element with the model of `x`.
    pub fn contains(&self, x: &T) -> (r: bool)
        ensures
            r == self@.contains(x@),
    {
        let mut i: usize = 0;
        while i < self.items.len()
            invariant
                i <= self.items.len(),
                forall|j: int| 0 <= j < i ==> self.listing()[j] != x@,
            decreases self.items.len() - i,
        {
            if self.items[i].elem_eq(x) {
                assert(self.listing()[i as int] == x@);
                return true;
            }
            i = i + 1;
        }
        false
    }

    /// Insert `x`; the result says whether it was not there before.
    pub fn insert(&mut self, x: T) -> (r: bool)
        ensures
            final(self)@ == old(self)@.insert(x@),
            r == !old(self)@.contains(x@),
    {
        proof {
            use_type_invariant(&*self);
        }
        if self.contains(&x) {
            assert(self@.insert(x@) =~= self@);
            return false;
        }
        let ghost old_list = self.listing();
        let ghost xv = x@;
        let mut items: Vec<T> = Vec::new();
        std::mem::swap(&mut items, &mut self.items);
        items.push(x);
        let ghost new_list = items@.map_values(|y: T| y@);
        assert(new_list =~= old_list.push(xv));
        assert(new_list.no_duplicates()) by {
            assert forall|a: int, b: int| 0 <= a < new_list.len() && 0 <= b < new_list.len() && a != b
                implies new_list[a] != new_list[b] by {
                if a == old_list.len() {
                    assert(old_list.to_set().contains(new_list[b]));
                } else if b == old_list.len() {
                    assert(old_list.to_set().contains(new_list[a]));
                }
            }
        }
        assert(new_list.to_set() =~= old_list.to_set().insert(xv)) by {
            assert forall|y: T::V| new_list.to_set().contains(y) implies old_list.to_set().insert(xv).contains(y) by {
                let k = choose|k: int| 0 <= k < new_list.len() && new_list[k] == y;
                if k < old_list.len() {
                    assert(old_list[k] == y);
                }
            }
            assert forall|y: T::V| old_list.to_set().insert(xv).contains(y) implies new_list.to_set().contains(y) by {
                if y == xv {
                    assert(new_list[old_list.len() as int] == y);
                } else {
                    let k = choose|k: int| 0 <= k < old_list.len() && old_list[k] == y;
                    assert(new_list[k] == y);
                }
            }
        }
        self.items = items;
        assert(self.listing() == new_list);
        true
    }

    /// Remove `x`; the result says whether it was there.
    pub fn remove(&mut self, x: &T) -> (r: bool)
        ensures
            final(self)@ == old(self)@.remove(x@),
            r == old(self)@.contains(x@),
    {
        proof {
            use_type_invariant(&*self);
        }
        let ghost old_list = self.listing();
        let n = self.items.len();
        let mut i: usize = 0;
        while i < n
            invariant
                n == self.items.len(),
                old_list == self.listing(),
                old_list.no_duplicates(),
                old(self)@ == old_list.to_set(),
                i <= n,
                forall|j: int| 0 <= j < i ==> old_list[j] != x@,
            decreases n - i,
        {
            if self.items[i].elem_eq(x) {
                assert(old_list[i as int] == x@);
                assert(old_list.to_set().contains(x@));
                let mut items: Vec<T> = Vec::new();
                std::mem::swap(&mut items, &mut self.items);
                items.remove(i);
                let ghost new_list = items@.map_values(|y: T| y@);
                assert(new_list =~= old_list.remove(i as int));
                assert(new_list.no_duplicates()) by {
                    assert forall|a: int, b: int| 0 <= a < new_list.len() && 0 <= b < new_list.len() && a != b
                        implies new_list[a] != new_list[b] by {
                        let oa = if a < i { a } else { a + 1 };
                        let ob = if b < i { b } else { b + 1 };
                        assert(new_list[a] == old_list[oa]);
                        assert(new_list[b] == old_list[ob]);
                    }
                }
                assert(new_list.to_set() =~= old_list.to_set().remove(x@)) by {
                    assert forall|y: T::V| old_list.to_set().remove(x@).contains(y) implies new_list.to_set().contains(y) by {
                        let k = choose|k: int| 0 <= k < old_list.len() && old_list[k] == y;
                        if k < i {
                            assert(new_list[k] == y);
                        } else {
                            assert(k != i);
                            assert(new_list[k - 1] == y);
                        }
                    }
                    assert forall|y: T::V| new_list.to_set().contains(y) implies old_list.to_set().remove(x@).contains(y) by {
                        let k = choose|k: int| 0 <= k < new_list.len() && new_list[k] == y;
                        if k < i {
                            assert(old_list[k] == y);
                        } else {
                            assert(old_list[k + 1] == y);
                        }
                        assert(old_list[i as int] == x@);
                    }
                }
                self.items = items;
                assert(self.listing() == new_list);
                return true;
            }
            i = i + 1;
        }
        assert(self@.remove(x@) =~= self@);
        false
    }

    /// Whether two sets hold elements with the same models.
    pub fn same_as(&self, other: &Self) -> (r: bool)
        ensures
            r == (self@ == other@),
    {
        self.lemma_listing();
        other.lemma_listing();
        if self.items.len() != other.items.len() {
            return false;
        }
        let mut i: usize = 0;
        while i < self.items.len()
            invariant
                i <= self.items.len(),
                forall|j: int| 0 <= j < i ==> other@.contains(#[trigger] self.listing()[j]),
            decreases self.items.len() - i,
        {
            if !other.contains(&self.items[i]) {
                assert(self@.contains(self.listing()[i as int]));
                return false;
            }
            i = i + 1;
        }
        assert(self@.subset_of(other@)) by {
            assert forall|y: T::V| self@.contains(y) implies other@.contains(y) by {
                let k = choose|k: int| 0 <= k < self.listing().len() && self.listing()[k] == y;
            }
        }
        proof { vstd::set_lib::lemma_subset_equality(self@, other@); }
        true
    }

    /// A copy of the set.
    pub fn dup(&self) -> (r: Self)
        ensures
            r@ == self@,
            r.listing() == self.listing(),
    {
        proof {
            use_type_invariant(self);
        }
        let mut items: Vec<T> = Vec::new();
        let mut i: usize = 0;
        while i < self.items.len()
            invariant
                i <= self.items.len(),
                items@.len() == i,
                forall|j: int| 0 <= j < i ==> #[trigger] items@[j]@ == self.listing()[j],
            decreases self.items.len() - i,
        {
            items.push(self.items[i].elem_dup());
            i = i + 1;
        }
        assert(items@.map_values(|y: T| y@) =~= self.listing());
        FiniteSet { items }
    }
}

} // verus!
