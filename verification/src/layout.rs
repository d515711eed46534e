//! A recipe side: an ordered list of item requirements or outputs.
//!
//! Two layouts that list the same multiset of (item, stack) pairs in
//! different orders are the same recipe key; matching is therefore stated
//! over `Seq::to_multiset` of the layout's view.

use vstd::multiset::Multiset;
use vstd::prelude::*;
use vstd::seq_lib::group_to_multiset_ensures;

use crate::item::{BundleView, ItemBundle};

verus! {

/// An ordered sequence of `T` representing a recipe side or a list of
/// item requirements. Length one and length three share one
/// representation; `is_one` and `is_many` are query helpers, not
/// structural tags.
#[derive(Debug)]
pub struct Layout<T>(pub Vec<T>);

/// The input or output side of a recipe: (item, stack) pairs.
pub type ItemsLayout = Layout<ItemBundle>;

impl<T: View> View for Layout<T> {
    type V = Seq<T::V>;

    open spec fn view(&self) -> Seq<T::V> {
        Seq::new(self.0@.len(), |i: int| self.0@[i]@)
    }
}

impl<T> Layout<T> {
    pub fn is_one(&self) -> (r: bool)
        ensures
            r == (self.0@.len() == 1),
    {
        self.0.len() == 1
    }

    pub fn is_many(&self) -> (r: bool)
        ensures
            r == (self.0@.len() > 1),
    {
        self.0.len() > 1
    }

    pub fn get_many(&self) -> (r: Option<&Vec<T>>)
        ensures
            r is Some <==> self.0@.len() > 1,
            r is Some ==> r->Some_0@ == self.0@,
    {
        if self.0.len() > 1 {
            Some(&self.0)
        } else {
            None
        }
    }

    pub fn get_one(&self) -> (r: Option<&T>)
        ensures
            r is Some <==> self.0@.len() == 1,
            r is Some ==> *r->Some_0 == self.0@[0],
    {
        if self.0.len() == 1 {
            Some(&self.0[0])
        } else {
            None
        }
    }

    pub fn get(&self) -> (r: &Vec<T>)
        ensures
            r@ == self.0@,
    {
        &self.0
    }
}

/// Occurrences of `x` in `s`.
pub open spec fn count_of<A>(s: Seq<A>, x: A) -> nat
    decreases s.len(),
{
    if s.len() == 0 {
        0
    } else {
        count_of(s.drop_last(), x) + if s.last() == x {
            1nat
        } else {
            0nat
        }
    }
}

/// `count_of` counts exactly what the multiset of the sequence counts.
pub proof fn lemma_count_of_multiset<A>(s: Seq<A>, x: A)
    ensures
        count_of(s, x) == s.to_multiset().count(x),
    decreases s.len(),
{
    broadcast use group_to_multiset_ensures;

    if s.len() == 0 {
        assert(s.to_multiset() =~= Multiset::<A>::empty());
    } else {
        lemma_count_of_multiset(s.drop_last(), x);
        assert(s.drop_last().push(s.last()) =~= s);
    }
}

/// A sequence contains every element it counts.
proof fn lemma_count_of_contains<A>(s: Seq<A>, x: A)
    requires
        count_of(s, x) > 0,
    ensures
        exists|i: int| 0 <= i < s.len() && s[i] == x,
    decreases s.len(),
{
    if s.len() > 0 {
        if s.last() == x {
            assert(s[s.len() - 1] == x);
        } else {
            lemma_count_of_contains(s.drop_last(), x);
            let i = choose|i: int| 0 <= i < s.drop_last().len() && s.drop_last()[i] == x;
            assert(s[i] == x);
        }
    }
}

/// Executable equality of bundle values.
pub fn bundle_eq(a: &ItemBundle, b: &ItemBundle) -> (r: bool)
    ensures
        r == (a@ == b@),
{
    crate::item::item_eq(&a.item, &b.item) && a.stack.0 == b.stack.0
}

/// Occurrences of `x` among `v`'s bundle values.
fn count_matching(v: &Vec<ItemBundle>, x: &ItemBundle) -> (n: usize)
    ensures
        n == count_of(Seq::new(v@.len(), |i: int| v@[i]@), x@),
{
    let ghost s = Seq::new(v@.len(), |i: int| v@[i]@);
    let mut n: usize = 0;
    let mut i: usize = 0;
    while i < v.len()
        invariant
            i <= v@.len(),
            s == Seq::new(v@.len(), |j: int| v@[j]@),
            n == count_of(s.subrange(0, i as int), x@),
            n <= i,
        decreases v@.len() - i,
    {
        proof {
            assert(s.subrange(0, i + 1).drop_last() =~= s.subrange(0, i as int));
            assert(s.subrange(0, i + 1).last() == s[i as int]);
        }
        if bundle_eq(&v[i], x) {
            n = n + 1;
        }
        i = i + 1;
    }
    proof {
        assert(s.subrange(0, v@.len() as int) =~= s);
    }
    n
}

/// Whether two layouts name the same multiset of (item, stack) pairs:
/// the canonical-key comparison for recipe lookup, independent of the
/// order ingredients were listed in.
pub fn layout_matches(a: &ItemsLayout, b: &ItemsLayout) -> (r: bool)
    ensures
        r == (a@.to_multiset() == b@.to_multiset()),
{
    broadcast use group_to_multiset_ensures;

    if a.0.len() != b.0.len() {
        proof {
            assert(a@.len() != b@.len());
            assert(a@.to_multiset().len() != b@.to_multiset().len());
        }
        return false;
    }
    let mut i: usize = 0;
    while i < a.0.len()
        invariant
            i <= a@.len(),
            a@.len() == b@.len(),
            forall|j: int| 0 <= j < i ==> count_of(a@, #[trigger] a@[j]) == count_of(b@, a@[j]),
        decreases a@.len() - i,
    {
        let ca = count_matching(&a.0, &a.0[i]);
        let cb = count_matching(&b.0, &a.0[i]);
        if ca != cb {
            proof {
                lemma_count_of_multiset(a@, a@[i as int]);
                lemma_count_of_multiset(b@, a@[i as int]);
            }
            return false;
        }
        i = i + 1;
    }
    let mut k: usize = 0;
    while k < b.0.len()
        invariant
            k <= b@.len(),
            a@.len() == b@.len(),
            forall|j: int| 0 <= j < a@.len() ==> count_of(a@, #[trigger] a@[j]) == count_of(
                b@,
                a@[j],
            ),
            forall|j: int| 0 <= j < k ==> count_of(a@, #[trigger] b@[j]) == count_of(b@, b@[j]),
        decreases b@.len() - k,
    {
        let ca = count_matching(&a.0, &b.0[k]);
        let cb = count_matching(&b.0, &b.0[k]);
        if ca != cb {
            proof {
                lemma_count_of_multiset(a@, b@[k as int]);
                lemma_count_of_multiset(b@, b@[k as int]);
            }
            return false;
        }
        k = k + 1;
    }
    proof {
        assert forall|x: BundleView| a@.to_multiset().count(x) == b@.to_multiset().count(
            x,
        ) by {
            lemma_count_of_multiset(a@, x);
            lemma_count_of_multiset(b@, x);
            if count_of(a@, x) > 0 {
                lemma_count_of_contains(a@, x);
            } else if count_of(b@, x) > 0 {
                lemma_count_of_contains(b@, x);
            }
        }
        assert(a@.to_multiset() =~= b@.to_multiset());
    }
    true
}

impl Layout<ItemBundle> {
    /// An owned copy with a contract, element for element.
    pub fn duplicate(&self) -> (r: Self)
        ensures
            r@ == self@,
            r.0@.len() == self.0@.len(),
    {
        let mut v: Vec<ItemBundle> = Vec::new();
        let mut i: usize = 0;
        while i < self.0.len()
            invariant
                i <= self.0@.len(),
                v@.len() == i,
                forall|j: int| 0 <= j < i ==> v@[j] == self.0@[j],
            decreases self.0@.len() - i,
        {
            v.push(self.0[i].duplicate());
            i = i + 1;
        }
        let r = Layout(v);
        proof {
            assert(r@ =~= self@);
        }
        r
    }
}

} // verus!
