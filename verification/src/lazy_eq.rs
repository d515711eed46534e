//! Order-insensitive, length-checked comparison of two collections: each
//! side is "lazily equal" to the other when the lengths agree and every
//! element of the other occurs somewhere in it. This is deliberately
//! weaker than multiset equality — duplicate counts are not compared.

use vstd::prelude::*;

verus! {

/// What [`LazyEq::lazy_eq`] means for a pair of collections.
pub open spec fn lazy_eq_spec(a: Seq<u64>, b: Seq<u64>) -> bool {
    a.len() == b.len() && forall|j: int| 0 <= j < b.len() ==> a.contains(#[trigger] b[j])
}

/// Loose equality: same length, and every element of the other side
/// occurs in this one.
pub trait LazyEq<Rhs> {
    /// The comparison this trait promises.
    spec fn lazy_eq_view(&self, other: &Rhs) -> bool;

    fn lazy_eq(&self, other: &Rhs) -> (r: bool)
        ensures
            r == self.lazy_eq_view(other),
    ;

    fn lazy_ne(&self, other: &Rhs) -> (r: bool)
        ensures
            r == !self.lazy_eq_view(other),
    {
        !self.lazy_eq(other)
    }
}

/// Whether `v` holds `x` somewhere.
fn vec_holds(v: &Vec<u64>, x: u64) -> (r: bool)
    ensures
        r == v@.contains(x),
{
    let mut i: usize = 0;
    while i < v.len()
        invariant
            i <= v@.len(),
            forall|j: int| 0 <= j < i ==> v@[j] != x,
        decreases v@.len() - i,
    {
        if v[i] == x {
            return true;
        }
        i = i + 1;
    }
    proof {
        assert(!v@.contains(x)) by {
            if v@.contains(x) {
                let w = choose|w: int| 0 <= w < v@.len() && v@[w] == x;
                assert(v@[w] != x);
            }
        }
    }
    false
}

impl LazyEq<Vec<u64>> for Vec<u64> {
    open spec fn lazy_eq_view(&self, other: &Vec<u64>) -> bool {
        lazy_eq_spec(self@, other@)
    }

    fn lazy_eq(&self, other: &Vec<u64>) -> (r: bool) {
        if self.len() != other.len() {
            return false;
        }
        let mut i: usize = 0;
        while i < other.len()
            invariant
                i <= other@.len(),
                self@.len() == other@.len(),
                forall|j: int| 0 <= j < i ==> self@.contains(#[trigger] other@[j]),
            decreases other@.len() - i,
        {
            if !vec_holds(self, other[i]) {
                return false;
            }
            i = i + 1;
        }
        true
    }
}

} // verus!
