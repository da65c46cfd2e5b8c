//! A small set of identity strings, viewed as a `Set<Seq<char>>`. Used for
//! the featured-carousel identities of a category and for run-wide
//! deduplication.

use vstd::prelude::*;

verus! {

/// A set of identity strings.
pub struct IdentitySet {
    items: Vec<String>,
}

impl View for IdentitySet {
    type V = Set<Seq<char>>;

    closed spec fn view(&self) -> Set<Seq<char>> {
        Set::new(|k: Seq<char>| exists|i: int| 0 <= i < self.items@.len() && self.items@[i]@ == k)
    }
}

impl IdentitySet {
    pub fn new() -> (s: Self)
        ensures
            s@ == Set::<Seq<char>>::empty(),
    {
        let s = IdentitySet { items: Vec::new() };
        proof {
            assert(s@ =~= Set::<Seq<char>>::empty());
        }
        s
    }

    /// Membership by string value.
    pub fn contains(&self, x: &String) -> (r: bool)
        ensures
            r == self@.contains(x@),
    {
        let n = self.items.len();
        let mut i: usize = 0;
        while i < n
            invariant
                0 <= i <= n,
                n == self.items@.len(),
                forall|j: int| 0 <= j < i ==> self.items@[j]@ != x@,
            decreases n - i,
        {
            if self.items[i].eq(x) {
                proof {
                    assert(self.items@[i as int]@ == x@);
                }
                return true;
            }
            i = i + 1;
        }
        proof {
            assert(!self@.contains(x@));
        }
        false
    }

    /// Insert a value; the set grows by exactly that value.
    pub fn insert(&mut self, x: String)
        ensures
            final(self)@ == old(self)@.insert(x@),
    {
        let ghost before = self.items@;
        self.items.push(x);
        proof {
            assert forall|k: Seq<char>| self@.contains(k) implies old(self)@.insert(x@).contains(
                k,
            ) by {
                let i = choose|i: int|
                    0 <= i < self.items@.len() && self.items@[i]@ == k;
                if i < before.len() {
                    assert(before[i]@ == k);
                } else {
                    assert(k == x@);
                }
            }
            assert forall|k: Seq<char>| old(self)@.insert(x@).contains(k) implies self@.contains(
                k,
            ) by {
                if old(self)@.contains(k) {
                    let i = choose|i: int| 0 <= i < before.len() && before[i]@ == k;
                    assert(self.items@[i]@ == k);
                } else {
                    assert(self.items@[before.len() as int]@ == k);
                }
            }
            assert(self@ =~= old(self)@.insert(x@));
        }
    }
}

} // verus!
