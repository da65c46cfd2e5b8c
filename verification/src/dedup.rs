//! The run deduplicator: tracks which record identities have been emitted in
//! the current run, across all categories, and suppresses repeats.

use vstd::prelude::*;

use crate::idset::IdentitySet;
use crate::model::{CreatorSummary, RecordModel};

verus! {

/// What accepting one identity does: reports whether the identity is novel, and adds
/// it to the seen set.
pub open spec fn accept_spec(seen: Set<Seq<char>>, x: Seq<char>) -> (bool, Set<Seq<char>>) {
    (!seen.contains(x), seen.insert(x))
}

/// The seen set after accepting a sequence of identities in order.
pub open spec fn accept_all(seen: Set<Seq<char>>, xs: Seq<Seq<char>>) -> Set<Seq<char>>
    decreases xs.len(),
{
    if xs.len() == 0 {
        seen
    } else {
        accept_all(seen.insert(xs[0]), xs.drop_first())
    }
}

/// The records that survive filtering against a seen set, in order: a record
/// passes iff its identity was not seen before it, and passing records mark
/// their identity seen for everything after them.
pub open spec fn dedup_filter(seen: Set<Seq<char>>, rs: Seq<RecordModel>) -> Seq<RecordModel>
    decreases rs.len(),
{
    if rs.len() == 0 {
        Seq::empty()
    } else if seen.contains(rs[0].url) {
        dedup_filter(seen, rs.drop_first())
    } else {
        seq![rs[0]] + dedup_filter(seen.insert(rs[0].url), rs.drop_first())
    }
}

/// The seen set after filtering a record sequence.
pub open spec fn seen_after(seen: Set<Seq<char>>, rs: Seq<RecordModel>) -> Set<Seq<char>>
    decreases rs.len(),
{
    if rs.len() == 0 {
        seen
    } else {
        seen_after(seen.insert(rs[0].url), rs.drop_first())
    }
}

/// Run-scoped deduplication by record identity.
pub struct Deduplicator {
    seen: IdentitySet,
}

impl View for Deduplicator {
    type V = Set<Seq<char>>;

    closed spec fn view(&self) -> Set<Seq<char>> {
        self.seen@
    }
}

impl Deduplicator {
    pub fn new() -> (s: Self)
        ensures
            s@ == Set::<Seq<char>>::empty(),
    {
        Deduplicator { seen: IdentitySet::new() }
    }

    /// True exactly when `identity` has not been accepted before in this
    /// run; afterwards the identity counts as seen either way.
    pub fn accept(&mut self, identity: &String) -> (r: bool)
        ensures
            r == accept_spec(old(self)@, identity@).0,
            final(self)@ == accept_spec(old(self)@, identity@).1,
    {
        if self.seen.contains(identity) {
            proof {
                assert(self.seen@.insert(identity@) =~= self.seen@);
            }
            false
        } else {
            self.seen.insert(identity.clone());
            true
        }
    }

    /// Filter a batch of records in order, keeping each record whose
    /// identity is novel at its position and marking it seen.
    pub fn filter_new(&mut self, records: Vec<CreatorSummary>) -> (fresh: Vec<CreatorSummary>)
        ensures
            fresh.deep_view() == dedup_filter(old(self)@, records.deep_view()),
            final(self)@ == seen_after(old(self)@, records.deep_view()),
    {
        let ghost all = records.deep_view();
        let ghost seen0 = self@;
        let mut rest = records;
        let mut fresh: Vec<CreatorSummary> = Vec::new();
        proof {
            assert(fresh.deep_view() + dedup_filter(self@, rest.deep_view()) =~= dedup_filter(
                seen0,
                all,
            ));
        }
        while rest.len() > 0
            invariant
                dedup_filter(seen0, all) == fresh.deep_view() + dedup_filter(
                    self@,
                    rest.deep_view(),
                ),
                seen_after(seen0, all) == seen_after(self@, rest.deep_view()),
            decreases rest.len(),
        {
            let ghost rv = rest.deep_view();
            let ghost cur = self@;
            let r = rest.remove(0);
            proof {
                assert(rest.deep_view() =~= rv.drop_first());
                assert(r@ == rv[0]);
            }
            let novel = self.accept(&r.url);
            if novel {
                let ghost fv = fresh.deep_view();
                fresh.push(r);
                proof {
                    assert(fresh.deep_view() =~= fv.push(rv[0]));
                    assert(fv + (seq![rv[0]] + dedup_filter(cur.insert(rv[0].url), rv.drop_first()))
                        =~= fv.push(rv[0]) + dedup_filter(cur.insert(rv[0].url), rv.drop_first()));
                }
            } else {
                proof {
                    assert(cur.insert(rv[0].url) =~= cur);
                }
            }
        }
        proof {
            assert(dedup_filter(self@, rest.deep_view()) =~= Seq::<RecordModel>::empty());
            assert(fresh.deep_view() + Seq::<RecordModel>::empty() =~= fresh.deep_view());
        }
        fresh
    }
}

/// An identity once seen stays seen through any later acceptances.
pub proof fn lemma_accept_all_keeps(seen: Set<Seq<char>>, xs: Seq<Seq<char>>, x: Seq<char>)
    requires
        seen.contains(x),
    ensures
        accept_all(seen, xs).contains(x),
    decreases xs.len(),
{
    if xs.len() > 0 {
        lemma_accept_all_keeps(seen.insert(xs[0]), xs.drop_first(), x);
    }
}

/// Within one run, an identity is accepted at most once: the first call for
/// `x` reports novelty exactly when `x` is unseen, and after it every later
/// call for `x` — whatever other identities come between — reports false.
pub proof fn lemma_accept_once(seen: Set<Seq<char>>, x: Seq<char>, later: Seq<Seq<char>>)
    ensures
        accept_spec(seen, x).0 == !seen.contains(x),
        !accept_spec(accept_all(accept_spec(seen, x).1, later), x).0,
{
    lemma_accept_all_keeps(seen.insert(x), later, x);
}

/// Every record that survives filtering was unseen when the batch began.
pub proof fn lemma_filtered_fresh(seen: Set<Seq<char>>, rs: Seq<RecordModel>, k: int)
    requires
        0 <= k < dedup_filter(seen, rs).len(),
    ensures
        !seen.contains(dedup_filter(seen, rs)[k].url),
    decreases rs.len(),
{
    if rs.len() > 0 {
        if seen.contains(rs[0].url) {
            lemma_filtered_fresh(seen, rs.drop_first(), k);
        } else {
            if k > 0 {
                lemma_filtered_fresh(seen.insert(rs[0].url), rs.drop_first(), k - 1);
            }
        }
    }
}

/// After filtering, no identity appears twice in the output: a creator
/// extracted more than once in a run — featured and general, or across
/// categories — is emitted at most once.
pub proof fn lemma_filtered_distinct(seen: Set<Seq<char>>, rs: Seq<RecordModel>, i: int, j: int)
    requires
        0 <= i < j < dedup_filter(seen, rs).len(),
    ensures
        dedup_filter(seen, rs)[i].url != dedup_filter(seen, rs)[j].url,
    decreases rs.len(),
{
    if rs.len() > 0 {
        if seen.contains(rs[0].url) {
            lemma_filtered_distinct(seen, rs.drop_first(), i, j);
        } else {
            if i == 0 {
                lemma_filtered_fresh(seen.insert(rs[0].url), rs.drop_first(), j - 1);
            } else {
                lemma_filtered_distinct(seen.insert(rs[0].url), rs.drop_first(), i - 1, j - 1);
            }
        }
    }
}

} // verus!
