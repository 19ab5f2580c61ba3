//! The leaf model: a fixed sequence of values, sampled by index.
//!
//! A peeking session draws distinct positions of the full sequence without
//! mutating it; a taking session owns a private, shrinkable copy of
//! references into the sequence and removes a slot per draw by swapping it
//! with the last occupied slot.

use vstd::prelude::*;

use crate::rng::Rand;
use crate::Urne;
use crate::UrneModel;

verus! {

/// `items` are `idxs.len()` entries of `list` read off at mutually distinct
/// positions: the sense in which a draw returns distinct elements "from the
/// original sequence".
pub open spec fn distinct_indices_into<T>(idxs: Seq<int>, list: Seq<T>, items: Seq<&T>) -> bool {
    &&& idxs.no_duplicates()
    &&& idxs.len() == items.len()
    &&& forall|k: int| 0 <= k < idxs.len() ==> 0 <= #[trigger] idxs[k] < list.len()
    &&& forall|k: int| 0 <= k < idxs.len() ==> *(#[trigger] items[k]) == list[idxs[k]]
}

/// `items` can be read off `list` at some choice of mutually distinct
/// positions.
pub open spec fn peeking_drawn<T>(list: Seq<T>, items: Seq<&T>) -> bool {
    exists|idxs: Seq<int>| distinct_indices_into(idxs, list, items)
}

/// Swap-removal at position `i` takes exactly one occurrence of `s[i]` out
/// of the sequence's multiset.
proof fn lemma_swap_remove_multiset<A>(s: Seq<A>, i: int)
    requires
        0 <= i < s.len(),
    ensures
        s.update(i, s.last()).drop_last().to_multiset() == s.to_multiset().remove(s[i]),
{
    broadcast use vstd::seq_lib::group_to_multiset_ensures;
    broadcast use vstd::multiset::group_multiset_axioms;

    let n = s.len() as int;
    if i == n - 1 {
        assert(s.update(i, s.last()) =~= s);
        assert(s.drop_last() =~= s.remove(n - 1));
    } else {
        let t = s.update(i, s.last());
        assert(t.drop_last() =~= t.remove(n - 1));
        assert(t.remove(n - 1).to_multiset() =~= t.to_multiset().remove(t[n - 1]));
        assert(t[n - 1] == s.last());
        assert(s.to_multiset().insert(s.last()).remove(s[i]).remove(s.last()) =~= s.to_multiset()
            .remove(s[i]));
    }
}

/// Items taken out of a duplicate-free population are pairwise distinct.
pub proof fn lemma_taken_no_duplicates<A>(pre: Seq<A>, post: Seq<A>, items: Seq<A>)
    requires
        pre.no_duplicates(),
        post.to_multiset().add(items.to_multiset()) == pre.to_multiset(),
    ensures
        items.no_duplicates(),
{
    broadcast use vstd::seq_lib::group_to_multiset_ensures;
    broadcast use vstd::multiset::group_multiset_axioms;

    pre.lemma_multiset_has_no_duplicates();
    assert forall|x: A| items.to_multiset().contains(x) implies items.to_multiset().count(x)
        == 1 by {
        assert(pre.to_multiset().count(x) == post.to_multiset().count(x) + items.to_multiset()
            .count(x));
        assert(pre.to_multiset().contains(x));
    }
    items.lemma_multiset_has_no_duplicates_conv();
}

/// Law: a draw from a non-consuming list session leaves the session as it
/// was, and every item handed out is an entry of the underlying sequence;
/// the positions read are mutually distinct by [`PeekingList::yields`].
pub proof fn lemma_peeking_draw_from_list<T>(
    pre: PeekingList<T>,
    post: PeekingList<T>,
    items: Seq<&T>,
)
    requires
        PeekingList::yields(pre, post, items),
    ensures
        post == pre,
        forall|k: int| 0 <= k < items.len() ==> pre.list@.contains(*(#[trigger] items[k])),
{
    assert(peeking_drawn(pre.list@, items));
    let idxs = choose|idxs: Seq<int>| distinct_indices_into(idxs, pre.list@, items);
    assert forall|k: int| 0 <= k < items.len() implies pre.list@.contains(
        *(#[trigger] items[k]),
    ) by {
        assert(pre.list@[idxs[k]] == *items[k]);
    }
}

/// Law: a consuming session over pairwise-distinct values never hands the
/// same element out twice within a draw, and everything handed out stems
/// from the population the session started with.
pub proof fn lemma_taking_draw_distinct<T>(pre: TakingList<T>, post: TakingList<T>, items: Seq<T>)
    requires
        pre.list@.no_duplicates(),
        TakingList::yields(pre, post, items),
    ensures
        items.no_duplicates(),
        forall|k: int| 0 <= k < items.len() ==> pre.list@.contains(#[trigger] items[k]),
{
    broadcast use vstd::seq_lib::group_to_multiset_ensures;
    broadcast use vstd::multiset::group_multiset_axioms;

    lemma_taken_no_duplicates(pre.list@, post.list@, items);
    assert forall|k: int| 0 <= k < items.len() implies pre.list@.contains(
        #[trigger] items[k],
    ) by {
        assert(items.contains(items[k]));
        assert(items.to_multiset().count(items[k]) > 0);
        assert(pre.list@.to_multiset().count(items[k]) == post.list@.to_multiset().count(items[k])
            + items.to_multiset().count(items[k]));
    }
}

/// Law: across two successive draws of one consuming session over
/// pairwise-distinct values, the second draw cannot hand out any element
/// the first draw already removed.
pub proof fn lemma_taking_successive_draws_disjoint<T>(
    s0: TakingList<T>,
    s1: TakingList<T>,
    s2: TakingList<T>,
    items1: Seq<T>,
    items2: Seq<T>,
)
    requires
        s0.list@.no_duplicates(),
        TakingList::yields(s0, s1, items1),
        TakingList::yields(s1, s2, items2),
    ensures
        forall|i: int, j: int|
            0 <= i < items1.len() && 0 <= j < items2.len() ==> items1[i] != items2[j],
{
    broadcast use vstd::seq_lib::group_to_multiset_ensures;
    broadcast use vstd::multiset::group_multiset_axioms;

    s0.list@.lemma_multiset_has_no_duplicates();
    assert forall|i: int, j: int|
        0 <= i < items1.len() && 0 <= j < items2.len() implies items1[i] != items2[j] by {
        let x = items1[i];
        assert(items1.contains(x));
        assert(items1.to_multiset().count(x) > 0);
        assert(s0.list@.to_multiset().count(x) == s1.list@.to_multiset().count(x)
            + items1.to_multiset().count(x));
        assert(s0.list@.to_multiset().contains(x));
        assert(s0.list@.to_multiset().count(x) == 1);
        assert(s1.list@.to_multiset().count(x) == 0);
        assert(s1.list@.to_multiset().count(x) == s2.list@.to_multiset().count(x)
            + items2.to_multiset().count(x));
        if items1[i] == items2[j] {
            assert(items2.contains(items2[j]));
            assert(items2.to_multiset().count(x) > 0);
        }
    }
}

/// Returns `amount` indices for drawing from a list of `length` items, each
/// index aimed at a list that already shrank by the removals before it: the
/// k-th index is uniform over the `length - k` slots remaining at that point,
/// so the whole batch costs one random draw per item.
fn sample_removable_index(rng: &mut Rand, length: usize, amount: usize) -> (r: Vec<usize>)
    requires
        amount <= length,
    ensures
        r@.len() == amount as int,
        forall|k: int| 0 <= k < amount ==> (#[trigger] r@[k]) < length - k,
{
    let mut indices: Vec<usize> = Vec::new();
    let mut k: usize = 0;
    while k < amount
        invariant
            k <= amount <= length,
            indices@.len() == k as int,
            forall|j: int| 0 <= j < k ==> (#[trigger] indices@[j]) < length - j,
        decreases amount - k,
    {
        let limit = length - 1 - k;
        let i = rng.uniform(0, limit);
        indices.push(i);
        k += 1;
    }
    indices
}

/// Removes `amount` slots of `list` uniformly at random, each by swapping
/// with the then-last slot, and returns the removed values in draw order.
pub(crate) fn take_many<T>(list: &mut Vec<T>, rng: &mut Rand, amount: usize) -> (r: Vec<T>)
    requires
        amount <= old(list)@.len(),
    ensures
        r@.len() == amount as int,
        final(list)@.len() == old(list)@.len() - amount,
        final(list)@.to_multiset().add(r@.to_multiset()) == old(list)@.to_multiset(),
{
    broadcast use vstd::seq_lib::group_to_multiset_ensures;
    broadcast use vstd::multiset::group_multiset_axioms;

    let ghost start = list@;
    let length = list.len();
    let idxs = sample_removable_index(rng, length, amount);
    let mut out: Vec<T> = Vec::new();
    let mut k: usize = 0;
    proof {
        assert(list@.to_multiset().add(out@.to_multiset()) =~= start.to_multiset());
    }
    while k < amount
        invariant
            k <= amount,
            idxs@.len() == amount as int,
            forall|j: int| 0 <= j < amount ==> (#[trigger] idxs@[j]) < length - j,
            list@.len() == length - k,
            amount <= length,
            out@.len() == k as int,
            list@.to_multiset().add(out@.to_multiset()) == start.to_multiset(),
        decreases amount - k,
    {
        broadcast use vstd::seq_lib::group_to_multiset_ensures;
        broadcast use vstd::multiset::group_multiset_axioms;

        let ghost before = list@;
        let ghost out_before = out@;
        let i = idxs[k];
        let x = list.swap_remove(i);
        out.push(x);
        proof {
            lemma_swap_remove_multiset(before, i as int);
            assert(out@ == out_before.push(x));
            assert(before.to_multiset().contains(x));
            assert(list@.to_multiset().add(out@.to_multiset()) =~= before.to_multiset().add(
                out_before.to_multiset(),
            ));
        }
        k += 1;
    }
    out
}

/// The leaf model: wraps a fixed sequence of values.
pub struct List<T> {
    pub list: Vec<T>,
}

impl<T> List<T> {
    pub fn new(list: Vec<T>) -> (r: List<T>)
        ensures
            r.list == list,
    {
        List { list }
    }
}

impl<'a, T: 'a> UrneModel<'a> for List<T> {
    type Item = &'a T;

    type Peeking = PeekingList<'a, T>;

    type Taking = TakingList<&'a T>;

    open spec fn inv(&self) -> bool {
        true
    }

    open spec fn spec_size(&self) -> int {
        self.list@.len() as int
    }

    open spec fn peeked(&'a self, p: PeekingList<'a, T>) -> bool {
        p.list@ == self.list@
    }

    open spec fn taken(&'a self, t: TakingList<&'a T>) -> bool {
        &&& t.list@.len() == self.list@.len()
        &&& forall|j: int| 0 <= j < t.list@.len() ==> *(#[trigger] t.list@[j]) == self.list@[j]
    }

    fn size(&'a self) -> (r: usize)
        ensures
            r == self.list@.len(),
    {
        self.list.len()
    }

    fn peeking(&'a self) -> (p: PeekingList<'a, T>)
        ensures
            p.list@ == self.list@,
    {
        PeekingList { list: &self.list }
    }

    fn taking(&'a self) -> (t: TakingList<&'a T>)
        ensures
            t.list@.len() == self.list@.len(),
            forall|j: int| 0 <= j < t.list@.len() ==> *(#[trigger] t.list@[j]) == self.list@[j],
    {
        let mut copy: Vec<&'a T> = Vec::new();
        let n = self.list.len();
        let mut i: usize = 0;
        while i < n
            invariant
                i <= n,
                n == self.list@.len(),
                copy@.len() == i as int,
                forall|j: int| 0 <= j < i ==> *(#[trigger] copy@[j]) == self.list@[j],
            decreases n - i,
        {
            copy.push(&self.list[i]);
            i += 1;
        }
        TakingList { list: copy }
    }
}

/// A non-consuming session over a list: it borrows the sequence read-only
/// for its whole lifetime and samples positions without replacement per
/// draw, so separate sessions are statistically independent.
pub struct PeekingList<'a, T> {
    pub list: &'a Vec<T>,
}

impl<'a, T> Urne for PeekingList<'a, T> {
    type Item = &'a T;

    open spec fn inv(&self) -> bool {
        true
    }

    open spec fn spec_size(&self) -> int {
        self.list@.len() as int
    }

    open spec fn consuming(&self) -> bool {
        false
    }

    open spec fn yields(pre: Self, post: Self, items: Seq<&'a T>) -> bool {
        &&& post == pre
        &&& peeking_drawn(pre.list@, items)
    }

    proof fn lemma_well_formed(u: Self) {
        assert(distinct_indices_into(Seq::<int>::empty(), u.list@, Seq::<&'a T>::empty()));
    }

    fn size(&self) -> (r: usize)
        ensures
            r == self.list@.len(),
    {
        self.list.len()
    }

    /// Reads one uniformly random position without mutating anything.
    fn choose_one(&mut self, rng: &mut Rand) -> (r: Option<&'a T>)
        ensures
            *final(self) == *old(self),
            r matches Some(x) ==> old(self).list@.contains(*x),
    {
        let list: &'a Vec<T> = self.list;
        if list.len() == 0 {
            None
        } else {
            let i = rng.uniform(0, list.len() - 1);
            let picked: &'a T = &list[i];
            proof {
                assert(distinct_indices_into(seq![i as int], old(self).list@, seq![picked]));
                assert(peeking_drawn(old(self).list@, seq![picked]));
            }
            Some(picked)
        }
    }

    /// Draws `amount` distinct positions of the full-length sequence
    /// without mutating anything.
    fn choose_multiple(&mut self, rng: &mut Rand, amount: usize) -> (r: Option<Vec<&'a T>>)
        ensures
            *final(self) == *old(self),
            r matches Some(v) ==> peeking_drawn(old(self).list@, v@),
    {
        let list: &'a Vec<T> = self.list;
        let n = list.len();
        if amount > n {
            return None;
        }
        // Sample `amount` distinct positions by consuming a scratch list of
        // all positions.
        let mut scratch: Vec<usize> = Vec::new();
        let mut i: usize = 0;
        while i < n
            invariant
                i <= n,
                scratch@.len() == i as int,
                forall|j: int| 0 <= j < i ==> (#[trigger] scratch@[j]) == j,
            decreases n - i,
        {
            scratch.push(i);
            i += 1;
        }
        let ghost positions = scratch@;
        let picked = take_many(&mut scratch, rng, amount);
        proof {
            broadcast use vstd::seq_lib::group_to_multiset_ensures;

            assert(positions.no_duplicates());
            lemma_taken_no_duplicates(positions, scratch@, picked@);
            assert forall|k: int| 0 <= k < amount implies (#[trigger] picked@[k]) < n by {
                assert(picked@.to_multiset().contains(picked@[k]));
                assert(positions.to_multiset().count(picked@[k]) == scratch@.to_multiset().count(
                    picked@[k],
                ) + picked@.to_multiset().count(picked@[k]));
                assert(positions.contains(picked@[k]));
            }
        }
        let mut out: Vec<&'a T> = Vec::new();
        let mut k: usize = 0;
        while k < amount
            invariant
                k <= amount,
                picked@.len() == amount as int,
                forall|j: int| 0 <= j < amount ==> (#[trigger] picked@[j]) < n,
                n == list@.len(),
                out@.len() == k as int,
                forall|j: int| 0 <= j < k ==> *(#[trigger] out@[j]) == list@[picked@[j] as int],
            decreases amount - k,
        {
            let i = picked[k];
            out.push(&list[i]);
            k += 1;
        }
        proof {
            let idxs = picked@.map_values(|u: usize| u as int);
            assert forall|a: int, b: int|
                0 <= a < idxs.len() && 0 <= b < idxs.len() && a != b implies idxs[a] != idxs[b] by {
                assert(picked@[a] != picked@[b]);
            }
            assert(distinct_indices_into(idxs, old(self).list@, out@));
            assert(peeking_drawn(old(self).list@, out@));
        }
        Some(out)
    }
}

/// A consuming session: owns a private, shrinkable copy of the population
/// and permanently removes each drawn slot (order of the remaining slots is
/// not preserved).
pub struct TakingList<T> {
    pub list: Vec<T>,
}

impl<T> Urne for TakingList<T> {
    type Item = T;

    open spec fn inv(&self) -> bool {
        true
    }

    open spec fn spec_size(&self) -> int {
        self.list@.len() as int
    }

    open spec fn consuming(&self) -> bool {
        true
    }

    open spec fn yields(pre: Self, post: Self, items: Seq<T>) -> bool {
        post.list@.to_multiset().add(items.to_multiset()) == pre.list@.to_multiset()
    }

    fn size(&self) -> (r: usize)
        ensures
            r == self.list@.len(),
    {
        self.list.len()
    }

    proof fn lemma_well_formed(u: Self) {
        broadcast use vstd::seq_lib::group_to_multiset_ensures;
        broadcast use vstd::multiset::group_multiset_axioms;

        assert(forall|x: T| !Seq::<T>::empty().contains(x));
        assert(u.list@.to_multiset().add(Seq::<T>::empty().to_multiset()) =~= u.list@
            .to_multiset());
    }

    /// Picks a uniformly random occupied slot, swaps it with the last one
    /// and shrinks by one.
    fn choose_one(&mut self, rng: &mut Rand) -> (r: Option<T>)
        ensures
            r matches Some(x) ==> final(self).list@.len() == old(self).list@.len() - 1
                && final(self).list@.to_multiset().insert(x) == old(self).list@.to_multiset(),
    {
        broadcast use vstd::seq_lib::group_to_multiset_ensures;
        broadcast use vstd::multiset::group_multiset_axioms;

        if self.list.len() == 0 {
            None
        } else {
            let ghost before = self.list@;
            let i = rng.uniform(0, self.list.len() - 1);
            let x = self.list.swap_remove(i);
            proof {
                lemma_swap_remove_multiset(before, i as int);
                assert(Seq::<T>::empty().push(x) =~= seq![x]);
                assert(before.to_multiset().contains(x));
                assert(self.list@.to_multiset().add(seq![x].to_multiset())
                    =~= before.to_multiset());
                assert(self.list@.to_multiset().insert(x) =~= self.list@.to_multiset().add(
                    seq![x].to_multiset(),
                ));
            }
            Some(x)
        }
    }

    /// Draws the whole batch with one random index per item, each index
    /// aimed at the logically shrinking list.
    fn choose_multiple(&mut self, rng: &mut Rand, amount: usize) -> (r: Option<Vec<T>>)
        ensures
            r is None ==> *final(self) == *old(self),
            r matches Some(v) ==> final(self).list@.len() == old(self).list@.len() - amount
                && final(self).list@.to_multiset().add(v@.to_multiset()) == old(
                self,
            ).list@.to_multiset(),
    {
        if amount > self.list.len() {
            None
        } else {
            let drawn = take_many(&mut self.list, rng, amount);
            Some(drawn)
        }
    }
}

} // verus!
