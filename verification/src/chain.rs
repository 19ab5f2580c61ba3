//! The weighted union combinator: a population that is the disjoint union
//! of two child populations, with each draw routed to one side by a
//! weighted coin flip and falling back to the other side when the chosen
//! side is empty.
//!
//! A batched draw first fixes one coin flip per requested item, then — when
//! the flips ask a side for more items than it holds — rebalances by
//! flipping the excess requests, chosen uniformly among the overcommitted
//! side's tags, towards the side with spare capacity. Only then is each
//! side asked once for its whole share, and the two shares are interleaved
//! back into the original tag order.

use vstd::pervasive::VecAdditionalExecFns;
use vstd::prelude::*;

use crate::list::take_many;
use crate::rng::Rand;
use crate::Urne;
use crate::UrneModel;

verus! {

/// A value drawn from one of the two sides of a [`Chain`].
#[derive(Debug, PartialEq, Eq)]
pub enum Either<A, B> {
    Left(A),
    Right(B),
}

/// Number of `true` entries in a sequence of tags.
pub open spec fn count_true(s: Seq<bool>) -> int
    decreases s.len(),
{
    if s.len() == 0 {
        0
    } else {
        count_true(s.drop_last()) + if s.last() {
            1int
        } else {
            0int
        }
    }
}

/// Number of entries equal to `v`.
pub open spec fn count_of(s: Seq<bool>, v: bool) -> int {
    if v {
        count_true(s)
    } else {
        s.len() - count_true(s)
    }
}

proof fn lemma_count_true_bounds(s: Seq<bool>)
    ensures
        0 <= count_true(s) <= s.len(),
    decreases s.len(),
{
    if s.len() > 0 {
        lemma_count_true_bounds(s.drop_last());
    }
}

proof fn lemma_count_true_singleton(b: bool)
    ensures
        count_true(seq![b]) == if b {
            1int
        } else {
            0int
        },
{
    let s = seq![b];
    assert(s.len() == 1);
    assert(s.last() == b);
    assert(s.drop_last() =~= Seq::<bool>::empty());
    assert(count_true(Seq::<bool>::empty()) == 0);
    assert(count_true(s) == count_true(s.drop_last()) + if s.last() {
        1int
    } else {
        0int
    });
}

proof fn lemma_count_true_take_step(s: Seq<bool>, k: int)
    requires
        0 <= k < s.len(),
    ensures
        count_true(s.take(k + 1)) == count_true(s.take(k)) + if s[k] {
            1int
        } else {
            0int
        },
{
    assert(s.take(k + 1).drop_last() =~= s.take(k));
    assert(s.take(k + 1).last() == s[k]);
}

/// The `true` entries of a prefix number at most those of the whole
/// sequence, and the difference fits in the remaining suffix.
proof fn lemma_count_true_take(s: Seq<bool>, k: int)
    requires
        0 <= k <= s.len(),
    ensures
        0 <= count_true(s.take(k)) <= k,
        count_true(s.take(k)) <= count_true(s),
        count_true(s) - count_true(s.take(k)) <= s.len() - k,
    decreases s.len(),
{
    lemma_count_true_bounds(s.take(k));
    if k == s.len() {
        assert(s.take(k) =~= s);
    } else {
        assert(s.take(k) =~= s.drop_last().take(k));
        lemma_count_true_take(s.drop_last(), k);
    }
}

proof fn lemma_count_true_update(s: Seq<bool>, i: int, b: bool)
    requires
        0 <= i < s.len(),
    ensures
        count_true(s.update(i, b)) == count_true(s) - (if s[i] {
            1int
        } else {
            0int
        }) + (if b {
            1int
        } else {
            0int
        }),
    decreases s.len(),
{
    if i == s.len() - 1 {
        assert(s.update(i, b).drop_last() =~= s.drop_last());
        assert(s.update(i, b).last() == b);
    } else {
        assert(s.update(i, b).drop_last() =~= s.drop_last().update(i, b));
        assert(s.update(i, b).last() == s.last());
        lemma_count_true_update(s.drop_last(), i, b);
        assert(s.drop_last()[i] == s[i]);
    }
}

/// Reverses a vector by moving its items.
fn reversed<T>(v: Vec<T>) -> (r: Vec<T>)
    ensures
        r@.len() == v@.len(),
        forall|j: int| 0 <= j < v@.len() ==> r@[j] == v@[v@.len() - 1 - j],
{
    let ghost start = v@;
    let mut rest = v;
    let mut out: Vec<T> = Vec::new();
    while rest.len() > 0
        invariant
            out@.len() + rest@.len() == start.len(),
            rest@ == start.take(rest@.len() as int),
            forall|j: int| 0 <= j < out@.len() ==> #[trigger] out@[j] == start[start.len() - 1 - j],
        decreases rest.len(),
    {
        let x = rest.pop().unwrap();
        out.push(x);
        proof {
            assert(rest@ =~= start.take(rest@.len() as int));
        }
    }
    out
}

/// Counts the `true` tags.
fn count_true_vec(v: &Vec<bool>) -> (c: usize)
    ensures
        c as int == count_true(v@),
        c <= v@.len(),
{
    let mut c: usize = 0;
    let mut i: usize = 0;
    while i < v.len()
        invariant
            i <= v@.len(),
            c as int == count_true(v@.take(i as int)),
            c <= i,
        decreases v@.len() - i,
    {
        proof {
            lemma_count_true_take_step(v@, i as int);
        }
        if v[i] {
            c += 1;
        }
        i += 1;
    }
    proof {
        assert(v@.take(v@.len() as int) =~= v@);
    }
    c
}

/// Flips `rm` tags of value `from`, chosen uniformly at random among all
/// tags of that value, to the opposite value.
fn flip_tags(dist: &mut Vec<bool>, rng: &mut Rand, rm: usize, from: bool)
    requires
        rm as int <= count_of(old(dist)@, from),
    ensures
        final(dist)@.len() == old(dist)@.len(),
        count_true(final(dist)@) == count_true(old(dist)@) + (if from {
            -(rm as int)
        } else {
            rm as int
        }),
{
    let n = dist.len();
    let mut pos: Vec<usize> = Vec::new();
    let mut i: usize = 0;
    while i < n
        invariant
            i <= n,
            n == dist@.len(),
            pos@.len() == count_of(dist@.take(i as int), from),
            forall|j: int| 0 <= j < pos@.len() ==> (#[trigger] pos@[j]) < i,
            forall|j1: int, j2: int| 0 <= j1 < j2 < pos@.len() ==> pos@[j1] < pos@[j2],
            forall|j: int| 0 <= j < pos@.len() ==> dist@[(#[trigger] pos@[j]) as int] == from,
        decreases n - i,
    {
        proof {
            lemma_count_true_take_step(dist@, i as int);
        }
        if dist[i] == from {
            pos.push(i);
        }
        i += 1;
    }
    proof {
        assert(dist@.take(n as int) =~= dist@);
        assert(pos@.no_duplicates());
    }
    let ghost pos0 = pos@;
    let chosen = take_many(&mut pos, rng, rm);
    proof {
        broadcast use vstd::seq_lib::group_to_multiset_ensures;

        crate::list::lemma_taken_no_duplicates(pos0, pos@, chosen@);
        assert forall|l: int| 0 <= l < rm implies (#[trigger] chosen@[l]) < n && dist@[chosen@[l] as int]
            == from by {
            assert(chosen@.to_multiset().contains(chosen@[l]));
            assert(pos0.to_multiset().count(chosen@[l]) == pos@.to_multiset().count(chosen@[l])
                + chosen@.to_multiset().count(chosen@[l]));
            assert(pos0.contains(chosen@[l]));
        }
    }
    let ghost dist0 = dist@;
    let mut j: usize = 0;
    while j < rm
        invariant
            j <= rm,
            dist@.len() == n,
            chosen@.len() == rm as int,
            chosen@.no_duplicates(),
            forall|l: int| 0 <= l < rm ==> (#[trigger] chosen@[l]) < n,
            forall|l: int| j <= l < rm ==> dist@[(#[trigger] chosen@[l]) as int] == from,
            count_true(dist@) == count_true(dist0) + (if from {
                -(j as int)
            } else {
                j as int
            }),
        decreases rm - j,
    {
        let p = chosen[j];
        let ghost before = dist@;
        dist.set(p, !from);
        proof {
            lemma_count_true_update(before, p as int, !from);
            assert forall|l: int| j + 1 <= l < rm implies dist@[(#[trigger] chosen@[l]) as int]
                == from by {
                assert(chosen@[l] != chosen@[j as int]);
            }
        }
        j += 1;
    }
}

/// The item handed to the adapter for position `k` of a tagged draw: the
/// next unused left item for a `true` tag, the next unused right item for a
/// `false` tag, in tag order.
pub open spec fn chain_pick<A, B>(tags: Seq<bool>, ra: Seq<A>, rb: Seq<B>, k: int) -> Either<
    A,
    B,
> {
    if tags[k] {
        Either::Left(ra[count_true(tags.take(k))])
    } else {
        Either::Right(rb[k - count_true(tags.take(k))])
    }
}

/// The draws of a [`ChainUrne`] decompose into a tag per result and one raw
/// item sequence per side, with each side asked for no more than it held:
/// the partition that rebalancing establishes before any item is drawn.
pub open spec fn chain_drawn<
    'a,
    UA: Urne,
    UB: Urne,
    F: Fn(Either<UA::Item, UB::Item>) -> Out,
    Out,
>(
    pre: ChainUrne<'a, UA, UB, F>,
    post: ChainUrne<'a, UA, UB, F>,
    items: Seq<Out>,
    tags: Seq<bool>,
    ra: Seq<UA::Item>,
    rb: Seq<UB::Item>,
) -> bool {
    &&& tags.len() == items.len()
    &&& ra.len() == count_true(tags)
    &&& ra.len() + rb.len() == tags.len()
    &&& ra.len() <= pre.urne_a.spec_size()
    &&& rb.len() <= pre.urne_b.spec_size()
    &&& UA::yields(pre.urne_a, post.urne_a, ra)
    &&& UB::yields(pre.urne_b, post.urne_b, rb)
    &&& forall|k: int|
        0 <= k < items.len() ==> call_ensures(
            *pre.fun,
            (chain_pick(tags, ra, rb, k),),
            #[trigger] items[k],
        )
}

/// A model describing the disjoint union of two child populations, with a
/// weight ratio that biases to which side a draw is routed.
pub struct Chain<ModelA, ModelB, Fun> {
    pub model_a: ModelA,
    pub model_b: ModelB,
    pub ratio_left: (u32, u32),
    pub adapter: Fun,
}

impl<ModelA, ModelB, Fun> Chain<ModelA, ModelB, Fun> {
    /// The stored ratio is `weigh_left` against the total weight, so a draw
    /// tries the left side with probability `weigh_left / (weigh_left +
    /// weigh_right)`.
    pub fn new(
        model_a: ModelA,
        model_b: ModelB,
        weigh_left: u32,
        weigh_right: u32,
        adapter: Fun,
    ) -> (r: Self)
        requires
            0 < weigh_left + weigh_right <= u32::MAX,
        ensures
            r.model_a == model_a,
            r.model_b == model_b,
            r.adapter == adapter,
            r.ratio_left.0 == weigh_left,
            r.ratio_left.1 == weigh_left + weigh_right,
    {
        Chain { model_a, model_b, ratio_left: (weigh_left, weigh_left + weigh_right), adapter }
    }
}

impl<'a, MA, MB, F, Out> UrneModel<'a> for Chain<MA, MB, F> where
    MA: UrneModel<'a> + 'a,
    MB: UrneModel<'a> + 'a,
    F: Fn(Either<MA::Item, MB::Item>) -> Out + 'a,
 {
    type Item = Out;

    type Peeking = ChainUrne<'a, MA::Peeking, MB::Peeking, F>;

    type Taking = ChainUrne<'a, MA::Taking, MB::Taking, F>;

    open spec fn inv(&self) -> bool {
        &&& self.model_a.inv()
        &&& self.model_b.inv()
        &&& 0 < self.ratio_left.1
        &&& self.ratio_left.0 <= self.ratio_left.1
        &&& self.model_a.spec_size() + self.model_b.spec_size() <= usize::MAX
        &&& forall|x: Either<MA::Item, MB::Item>| call_requires(self.adapter, (x,))
    }

    /// The union's population is the sum of the two sides.
    open spec fn spec_size(&self) -> int {
        self.model_a.spec_size() + self.model_b.spec_size()
    }

    open spec fn peeked(&'a self, p: ChainUrne<'a, MA::Peeking, MB::Peeking, F>) -> bool {
        &&& self.model_a.peeked(p.urne_a)
        &&& self.model_b.peeked(p.urne_b)
        &&& p.ratio_left == self.ratio_left
        &&& *p.fun == self.adapter
    }

    open spec fn taken(&'a self, t: ChainUrne<'a, MA::Taking, MB::Taking, F>) -> bool {
        &&& self.model_a.taken(t.urne_a)
        &&& self.model_b.taken(t.urne_b)
        &&& t.ratio_left == self.ratio_left
        &&& *t.fun == self.adapter
    }

    fn size(&'a self) -> (r: usize)
        ensures
            r as int == self.model_a.spec_size() + self.model_b.spec_size(),
    {
        self.model_a.size() + self.model_b.size()
    }

    fn peeking(&'a self) -> (p: ChainUrne<'a, MA::Peeking, MB::Peeking, F>)
        ensures
            self.model_a.peeked(p.urne_a),
            self.model_b.peeked(p.urne_b),
            p.ratio_left == self.ratio_left,
            *p.fun == self.adapter,
    {
        ChainUrne {
            urne_a: self.model_a.peeking(),
            urne_b: self.model_b.peeking(),
            ratio_left: self.ratio_left,
            fun: &self.adapter,
        }
    }

    fn taking(&'a self) -> (t: ChainUrne<'a, MA::Taking, MB::Taking, F>)
        ensures
            self.model_a.taken(t.urne_a),
            self.model_b.taken(t.urne_b),
            t.ratio_left == self.ratio_left,
            *t.fun == self.adapter,
    {
        ChainUrne {
            urne_a: self.model_a.taking(),
            urne_b: self.model_b.taking(),
            ratio_left: self.ratio_left,
            fun: &self.adapter,
        }
    }
}

/// A session over the union of two child sessions: per draw a weighted coin
/// picks a side, an empty side hands over to the other, and batched draws
/// rebalance the coin flips so that neither side is asked for more than it
/// holds.
pub struct ChainUrne<'a, UrneA, UrneB, Fun> {
    pub urne_a: UrneA,
    pub urne_b: UrneB,
    pub ratio_left: (u32, u32),
    pub fun: &'a Fun,
}

impl<'a, UA, UB, F, Out> Urne for ChainUrne<'a, UA, UB, F> where
    UA: Urne,
    UB: Urne,
    F: Fn(Either<UA::Item, UB::Item>) -> Out,
 {
    type Item = Out;

    open spec fn inv(&self) -> bool {
        &&& self.urne_a.inv()
        &&& self.urne_b.inv()
        &&& 0 < self.ratio_left.1
        &&& self.ratio_left.0 <= self.ratio_left.1
        &&& self.urne_a.spec_size() + self.urne_b.spec_size() <= usize::MAX
        &&& self.urne_a.consuming() == self.urne_b.consuming()
        &&& forall|x: Either<UA::Item, UB::Item>| call_requires(*self.fun, (x,))
    }

    open spec fn spec_size(&self) -> int {
        self.urne_a.spec_size() + self.urne_b.spec_size()
    }

    open spec fn consuming(&self) -> bool {
        self.urne_a.consuming()
    }

    /// The results partition by tag into items of the left and of the right
    /// side, drawn within the sides' capacities.
    open spec fn yields(pre: Self, post: Self, items: Seq<Out>) -> bool {
        &&& post.fun == pre.fun
        &&& post.ratio_left == pre.ratio_left
        &&& exists|tags: Seq<bool>, ra: Seq<UA::Item>, rb: Seq<UB::Item>|
            chain_drawn(pre, post, items, tags, ra, rb)
    }

    proof fn lemma_well_formed(u: Self) {
        UA::lemma_well_formed(u.urne_a);
        UB::lemma_well_formed(u.urne_b);
        assert(chain_drawn(
            u,
            u,
            Seq::<Out>::empty(),
            Seq::<bool>::empty(),
            Seq::<UA::Item>::empty(),
            Seq::<UB::Item>::empty(),
        ));
    }

    fn size(&self) -> (r: usize)
        ensures
            r as int == self.urne_a.spec_size() + self.urne_b.spec_size(),
    {
        self.urne_a.size() + self.urne_b.size()
    }

    /// Flips the weighted coin, tries the chosen side, and falls back to
    /// the other side when that side is empty.
    fn choose_one(&mut self, rng: &mut Rand) -> (r: Option<Out>)
        ensures
            final(self).fun == old(self).fun,
            final(self).ratio_left == old(self).ratio_left,
    {
        let take_left = rng.ratio(self.ratio_left.0, self.ratio_left.1);
        if take_left {
            let got_a = self.urne_a.choose_one(rng);
            match got_a {
                Some(a) => {
                    let y = (self.fun)(Either::Left(a));
                    proof {
                        Self::lemma_one_left(*old(self), *self, a, y);
                    }
                    Some(y)
                },
                None => {
                    let got_b = self.urne_b.choose_one(rng);
                    match got_b {
                        Some(b) => {
                            let y = (self.fun)(Either::Right(b));
                            proof {
                                Self::lemma_one_right(*old(self), *self, b, y);
                            }
                            Some(y)
                        },
                        None => None,
                    }
                },
            }
        } else {
            let got_b = self.urne_b.choose_one(rng);
            match got_b {
                Some(b) => {
                    let y = (self.fun)(Either::Right(b));
                    proof {
                        Self::lemma_one_right(*old(self), *self, b, y);
                    }
                    Some(y)
                },
                None => {
                    let got_a = self.urne_a.choose_one(rng);
                    match got_a {
                        Some(a) => {
                            let y = (self.fun)(Either::Left(a));
                            proof {
                                Self::lemma_one_left(*old(self), *self, a, y);
                            }
                            Some(y)
                        },
                        None => None,
                    }
                },
            }
        }
    }

    /// Fixes one coin flip per item, rebalances overcommitted flips to the
    /// side with spare capacity, draws each side's share in one batched
    /// call, and interleaves the shares back into tag order.
    fn choose_multiple(&mut self, rng: &mut Rand, amount: usize) -> (r: Option<Vec<Out>>)
        ensures
            final(self).fun == old(self).fun,
            final(self).ratio_left == old(self).ratio_left,
    {
        let sa = self.urne_a.size();
        let sb = self.urne_b.size();
        // Feasibility is decided up front: a failed draw must not have
        // consumed from either side.
        if amount > sa + sb {
            return None;
        }
        // One independent weighted coin flip per requested item.
        let mut dist: Vec<bool> = Vec::new();
        let mut k: usize = 0;
        while k < amount
            invariant
                k <= amount,
                dist@.len() == k as int,
                0 < self.ratio_left.1,
                self.ratio_left.0 <= self.ratio_left.1,
            decreases amount - k,
        {
            let flip = rng.ratio(self.ratio_left.0, self.ratio_left.1);
            dist.push(flip);
            k += 1;
        }
        let left_amt = count_true_vec(&dist);
        proof {
            lemma_count_true_bounds(dist@);
        }
        // Rebalancing: if the flips overcommit one side, move the excess
        // requests to the other side. At most one side can be short, since
        // the total fits in the union.
        if left_amt > sa {
            let rm = left_amt - sa;
            flip_tags(&mut dist, rng, rm, true);
        } else if amount - left_amt > sb {
            let rm = (amount - left_amt) - sb;
            flip_tags(&mut dist, rng, rm, false);
        }
        // After rebalancing both shares must fit; draw each side's share in
        // one batched call.
        let left_final = count_true_vec(&dist);
        let right_final = amount - left_final;
        let va = self.urne_a.choose_multiple(rng, left_final).unwrap();
        let vb = self.urne_b.choose_multiple(rng, right_final).unwrap();
        let ghost tags = dist@;
        let ghost ra = va@;
        let ghost rb = vb@;
        // Interleave the two shares back into tag order.
        let mut rev_a = reversed(va);
        let mut rev_b = reversed(vb);
        let mut out: Vec<Out> = Vec::new();
        let mut ia: usize = 0;
        let mut ib: usize = 0;
        let mut k: usize = 0;
        while k < amount
            invariant
                k <= amount,
                tags.len() == amount as int,
                ra.len() == count_true(tags),
                ra.len() + rb.len() == amount as int,
                ia as int == count_true(tags.take(k as int)),
                ia + ib == k,
                ia + rev_a@.len() == ra.len(),
                ib + rev_b@.len() == rb.len(),
                forall|j: int|
                    0 <= j < rev_a@.len() ==> #[trigger] rev_a@[j] == ra[ra.len() - 1 - j],
                forall|j: int|
                    0 <= j < rev_b@.len() ==> #[trigger] rev_b@[j] == rb[rb.len() - 1 - j],
                out@.len() == k as int,
                dist@ == tags,
                forall|x: Either<UA::Item, UB::Item>| call_requires(*self.fun, (x,)),
                forall|t: int|
                    0 <= t < k ==> call_ensures(
                        *self.fun,
                        (chain_pick(tags, ra, rb, t),),
                        #[trigger] out@[t],
                    ),
            decreases amount - k,
        {
            proof {
                lemma_count_true_take_step(tags, k as int);
                lemma_count_true_take(tags, k as int);
                lemma_count_true_take(tags, k as int + 1);
            }
            let tag = dist[k];
            if tag {
                let x = rev_a.pop().unwrap();
                proof {
                    assert(x == ra[ia as int]);
                }
                let y = (self.fun)(Either::Left(x));
                out.push(y);
                ia += 1;
            } else {
                let x = rev_b.pop().unwrap();
                proof {
                    assert(x == rb[ib as int]);
                }
                let y = (self.fun)(Either::Right(x));
                out.push(y);
                ib += 1;
            }
            k += 1;
        }
        proof {
            assert(tags.take(amount as int) =~= tags);
            assert(chain_drawn(*old(self), *self, out@, tags, ra, rb));
        }
        Some(out)
    }
}

impl<'a, UA, UB, F, Out> ChainUrne<'a, UA, UB, F> where
    UA: Urne,
    UB: Urne,
    F: Fn(Either<UA::Item, UB::Item>) -> Out,
 {
    /// A single draw that took `a` from the left side is a one-item draw of
    /// the whole union.
    proof fn lemma_one_left(pre: Self, post: Self, a: UA::Item, y: Out)
        requires
            pre.urne_b.inv(),
            post.urne_b == pre.urne_b,
            post.fun == pre.fun,
            post.ratio_left == pre.ratio_left,
            pre.urne_a.spec_size() >= 1,
            UA::yields(pre.urne_a, post.urne_a, seq![a]),
            call_ensures(*pre.fun, (Either::Left(a),), y),
        ensures
            Self::yields(pre, post, seq![y]),
    {
        UB::lemma_well_formed(pre.urne_b);
        let tags = seq![true];
        let ra = seq![a];
        let rb = Seq::<UB::Item>::empty();
        lemma_count_true_singleton(true);
        assert(tags.take(0) =~= Seq::<bool>::empty());
        assert forall|k: int| 0 <= k < seq![y].len() implies call_ensures(
            *pre.fun,
            (chain_pick(tags, ra, rb, k),),
            #[trigger] seq![y][k],
        ) by {
            assert(chain_pick(tags, ra, rb, 0) == Either::<UA::Item, UB::Item>::Left(a));
            assert(seq![y][k] == y);
        }
        assert(chain_drawn(pre, post, seq![y], tags, ra, rb));
    }

    /// A single draw that took `b` from the right side is a one-item draw
    /// of the whole union.
    proof fn lemma_one_right(pre: Self, post: Self, b: UB::Item, y: Out)
        requires
            pre.urne_a.inv(),
            post.urne_a == pre.urne_a,
            post.fun == pre.fun,
            post.ratio_left == pre.ratio_left,
            pre.urne_b.spec_size() >= 1,
            UB::yields(pre.urne_b, post.urne_b, seq![b]),
            call_ensures(*pre.fun, (Either::Right(b),), y),
        ensures
            Self::yields(pre, post, seq![y]),
    {
        UA::lemma_well_formed(pre.urne_a);
        let tags = seq![false];
        let ra = Seq::<UA::Item>::empty();
        let rb = seq![b];
        lemma_count_true_singleton(false);
        assert(tags.take(0) =~= Seq::<bool>::empty());
        assert forall|k: int| 0 <= k < seq![y].len() implies call_ensures(
            *pre.fun,
            (chain_pick(tags, ra, rb, k),),
            #[trigger] seq![y][k],
        ) by {
            assert(chain_pick(tags, ra, rb, 0) == Either::<UA::Item, UB::Item>::Right(b));
            assert(seq![y][k] == y);
        }
        assert(chain_drawn(pre, post, seq![y], tags, ra, rb));
    }
}

} // verus!
