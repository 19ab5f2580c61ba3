//! The pairing combinator: wraps two models and a combine function; each
//! draw takes one item from each side and combines them, so its size is the
//! minimum of the two children's sizes and a draw fails as soon as either
//! side cannot supply the full amount (no partial pair is ever built).

use vstd::prelude::*;

use crate::rng::Rand;
use crate::Urne;
use crate::UrneModel;

verus! {

/// The two children of a [`JoinUrne`] handed out the raw item sequences
/// `ra` and `rb`, one item per result, and the k-th result combines the two
/// k-th raw items.
pub open spec fn join_drawn<'a, UA: Urne, UB: Urne, F: Fn(UA::Item, UB::Item) -> Out, Out>(
    pre: JoinUrne<'a, UA, UB, F>,
    post: JoinUrne<'a, UA, UB, F>,
    items: Seq<Out>,
    ra: Seq<UA::Item>,
    rb: Seq<UB::Item>,
) -> bool {
    &&& UA::yields(pre.urne_a, post.urne_a, ra)
    &&& UB::yields(pre.urne_b, post.urne_b, rb)
    &&& ra.len() == items.len()
    &&& rb.len() == items.len()
    &&& forall|k: int|
        0 <= k < items.len() ==> call_ensures(*pre.fun, (ra[k], rb[k]), #[trigger] items[k])
}

/// A model pairing the populations of two child models.
pub struct Joiner<ModelA, ModelB, Fun> {
    pub model_a: ModelA,
    pub model_b: ModelB,
    pub adapter: Fun,
}

impl<ModelA, ModelB, Fun> Joiner<ModelA, ModelB, Fun> {
    pub fn new(model_a: ModelA, model_b: ModelB, adapter: Fun) -> (r: Self)
        ensures
            r.model_a == model_a,
            r.model_b == model_b,
            r.adapter == adapter,
    {
        Joiner { model_a, model_b, adapter }
    }
}

impl<'a, MA, MB, F, Out> UrneModel<'a> for Joiner<MA, MB, F> where
    MA: UrneModel<'a> + 'a,
    MB: UrneModel<'a> + 'a,
    F: Fn(MA::Item, MB::Item) -> Out + 'a,
 {
    type Item = Out;

    type Peeking = JoinUrne<'a, MA::Peeking, MB::Peeking, F>;

    type Taking = JoinUrne<'a, MA::Taking, MB::Taking, F>;

    open spec fn inv(&self) -> bool {
        &&& self.model_a.inv()
        &&& self.model_b.inv()
        &&& forall|a: MA::Item, b: MB::Item| call_requires(self.adapter, (a, b))
    }

    /// The effective population is the minimum of the two sides.
    open spec fn spec_size(&self) -> int {
        if self.model_a.spec_size() <= self.model_b.spec_size() {
            self.model_a.spec_size()
        } else {
            self.model_b.spec_size()
        }
    }

    open spec fn peeked(&'a self, p: JoinUrne<'a, MA::Peeking, MB::Peeking, F>) -> bool {
        &&& self.model_a.peeked(p.urne_a)
        &&& self.model_b.peeked(p.urne_b)
        &&& *p.fun == self.adapter
    }

    open spec fn taken(&'a self, t: JoinUrne<'a, MA::Taking, MB::Taking, F>) -> bool {
        &&& self.model_a.taken(t.urne_a)
        &&& self.model_b.taken(t.urne_b)
        &&& *t.fun == self.adapter
    }

    fn size(&'a self) -> (r: usize)
        ensures
            r as int == self.spec_size(),
    {
        let a = self.model_a.size();
        let b = self.model_b.size();
        if a <= b {
            a
        } else {
            b
        }
    }

    fn peeking(&'a self) -> (p: JoinUrne<'a, MA::Peeking, MB::Peeking, F>)
        ensures
            self.model_a.peeked(p.urne_a),
            self.model_b.peeked(p.urne_b),
            *p.fun == self.adapter,
    {
        JoinUrne {
            urne_a: self.model_a.peeking(),
            urne_b: self.model_b.peeking(),
            fun: &self.adapter,
        }
    }

    fn taking(&'a self) -> (t: JoinUrne<'a, MA::Taking, MB::Taking, F>)
        ensures
            self.model_a.taken(t.urne_a),
            self.model_b.taken(t.urne_b),
            *t.fun == self.adapter,
    {
        JoinUrne {
            urne_a: self.model_a.taking(),
            urne_b: self.model_b.taking(),
            fun: &self.adapter,
        }
    }
}

/// A session drawing pairwise from two child sessions: each returned item
/// combines the k-th item drawn from each side within the same call, so no
/// element of either side is used for two results of one draw.
pub struct JoinUrne<'a, UrneA, UrneB, Fun> {
    pub urne_a: UrneA,
    pub urne_b: UrneB,
    pub fun: &'a Fun,
}

impl<'a, UA, UB, F, Out> Urne for JoinUrne<'a, UA, UB, F> where
    UA: Urne,
    UB: Urne,
    F: Fn(UA::Item, UB::Item) -> Out,
 {
    type Item = Out;

    open spec fn inv(&self) -> bool {
        &&& self.urne_a.inv()
        &&& self.urne_b.inv()
        &&& self.urne_a.consuming() == self.urne_b.consuming()
        &&& forall|a: UA::Item, b: UB::Item| call_requires(*self.fun, (a, b))
    }

    open spec fn spec_size(&self) -> int {
        if self.urne_a.spec_size() <= self.urne_b.spec_size() {
            self.urne_a.spec_size()
        } else {
            self.urne_b.spec_size()
        }
    }

    open spec fn consuming(&self) -> bool {
        self.urne_a.consuming()
    }

    /// Both children handed out one item per result, and the k-th result
    /// combines the two k-th raw items.
    open spec fn yields(pre: Self, post: Self, items: Seq<Out>) -> bool {
        &&& post.fun == pre.fun
        &&& exists|ra: Seq<UA::Item>, rb: Seq<UB::Item>|
            join_drawn(pre, post, items, ra, rb)
    }

    proof fn lemma_well_formed(u: Self) {
        UA::lemma_well_formed(u.urne_a);
        UB::lemma_well_formed(u.urne_b);
        assert(join_drawn(
            u,
            u,
            Seq::<Out>::empty(),
            Seq::<UA::Item>::empty(),
            Seq::<UB::Item>::empty(),
        ));
    }

    fn size(&self) -> (r: usize)
        ensures
            r as int == self.spec_size(),
    {
        let a = self.urne_a.size();
        let b = self.urne_b.size();
        if a <= b {
            a
        } else {
            b
        }
    }

    /// Draws one item from each side, or nothing at all when either side is
    /// empty: no partial pair is ever built.
    fn choose_one(&mut self, rng: &mut Rand) -> (r: Option<Out>)
        ensures
            final(self).fun == old(self).fun,
    {
        let sa = self.urne_a.size();
        let sb = self.urne_b.size();
        if sa == 0 || sb == 0 {
            return None;
        }
        let a = self.urne_a.choose_one(rng).unwrap();
        let b = self.urne_b.choose_one(rng).unwrap();
        let y = (self.fun)(a, b);
        proof {
            let ra = seq![a];
            let rb = seq![b];
            assert forall|k: int| 0 <= k < seq![y].len() implies call_ensures(
                *old(self).fun,
                (ra[k], rb[k]),
                #[trigger] seq![y][k],
            ) by {
                assert(ra[k] == a && rb[k] == b && seq![y][k] == y);
            }
            assert(join_drawn(*old(self), *self, seq![y], ra, rb));
        }
        Some(y)
    }

    /// Requests `amount` from each side and pairs the results up by index.
    fn choose_multiple(&mut self, rng: &mut Rand, amount: usize) -> (r: Option<Vec<Out>>)
        ensures
            final(self).fun == old(self).fun,
    {
        let sa = self.urne_a.size();
        let sb = self.urne_b.size();
        // The feasibility of the whole draw is decided before either side
        // is touched: a failure must not consume from one side only.
        if amount > sa || amount > sb {
            return None;
        }
        let va = self.urne_a.choose_multiple(rng, amount).unwrap();
        let vb = self.urne_b.choose_multiple(rng, amount).unwrap();
        let ghost ra = va@;
        let ghost rb = vb@;
        let mut rest_a = va;
        let mut rest_b = vb;
        let mut stack: Vec<Out> = Vec::new();
        while rest_a.len() > 0
            invariant
                forall|a: UA::Item, b: UB::Item| call_requires(*self.fun, (a, b)),
                rest_a@.len() == rest_b@.len(),
                rest_a@ == ra.take(rest_a@.len() as int),
                rest_b@ == rb.take(rest_b@.len() as int),
                ra.len() == rb.len(),
                stack@.len() + rest_a@.len() == ra.len(),
                forall|j: int|
                    0 <= j < stack@.len() ==> call_ensures(
                        *self.fun,
                        (ra[ra.len() - 1 - j], rb[rb.len() - 1 - j]),
                        #[trigger] stack@[j],
                    ),
            decreases rest_a.len(),
        {
            let a = rest_a.pop().unwrap();
            let b = rest_b.pop().unwrap();
            let y = (self.fun)(a, b);
            stack.push(y);
            proof {
                assert(rest_a@ =~= ra.take(rest_a@.len() as int));
                assert(rest_b@ =~= rb.take(rest_b@.len() as int));
            }
        }
        let total = stack.len();
        let mut out: Vec<Out> = Vec::new();
        while out.len() < total
            invariant
                total == ra.len(),
                ra.len() == rb.len(),
                stack@.len() + out@.len() == total,
                forall|j: int|
                    0 <= j < stack@.len() ==> call_ensures(
                        *self.fun,
                        (ra[ra.len() - 1 - j], rb[rb.len() - 1 - j]),
                        #[trigger] stack@[j],
                    ),
                forall|k: int|
                    0 <= k < out@.len() ==> call_ensures(
                        *self.fun,
                        (ra[k], rb[k]),
                        #[trigger] out@[k],
                    ),
            decreases total - out.len(),
        {
            let y = stack.pop().unwrap();
            out.push(y);
        }
        proof {
            assert(join_drawn(*old(self), *self, out@, ra, rb));
        }
        Some(out)
    }
}

} // verus!
