//! The transform combinator: wraps one model and an item transform, and
//! passes draws through unchanged except for mapping each item.

use vstd::prelude::*;

use crate::rng::Rand;
use crate::Urne;
use crate::UrneModel;

verus! {

/// The child of a [`MapUrne`] handed out the raw item sequence `raw`, and
/// every returned item is the adapter's answer for the raw item at the same
/// position.
pub open spec fn map_drawn<'a, U: Urne, F: Fn(U::Item) -> Out, Out>(
    pre: MapUrne<'a, U, F>,
    post: MapUrne<'a, U, F>,
    items: Seq<Out>,
    raw: Seq<U::Item>,
) -> bool {
    &&& U::yields(pre.urne, post.urne, raw)
    &&& raw.len() == items.len()
    &&& forall|k: int|
        0 <= k < items.len() ==> call_ensures(*pre.fun, (raw[k],), #[trigger] items[k])
}

/// A model that yields the items of a child model sent through an adapter
/// function. Its size is the child's size; it fails exactly when the child
/// fails.
pub struct Mapper<Model, Fun> {
    pub model: Model,
    pub adapter: Fun,
}

impl<Model, Fun> Mapper<Model, Fun> {
    pub fn new(model: Model, adapter: Fun) -> (r: Self)
        ensures
            r.model == model,
            r.adapter == adapter,
    {
        Mapper { model, adapter }
    }
}

impl<'a, M, F, Out> UrneModel<'a> for Mapper<M, F> where
    M: UrneModel<'a> + 'a,
    F: Fn(M::Item) -> Out + 'a,
 {
    type Item = Out;

    type Peeking = MapUrne<'a, M::Peeking, F>;

    type Taking = MapUrne<'a, M::Taking, F>;

    open spec fn inv(&self) -> bool {
        &&& self.model.inv()
        &&& forall|x: M::Item| call_requires(self.adapter, (x,))
    }

    open spec fn spec_size(&self) -> int {
        self.model.spec_size()
    }

    open spec fn peeked(&'a self, p: MapUrne<'a, M::Peeking, F>) -> bool {
        &&& self.model.peeked(p.urne)
        &&& *p.fun == self.adapter
    }

    open spec fn taken(&'a self, t: MapUrne<'a, M::Taking, F>) -> bool {
        &&& self.model.taken(t.urne)
        &&& *t.fun == self.adapter
    }

    fn size(&'a self) -> (r: usize)
        ensures
            r as int == self.model.spec_size(),
    {
        self.model.size()
    }

    fn peeking(&'a self) -> (p: MapUrne<'a, M::Peeking, F>)
        ensures
            self.model.peeked(p.urne),
            *p.fun == self.adapter,
    {
        MapUrne { urne: self.model.peeking(), fun: &self.adapter }
    }

    fn taking(&'a self) -> (t: MapUrne<'a, M::Taking, F>)
        ensures
            self.model.taken(t.urne),
            *t.fun == self.adapter,
    {
        MapUrne { urne: self.model.taking(), fun: &self.adapter }
    }
}

/// A session that draws from a child session and maps every drawn item
/// through the adapter borrowed from its [`Mapper`].
pub struct MapUrne<'a, U, Fun> {
    pub urne: U,
    pub fun: &'a Fun,
}

impl<'a, U, F, Out> Urne for MapUrne<'a, U, F> where U: Urne, F: Fn(U::Item) -> Out {
    type Item = Out;

    open spec fn inv(&self) -> bool {
        &&& self.urne.inv()
        &&& forall|x: U::Item| call_requires(*self.fun, (x,))
    }

    open spec fn spec_size(&self) -> int {
        self.urne.spec_size()
    }

    open spec fn consuming(&self) -> bool {
        self.urne.consuming()
    }

    /// The child handed out a sequence of raw items and every returned item
    /// is the adapter's answer for the raw item at the same position.
    open spec fn yields(pre: Self, post: Self, items: Seq<Out>) -> bool {
        &&& post.fun == pre.fun
        &&& exists|raw: Seq<U::Item>| map_drawn(pre, post, items, raw)
    }

    proof fn lemma_well_formed(u: Self) {
        U::lemma_well_formed(u.urne);
        assert(map_drawn(u, u, Seq::<Out>::empty(), Seq::<U::Item>::empty()));
    }

    fn size(&self) -> (r: usize)
        ensures
            r as int == self.urne.spec_size(),
    {
        self.urne.size()
    }

    fn choose_one(&mut self, rng: &mut Rand) -> (r: Option<Out>)
        ensures
            final(self).fun == old(self).fun,
    {
        let got = self.urne.choose_one(rng);
        match got {
            None => None,
            Some(x) => {
                let ghost raw_item = x;
                let y = (self.fun)(x);
                proof {
                    let raw = seq![raw_item];
                    assert forall|k: int| 0 <= k < seq![y].len() implies call_ensures(
                        *old(self).fun,
                        (raw[k],),
                        #[trigger] seq![y][k],
                    ) by {
                        assert(raw[k] == raw_item && seq![y][k] == y);
                    }
                    assert(map_drawn(*old(self), *self, seq![y], raw));
                }
                Some(y)
            },
        }
    }

    fn choose_multiple(&mut self, rng: &mut Rand, amount: usize) -> (r: Option<Vec<Out>>)
        ensures
            final(self).fun == old(self).fun,
    {
        let got = self.urne.choose_multiple(rng, amount);
        match got {
            None => None,
            Some(v) => {
                let ghost raw = v@;
                let mut rest = v;
                let mut stack: Vec<Out> = Vec::new();
                while rest.len() > 0
                    invariant
                        forall|x: U::Item| call_requires(*self.fun, (x,)),
                        rest@ == raw.take(rest@.len() as int),
                        stack@.len() + rest@.len() == raw.len(),
                        forall|j: int|
                            0 <= j < stack@.len() ==> call_ensures(
                                *self.fun,
                                (raw[raw.len() - 1 - j],),
                                #[trigger] stack@[j],
                            ),
                    decreases rest.len(),
                {
                    let ghost rest_before = rest@;
                    let x = rest.pop().unwrap();
                    let y = (self.fun)(x);
                    stack.push(y);
                    proof {
                        assert(rest@ =~= raw.take(rest@.len() as int));
                        assert(x == raw[rest@.len() as int]);
                    }
                }
                let total = stack.len();
                let mut out: Vec<Out> = Vec::new();
                while out.len() < total
                    invariant
                        total == raw.len(),
                        stack@.len() + out@.len() == total,
                        forall|j: int|
                            0 <= j < stack@.len() ==> call_ensures(
                                *self.fun,
                                (raw[raw.len() - 1 - j],),
                                #[trigger] stack@[j],
                            ),
                        forall|k: int|
                            0 <= k < out@.len() ==> call_ensures(
                                *self.fun,
                                (raw[k],),
                                #[trigger] out@[k],
                            ),
                    decreases total - out.len(),
                {
                    let y = stack.pop().unwrap();
                    out.push(y);
                }
                proof {
                    assert(map_drawn(*old(self), *self, out@, raw));
                }
                Some(out)
            },
        }
    }
}

} // verus!
