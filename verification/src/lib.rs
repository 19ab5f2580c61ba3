//! Composable uniform random sampling over urn models.
//!
//! A *model* ([`UrneModel`]) is an immutable, reusable description of a
//! population of items: a flat sequence ([`list::List`]), a transformed view
//! ([`map::Mapper`]), a pairwise combination ([`join::Joiner`]) or a weighted
//! union ([`chain::Chain`]). From a model the caller manufactures an *urn*
//! ([`Urne`]): a stateful sampling session that is either *peeking* (draws
//! never consume the underlying data) or *taking* (each draw permanently
//! removes the chosen items). Draws are uniform among the currently eligible
//! items; a draw of `amount` items either returns exactly `amount` mutually
//! distinct items or fails cleanly, never a partial collection.

use vstd::prelude::*;

pub mod chain;
pub mod join;
pub mod list;
pub mod map;
pub mod rng;

use crate::rng::Rand;

verus! {

/// An urn: a stateful sampling session manufactured from an [`UrneModel`].
///
/// Each implementation fixes three specification hooks:
/// - [`Urne::inv`], well-formedness of the session state;
/// - [`Urne::spec_size`], the exact count of items still eligible;
/// - [`Urne::yields`], which relates the state before a draw, the state
///   after it, and the sequence of items handed out.
///
/// Every urn guarantees: a draw of `amount` items succeeds if and only if
/// `amount` does not exceed the current size; on success exactly `amount`
/// items are returned; on failure the urn is left untouched; and the size
/// never grows, nor shrinks by more than the number of items handed out.
pub trait Urne: Sized {
    type Item;

    /// Well-formedness of the session state.
    spec fn inv(&self) -> bool;

    /// Exact count of items currently eligible for future draws.
    spec fn spec_size(&self) -> int;

    /// Whether draws permanently remove the chosen items (a taking session)
    /// or leave the urn untouched (a peeking session).
    spec fn consuming(&self) -> bool;

    /// Relation between the urn before a draw, the urn after it, and the
    /// items the draw handed out.
    spec fn yields(pre: Self, post: Self, items: Seq<Self::Item>) -> bool;

    /// Law: a well-formed urn has a non-negative size, and staying put while
    /// handing out nothing is a draw relation every urn admits.
    proof fn lemma_well_formed(u: Self)
        requires
            u.inv(),
        ensures
            u.spec_size() >= 0,
            Self::yields(u, u, Seq::empty()),
    ;

    fn size(&self) -> (r: usize)
        requires
            self.inv(),
        ensures
            r as int == self.spec_size(),
    ;

    /// Draws one item uniformly at random, or fails if the urn is empty.
    ///
    /// By default this is `choose_multiple` for one item with the single
    /// result unwrapped; implementations may draw directly.
    fn choose_one(&mut self, rng: &mut Rand) -> (r: Option<Self::Item>)
        requires
            old(self).inv(),
        ensures
            final(self).inv(),
            r is Some <==> old(self).spec_size() >= 1,
            r is None ==> *final(self) == *old(self),
            old(self).spec_size() - 1 <= final(self).spec_size() <= old(self).spec_size(),
            r matches Some(item) ==> Self::yields(*old(self), *final(self), seq![item]),
            final(self).consuming() == old(self).consuming(),
            old(self).consuming() && r is Some ==> final(self).spec_size() == old(
                self,
            ).spec_size() - 1,
            !old(self).consuming() ==> *final(self) == *old(self),
    {
        let got = self.choose_multiple(rng, 1);
        match got {
            None => None,
            Some(mut v) => {
                let ghost w = v@;
                let item = v.pop().unwrap();
                proof {
                    assert(w =~= seq![item]);
                }
                Some(item)
            },
        }
    }

    /// Draws `amount` mutually distinct items, or fails without touching
    /// the urn if fewer than `amount` items are available.
    fn choose_multiple(&mut self, rng: &mut Rand, amount: usize) -> (r: Option<Vec<Self::Item>>)
        requires
            old(self).inv(),
        ensures
            final(self).inv(),
            r is Some <==> amount as int <= old(self).spec_size(),
            r is None ==> *final(self) == *old(self),
            old(self).spec_size() - amount as int <= final(self).spec_size()
                <= old(self).spec_size(),
            r matches Some(v) ==> v@.len() == amount
                && Self::yields(*old(self), *final(self), v@),
            final(self).consuming() == old(self).consuming(),
            old(self).consuming() && r is Some ==> final(self).spec_size() == old(
                self,
            ).spec_size() - amount,
            !old(self).consuming() ==> *final(self) == *old(self),
    ;
}

/// The urn capability under a second, narrower name: only the two draw
/// operations, with the same guarantees as [`Urne`], for callers that want
/// nothing else of the surface. Every [`Urne`] provides it.
pub trait UrneObj: Sized {
    type Item;

    /// Well-formedness of the session state.
    spec fn obj_inv(&self) -> bool;

    /// Exact count of items currently eligible for future draws.
    spec fn obj_size(&self) -> int;

    /// Whether draws permanently remove the chosen items.
    spec fn obj_consuming(&self) -> bool;

    /// Relation between the urn before a draw, the urn after it, and the
    /// items the draw handed out.
    spec fn obj_yields(pre: Self, post: Self, items: Seq<Self::Item>) -> bool;

    /// Draws one item uniformly at random, or fails if the urn is empty.
    fn choose_one(&mut self, rng: &mut Rand) -> (r: Option<Self::Item>)
        requires
            old(self).obj_inv(),
        ensures
            final(self).obj_inv(),
            r is Some <==> old(self).obj_size() >= 1,
            r is None ==> *final(self) == *old(self),
            old(self).obj_size() - 1 <= final(self).obj_size() <= old(self).obj_size(),
            r matches Some(item) ==> Self::obj_yields(*old(self), *final(self), seq![item]),
            final(self).obj_consuming() == old(self).obj_consuming(),
            old(self).obj_consuming() && r is Some ==> final(self).obj_size() == old(
                self,
            ).obj_size() - 1,
            !old(self).obj_consuming() ==> *final(self) == *old(self),
    ;

    /// Draws `amount` mutually distinct items, or fails without touching
    /// the urn if fewer than `amount` items are available.
    fn choose_multiple(&mut self, rng: &mut Rand, amount: usize) -> (r: Option<Vec<Self::Item>>)
        requires
            old(self).obj_inv(),
        ensures
            final(self).obj_inv(),
            r is Some <==> amount as int <= old(self).obj_size(),
            r is None ==> *final(self) == *old(self),
            old(self).obj_size() - amount as int <= final(self).obj_size()
                <= old(self).obj_size(),
            r matches Some(v) ==> v@.len() == amount
                && Self::obj_yields(*old(self), *final(self), v@),
            final(self).obj_consuming() == old(self).obj_consuming(),
            old(self).obj_consuming() && r is Some ==> final(self).obj_size() == old(
                self,
            ).obj_size() - amount,
            !old(self).obj_consuming() ==> *final(self) == *old(self),
    ;
}

impl<T: Urne> UrneObj for T {
    type Item = T::Item;

    open spec fn obj_inv(&self) -> bool {
        self.inv()
    }

    open spec fn obj_size(&self) -> int {
        self.spec_size()
    }

    open spec fn obj_consuming(&self) -> bool {
        self.consuming()
    }

    open spec fn obj_yields(pre: Self, post: Self, items: Seq<T::Item>) -> bool {
        T::yields(pre, post, items)
    }

    fn choose_one(&mut self, rng: &mut Rand) -> (r: Option<T::Item>) {
        Urne::choose_one(self, rng)
    }

    fn choose_multiple(&mut self, rng: &mut Rand, amount: usize) -> (r: Option<Vec<T::Item>>) {
        Urne::choose_multiple(self, rng, amount)
    }
}

/// An urn model: an immutable, reusable blueprint that reports its size and
/// manufactures fresh sampling sessions over its population on demand.
///
/// The lifetime parameter is the span for which a manufactured urn may
/// borrow from the model; both urn flavours of a model yield the same item
/// type. Creating an urn never mutates the model, so sessions made from the
/// same model are mutually independent.
pub trait UrneModel<'a>: Sized {
    type Item;

    type Peeking: Urne<Item = Self::Item>;

    type Taking: Urne<Item = Self::Item>;

    /// Well-formedness of the model.
    spec fn inv(&self) -> bool;

    /// Exact count of items a fresh urn of this model starts with.
    spec fn spec_size(&self) -> int;

    /// Relation between the model and a peeking urn made from it.
    spec fn peeked(&'a self, p: Self::Peeking) -> bool;

    /// Relation between the model and a taking urn made from it.
    spec fn taken(&'a self, t: Self::Taking) -> bool;

    fn size(&'a self) -> (r: usize)
        requires
            self.inv(),
        ensures
            r as int == self.spec_size(),
    ;

    /// Manufactures a non-consuming sampling session: it borrows the
    /// model's data read-only and never mutates it.
    fn peeking(&'a self) -> (p: Self::Peeking)
        requires
            self.inv(),
        ensures
            p.inv(),
            p.spec_size() == self.spec_size(),
            !p.consuming(),
            self.peeked(p),
    ;

    /// Manufactures a consuming sampling session over a private working
    /// copy of the model's population.
    fn taking(&'a self) -> (t: Self::Taking)
        requires
            self.inv(),
        ensures
            t.inv(),
            t.spec_size() == self.spec_size(),
            t.consuming(),
            self.taken(t),
    ;
}

impl<'a, 'b: 'a, T: UrneModel<'a>> UrneModel<'a> for &'b T {
    type Item = T::Item;

    type Peeking = T::Peeking;

    type Taking = T::Taking;

    open spec fn inv(&self) -> bool {
        (**self).inv()
    }

    open spec fn spec_size(&self) -> int {
        (**self).spec_size()
    }

    open spec fn peeked(&'a self, p: T::Peeking) -> bool {
        (**self).peeked(p)
    }

    open spec fn taken(&'a self, t: T::Taking) -> bool {
        (**self).taken(t)
    }

    fn size(&'a self) -> (r: usize) {
        T::size(*self)
    }

    fn peeking(&'a self) -> (p: T::Peeking) {
        T::peeking(*self)
    }

    fn taking(&'a self) -> (t: T::Taking) {
        T::taking(*self)
    }
}

} // verus!
