//! What a Wayland handler hands back to the app: no message, one, or many.

use vstd::prelude::*;

verus! {

/// Messages a handler emits, in order.
pub enum Emit<M> {
    Nothing,
    One(M),
    Many(Vec<M>),
}

impl<M> Emit<M> {
    /// The messages, in order.
    pub open spec fn messages(&self) -> Seq<M> {
        match self {
            Emit::Nothing => Seq::empty(),
            Emit::One(m) => seq![*m],
            Emit::Many(v) => v@,
        }
    }

    pub fn none() -> (r: Self)
        ensures
            r is Nothing,
            r.messages() == Seq::<M>::empty(),
    {
        Emit::Nothing
    }

    pub fn one(m: M) -> (r: Self)
        ensures
            r.messages() == seq![m],
    {
        Emit::One(m)
    }

    pub fn many(ms: Vec<M>) -> (r: Self)
        ensures
            r.messages() == ms@,
    {
        Emit::Many(ms)
    }

    /// The messages as a vector, in order.
    pub fn into_vec(self) -> (r: Vec<M>)
        ensures
            r@ == self.messages(),
    {
        match self {
            Emit::Nothing => Vec::new(),
            Emit::One(m) => {
                let mut v: Vec<M> = Vec::new();
                v.push(m);
                v
            },
            Emit::Many(v) => v,
        }
    }
}

} // verus!
