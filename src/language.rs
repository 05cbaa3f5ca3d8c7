use vstd::prelude::*;

verus! {

/// A recursive type that can be taken apart into one layer of its pattern
/// shape, and put back together from one.
pub trait Language: Sized {
    /// One layer of the type, whose child positions hold the type itself.
    type Layer;

    /// The layer that `self` consists of.
    spec fn layer_of(self) -> Self::Layer;

    /// Builds a value from one layer.
    fn wrap(layer: Self::Layer) -> (r: Self)
        ensures
            r.layer_of() == layer,
    ;

    /// Takes a value apart into one layer.
    fn unwrap(self) -> (r: Self::Layer)
        ensures
            r == self.layer_of(),
    ;
}

/// A seed for an unfold: each layer generated from a seed holds seeds of
/// smaller rank, which bounds the depth of the tree that is built.
pub trait Seed {
    spec fn rank(&self) -> nat;
}

impl Seed for u64 {
    open spec fn rank(&self) -> nat {
        *self as nat
    }
}

} // verus!
