//! Container shapes, each named by a marker type, and the operations that
//! work on them. `data` holds the flavor whose functions may be called many
//! times; `control` the flavor whose functions are called at most once and
//! may consume what they are given.

use vstd::prelude::*;

pub mod control;
pub mod data;
pub mod laws;

verus! {

/// An optional value: `Option<A>`.
pub struct OptionFunctor;

/// A success value or an error of the fixed type `E`: `Result<A, E>`.
pub struct ResultFunctor<E> {
    phantom: core::marker::PhantomData<E>,
}

/// A sequence whose combination pairs elements by position: `Vec<A>`.
pub struct VecFunctor;

/// A sequence with strictly positional combination: `Vec<A>`, kept apart
/// from `VecFunctor` so that callers choose the law by type.
pub struct ZipVecFunctor;

/// A bare value: the container of `A` is `A` itself.
pub struct IdentityFunctor;

} // verus!
