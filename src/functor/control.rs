//! The single-use flavor: the functions handed to these operations are called
//! at most once and may consume their arguments. Only containers that hold at
//! most one value have it.

use vstd::prelude::*;

use super::data;
use super::{IdentityFunctor, OptionFunctor, ResultFunctor};

verus! {

/// Maps the value of a container that holds at most one, with a function
/// called at most once.
pub trait Functor<A, B>: data::Functor<A, B> {
    /// Applies `f` to the value of `fa`, if it holds one, and keeps the shape.
    fn fmap<F: FnOnce(A) -> B>(f: F, fa: Self::Source) -> (r: Self::Target)
        requires
            forall|a: A| call_requires(f, (a,)),
        ensures
            Self::same_shape(fa, r),
            Self::items_out(r).len() == Self::items_in(fa).len(),
            forall|i: int|
                0 <= i < Self::items_in(fa).len() ==> call_ensures(
                    f,
                    (Self::items_in(fa)[i],),
                    #[trigger] Self::items_out(r)[i],
                ),
    ;

    /// Replaces the value of `fa` by `b`, and keeps the shape.
    fn constant(b: B, fa: Self::Source) -> (r: Self::Target)
        ensures
            Self::same_shape(fa, r),
            Self::items_out(r).len() == Self::items_in(fa).len(),
            forall|i: int| 0 <= i < Self::items_out(r).len() ==> #[trigger] Self::items_out(r)[i] == b,
    {
        let ghost value = b;
        let give = move |a: A| -> (c: B)
            ensures
                c == value,
        {
            b
        };
        Self::fmap(give, fa)
    }
}

/// Discards the value of `fa` and keeps its shape.
pub fn void<K: Functor<A, ()>, A>(fa: K::Source) -> (r: K::Target)
    ensures
        K::same_shape(fa, r),
        K::items_out(r).len() == K::items_in(fa).len(),
{
    K::fmap(|a: A| (), fa)
}

impl<A, B> Functor<A, B> for IdentityFunctor {
    fn fmap<F: FnOnce(A) -> B>(f: F, fa: A) -> (r: B)
        ensures
            call_ensures(f, (fa,), r),
    {
        f(fa)
    }
}

impl<A, B> Functor<A, B> for OptionFunctor {
    fn fmap<F: FnOnce(A) -> B>(f: F, fa: Option<A>) -> (r: Option<B>) {
        match fa {
            Some(a) => Some(f(a)),
            None => None,
        }
    }
}

impl<A, B, E> Functor<A, B> for ResultFunctor<E> {
    fn fmap<F: FnOnce(A) -> B>(f: F, fa: Result<A, E>) -> (r: Result<B, E>) {
        match fa {
            Ok(a) => Ok(f(a)),
            Err(e) => Err(e),
        }
    }
}

/// Combines two containers that hold at most one value each, with a function
/// called at most once.
pub trait Applicative<A, B, C>: data::Applicative<A, B, C> {
    /// The smallest container that holds `a`.
    fn pure(a: A) -> (r: Self::Left)
        ensures
            Self::left_items(r) == seq![a],
    ;

    /// Combines the values of `fa` and `fb` with `f` where both hold one.
    fn zip_with<F: FnOnce(A, B) -> C>(f: F, fa: Self::Left, fb: Self::Right) -> (r: Self::Out)
        requires
            forall|i: int|
                0 <= i < Self::left_items(fa).len() && 0 <= i < Self::right_items(fb).len() ==> call_requires(
                    f,
                    (Self::left_items(fa)[i], Self::right_items(fb)[i]),
                ),
        ensures
            Self::combined_shape(fa, fb, r),
            Self::out_items(r).len() <= Self::left_items(fa).len(),
            Self::out_items(r).len() <= Self::right_items(fb).len(),
            forall|i: int|
                0 <= i < Self::out_items(r).len() ==> call_ensures(
                    f,
                    (Self::left_items(fa)[i], Self::right_items(fb)[i]),
                    #[trigger] Self::out_items(r)[i],
                ),
    ;

    /// Applies the function in `fs` to the value in `fb` where both hold one.
    fn zip_map(fs: Self::Left, fb: Self::Right) -> (r: Self::Out) where A: FnOnce(B) -> C
        requires
            forall|i: int|
                0 <= i < Self::left_items(fs).len() && 0 <= i < Self::right_items(fb).len() ==> call_requires(
                    Self::left_items(fs)[i],
                    (Self::right_items(fb)[i],),
                ),
        ensures
            Self::combined_shape(fs, fb, r),
            Self::out_items(r).len() <= Self::left_items(fs).len(),
            Self::out_items(r).len() <= Self::right_items(fb).len(),
            forall|i: int|
                0 <= i < Self::out_items(r).len() ==> call_ensures(
                    Self::left_items(fs)[i],
                    (Self::right_items(fb)[i],),
                    #[trigger] Self::out_items(r)[i],
                ),
    {
        let apply = |g: A, b: B| -> (c: C)
            requires
                call_requires(g, (b,)),
            ensures
                call_ensures(g, (b,), c),
        {
            g(b)
        };
        Self::zip_with(apply, fs, fb)
    }
}

impl<A, B, C> Applicative<A, B, C> for IdentityFunctor {
    fn pure(a: A) -> (r: A) {
        a
    }

    fn zip_with<F: FnOnce(A, B) -> C>(f: F, fa: A, fb: B) -> (r: C)
        ensures
            call_ensures(f, (fa, fb), r),
    {
        proof {
            assert(<Self as data::Applicative<A, B, C>>::left_items(fa)[0] == fa && <Self as data::Applicative<A, B, C>>::right_items(fb)[0] == fb);
        }
        f(fa, fb)
    }
}

impl<A, B, C> Applicative<A, B, C> for OptionFunctor {
    fn pure(a: A) -> (r: Option<A>) {
        Some(a)
    }

    fn zip_with<F: FnOnce(A, B) -> C>(f: F, fa: Option<A>, fb: Option<B>) -> (r: Option<C>) {
        let ghost (ga, gb) = (fa, fb);
        match (fa, fb) {
            (Some(a), Some(b)) => {
                proof {
                    assert(<Self as data::Applicative<A, B, C>>::left_items(ga)[0] == a && <Self as data::Applicative<A, B, C>>::right_items(gb)[0] == b);
                }
                Some(f(a, b))
            },
            _ => None,
        }
    }
}

impl<A, B, C, E> Applicative<A, B, C> for ResultFunctor<E> {
    fn pure(a: A) -> (r: Result<A, E>) {
        Ok(a)
    }

    fn zip_with<F: FnOnce(A, B) -> C>(f: F, fa: Result<A, E>, fb: Result<B, E>) -> (r: Result<C, E>) {
        let ghost (ga, gb) = (fa, fb);
        match fa {
            Err(e) => Err(e),
            Ok(a) => match fb {
                Err(e) => Err(e),
                Ok(b) => {
                    proof {
                        assert(<Self as data::Applicative<A, B, C>>::left_items(ga)[0] == a && <Self as data::Applicative<A, B, C>>::right_items(gb)[0] == b);
                    }
                    Ok(f(a, b))
                },
            },
        }
    }
}

/// Sequences a computation that yields a container after the value of
/// another container.
pub trait Monad<A, B>: Functor<A, B> {
    /// Runs `f` on the value of `fa` and returns what it gives; a container
    /// without a value passes through with its shape.
    fn and_then<F: FnOnce(A) -> Self::Target>(fa: Self::Source, f: F) -> (r: Self::Target)
        requires
            forall|a: A| call_requires(f, (a,)),
        ensures
            Self::items_in(fa).len() == 0 ==> Self::same_shape(fa, r),
            Self::items_in(fa).len() == 0 ==> Self::items_out(r).len() == 0,
            Self::items_in(fa).len() == 1 ==> call_ensures(f, (Self::items_in(fa)[0],), r),
    ;
}

impl<A, B> Monad<A, B> for IdentityFunctor {
    fn and_then<F: FnOnce(A) -> B>(fa: A, f: F) -> (r: B) {
        f(fa)
    }
}

impl<A, B> Monad<A, B> for OptionFunctor {
    fn and_then<F: FnOnce(A) -> Option<B>>(fa: Option<A>, f: F) -> (r: Option<B>) {
        match fa {
            Some(a) => f(a),
            None => None,
        }
    }
}

impl<A, B, E> Monad<A, B> for ResultFunctor<E> {
    fn and_then<F: FnOnce(A) -> Result<B, E>>(fa: Result<A, E>, f: F) -> (r: Result<B, E>) {
        match fa {
            Ok(a) => f(a),
            Err(e) => Err(e),
        }
    }
}

} // verus!
