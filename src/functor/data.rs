//! The repeatable flavor: the functions handed to these operations may be
//! called once per stored value.

use vstd::prelude::*;

use super::control;
use super::{IdentityFunctor, OptionFunctor, ResultFunctor, VecFunctor, ZipVecFunctor};

verus! {

/// The items that an optional value holds, in order.
pub open spec fn option_items<A>(o: Option<A>) -> Seq<A> {
    match o {
        Some(a) => seq![a],
        None => seq![],
    }
}

/// The items that a result holds: its success value, if any.
pub open spec fn result_items<A, E>(r: Result<A, E>) -> Seq<A> {
    match r {
        Ok(a) => seq![a],
        Err(_) => seq![],
    }
}

/// `fb` has the shape of `fa`: both succeed, or both fail with the same error.
pub open spec fn result_same_shape<A, B, E>(fa: Result<A, E>, fb: Result<B, E>) -> bool {
    match (fa, fb) {
        (Ok(_), Ok(_)) => true,
        (Err(e1), Err(e2)) => e1 == e2,
        _ => false,
    }
}

/// `r` is a possible result of mapping `fa` by `f` in the container `K`: the
/// same shape, and each value the result of a call on the value at its place.
pub open spec fn mapped<K: Functor<A, B> + ?Sized, A, B, F: FnOnce(A) -> B>(f: F, fa: K::Source, r: K::Target) -> bool {
    &&& K::same_shape(fa, r)
    &&& K::items_out(r).len() == K::items_in(fa).len()
    &&& forall|i: int|
        0 <= i < K::items_in(fa).len() ==> call_ensures(f, (K::items_in(fa)[i],), #[trigger] K::items_out(r)[i])
}

/// `r` is a possible result of combining `fa` and `fb` with `f` in the
/// container `K`: the shape that `K`'s law gives, and each value the result
/// of a call on the pair of values at its place.
pub open spec fn zipped<K: Applicative<A, B, C> + ?Sized, A, B, C, F: FnOnce(A, B) -> C>(
    f: F,
    fa: K::Left,
    fb: K::Right,
    r: K::Out,
) -> bool {
    &&& K::combined_shape(fa, fb, r)
    &&& K::out_items(r).len() <= K::left_items(fa).len()
    &&& K::out_items(r).len() <= K::right_items(fb).len()
    &&& forall|i: int|
        0 <= i < K::out_items(r).len() ==> call_ensures(
            f,
            (K::left_items(fa)[i], K::right_items(fb)[i]),
            #[trigger] K::out_items(r)[i],
        )
}

/// `r` is a possible result of applying the functions of `fs` to the values
/// of `fb` in the container `K`, by `K`'s law.
pub open spec fn applied<K: Applicative<A, B, C> + ?Sized, A: FnOnce(B) -> C, B, C>(
    fs: K::Left,
    fb: K::Right,
    r: K::Out,
) -> bool {
    &&& K::combined_shape(fs, fb, r)
    &&& K::out_items(r).len() <= K::left_items(fs).len()
    &&& K::out_items(r).len() <= K::right_items(fb).len()
    &&& forall|i: int|
        0 <= i < K::out_items(r).len() ==> call_ensures(
            K::left_items(fs)[i],
            (K::right_items(fb)[i],),
            #[trigger] K::out_items(r)[i],
        )
}

/// Maps the values in a container of `A` to a container of `B` of the same shape.
pub trait Functor<A, B> {
    /// The container holding `A`.
    type Source;

    /// The container of the same shape holding `B`.
    type Target;

    /// The values that `fa` holds, in order.
    spec fn items_in(fa: Self::Source) -> Seq<A>;

    /// The values that `fb` holds, in order.
    spec fn items_out(fb: Self::Target) -> Seq<B>;

    /// `fb` has the shape of `fa`, whatever the values.
    spec fn same_shape(fa: Self::Source, fb: Self::Target) -> bool;

    /// Applies `f` to each value of `fa`, in order, and keeps the shape.
    fn dmap<F: Fn(A) -> B>(f: F, fa: Self::Source) -> (r: Self::Target)
        requires
            forall|a: A| call_requires(f, (a,)),
        ensures
            Self::same_shape(fa, r),
            Self::items_out(r).len() == Self::items_in(fa).len(),
            forall|i: int|
                0 <= i < Self::items_in(fa).len() ==> call_ensures(
                    f,
                    (Self::items_in(fa)[i],),
                    #[trigger] Self::items_out(r)[i],
                ),
    ;

    /// Replaces each value of `fa` by a clone of `b`, and keeps the shape.
    fn dconstant(b: B, fa: Self::Source) -> (r: Self::Target) where B: Clone
        ensures
            Self::same_shape(fa, r),
            Self::items_out(r).len() == Self::items_in(fa).len(),
            forall|i: int|
                0 <= i < Self::items_out(r).len() ==> cloned(b, #[trigger] Self::items_out(r)[i]),
    {
        let value = &b;
        let copy = |a: A| -> (c: B)
            ensures
                cloned(*value, c),
        {
            value.clone()
        };
        Self::dmap(copy, fa)
    }
}

/// Discards the values of `fa` and keeps its shape.
pub fn void<K: Functor<A, ()>, A>(fa: K::Source) -> (r: K::Target)
    ensures
        K::same_shape(fa, r),
        K::items_out(r).len() == K::items_in(fa).len(),
{
    K::dmap(|a: A| (), fa)
}

impl<A, B> Functor<A, B> for IdentityFunctor {
    type Source = A;

    type Target = B;

    open spec fn items_in(fa: A) -> Seq<A> {
        seq![fa]
    }

    open spec fn items_out(fb: B) -> Seq<B> {
        seq![fb]
    }

    open spec fn same_shape(fa: A, fb: B) -> bool {
        true
    }

    fn dmap<F: Fn(A) -> B>(f: F, fa: A) -> (r: B)
        ensures
            call_ensures(f, (fa,), r),
    {
        f(fa)
    }
}

impl<A, B> Functor<A, B> for OptionFunctor {
    type Source = Option<A>;

    type Target = Option<B>;

    open spec fn items_in(fa: Option<A>) -> Seq<A> {
        option_items(fa)
    }

    open spec fn items_out(fb: Option<B>) -> Seq<B> {
        option_items(fb)
    }

    open spec fn same_shape(fa: Option<A>, fb: Option<B>) -> bool {
        fa is Some <==> fb is Some
    }

    fn dmap<F: Fn(A) -> B>(f: F, fa: Option<A>) -> (r: Option<B>) {
        match fa {
            Some(a) => Some(f(a)),
            None => None,
        }
    }
}

impl<A, B, E> Functor<A, B> for ResultFunctor<E> {
    type Source = Result<A, E>;

    type Target = Result<B, E>;

    open spec fn items_in(fa: Result<A, E>) -> Seq<A> {
        result_items(fa)
    }

    open spec fn items_out(fb: Result<B, E>) -> Seq<B> {
        result_items(fb)
    }

    open spec fn same_shape(fa: Result<A, E>, fb: Result<B, E>) -> bool {
        result_same_shape(fa, fb)
    }

    fn dmap<F: Fn(A) -> B>(f: F, fa: Result<A, E>) -> (r: Result<B, E>) {
        match fa {
            Ok(a) => Ok(f(a)),
            Err(e) => Err(e),
        }
    }
}

/// Applies `f` to each element of `v`, first to last.
fn map_vec<A, B, F: Fn(A) -> B>(f: F, v: Vec<A>) -> (r: Vec<B>)
    requires
        forall|a: A| call_requires(f, (a,)),
    ensures
        r@.len() == v@.len(),
        forall|i: int| 0 <= i < v@.len() ==> call_ensures(f, (v@[i],), #[trigger] r@[i]),
{
    let ghost orig = v@;
    let mut rest = v;
    let mut out: Vec<B> = Vec::new();
    while rest.len() > 0
        invariant
            forall|a: A| call_requires(f, (a,)),
            out@.len() + rest@.len() == orig.len(),
            rest@ == orig.subrange(out@.len() as int, orig.len() as int),
            forall|i: int| 0 <= i < out@.len() ==> call_ensures(f, (orig[i],), #[trigger] out@[i]),
        decreases rest@.len(),
    {
        let a = rest.remove(0);
        let b = f(a);
        out.push(b);
    }
    out
}

impl<A, B> Functor<A, B> for VecFunctor {
    type Source = Vec<A>;

    type Target = Vec<B>;

    open spec fn items_in(fa: Vec<A>) -> Seq<A> {
        fa@
    }

    open spec fn items_out(fb: Vec<B>) -> Seq<B> {
        fb@
    }

    open spec fn same_shape(fa: Vec<A>, fb: Vec<B>) -> bool {
        fa@.len() == fb@.len()
    }

    fn dmap<F: Fn(A) -> B>(f: F, fa: Vec<A>) -> (r: Vec<B>) {
        map_vec(f, fa)
    }
}

impl<A, B> Functor<A, B> for ZipVecFunctor {
    type Source = Vec<A>;

    type Target = Vec<B>;

    open spec fn items_in(fa: Vec<A>) -> Seq<A> {
        fa@
    }

    open spec fn items_out(fb: Vec<B>) -> Seq<B> {
        fb@
    }

    open spec fn same_shape(fa: Vec<A>, fb: Vec<B>) -> bool {
        fa@.len() == fb@.len()
    }

    fn dmap<F: Fn(A) -> B>(f: F, fa: Vec<A>) -> (r: Vec<B>) {
        map_vec(f, fa)
    }
}


/// Combines a container of `A` and a container of `B` into a container of `C`
/// by the container's own law, and lifts a bare value into the container.
pub trait Applicative<A, B, C> {
    /// The container holding `A`.
    type Left;

    /// The container holding `B`.
    type Right;

    /// The container holding `C`.
    type Out;

    /// The values that `fa` holds, in order.
    spec fn left_items(fa: Self::Left) -> Seq<A>;

    /// The values that `fb` holds, in order.
    spec fn right_items(fb: Self::Right) -> Seq<B>;

    /// The values that `fc` holds, in order.
    spec fn out_items(fc: Self::Out) -> Seq<C>;

    /// `r` has the shape that the combination law gives for `fa` and `fb`.
    spec fn combined_shape(fa: Self::Left, fb: Self::Right, r: Self::Out) -> bool;

    /// The smallest container that holds `a`.
    fn dpure(a: A) -> (r: Self::Left)
        ensures
            Self::left_items(r) == seq![a],
    ;

    /// Pairs the values of `fa` and `fb` by position, and combines each pair with `f`.
    fn d_zip_with<F: Fn(A, B) -> C>(f: F, fa: Self::Left, fb: Self::Right) -> (r: Self::Out)
        requires
            forall|i: int|
                0 <= i < Self::left_items(fa).len() && 0 <= i < Self::right_items(fb).len() ==> call_requires(
                    f,
                    (Self::left_items(fa)[i], Self::right_items(fb)[i]),
                ),
        ensures
            Self::combined_shape(fa, fb, r),
            Self::out_items(r).len() <= Self::left_items(fa).len(),
            Self::out_items(r).len() <= Self::right_items(fb).len(),
            forall|i: int|
                0 <= i < Self::out_items(r).len() ==> call_ensures(
                    f,
                    (Self::left_items(fa)[i], Self::right_items(fb)[i]),
                    #[trigger] Self::out_items(r)[i],
                ),
    ;

    /// Applies each function of `fs` to the value of `fb` at its position.
    fn d_zip_map(fs: Self::Left, fb: Self::Right) -> (r: Self::Out) where A: Fn(B) -> C
        requires
            forall|i: int|
                0 <= i < Self::left_items(fs).len() && 0 <= i < Self::right_items(fb).len() ==> call_requires(
                    Self::left_items(fs)[i],
                    (Self::right_items(fb)[i],),
                ),
        ensures
            Self::combined_shape(fs, fb, r),
            Self::out_items(r).len() <= Self::left_items(fs).len(),
            Self::out_items(r).len() <= Self::right_items(fb).len(),
            forall|i: int|
                0 <= i < Self::out_items(r).len() ==> call_ensures(
                    Self::left_items(fs)[i],
                    (Self::right_items(fb)[i],),
                    #[trigger] Self::out_items(r)[i],
                ),
    {
        let apply = |g: A, b: B| -> (c: C)
            requires
                call_requires(g, (b,)),
            ensures
                call_ensures(g, (b,), c),
        {
            g(b)
        };
        Self::d_zip_with(apply, fs, fb)
    }
}

/// The shape of an optional combination: present when both sides are.
pub open spec fn option_combined<A, B, C>(fa: Option<A>, fb: Option<B>, r: Option<C>) -> bool {
    r is Some <==> (fa is Some && fb is Some)
}

/// The shape of a fallible combination: the left error if there is one, else
/// the right error if there is one, else a success.
pub open spec fn result_combined<A, B, C, E>(fa: Result<A, E>, fb: Result<B, E>, r: Result<C, E>) -> bool {
    match (fa, fb) {
        (Err(e), _) => r == Err::<C, E>(e),
        (Ok(_), Err(e)) => r == Err::<C, E>(e),
        (Ok(_), Ok(_)) => r is Ok,
    }
}

impl<A, B, C> Applicative<A, B, C> for IdentityFunctor {
    type Left = A;

    type Right = B;

    type Out = C;

    open spec fn left_items(fa: A) -> Seq<A> {
        seq![fa]
    }

    open spec fn right_items(fb: B) -> Seq<B> {
        seq![fb]
    }

    open spec fn out_items(fc: C) -> Seq<C> {
        seq![fc]
    }

    open spec fn combined_shape(fa: A, fb: B, r: C) -> bool {
        true
    }

    fn dpure(a: A) -> (r: A) {
        a
    }

    fn d_zip_with<F: Fn(A, B) -> C>(f: F, fa: A, fb: B) -> (r: C)
        ensures
            call_ensures(f, (fa, fb), r),
    {
        proof {
            assert(<Self as Applicative<A, B, C>>::left_items(fa)[0] == fa && <Self as Applicative<A, B, C>>::right_items(fb)[0] == fb);
        }
        f(fa, fb)
    }
}

impl<A, B, C> Applicative<A, B, C> for OptionFunctor {
    type Left = Option<A>;

    type Right = Option<B>;

    type Out = Option<C>;

    open spec fn left_items(fa: Option<A>) -> Seq<A> {
        option_items(fa)
    }

    open spec fn right_items(fb: Option<B>) -> Seq<B> {
        option_items(fb)
    }

    open spec fn out_items(fc: Option<C>) -> Seq<C> {
        option_items(fc)
    }

    open spec fn combined_shape(fa: Option<A>, fb: Option<B>, r: Option<C>) -> bool {
        option_combined(fa, fb, r)
    }

    fn dpure(a: A) -> (r: Option<A>) {
        Some(a)
    }

    fn d_zip_with<F: Fn(A, B) -> C>(f: F, fa: Option<A>, fb: Option<B>) -> (r: Option<C>) {
        let ghost (ga, gb) = (fa, fb);
        match (fa, fb) {
            (Some(a), Some(b)) => {
                proof {
                    assert(<Self as Applicative<A, B, C>>::left_items(ga)[0] == a && <Self as Applicative<A, B, C>>::right_items(gb)[0] == b);
                }
                Some(f(a, b))
            },
            _ => None,
        }
    }
}

impl<A, B, C, E> Applicative<A, B, C> for ResultFunctor<E> {
    type Left = Result<A, E>;

    type Right = Result<B, E>;

    type Out = Result<C, E>;

    open spec fn left_items(fa: Result<A, E>) -> Seq<A> {
        result_items(fa)
    }

    open spec fn right_items(fb: Result<B, E>) -> Seq<B> {
        result_items(fb)
    }

    open spec fn out_items(fc: Result<C, E>) -> Seq<C> {
        result_items(fc)
    }

    open spec fn combined_shape(fa: Result<A, E>, fb: Result<B, E>, r: Result<C, E>) -> bool {
        result_combined(fa, fb, r)
    }

    fn dpure(a: A) -> (r: Result<A, E>) {
        Ok(a)
    }

    fn d_zip_with<F: Fn(A, B) -> C>(f: F, fa: Result<A, E>, fb: Result<B, E>) -> (r: Result<C, E>) {
        let ghost (ga, gb) = (fa, fb);
        match fa {
            Err(e) => Err(e),
            Ok(a) => match fb {
                Err(e) => Err(e),
                Ok(b) => {
                    proof {
                        assert(<Self as Applicative<A, B, C>>::left_items(ga)[0] == a && <Self as Applicative<A, B, C>>::right_items(gb)[0] == b);
                    }
                    Ok(f(a, b))
                },
            },
        }
    }
}

/// Pairs the elements of `va` and `vb` by position, first to last, and
/// combines each pair with `f`; the longer input's extra elements are dropped.
fn zip_vec<A, B, C, F: Fn(A, B) -> C>(f: F, va: Vec<A>, vb: Vec<B>) -> (r: Vec<C>)
    requires
        forall|i: int| 0 <= i < va@.len() && 0 <= i < vb@.len() ==> call_requires(f, (va@[i], vb@[i])),
    ensures
        r@.len() == if va@.len() <= vb@.len() { va@.len() } else { vb@.len() },
        forall|i: int| 0 <= i < r@.len() ==> call_ensures(f, (va@[i], vb@[i]), #[trigger] r@[i]),
{
    let ghost left = va@;
    let ghost right = vb@;
    let mut ra = va;
    let mut rb = vb;
    let mut out: Vec<C> = Vec::new();
    while ra.len() > 0 && rb.len() > 0
        invariant
            forall|i: int| 0 <= i < left.len() && 0 <= i < right.len() ==> call_requires(f, (left[i], right[i])),
            out@.len() + ra@.len() == left.len(),
            out@.len() + rb@.len() == right.len(),
            ra@ == left.subrange(out@.len() as int, left.len() as int),
            rb@ == right.subrange(out@.len() as int, right.len() as int),
            forall|i: int| 0 <= i < out@.len() ==> call_ensures(f, (left[i], right[i]), #[trigger] out@[i]),
        decreases ra@.len(),
    {
        let a = ra.remove(0);
        let b = rb.remove(0);
        let c = f(a, b);
        out.push(c);
    }
    out
}

impl<A, B, C> Applicative<A, B, C> for VecFunctor {
    type Left = Vec<A>;

    type Right = Vec<B>;

    type Out = Vec<C>;

    open spec fn left_items(fa: Vec<A>) -> Seq<A> {
        fa@
    }

    open spec fn right_items(fb: Vec<B>) -> Seq<B> {
        fb@
    }

    open spec fn out_items(fc: Vec<C>) -> Seq<C> {
        fc@
    }

    open spec fn combined_shape(fa: Vec<A>, fb: Vec<B>, r: Vec<C>) -> bool {
        r@.len() == if fa@.len() <= fb@.len() { fa@.len() } else { fb@.len() }
    }

    fn dpure(a: A) -> (r: Vec<A>) {
        let mut v: Vec<A> = Vec::new();
        v.push(a);
        v
    }

    fn d_zip_with<F: Fn(A, B) -> C>(f: F, fa: Vec<A>, fb: Vec<B>) -> (r: Vec<C>) {
        proof {
            assert(<Self as Applicative<A, B, C>>::left_items(fa) == fa@ && <Self as Applicative<A, B, C>>::right_items(fb) == fb@);
        }
        zip_vec(f, fa, fb)
    }
}

impl<A, B, C> Applicative<A, B, C> for ZipVecFunctor {
    type Left = Vec<A>;

    type Right = Vec<B>;

    type Out = Vec<C>;

    open spec fn left_items(fa: Vec<A>) -> Seq<A> {
        fa@
    }

    open spec fn right_items(fb: Vec<B>) -> Seq<B> {
        fb@
    }

    open spec fn out_items(fc: Vec<C>) -> Seq<C> {
        fc@
    }

    open spec fn combined_shape(fa: Vec<A>, fb: Vec<B>, r: Vec<C>) -> bool {
        r@.len() == if fa@.len() <= fb@.len() { fa@.len() } else { fb@.len() }
    }

    fn dpure(a: A) -> (r: Vec<A>) {
        let mut v: Vec<A> = Vec::new();
        v.push(a);
        v
    }

    fn d_zip_with<F: Fn(A, B) -> C>(f: F, fa: Vec<A>, fb: Vec<B>) -> (r: Vec<C>) {
        proof {
            assert(<Self as Applicative<A, B, C>>::left_items(fa) == fa@ && <Self as Applicative<A, B, C>>::right_items(fb) == fb@);
        }
        zip_vec(f, fa, fb)
    }
}

/// Present with every result where every call gave one; absent where a
/// call gave none.
pub open spec fn traversed_seq_option<A, B>(outcome: spec_fn(A, Option<B>) -> bool, fa: Vec<A>, r: Option<Vec<B>>) -> bool {
    &&& r is Some ==> r->Some_0@.len() == fa@.len()
    &&& r is Some ==> forall|i: int|
        0 <= i < fa@.len() ==> outcome(fa@[i], Some(#[trigger] r->Some_0@[i]))
    &&& r is None ==> exists|i: int| 0 <= i < fa@.len() && outcome(fa@[i], None::<B>)
}

/// A success with every result where every call succeeded; else the
/// error of the first call that failed, all calls before it having
/// succeeded.
pub open spec fn traversed_seq_result<A, B, E>(outcome: spec_fn(A, Result<B, E>) -> bool, fa: Vec<A>, r: Result<Vec<B>, E>) -> bool {
    &&& r is Ok ==> r->Ok_0@.len() == fa@.len()
    &&& r is Ok ==> forall|i: int|
        0 <= i < fa@.len() ==> outcome(fa@[i], Ok(#[trigger] r->Ok_0@[i]))
    &&& r is Err ==> exists|i: int|
        0 <= i < fa@.len() && outcome(fa@[i], Err::<B, E>(r->Err_0)) && forall|j: int|
            0 <= j < i ==> succeeds(outcome, #[trigger] fa@[j])
}

/// An absent value gives a present absence without a call; a present one
/// gives the call's result, present where it is.
pub open spec fn traversed_option_option<A, B>(outcome: spec_fn(A, Option<B>) -> bool, fa: Option<A>, r: Option<Option<B>>) -> bool {
    &&& fa is None ==> r == Some(None::<B>)
    &&& fa is Some && r is None ==> outcome(fa->Some_0, None::<B>)
    &&& fa is Some && r is Some ==> r->Some_0 is Some && outcome(fa->Some_0, r->Some_0)
}

/// An absent value gives a successful absence without a call; a present
/// one gives the call's result, present where it succeeded.
pub open spec fn traversed_option_result<A, B, E>(outcome: spec_fn(A, Result<B, E>) -> bool, fa: Option<A>, r: Result<Option<B>, E>) -> bool {
    &&& fa is None ==> r == Ok::<Option<B>, E>(None::<B>)
    &&& fa is Some && r is Err ==> outcome(fa->Some_0, Err::<B, E>(r->Err_0))
    &&& fa is Some && r is Ok ==> r->Ok_0 is Some && outcome(fa->Some_0, Ok::<B, E>(r->Ok_0->Some_0))
}

/// An error gives a present error without a call; a success gives the
/// call's result, as a success where it is present.
pub open spec fn traversed_result_option<A, B, E>(outcome: spec_fn(A, Option<B>) -> bool, fa: Result<A, E>, r: Option<Result<B, E>>) -> bool {
    &&& fa is Err ==> r == Some(Err::<B, E>(fa->Err_0))
    &&& fa is Ok && r is None ==> outcome(fa->Ok_0, None::<B>)
    &&& fa is Ok && r is Some ==> r->Some_0 is Ok && outcome(fa->Ok_0, Some(r->Some_0->Ok_0))
}

/// An error gives a successful error without a call; a success gives the
/// call's result, as a success where it succeeded.
pub open spec fn traversed_result_result<A, B, E, E2>(outcome: spec_fn(A, Result<B, E2>) -> bool, fa: Result<A, E>, r: Result<Result<B, E>, E2>) -> bool {
    &&& fa is Err ==> r == Ok::<Result<B, E>, E2>(Err::<B, E>(fa->Err_0))
    &&& fa is Ok && r is Err ==> outcome(fa->Ok_0, Err::<B, E2>(r->Err_0))
    &&& fa is Ok && r is Ok ==> r->Ok_0 is Ok && outcome(fa->Ok_0, Ok::<B, E2>(r->Ok_0->Ok_0))
}

/// Runs an effectful function on each value of a container of `A`, and
/// gathers the effects into one effect that yields a container of the same
/// shape. `Eff` is what the function gives for one value: a container of the
/// inner applicative, whose law combines the effects.
pub trait Traversable<A, Eff> {
    /// The outer container holding `A`.
    type Source;

    /// The inner container of the outer container of results.
    type Traversed;

    /// `r` is a possible result of a traversal of `fa` whose calls give
    /// the outcomes that `outcome` allows.
    spec fn traversed(fa: Self::Source, r: Self::Traversed, outcome: spec_fn(A, Eff) -> bool) -> bool;

    /// Applies `f` to each value of `fa`, first to last, and combines the
    /// effects in that order by the inner container's law.
    fn traverse<G: Fn(A) -> Eff>(f: G, fa: Self::Source) -> (r: Self::Traversed)
        requires
            forall|a: A| call_requires(f, (a,)),
        ensures
            Self::traversed(fa, r, |a: A, e: Eff| call_ensures(f, (a,), e)),
    ;
}

impl<A, Eff> Traversable<A, Eff> for IdentityFunctor {
    type Source = A;

    type Traversed = Eff;

    /// The one call's result.
    open spec fn traversed(fa: A, r: Eff, outcome: spec_fn(A, Eff) -> bool) -> bool {
        outcome(fa, r)
    }

    fn traverse<G: Fn(A) -> Eff>(f: G, fa: A) -> (r: Eff) {
        f(fa)
    }
}

/// A call on `a` may succeed.
pub open spec fn succeeds<A, B, E>(outcome: spec_fn(A, Result<B, E>) -> bool, a: A) -> bool {
    exists|b: B| outcome(a, Ok::<B, E>(b))
}

/// Appends `x` to `v`.
fn push_back<B>(v: Vec<B>, x: B) -> (w: Vec<B>)
    ensures
        w@ == v@.push(x),
{
    let mut w = v;
    w.push(x);
    w
}

impl<A, B> Traversable<A, Option<B>> for VecFunctor {
    type Source = Vec<A>;

    type Traversed = Option<Vec<B>>;

    open spec fn traversed(fa: Vec<A>, r: Option<Vec<B>>, outcome: spec_fn(A, Option<B>) -> bool) -> bool {
        traversed_seq_option(outcome, fa, r)
    }

    fn traverse<G: Fn(A) -> Option<B>>(f: G, fa: Vec<A>) -> (r: Option<Vec<B>>) {
        let ghost orig = fa@;
        let mut rest = fa;
        let empty: Vec<B> = Vec::new();
        let ghost start = empty;
        let mut result: Option<Vec<B>> = <OptionFunctor as control::Applicative<Vec<B>, B, Vec<B>>>::pure(empty);
        proof {
            assert(option_items(result)[0] == start);
        }
        while rest.len() > 0
            invariant
                forall|a: A| call_requires(f, (a,)),
                rest@.len() <= orig.len(),
                rest@ == orig.subrange(orig.len() - rest@.len(), orig.len() as int),
                result is Some ==> result->Some_0@.len() == orig.len() - rest@.len(),
                result is Some ==> forall|i: int|
                    0 <= i < result->Some_0@.len() ==> call_ensures(f, (orig[i],), Some(#[trigger] result->Some_0@[i])),
                result is None ==> exists|i: int|
                    0 <= i < orig.len() - rest@.len() && call_ensures(f, (orig[i],), None::<B>),
            decreases rest@.len(),
        {
            let ghost done = orig.len() - rest@.len();
            let a = rest.remove(0);
            let b = f(a);
            let ghost before = result;
            let ghost got = b;
            result = <OptionFunctor as control::Applicative<Vec<B>, B, Vec<B>>>::zip_with(push_back, result, b);
            proof {
                if got is None {
                    assert(call_ensures(f, (orig[done],), None::<B>));
                }
                if result is Some {
                    assert(option_items(result)[0] == result->Some_0);
                    assert(result->Some_0@ == before->Some_0@.push(got->Some_0));
                    assert(forall|i: int| 0 <= i < done ==> result->Some_0@[i] == before->Some_0@[i]);
                }
            }
        }
        result
    }
}

impl<A, B, E> Traversable<A, Result<B, E>> for VecFunctor {
    type Source = Vec<A>;

    type Traversed = Result<Vec<B>, E>;

    open spec fn traversed(fa: Vec<A>, r: Result<Vec<B>, E>, outcome: spec_fn(A, Result<B, E>) -> bool) -> bool {
        traversed_seq_result(outcome, fa, r)
    }

    fn traverse<G: Fn(A) -> Result<B, E>>(f: G, fa: Vec<A>) -> (r: Result<Vec<B>, E>) {
        let ghost orig = fa@;
        let mut rest = fa;
        let empty: Vec<B> = Vec::new();
        let ghost start = empty;
        let mut result: Result<Vec<B>, E> = <ResultFunctor<E> as control::Applicative<Vec<B>, B, Vec<B>>>::pure(empty);
        proof {
            assert(result_items(result)[0] == start);
        }
        while rest.len() > 0
            invariant
                forall|a: A| call_requires(f, (a,)),
                rest@.len() <= orig.len(),
                rest@ == orig.subrange(orig.len() - rest@.len(), orig.len() as int),
                result is Ok ==> result->Ok_0@.len() == orig.len() - rest@.len(),
                result is Ok ==> forall|i: int|
                    0 <= i < result->Ok_0@.len() ==> call_ensures(f, (orig[i],), Ok(#[trigger] result->Ok_0@[i])),
                result is Err ==> exists|i: int|
                    0 <= i < orig.len() - rest@.len() && call_ensures(f, (orig[i],), Err::<B, E>(result->Err_0))
                        && forall|j: int| 0 <= j < i ==> succeeds(|a: A, e: Result<B, E>| call_ensures(f, (a,), e), #[trigger] orig[j]),
            decreases rest@.len(),
        {
            let ghost done = orig.len() - rest@.len();
            let a = rest.remove(0);
            let b = f(a);
            let ghost before = result;
            let ghost got = b;
            result = <ResultFunctor<E> as control::Applicative<Vec<B>, B, Vec<B>>>::zip_with(push_back, result, b);
            proof {
                if before is Ok && got is Err {
                    assert(call_ensures(f, (orig[done],), Err::<B, E>(result->Err_0)));
                    assert forall|j: int| 0 <= j < done implies succeeds(|a: A, e: Result<B, E>| call_ensures(f, (a,), e), #[trigger] orig[j]) by {
                        assert(call_ensures(f, (orig[j],), Ok::<B, E>(before->Ok_0@[j])));
                    }
                }
                if result is Ok {
                    assert(result_items(result)[0] == result->Ok_0);
                    assert(result->Ok_0@ == before->Ok_0@.push(got->Ok_0));
                    assert(forall|i: int| 0 <= i < done ==> result->Ok_0@[i] == before->Ok_0@[i]);
                }
            }
        }
        result
    }
}


impl<A, B> Traversable<A, Option<B>> for OptionFunctor {
    type Source = Option<A>;

    type Traversed = Option<Option<B>>;

    open spec fn traversed(fa: Option<A>, r: Option<Option<B>>, outcome: spec_fn(A, Option<B>) -> bool) -> bool {
        traversed_option_option(outcome, fa, r)
    }

    fn traverse<G: Fn(A) -> Option<B>>(f: G, fa: Option<A>) -> (r: Option<Option<B>>) {
        match fa {
            Some(a) => {
                let present = |b: B| -> (o: Option<B>)
                    ensures
                        o == Some(b),
                {
                    Some(b)
                };
                let e = f(a);
                let ghost given = e;
                let r = <OptionFunctor as control::Functor<B, Option<B>>>::fmap(present, e);
                proof {
                    if given is Some {
                        assert(option_items(given)[0] == given->Some_0);
                        assert(option_items(r)[0] == r->Some_0);
                    }
                }
                r
            },
            None => {
                let r = <OptionFunctor as control::Applicative<Option<B>, Option<B>, Option<B>>>::pure(None);
                proof {
                    assert(option_items(r).len() == 1);
                    assert(option_items(r)[0] == None::<B>);
                }
                r
            },
        }
    }
}

impl<A, B, E> Traversable<A, Result<B, E>> for OptionFunctor {
    type Source = Option<A>;

    type Traversed = Result<Option<B>, E>;

    open spec fn traversed(fa: Option<A>, r: Result<Option<B>, E>, outcome: spec_fn(A, Result<B, E>) -> bool) -> bool {
        traversed_option_result(outcome, fa, r)
    }

    fn traverse<G: Fn(A) -> Result<B, E>>(f: G, fa: Option<A>) -> (r: Result<Option<B>, E>) {
        match fa {
            Some(a) => {
                let present = |b: B| -> (o: Option<B>)
                    ensures
                        o == Some(b),
                {
                    Some(b)
                };
                let e = f(a);
                let ghost given = e;
                let r = <ResultFunctor<E> as control::Functor<B, Option<B>>>::fmap(present, e);
                proof {
                    if given is Ok {
                        assert(result_items(given)[0] == given->Ok_0);
                        assert(result_items(r)[0] == r->Ok_0);
                    }
                }
                r
            },
            None => {
                let r = <ResultFunctor<E> as control::Applicative<Option<B>, Option<B>, Option<B>>>::pure(None);
                proof {
                    assert(result_items(r).len() == 1);
                    assert(result_items(r)[0] == None::<B>);
                }
                r
            },
        }
    }
}

impl<A, B, E> Traversable<A, Option<B>> for ResultFunctor<E> {
    type Source = Result<A, E>;

    type Traversed = Option<Result<B, E>>;

    open spec fn traversed(fa: Result<A, E>, r: Option<Result<B, E>>, outcome: spec_fn(A, Option<B>) -> bool) -> bool {
        traversed_result_option(outcome, fa, r)
    }

    fn traverse<G: Fn(A) -> Option<B>>(f: G, fa: Result<A, E>) -> (r: Option<Result<B, E>>) {
        match fa {
            Ok(a) => {
                let success = |b: B| -> (o: Result<B, E>)
                    ensures
                        o == Ok::<B, E>(b),
                {
                    Ok(b)
                };
                let e = f(a);
                let ghost given = e;
                let r = <OptionFunctor as control::Functor<B, Result<B, E>>>::fmap(success, e);
                proof {
                    if given is Some {
                        assert(option_items(given)[0] == given->Some_0);
                        assert(option_items(r)[0] == r->Some_0);
                    }
                }
                r
            },
            Err(e) => {
                let ghost err = e;
                let r = <OptionFunctor as control::Applicative<Result<B, E>, Result<B, E>, Result<B, E>>>::pure(Err(e));
                proof {
                    assert(option_items(r).len() == 1);
                    assert(option_items(r)[0] == Err::<B, E>(err));
                }
                r
            },
        }
    }
}

impl<A, B, E, E2> Traversable<A, Result<B, E2>> for ResultFunctor<E> {
    type Source = Result<A, E>;

    type Traversed = Result<Result<B, E>, E2>;

    open spec fn traversed(fa: Result<A, E>, r: Result<Result<B, E>, E2>, outcome: spec_fn(A, Result<B, E2>) -> bool) -> bool {
        traversed_result_result(outcome, fa, r)
    }

    fn traverse<G: Fn(A) -> Result<B, E2>>(f: G, fa: Result<A, E>) -> (r: Result<Result<B, E>, E2>) {
        match fa {
            Ok(a) => {
                let success = |b: B| -> (o: Result<B, E>)
                    ensures
                        o == Ok::<B, E>(b),
                {
                    Ok(b)
                };
                let e = f(a);
                let ghost given = e;
                let r = <ResultFunctor<E2> as control::Functor<B, Result<B, E>>>::fmap(success, e);
                proof {
                    if given is Ok {
                        assert(result_items(given)[0] == given->Ok_0);
                        assert(result_items(r)[0] == r->Ok_0);
                    }
                }
                r
            },
            Err(e) => {
                let ghost err = e;
                let r = <ResultFunctor<E2> as control::Applicative<Result<B, E>, Result<B, E>, Result<B, E>>>::pure(Err(e));
                proof {
                    assert(result_items(r).len() == 1);
                    assert(result_items(r)[0] == Err::<B, E>(err));
                }
                r
            },
        }
    }
}


/// Each call's result, in order: the traversal of a sequence whose inner
/// effect is the bare value.
pub open spec fn traversed_seq_identity<A, B, G: Fn(A) -> B>(f: G, fa: Vec<A>, r: Vec<B>) -> bool {
    &&& r@.len() == fa@.len()
    &&& forall|i: int| 0 <= i < fa@.len() ==> call_ensures(f, (fa@[i],), #[trigger] r@[i])
}

impl VecFunctor {
    /// Traverses `fa` with the identity as inner effect: applies `f` to each
    /// element, first to last, and combines the bare results by the
    /// identity's law, which is plain mapping.
    pub fn traverse_identity<A, B, G: Fn(A) -> B>(f: G, fa: Vec<A>) -> (r: Vec<B>)
        requires
            forall|a: A| call_requires(f, (a,)),
        ensures
            traversed_seq_identity(f, fa, r),
    {
        let ghost orig = fa@;
        let mut rest = fa;
        let empty: Vec<B> = Vec::new();
        let ghost start = empty;
        let mut result: Vec<B> = <IdentityFunctor as control::Applicative<Vec<B>, B, Vec<B>>>::pure(empty);
        proof {
            assert(seq![result][0] == result && seq![start][0] == start);
        }
        while rest.len() > 0
            invariant
                forall|a: A| call_requires(f, (a,)),
                result@.len() + rest@.len() == orig.len(),
                rest@ == orig.subrange(result@.len() as int, orig.len() as int),
                forall|i: int| 0 <= i < result@.len() ==> call_ensures(f, (orig[i],), #[trigger] result@[i]),
            decreases rest@.len(),
        {
            let a = rest.remove(0);
            let b = f(a);
            result = <IdentityFunctor as control::Applicative<Vec<B>, B, Vec<B>>>::zip_with(push_back, result, b);
        }
        result
    }
}

impl OptionFunctor {
    /// Traverses `fa` with the identity as inner effect: an absent value
    /// stays absent without a call; a present one holds the call's result.
    pub fn traverse_identity<A, B, G: Fn(A) -> B>(f: G, fa: Option<A>) -> (r: Option<B>)
        requires
            forall|a: A| call_requires(f, (a,)),
        ensures
            fa is None ==> r is None,
            fa is Some ==> r is Some && call_ensures(f, (fa->Some_0,), r->Some_0),
    {
        match fa {
            Some(a) => {
                let present = |b: B| -> (o: Option<B>)
                    ensures
                        o == Some(b),
                {
                    Some(b)
                };
                let e = f(a);
                let ghost given = e;
                let r = <IdentityFunctor as control::Functor<B, Option<B>>>::fmap(present, e);
                proof {
                    assert(seq![given][0] == given && seq![r][0] == r);
                }
                r
            },
            None => {
                let r = <IdentityFunctor as control::Applicative<Option<B>, Option<B>, Option<B>>>::pure(None);
                proof {
                    assert(seq![r][0] == r && seq![None::<B>][0] == None::<B>);
                }
                r
            },
        }
    }
}

impl<E> ResultFunctor<E> {
    /// Traverses `fa` with the identity as inner effect: an error passes
    /// through without a call; a success holds the call's result.
    pub fn traverse_identity<A, B, G: Fn(A) -> B>(f: G, fa: Result<A, E>) -> (r: Result<B, E>)
        requires
            forall|a: A| call_requires(f, (a,)),
        ensures
            fa is Err ==> r == Err::<B, E>(fa->Err_0),
            fa is Ok ==> r is Ok && call_ensures(f, (fa->Ok_0,), r->Ok_0),
    {
        match fa {
            Ok(a) => {
                let success = |b: B| -> (o: Result<B, E>)
                    ensures
                        o == Ok::<B, E>(b),
                {
                    Ok(b)
                };
                let e = f(a);
                let ghost given = e;
                let r = <IdentityFunctor as control::Functor<B, Result<B, E>>>::fmap(success, e);
                proof {
                    assert(seq![given][0] == given && seq![r][0] == r);
                }
                r
            },
            Err(e) => {
                let ghost err = e;
                let r = <IdentityFunctor as control::Applicative<Result<B, E>, Result<B, E>, Result<B, E>>>::pure(Err(e));
                proof {
                    assert(seq![r][0] == r && seq![Err::<B, E>(err)][0] == Err::<B, E>(err));
                }
                r
            },
        }
    }
}

} // verus!
