//! Laws that the containers' combination and traversal satisfy, stated over
//! the contracts of the operations.

use vstd::prelude::*;

use super::data::{
    applied, mapped, option_items, result_items, succeeds, traversed_option_option, traversed_result_result,
    traversed_seq_identity, traversed_seq_option, traversed_seq_result, zipped, Applicative,
};
use super::{IdentityFunctor, OptionFunctor, ResultFunctor, VecFunctor, ZipVecFunctor};

verus! {

/// `g` gives back its argument on every call.
pub open spec fn is_identity<B, G: FnOnce(B) -> B>(g: G) -> bool {
    forall|x: B, y: B| call_ensures(g, (x,), y) ==> y == x
}

/// Applying a bare identity function to a bare value gives the value, and
/// applying a bare function to a bare value gives the result of one call.
pub proof fn lemma_identity_laws<B, G: FnOnce(B) -> B>(g: G, v: B, r: B)
    requires
        applied::<IdentityFunctor, G, B, B>(g, v, r),
    ensures
        call_ensures(g, (v,), r),
        is_identity(g) ==> r == v,
{
    assert(call_ensures(g, (seq![v][0],), seq![r][0]));
}

/// Applying a present identity function to an optional value gives the value.
pub proof fn lemma_option_identity<B, G: FnOnce(B) -> B>(g: G, v: Option<B>, r: Option<B>)
    requires
        is_identity(g),
        applied::<OptionFunctor, G, B, B>(Some(g), v, r),
    ensures
        r == v,
{
    if v is Some {
        assert(option_items(r)[0] == r->Some_0);
        assert(option_items(v)[0] == v->Some_0);
    }
}

/// Applying a successful identity function to a result gives the result.
pub proof fn lemma_result_identity<B, E, G: FnOnce(B) -> B>(g: G, v: Result<B, E>, r: Result<B, E>)
    requires
        is_identity(g),
        applied::<ResultFunctor<E>, G, B, B>(Ok(g), v, r),
    ensures
        r == v,
{
    if v is Ok {
        assert(result_items(r)[0] == r->Ok_0);
        assert(result_items(v)[0] == v->Ok_0);
    }
}

/// Applying the one-element sequence of an identity function to a sequence
/// of at most one element gives that sequence; a longer one is cut to its
/// first element, since the combination pairs by position.
pub proof fn lemma_seq_identity<B, G: FnOnce(B) -> B>(gs: Vec<G>, v: Vec<B>, r: Vec<B>)
    requires
        gs@.len() == 1,
        is_identity(gs@[0]),
        v@.len() <= 1,
        applied::<VecFunctor, G, B, B>(gs, v, r),
    ensures
        r@ == v@,
{
    if v@.len() == 1 {
        assert(call_ensures(gs@[0], (v@[0],), r@[0]));
    }
    assert(r@ =~= v@);
}

/// Applying a present function to a present value gives the present result
/// of one call.
pub proof fn lemma_option_homomorphism<A, B, G: FnOnce(A) -> B>(g: G, x: A, r: Option<B>)
    requires
        applied::<OptionFunctor, G, A, B>(Some(g), Some(x), r),
    ensures
        r is Some,
        call_ensures(g, (x,), r->Some_0),
{
    assert(option_items(r)[0] == r->Some_0);
}

/// Applying a successful function to a successful value gives the successful
/// result of one call.
pub proof fn lemma_result_homomorphism<A, B, E, G: FnOnce(A) -> B>(g: G, x: A, r: Result<B, E>)
    requires
        applied::<ResultFunctor<E>, G, A, B>(Ok(g), Ok(x), r),
    ensures
        r is Ok,
        call_ensures(g, (x,), r->Ok_0),
{
    assert(result_items(r)[0] == r->Ok_0);
}

/// Applying a one-element sequence of a function to a one-element sequence
/// gives the one-element sequence of the call's result.
pub proof fn lemma_seq_homomorphism<A, B, G: FnOnce(A) -> B>(gs: Vec<G>, xs: Vec<A>, r: Vec<B>)
    requires
        gs@.len() == 1,
        xs@.len() == 1,
        applied::<VecFunctor, G, A, B>(gs, xs, r),
    ensures
        r@.len() == 1,
        call_ensures(gs@[0], (xs@[0],), r@[0]),
{
}

/// Optional values combine to an absence as soon as either side is absent.
pub proof fn lemma_option_short_circuit<A, B, C, F: FnOnce(A, B) -> C>(
    f: F,
    fa: Option<A>,
    fb: Option<B>,
    r: Option<C>,
)
    requires
        zipped::<OptionFunctor, A, B, C, F>(f, fa, fb, r),
    ensures
        fa is None || fb is None ==> r is None,
        fa is Some && fb is Some ==> r is Some && call_ensures(f, (fa->Some_0, fb->Some_0), r->Some_0),
{
    if r is Some {
        assert(option_items(r)[0] == r->Some_0);
        assert(option_items(fa)[0] == fa->Some_0);
        assert(option_items(fb)[0] == fb->Some_0);
    }
}

/// Results combine to the left error if there is one, else to the right
/// error if there is one, else to the success of one call.
pub proof fn lemma_result_short_circuit<A, B, C, E, F: FnOnce(A, B) -> C>(
    f: F,
    fa: Result<A, E>,
    fb: Result<B, E>,
    r: Result<C, E>,
)
    requires
        zipped::<ResultFunctor<E>, A, B, C, F>(f, fa, fb, r),
    ensures
        fa is Err ==> r == Err::<C, E>(fa->Err_0),
        fa is Ok && fb is Err ==> r == Err::<C, E>(fb->Err_0),
        fa is Ok && fb is Ok ==> r is Ok && call_ensures(f, (fa->Ok_0, fb->Ok_0), r->Ok_0),
{
    if r is Ok {
        assert(result_items(r)[0] == r->Ok_0);
        assert(result_items(fa)[0] == fa->Ok_0);
        assert(result_items(fb)[0] == fb->Ok_0);
    }
}

/// A positional combination of two sequences is as long as the shorter one.
pub proof fn lemma_zip_length<A, B, C, F: FnOnce(A, B) -> C>(f: F, fa: Vec<A>, fb: Vec<B>, r: Vec<C>, z: Vec<C>)
    requires
        zipped::<VecFunctor, A, B, C, F>(f, fa, fb, r),
        zipped::<ZipVecFunctor, A, B, C, F>(f, fa, fb, z),
    ensures
        r@.len() == if fa@.len() <= fb@.len() { fa@.len() } else { fb@.len() },
        z@.len() == if fa@.len() <= fb@.len() { fa@.len() } else { fb@.len() },
{
}

/// Traversing a sequence with calls that always give a value gives a
/// present sequence of the same length, holding each call's value in order.
pub proof fn lemma_traverse_seq_option_total<A, B>(
    outcome: spec_fn(A, Option<B>) -> bool,
    fa: Vec<A>,
    r: Option<Vec<B>>,
)
    requires
        forall|a: A, o: Option<B>| #[trigger] outcome(a, o) ==> o is Some,
        traversed_seq_option(outcome, fa, r),
    ensures
        r is Some,
        r->Some_0@.len() == fa@.len(),
        forall|i: int| 0 <= i < fa@.len() ==> outcome(fa@[i], Some(#[trigger] r->Some_0@[i])),
{
}

/// Traversing a sequence with calls that always succeed gives a
/// success of the same length, holding each call's value in order.
pub proof fn lemma_traverse_seq_result_total<A, B, E>(
    outcome: spec_fn(A, Result<B, E>) -> bool,
    fa: Vec<A>,
    r: Result<Vec<B>, E>,
)
    requires
        forall|a: A, o: Result<B, E>| #[trigger] outcome(a, o) ==> o is Ok,
        traversed_seq_result(outcome, fa, r),
    ensures
        r is Ok,
        r->Ok_0@.len() == fa@.len(),
        forall|i: int| 0 <= i < fa@.len() ==> outcome(fa@[i], Ok::<B, E>(#[trigger] r->Ok_0@[i])),
{
}

/// Traversing a sequence with calls that give one outcome per value
/// fails with the error of the leftmost value on which it fails.
pub proof fn lemma_traverse_seq_result_first_error<A, B, E>(
    outcome: spec_fn(A, Result<B, E>) -> bool,
    fa: Vec<A>,
    k: int,
    e: E,
    r: Result<Vec<B>, E>,
)
    requires
        forall|a: A, x: Result<B, E>, y: Result<B, E>|
            #[trigger] outcome(a, x) && #[trigger] outcome(a, y) ==> x == y,
        0 <= k < fa@.len(),
        outcome(fa@[k], Err::<B, E>(e)),
        forall|j: int| 0 <= j < k ==> succeeds(outcome, #[trigger] fa@[j]),
        traversed_seq_result(outcome, fa, r),
    ensures
        r == Err::<Vec<B>, E>(e),
{
    if r is Ok {
        assert(outcome(fa@[k], Ok::<B, E>(r->Ok_0@[k])));
    } else {
        let i = choose|i: int|
            0 <= i < fa@.len() && outcome(fa@[i], Err::<B, E>(r->Err_0)) && forall|j: int|
                0 <= j < i ==> succeeds(outcome, #[trigger] fa@[j]);
        if i < k {
            assert(succeeds(outcome, fa@[i]));
            let b = choose|b: B| outcome(fa@[i], Ok::<B, E>(b));
        } else if i > k {
            assert(succeeds(outcome, fa@[k]));
            let b = choose|b: B| outcome(fa@[k], Ok::<B, E>(b));
        }
    }
}

/// Traversing an optional value with calls that always give a value
/// gives a present value of the same shape.
pub proof fn lemma_traverse_option_total<A, B>(
    outcome: spec_fn(A, Option<B>) -> bool,
    fa: Option<A>,
    r: Option<Option<B>>,
)
    requires
        forall|a: A, o: Option<B>| #[trigger] outcome(a, o) ==> o is Some,
        traversed_option_option(outcome, fa, r),
    ensures
        r is Some,
        r->Some_0 is Some <==> fa is Some,
        fa is Some ==> outcome(fa->Some_0, r->Some_0),
{
}

/// Traversing a result with calls that always succeed gives a success
/// of the same shape: the same error, or the call's value.
pub proof fn lemma_traverse_result_total<A, B, E, E2>(
    outcome: spec_fn(A, Result<B, E2>) -> bool,
    fa: Result<A, E>,
    r: Result<Result<B, E>, E2>,
)
    requires
        forall|a: A, o: Result<B, E2>| #[trigger] outcome(a, o) ==> o is Ok,
        traversed_result_result(outcome, fa, r),
    ensures
        r is Ok,
        fa is Err ==> r->Ok_0 == Err::<B, E>(fa->Err_0),
        fa is Ok ==> r->Ok_0 is Ok && outcome(fa->Ok_0, Ok::<B, E2>(r->Ok_0->Ok_0)),
{
}

/// Traversing a sequence with the identity as inner effect is mapping: with
/// a function that gives one result per value, it equals `dmap`.
pub proof fn lemma_traverse_identity_is_map<A, B, G: Fn(A) -> B>(f: G, fa: Vec<A>, r: Vec<B>, m: Vec<B>)
    requires
        forall|a: A, x: B, y: B| call_ensures(f, (a,), x) && call_ensures(f, (a,), y) ==> x == y,
        traversed_seq_identity(f, fa, r),
        mapped::<VecFunctor, A, B, G>(f, fa, m),
    ensures
        r@ == m@,
{
    assert forall|i: int| 0 <= i < r@.len() implies r@[i] == m@[i] by {
        assert(call_ensures(f, (fa@[i],), r@[i]));
        assert(call_ensures(f, (fa@[i],), m@[i]));
    }
    assert(r@ =~= m@);
}

} // verus!
