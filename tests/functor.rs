use recursion_schemes::functor::control::{Applicative, Functor, Monad};
use recursion_schemes::functor::data;
use recursion_schemes::functor::data::Traversable;
use recursion_schemes::functor::{IdentityFunctor, OptionFunctor, ResultFunctor, VecFunctor, ZipVecFunctor};

type Res = ResultFunctor<String>;

fn err<T>(s: &str) -> Result<T, String> {
    Err(s.to_string())
}

#[test]
fn dmap_keeps_shape() {
    assert_eq!(<OptionFunctor as data::Functor<i32, i32>>::dmap(|x: i32| x * 2, Some(4)), Some(8));
    assert_eq!(<OptionFunctor as data::Functor<i32, i32>>::dmap(|x: i32| x * 2, None), None);
    assert_eq!(<Res as data::Functor<i32, i32>>::dmap(|x: i32| x + 1, Ok(1)), Ok(2));
    assert_eq!(<Res as data::Functor<i32, i32>>::dmap(|x: i32| x + 1, err("bad")), err("bad"));
    assert_eq!(<VecFunctor as data::Functor<i32, i32>>::dmap(|x: i32| x * x, vec![1, 2, 3]), vec![1, 4, 9]);
    assert_eq!(<ZipVecFunctor as data::Functor<i32, i32>>::dmap(|x: i32| -x, vec![5, 6]), vec![-5, -6]);
    assert_eq!(<VecFunctor as data::Functor<i32, i32>>::dmap(|x: i32| x, Vec::new()), Vec::<i32>::new());
    assert_eq!(<IdentityFunctor as data::Functor<i32, String>>::dmap(|x: i32| x.to_string(), 7), "7");
}

#[test]
fn fmap_keeps_shape() {
    let s = "owned".to_string();
    assert_eq!(<OptionFunctor as Functor<i32, String>>::fmap(move |x: i32| format!("{}{}", s, x), Some(1)), Some("owned1".to_string()));
    assert_eq!(<OptionFunctor as Functor<i32, i32>>::fmap(|x: i32| x + 1, None), None);
    assert_eq!(<Res as Functor<i32, i32>>::fmap(|x: i32| x + 1, err("e")), err("e"));
    assert_eq!(<Res as Functor<i32, i32>>::fmap(|x: i32| x + 1, Ok(41)), Ok(42));
    assert_eq!(<IdentityFunctor as Functor<i32, i32>>::fmap(|x: i32| x * 3, 3), 9);
}

#[test]
fn constant_and_void_keep_shape() {
    assert_eq!(<VecFunctor as data::Functor<i32, char>>::dconstant('z', vec![1, 2, 3]), vec!['z', 'z', 'z']);
    assert_eq!(<OptionFunctor as data::Functor<i32, char>>::dconstant('z', None), None);
    assert_eq!(<OptionFunctor as Functor<i32, String>>::constant("c".to_string(), Some(1)), Some("c".to_string()));
    assert_eq!(<Res as Functor<i32, u8>>::constant(9, err("x")), err("x"));
    assert_eq!(data::void::<VecFunctor, i32>(vec![4, 5]), vec![(), ()]);
    assert_eq!(recursion_schemes::functor::control::void::<OptionFunctor, i32>(Some(4)), Some(()));
    assert_eq!(recursion_schemes::functor::control::void::<Res, i32>(err("x")), err("x"));
}

#[test]
fn pure_gives_smallest_container() {
    assert_eq!(<OptionFunctor as data::Applicative<i32, i32, i32>>::dpure(3), Some(3));
    assert_eq!(<Res as data::Applicative<i32, i32, i32>>::dpure(3), Ok(3));
    assert_eq!(<VecFunctor as data::Applicative<i32, i32, i32>>::dpure(3), vec![3]);
    assert_eq!(<ZipVecFunctor as data::Applicative<i32, i32, i32>>::dpure(3), vec![3]);
    assert_eq!(<IdentityFunctor as data::Applicative<i32, i32, i32>>::dpure(3), 3);
    assert_eq!(<OptionFunctor as Applicative<i32, i32, i32>>::pure(3), Some(3));
    assert_eq!(<Res as Applicative<i32, i32, i32>>::pure(3), Ok(3));
}

#[test]
fn zip_with_sequence_truncates_to_shorter() {
    let r = <VecFunctor as data::Applicative<i32, i32, i32>>::d_zip_with(|a: i32, b: i32| a + b, vec![1, 2, 3], vec![10, 20]);
    assert_eq!(r, vec![11, 22]);
    let r = <ZipVecFunctor as data::Applicative<i32, i32, i32>>::d_zip_with(|a: i32, b: i32| a * b, vec![2], vec![5, 6, 7]);
    assert_eq!(r, vec![10]);
    let r = <VecFunctor as data::Applicative<i32, i32, i32>>::d_zip_with(|a: i32, b: i32| a + b, Vec::new(), vec![1]);
    assert_eq!(r, Vec::<i32>::new());
}

#[test]
fn zip_with_option_needs_both() {
    let add = |a: i32, b: i32| a + b;
    assert_eq!(<OptionFunctor as data::Applicative<i32, i32, i32>>::d_zip_with(add, Some(1), Some(2)), Some(3));
    assert_eq!(<OptionFunctor as data::Applicative<i32, i32, i32>>::d_zip_with(add, None, Some(2)), None);
    assert_eq!(<OptionFunctor as data::Applicative<i32, i32, i32>>::d_zip_with(add, Some(1), None), None);
    assert_eq!(<OptionFunctor as Applicative<i32, i32, i32>>::zip_with(add, Some(1), None), None);
    assert_eq!(<OptionFunctor as Applicative<i32, i32, i32>>::zip_with(add, Some(4), Some(5)), Some(9));
}

#[test]
fn zip_with_result_reports_left_error_first() {
    let add = |a: i32, b: i32| a + b;
    assert_eq!(<Res as data::Applicative<i32, i32, i32>>::d_zip_with(add, err("left"), err("right")), err("left"));
    assert_eq!(<Res as data::Applicative<i32, i32, i32>>::d_zip_with(add, Ok(1), err("right")), err("right"));
    assert_eq!(<Res as data::Applicative<i32, i32, i32>>::d_zip_with(add, Ok(1), Ok(2)), Ok(3));
    assert_eq!(<Res as Applicative<i32, i32, i32>>::zip_with(add, err("l"), err("r")), err("l"));
    assert_eq!(<Res as Applicative<i32, i32, i32>>::zip_with(add, Ok(2), Ok(2)), Ok(4));
    assert_eq!(<IdentityFunctor as Applicative<i32, i32, i32>>::zip_with(add, 2, 3), 5);
}

#[test]
fn zip_map_applies_functions_by_position() {
    let fs: Vec<fn(i32) -> i32> = vec![|x| x + 1, |x| x * 10];
    let r = <VecFunctor as data::Applicative<fn(i32) -> i32, i32, i32>>::d_zip_map(fs, vec![5, 6, 7]);
    assert_eq!(r, vec![6, 60]);
    let g: fn(i32) -> i32 = |x| x - 1;
    assert_eq!(<OptionFunctor as Applicative<fn(i32) -> i32, i32, i32>>::zip_map(Some(g), Some(8)), Some(7));
    assert_eq!(<OptionFunctor as Applicative<fn(i32) -> i32, i32, i32>>::zip_map(None, Some(8)), None);
}

#[test]
fn identity_and_homomorphism_on_concrete_values() {
    let id: fn(i32) -> i32 = |x| x;
    let pure_id = <OptionFunctor as Applicative<fn(i32) -> i32, i32, i32>>::pure(id);
    assert_eq!(<OptionFunctor as Applicative<fn(i32) -> i32, i32, i32>>::zip_map(pure_id, Some(5)), Some(5));
    let pure_id = <Res as Applicative<fn(i32) -> i32, i32, i32>>::pure(id);
    assert_eq!(<Res as Applicative<fn(i32) -> i32, i32, i32>>::zip_map(pure_id, err("e")), err("e"));
    let double: fn(i32) -> i32 = |x| 2 * x;
    let lhs = <OptionFunctor as Applicative<fn(i32) -> i32, i32, i32>>::zip_map(Some(double), Some(21));
    assert_eq!(lhs, <OptionFunctor as Applicative<i32, i32, i32>>::pure(42));
    let single = <VecFunctor as data::Applicative<fn(i32) -> i32, i32, i32>>::dpure(id);
    assert_eq!(<VecFunctor as data::Applicative<fn(i32) -> i32, i32, i32>>::d_zip_map(single, vec![9]), vec![9]);
}

#[test]
fn and_then_short_circuits() {
    let half = |x: i32| if x % 2 == 0 { Some(x / 2) } else { None };
    assert_eq!(<OptionFunctor as Monad<i32, i32>>::and_then(Some(8), half), Some(4));
    assert_eq!(<OptionFunctor as Monad<i32, i32>>::and_then(Some(3), half), None);
    assert_eq!(<OptionFunctor as Monad<i32, i32>>::and_then(None, half), None);
    let check = |x: i32| if x > 0 { Ok(x) } else { err("non-positive") };
    assert_eq!(<Res as Monad<i32, i32>>::and_then(Ok(2), check), Ok(2));
    assert_eq!(<Res as Monad<i32, i32>>::and_then(Ok(-2), check), err("non-positive"));
    assert_eq!(<Res as Monad<i32, i32>>::and_then(err("earlier"), check), err("earlier"));
    assert_eq!(<IdentityFunctor as Monad<i32, i32>>::and_then(4, |x: i32| x + 1), 5);
}

#[test]
fn traverse_sequence_of_present_values() {
    let r = <VecFunctor as Traversable<Option<i32>, Option<i32>>>::traverse(|o: Option<i32>| o, vec![Some(1), Some(2), Some(3)]);
    assert_eq!(r, Some(vec![1, 2, 3]));
}

#[test]
fn traverse_sequence_with_an_absent_value() {
    let r = <VecFunctor as Traversable<Option<i32>, Option<i32>>>::traverse(|o: Option<i32>| o, vec![Some(1), None, Some(3)]);
    assert_eq!(r, None);
}

#[test]
fn traverse_empty_sequence() {
    let r = <VecFunctor as Traversable<i32, Option<i32>>>::traverse(|x: i32| Some(x), Vec::new());
    assert_eq!(r, Some(Vec::new()));
}

#[test]
fn traverse_sequence_always_succeeding_transforms_in_order() {
    let r = <VecFunctor as Traversable<i32, Option<String>>>::traverse(|x: i32| Some(x.to_string()), vec![3, 1, 2]);
    assert_eq!(r, Some(vec!["3".to_string(), "1".to_string(), "2".to_string()]));
    let r = <VecFunctor as Traversable<i32, Result<i32, String>>>::traverse(|x: i32| Ok(x * 2), vec![1, 2]);
    assert_eq!(r, Ok(vec![2, 4]));
}

#[test]
fn traverse_sequence_reports_leftmost_error() {
    let check = |x: i32| if x >= 0 { Ok(x) } else { Err(format!("negative at {}", x)) };
    let r = <VecFunctor as Traversable<i32, Result<i32, String>>>::traverse(check, vec![1, -2, 3, -4]);
    assert_eq!(r, err("negative at -2"));
}

#[test]
fn traverse_optional_and_fallible_outer() {
    let half = |x: i32| if x % 2 == 0 { Some(x / 2) } else { None };
    assert_eq!(<OptionFunctor as Traversable<i32, Option<i32>>>::traverse(half, Some(4)), Some(Some(2)));
    assert_eq!(<OptionFunctor as Traversable<i32, Option<i32>>>::traverse(half, Some(3)), None);
    assert_eq!(<OptionFunctor as Traversable<i32, Option<i32>>>::traverse(half, None), Some(None));
    let check = |x: i32| if x > 0 { Ok(x) } else { err("bad") };
    assert_eq!(<OptionFunctor as Traversable<i32, Result<i32, String>>>::traverse(check, Some(1)), Ok(Some(1)));
    assert_eq!(<OptionFunctor as Traversable<i32, Result<i32, String>>>::traverse(check, Some(0)), err("bad"));
    assert_eq!(<OptionFunctor as Traversable<i32, Result<i32, String>>>::traverse(check, None), Ok(None));
    assert_eq!(<ResultFunctor<u8> as Traversable<i32, Option<i32>>>::traverse(half, Ok(6)), Some(Ok(3)));
    assert_eq!(<ResultFunctor<u8> as Traversable<i32, Option<i32>>>::traverse(half, Ok(5)), None);
    assert_eq!(<ResultFunctor<u8> as Traversable<i32, Option<i32>>>::traverse(half, Err(7)), Some(Err(7)));
    assert_eq!(<ResultFunctor<u8> as Traversable<i32, Result<i32, String>>>::traverse(check, Ok(2)), Ok(Ok(2)));
    assert_eq!(<ResultFunctor<u8> as Traversable<i32, Result<i32, String>>>::traverse(check, Ok(-1)), err("bad"));
    assert_eq!(<ResultFunctor<u8> as Traversable<i32, Result<i32, String>>>::traverse(check, Err(1)), Ok(Err(1)));
    assert_eq!(<IdentityFunctor as Traversable<i32, Option<i32>>>::traverse(half, 10), Some(5));
}

#[test]
fn traverse_with_identity_effect_is_mapping() {
    let double = |x: i32| x * 2;
    let v = vec![3, 1, 2];
    assert_eq!(VecFunctor::traverse_identity(double, v.clone()), <VecFunctor as data::Functor<i32, i32>>::dmap(double, v));
    assert_eq!(VecFunctor::traverse_identity(double, Vec::new()), Vec::<i32>::new());
    assert_eq!(OptionFunctor::traverse_identity(double, Some(4)), Some(8));
    assert_eq!(OptionFunctor::traverse_identity(double, None), None);
    assert_eq!(ResultFunctor::<String>::traverse_identity(double, Ok(5)), Ok(10));
    assert_eq!(ResultFunctor::<String>::traverse_identity(double, err("kept")), err("kept"));
}

#[test]
fn zip_map_of_mapped_closures_is_positional_zip() {
    let adders = <VecFunctor as data::Functor<i32, Box<dyn Fn(i32) -> i32>>>::dmap(
        |a: i32| -> Box<dyn Fn(i32) -> i32> { Box::new(move |b: i32| a + b) },
        vec![1, 2, 3],
    );
    let r = <VecFunctor as data::Applicative<Box<dyn Fn(i32) -> i32>, i32, i32>>::d_zip_map(adders, vec![10, 20]);
    assert_eq!(r, vec![11, 22]);
}

#[test]
fn zip_map_pure_identity_on_sequences() {
    let id: fn(i32) -> i32 = |x| x;
    let single = <ZipVecFunctor as data::Applicative<fn(i32) -> i32, i32, i32>>::dpure(id);
    assert_eq!(<ZipVecFunctor as data::Applicative<fn(i32) -> i32, i32, i32>>::d_zip_map(single, vec![4, 5]), vec![4]);
    let none: Vec<fn(i32) -> i32> = vec![id];
    assert_eq!(<VecFunctor as data::Applicative<fn(i32) -> i32, i32, i32>>::d_zip_map(none, Vec::new()), Vec::<i32>::new());
}
