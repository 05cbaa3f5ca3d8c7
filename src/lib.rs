//! Container-polymorphic operations (map, lift, combine, sequence, bind) over a
//! few concrete container shapes, and recursion schemes (fold and unfold) over
//! a small arithmetic expression language.

pub mod expr;
pub mod functor;
pub mod language;

pub use expr::{Expr, ExprF};
pub use language::{Language, Seed};
