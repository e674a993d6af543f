//! A tree-walking interpreter for a small prototype-based scripting language
//! of the ECMAScript family.
//!
//! A [`Program`] is evaluated on a [`Heap`], an arena of objects that also
//! holds the scope chain. Evaluation keeps the heap's invariant, restores the
//! current scope on every exit path, and yields only references to allocated
//! objects.
//!
//! Limits a user should know of:
//! - A number is an exact integer in the range of `i64`, or `NaN`. Every
//!   result that is not such an integer (a fraction, an overflow, a division
//!   by zero) is `NaN`; there is no `Infinity` and no negative zero.
//! - One evaluation may nest at most [`interpret::DEFAULT_FUEL`] rules deep
//!   (each call takes about ten), and one loop may run at most
//!   [`interpret::LOOP_LIMIT`] iterations; beyond either, evaluation fails
//!   with a `RangeError`.

pub mod number;
pub mod text;
pub mod source;
pub mod ast;
pub mod value;
pub mod object;
pub mod heap;
pub mod interpret;
pub mod runtime;

pub use ast::{Program, JSON};
pub use heap::Heap;
pub use interpret::Interpretable;
pub use number::Num;
pub use object::JSObject;
pub use value::{Exception, Interpreted, JSResult, JSValue, Jump};
