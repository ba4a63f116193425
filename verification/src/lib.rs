//! A builder that collects the statements of a small C program and
//! renders them as source text.
//!
//! A [`Code`] value holds the names of the header files the program
//! needs, the statements of its `main` function, and the value `main`
//! returns. Statements are given as typed values ([`CArg`], [`VarInit`]),
//! and every function states in its contract the exact text it produces.

pub mod code;
pub mod decimal;
pub mod escape;
pub mod text;
pub mod value;

pub use code::{Code, Program};
pub use value::{CArg, VarInit, VarTypes};
