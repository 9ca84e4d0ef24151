//! A parser and lazy evaluator for a small functional language whose programs
//! are written as whitespace-separated tokens over a base-94 alphabet.
//!
//! * [`ast`] holds the expression tree and its mathematical view.
//! * [`codec`] converts between the wire alphabet and native strings and integers.
//! * [`reader`] splits a program text into tokens and groups them into a raw tree.
//! * [`parser`] turns a raw tree into an expression and renames bound variables.
//! * [`semantics`] defines the reduction relation as specification functions.
//! * [`executor`] implements that relation.
//! * [`error`] lists the ways parsing and evaluation fail.

pub mod ast;
pub mod codec;
pub mod error;
pub mod executor;
pub mod parser;
pub mod reader;
pub mod semantics;
