//! Reader and writer for kernel component files: a tail-indexed binary
//! container of libraries, classes, procedures and their syntax trees.
pub mod error;
pub mod expr;
pub mod flags;
pub mod names;
pub mod builder;
pub mod codec;
pub mod component;
pub mod node;
pub mod prim;
