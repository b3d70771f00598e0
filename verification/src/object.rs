//! Lisp values: the tagged word, its typed views, and the function model.

pub mod data;
pub mod func;
pub mod handle;
pub mod tag;
pub mod tagged;
