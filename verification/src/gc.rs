//! The managed heap: blocks of objects, roots, the collector, deep copies.

pub mod into;
pub mod print;
pub mod root;
pub mod trace;
pub mod arena;
pub mod block;
pub mod copy;
pub mod equal;
