//! Core of an Emacs-Lisp runtime: tagged values, the managed heap that owns
//! what they point to, the collector, and the function model.

pub mod casefiddle;
pub mod elprop;
pub mod error;
pub mod gc;
pub mod object;
