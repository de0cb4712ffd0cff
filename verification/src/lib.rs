//! Common building blocks: byte and ASCII classification, numeric-string
//! parsing, string joining, a small graph container, and an actor-based
//! event dispatch engine with predicate routing and fail-fast errors.

pub mod ascii;
pub mod byte;
pub mod collections;
pub mod err;
pub mod react;
pub mod reactive;
pub mod str;
