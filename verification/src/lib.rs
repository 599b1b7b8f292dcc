//! A string interning cache: arbitrary byte strings are mapped to a single
//! canonical stored copy, and callers receive a cheap handle whose equality,
//! ordering and hashing stand in for the corresponding operations on the
//! underlying bytes.

pub mod bumpalloc;
pub mod bytestr;
pub mod cache;
pub mod containers;
pub mod handle;
pub mod hashing;
