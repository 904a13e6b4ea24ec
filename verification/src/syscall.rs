//! System calls.

pub mod sync;
