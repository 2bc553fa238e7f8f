//! Incremental-compilation support for a TeX engine: content and state
//! hashing, macro and register change tracking, a dependency graph and a
//! memoization cache, plus the integer kernels of the SIMD helpers.

pub mod encoding;
pub mod digests;
pub mod string_map;
pub mod hashing;
pub mod int_map;
pub mod text;
pub mod simd;
pub mod compile;
pub mod bench;
pub mod dependency;
pub mod registers;
pub mod macros;
pub mod cache;
pub mod memo;
pub mod laws;
