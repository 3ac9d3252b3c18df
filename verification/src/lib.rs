//! A 64-bit FNV-1a hash accumulator with machine-checked contracts.
//!
//! [`FnvHasher`] folds bytes into a 64-bit state, one XOR and one wrapping
//! multiplication per byte. The module [`fnv1a`] holds the mathematical
//! definition of the hash and the laws proved of it.

pub mod fnv1a;
pub mod hasher;

pub use hasher::FnvHasher;
