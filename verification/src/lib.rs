//! A small multilayer perceptron: forward inference and backpropagation with
//! momentum, over binary64 numbers held as their bit patterns.
//!
//! The arithmetic itself is not part of this crate. Every operation that
//! computes takes an arithmetic unit, a function from an
//! [`arithmetic::Operation`] to its result. The contracts say which operations
//! a result is built from, and in which order: whatever
//! [`arithmetic::Arithmetic`] the unit realises, the result is the stated
//! expression in it.

pub mod arithmetic;
pub mod error;
pub mod laws;
pub mod layers;
pub mod network;
pub mod neurons;
