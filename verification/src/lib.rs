//! A verified model of the Solidity ABI type system: a recursive type
//! algebra, a parser for type and function-signature strings, a static
//! layout calculator, and a compatibility checker against a small model
//! of a source language's value types.

pub mod compat;
pub mod errors;
pub mod laws;
pub mod layout;
pub mod parse;
pub mod render;
pub mod sig;
pub mod text;
pub mod ty;
