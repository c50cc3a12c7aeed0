//! Compiler core for a declarative bitstream-codec generator.
//!
//! An interface definition — type aliases, structs and C-style enums carrying
//! quantization attributes — is resolved into a `Model`: a named type graph in
//! which every scalar has an exact bit width and an encode/decode transform,
//! and every composite type a packed bit layout.

pub mod ast;
pub mod attr;
pub mod codec;
pub mod error;
pub mod literal;
pub mod model;
pub mod rat;
pub mod quant;
