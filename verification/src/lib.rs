//! Gemma 4 inference with machine-checked contracts.
//!
//! The crate holds the decision logic of the Gemma 4 text models: the packed-weight model that is
//! loaded from GGUF metadata and tensors, the float model that is loaded from named parameters, and
//! the command scheduling of the Metal backend. Tensors are computed by `candle-core` and
//! `candle-nn`; every tensor carries a ghost expression that records which operations produced it,
//! and the contracts speak of those expressions, of shapes, and of the integers that drive them.

pub mod attention;
pub mod error;
pub mod formulas;
pub mod generation;
pub mod heads;
pub mod mask;
pub mod meaning;
pub mod metal;
pub mod names;
pub mod quantized_gemma4;
pub mod rotary;
pub mod routing;
pub mod tensor;
pub mod text;
