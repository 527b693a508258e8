//! Scheduling of Metal command buffers and encoders.

pub mod commands;
pub mod exchange;
pub mod laws;
