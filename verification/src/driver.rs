//! The driver: how devices are asked for things, and how they answer.

pub mod chroma;
pub mod devices;
pub mod protocol;
