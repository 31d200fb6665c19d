//! Planning logic of a small Linux container runtime.
pub mod cli;
pub mod container;
pub mod digest;
pub mod host;
pub mod image;
pub mod state;
pub mod text;
pub mod utils;
