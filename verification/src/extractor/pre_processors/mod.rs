//! Rewrites of a buffer that are applied before extraction.

pub mod pre_processor;
pub mod ruby;
