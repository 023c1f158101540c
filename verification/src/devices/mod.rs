//! What devices of a platform have in common.

pub mod display;
