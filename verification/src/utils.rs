//! Small shared utilities.

pub mod bitmap;
