//! The data that the pipeline ends in.

pub mod elements;
