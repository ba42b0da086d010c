//! The benchmark: its command line, its queries, its servers and its figures.
pub mod args;
pub mod fixture;
pub mod laws;
pub mod responder;
pub mod signing;
pub mod stats;
