//! A scalable Bloom filter engine: a probabilistic set-membership structure
//! made of layered fixed-size Bloom filters that grows by appending layers,
//! together with the command-level parameter validation and the command
//! handlers that drive it.

pub mod config;
pub mod errors;
pub mod hashing;
pub mod sizing;
pub mod bits;
pub mod params;
pub mod parse;
pub mod sub_filter;
pub mod bloom_filter;
pub mod laws;
pub mod commands;
