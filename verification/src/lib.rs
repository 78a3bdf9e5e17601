//! The rules of a portable identity registry for coding-agent sessions:
//! each stable session ID gets a permanent human-readable name, found again
//! by its session ID, its canonical name or its slug.
pub mod activity;
pub mod annotation;
pub mod cli;
pub mod discovery;
pub mod error;
pub mod hashing;
pub mod names;
pub mod naming;
pub mod prime;
pub mod registry;
pub mod text;
pub mod timestamp;
