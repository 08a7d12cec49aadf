//! The Rust provider: crates.io metadata and docs.rs pages.
pub mod fetch;
pub mod target;
