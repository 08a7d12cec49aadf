//! The TypeScript provider: npm registry metadata and npmx.dev API docs.
pub mod fetch;
pub mod package;
pub mod target;
