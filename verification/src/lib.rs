//! Turns package documentation into agent skill files: the verified core.
pub mod cargo;
pub mod cli;
pub mod crate_target;
pub mod detection;
pub mod error;
pub mod html;
pub mod csharp;
pub mod json;
pub mod order;
pub mod providers;
pub mod text;
pub mod typescript;
pub mod run;
pub mod rust;
pub mod search;
pub mod skill;
