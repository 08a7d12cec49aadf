//! The C# provider: NuGet packages and their READMEs.
pub mod fetch;
pub mod project;
pub mod target;
