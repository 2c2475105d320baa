//! Dependency analysis for multi-module Maven projects: a streaming XML parser,
//! a document tree, the POM model and the project-wide version resolution.
pub mod maven;
pub mod text;
pub mod xml;
