//! The Maven model: descriptors, their mapping from XML, and project-wide
//! dependency resolution.
pub mod common_model;
pub mod metadata;
pub mod pom;
pub mod pom_parser;
pub mod pom_view;
pub mod project;
pub mod settings;
