//! Generates a project from a template: a file tree is loaded from an origin,
//! the placeholders its specification declares are answered, and every file is
//! rendered with those answers and written out under a destination.

pub mod text;
pub mod tree;
pub mod specification;
pub mod prompt;
pub mod render;
pub mod write;
pub mod service;
