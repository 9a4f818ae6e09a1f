pub mod loader;
pub mod parser;
pub mod project;
pub mod span;
pub mod tree;
pub mod walk;
