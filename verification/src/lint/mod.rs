pub mod analysis;
pub mod context;
pub mod diagnostic;
pub mod engine;
pub mod terms;
