pub mod human;
pub mod listing;
pub mod path;
pub mod text;
