pub mod cli;
pub mod config;
pub mod latex;
pub mod lint;
pub mod nlp;
pub mod order;
pub mod output;
pub mod rule_id;
pub mod rules;
pub mod text;
