pub mod cache;
pub mod config;
pub mod diagnostic;
pub mod path;
pub mod reporter;
pub mod rules;
pub mod text;
pub mod token;
pub mod tree;
