//! Structured `scholium::mark` annotations: parsing of the attribute arguments,
//! report identifiers, configuration resolution and report rendering.
pub mod arguments;
pub mod cli;
pub mod config;
pub mod definitions;
pub mod elements;
pub mod format_results;
pub mod format_source_error;
pub mod ident;
pub mod listing;
pub mod order;
pub mod outside;
pub mod packages;
pub mod render;
pub mod reports;
pub mod setup;
pub mod text;
pub mod tokens;
