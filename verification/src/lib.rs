//! Scoped paths and collection discovery for request workspaces.

pub mod commit;
pub mod config;
pub mod discovery;
pub mod environment;
pub mod error;
pub mod model;
pub mod order;
pub mod paths;
pub mod pattern;
pub mod repository;
pub mod requests;
pub mod scoped;
pub mod text;
pub mod workspaces;
