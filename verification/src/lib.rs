//! apix: API endpoint documentation vaults, verified core.

pub mod build;
pub mod cli;
pub mod config;
pub mod error;
pub mod exec;
pub mod inventory;
pub mod output;
pub mod paths;
pub mod registry;
pub mod search;
pub mod text;
pub mod vault;
