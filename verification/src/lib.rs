//! Aperio: an MCP server that exposes an Obsidian vault to AI agents.
//!
//! This crate holds the server's logic: how notes and their frontmatter are
//! read, how tool replies are rendered, how the status page judges the vault,
//! how configuration is derived from the environment and how bearer tokens are
//! checked. The binary around it performs the file, network and HTTP work.
pub mod text;
pub mod paths;
pub mod vault;
pub mod config;
pub mod status;
pub mod tools;
pub mod error;
pub mod keys;
pub mod validation;
pub mod auth;
