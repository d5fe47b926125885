//! A read-only file server core: request paths are resolved below a root
//! directory, files are gated by size and name, and directories are turned
//! into sorted listings.

pub mod config;
pub mod constants;
pub mod dispatch;
pub mod files;
pub mod filter;
pub mod listing;
pub mod mime;
pub mod paths;
pub mod response;
pub mod text;
pub mod units;
pub mod url;
