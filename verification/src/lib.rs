//! Core of a small audiobook server: content identifiers, the catalog,
//! position and account tables, directory scanning, archive building and
//! the answers given to clients.

pub mod api;
pub mod database;
pub mod models;
pub mod utils;
