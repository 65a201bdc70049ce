pub mod archive;
pub mod controllers;
pub mod routes;
