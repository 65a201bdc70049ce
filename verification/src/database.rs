pub mod laws;
pub mod nesting;
pub mod rows;
pub mod schema;
pub mod tables;
