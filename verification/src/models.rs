pub mod account;
pub mod audiobook;
pub mod hex;
pub mod position;
