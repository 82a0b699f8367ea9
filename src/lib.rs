pub mod auth;
pub mod claims;
pub mod models;
pub mod process;
pub mod reply;
pub mod store;
pub mod supervisor;
pub mod text;
