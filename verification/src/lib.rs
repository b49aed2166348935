pub mod text;
pub mod auth;
pub mod vars;
pub mod config;
pub mod draft;
pub mod routes;
pub mod handler;
