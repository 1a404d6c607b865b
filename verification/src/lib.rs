pub mod commands;
pub mod error;
pub mod models;
pub mod services;
pub mod text;
