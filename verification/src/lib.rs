pub mod config;
pub mod handlers;
pub mod ids;
pub mod models;
pub mod services;
pub mod telegram;
pub mod text;
