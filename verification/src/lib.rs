pub mod text;
pub mod models;
pub mod sorting;
pub mod utils;
pub mod client;
pub mod config;
pub mod json;
pub mod menu;
pub mod printer;
