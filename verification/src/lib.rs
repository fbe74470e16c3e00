pub mod cache;
pub mod checksum;
pub mod cli;
pub mod config;
pub mod downloader;
pub mod error;
pub mod extract;
pub mod models;
pub mod proton_manager;
pub mod text;
