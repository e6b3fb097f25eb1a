pub mod config;
pub mod order;
pub mod output;
pub mod patterns;
pub mod playlist;
pub mod schedule;
pub mod selection;
pub mod server;
pub mod speedtest;
pub mod state;
pub mod task;
pub mod text;
pub mod types;
pub mod urls;
