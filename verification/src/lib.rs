pub mod app;
pub mod cli;
pub mod clipboard;
pub mod config;
pub mod modes;
pub mod protocol;
pub mod search;
pub mod state;
pub mod text;
pub mod renderer;
