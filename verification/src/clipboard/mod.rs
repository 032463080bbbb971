pub mod client;
pub mod daemon;
pub mod models;
pub mod store;
pub mod watcher;
