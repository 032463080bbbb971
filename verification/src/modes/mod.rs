pub mod clipboard;
pub mod exec;
pub mod fetch;
pub mod launcher;
pub mod script;
pub mod switcher;
pub mod tool;
