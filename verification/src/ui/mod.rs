pub mod ansi;
pub mod app;
pub mod command;
pub mod keys;
pub mod markdown;
pub mod render;
pub mod style;
pub mod switcher;
pub mod theme;
