pub mod cli;
pub mod config;
pub mod diagnostics;
pub mod keymap;
pub mod model;
pub mod parser;
pub mod render;
pub mod text;
pub mod laws;
