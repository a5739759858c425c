pub mod cli;
pub mod config;
pub mod helper;
pub mod procutil;
pub mod runtime;
pub mod state;
pub mod system;
pub mod text;
