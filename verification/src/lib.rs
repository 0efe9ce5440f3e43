//! The decisions of a tool that keeps a local directory and a directory on an
//! Android device in step.
pub mod cli;
pub mod config;
pub mod number;
pub mod path;
pub mod path_laws;
pub mod text;
pub mod text_laws;
