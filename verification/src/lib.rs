//! Project scaffolding engine for full-stack monorepos: the manifest of
//! selectable options, the user's selections, the rules that turn them into
//! configuration files, and the decision logic of the wizard and the
//! template source.

pub mod text;
pub mod strmap;
pub mod manifest;
pub mod selections;
pub mod json;
pub mod generator;
pub mod constants;
pub mod downloader;
pub mod app;
pub mod screens;
pub mod cli;
pub mod init;
pub mod laws;
