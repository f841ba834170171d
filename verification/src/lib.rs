pub mod agents;
pub mod api;
pub mod cli;
pub mod config;
pub mod glossary;
pub mod hook;
pub mod install;
pub mod keyed;
pub mod logs;
pub mod model;
pub mod ptt;
pub mod router;
pub mod settings;
pub mod text;
pub mod tray;
pub mod voices;
