//! Listens to a microphone and nudges whoever speaks too loudly.

pub mod alert;
pub mod app;
pub mod audio;
pub mod autostart;
pub mod binary32;
pub mod bridge;
pub mod config;
pub mod decode;
pub mod detector;
pub mod engine;
pub mod player;
pub mod sounds;
pub mod sysinfo;
pub mod ui;
