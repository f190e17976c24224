//! What the settings window shows.


pub mod calibrate;
pub mod history;
pub mod icons;
pub mod meter;
pub mod settings;
pub mod theme;
