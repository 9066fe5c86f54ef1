//! SmartPaper: the rotation, discovery and control logic of a wallpaper daemon.

pub mod model;
pub mod paths;
pub mod ipc;
pub mod library;
pub mod media;
pub mod playlist;
pub mod rotation;
pub mod watch;
pub mod gui;
