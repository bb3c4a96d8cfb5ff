//! Core engine of a desktop system cleaner: the protected-path safelist, the
//! parsers for package-manager output, the privileged-helper protocol and its
//! replies, the decisions the scanners and cleaners make, and the state of the
//! GNOME and KDE windows.

pub mod text;
pub mod path;
pub mod safety;
pub mod numbers;
pub mod scan;
pub mod types;
pub mod helper_ipc;
pub mod helper;
pub mod helper_steps;
pub mod config;
pub mod progress;
pub mod order;
pub mod fsutil;
pub mod process;
pub mod clean;
pub mod kernel_order;
pub mod engine;
pub mod frontend;
pub mod gnome_app;
pub mod kde_controller;
