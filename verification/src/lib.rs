//! Key chords, key sequences and key maps for a terminal user interface,
//! with the small command-line argument parser used by its control socket.

pub mod app_event;
pub mod command;
pub mod config_manager;
pub mod event;
pub mod key_chord;
pub mod key_config;
pub mod key_handler;
pub mod key_map;
pub mod key_sequence;
pub mod parser;
pub mod text;

