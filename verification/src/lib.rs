//! Launching macOS applications through a proxy: the configuration, the
//! discovery of installed applications, the launch command, and the
//! keyboard-driven state machine of the terminal interface.
pub mod apps;
pub mod behaviour;
pub mod config;
pub mod key;
pub mod launch;
pub mod laws;
pub mod path;
pub mod proxy;
pub mod screen;
pub mod state;
pub mod terminal;
pub mod text;
pub mod theme;
