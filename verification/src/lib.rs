//! Decisions and data of the WebSocket Reflector X desktop daemon and tray.
pub mod text;
pub mod tray;
pub mod daemon;
