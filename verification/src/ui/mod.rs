//! The terminal interface: its state, the handling of keys, the file browser
//! and the arithmetic of its layout. Drawing stays with the caller.
pub mod theme;
pub mod files;
pub mod app;
pub mod events;
pub mod view;
