//! The decisions of a Wayland compositor's bare-metal backend: which devices, connectors and
//! surfaces it knows, which display mode and buffer formats it picks, when it renders again,
//! and what it does when a client commits a surface or asks to move a window.

pub mod compositor;
pub mod formats;
pub mod mode;
pub mod text;
pub mod tty;
pub mod xdg_shell;
