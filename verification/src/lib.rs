//! Alfred: the verified core of a terminal multiplexer — the pane split tree
//! and its geometry, the workspace/focus state machine, terminal colour
//! conversion, row and span building for the renderer, keyboard translation
//! and platform defaults.

pub mod pane;
pub mod text;
pub mod layout;
pub mod manager;
pub mod emulator;
pub mod renderer;
pub mod input;
pub mod platform;
