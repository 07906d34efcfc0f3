//! Tab and session lifecycle for a multi-provider media player shell.

pub mod catalog;
pub mod laws;
pub mod layout;
pub mod playback;
pub mod session;
pub mod successor;
pub mod tab;
pub mod title;
pub mod trusted;
pub mod tabs_state;
