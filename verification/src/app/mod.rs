//! The editor: what a keystroke converts, and the state a session keeps.

pub mod controller;
pub mod state;
