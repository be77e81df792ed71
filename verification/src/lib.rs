//! Presses and releases virtual keys of a keymapping daemon as the frontmost
//! application and the keyboard input source change.
//!
//! The library holds the rules and no transport: which identifier names a
//! virtual key, which commands a change calls for, what a command looks like on
//! the wire, and how a connection is retried. The program around it owns the
//! socket and the operating system's notifications.

pub mod appvk;
pub mod cmd;
pub mod kanata;
pub mod message;
pub mod run;
pub mod util;
