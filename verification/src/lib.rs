//! Verified core of the usbip tools.

pub mod client;
pub mod failure;
pub mod net;
pub mod number;
pub mod process;
pub mod protocol;
pub mod server;
pub mod text;
pub mod text_set;
