//! The client: finding servers, listing and attaching their devices.

pub mod attach;
pub mod console;
pub mod discovery;
pub mod gui;
pub mod indices;
pub mod laws;
pub mod privilege;
pub mod session;
pub mod usbip;
pub mod view;
