//! The server: rules, the devices that they bind, and how it is managed.

pub mod discovery_udp;
pub mod laws;
pub mod rules;
pub mod udev_watch;
pub mod usb;
pub mod web;
