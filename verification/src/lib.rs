//! The logic of a daemon that drives Razer peripherals over hidraw and exposes
//! them on D-Bus: report framing, device discovery, device registration and
//! the bookkeeping behind the bus objects.

pub mod dbus;
pub mod driver;
pub mod manager;
pub mod monitor;
pub mod object_path;
pub mod path;
pub mod path_map;
pub mod poller;
pub mod text;
pub mod udev;
