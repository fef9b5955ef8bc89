//! Hotspot Hub: the logic of a read-only dashboard for a phone's Wi-Fi
//! hotspot session — counting connected devices from the kernel's tables,
//! turning periodic samples into session health, traffic and speed, keeping
//! bounded trends, and the texts the dashboard shows.

pub mod cache;
pub mod connected_devices;
pub mod format;
pub mod model;
pub mod monitor;
pub mod netlink;
pub mod platform;
pub mod reducer;
pub mod ring_buffer;
pub mod sources;
pub mod text;
