//! Verified core of a small chassis-control ("micro KVM") service.
//!
//! The service exposes chassis buttons, status LEDs, an emulated HID
//! keyboard/mouse and an MJPEG video stream to remote operators over
//! WebSocket and D-Bus transports.  This crate holds the verified logic:
//! bind-URI parsing and printing, the wire codec for socket messages,
//! HID report diffing, the on-demand video policy, the peripheral state
//! cores and the shutdown bookkeeping.  The async transports and the
//! device I/O live outside, and hand this crate plain values.

pub mod addr;
pub mod args;
pub mod buttons;
pub mod client;
pub mod dbus;
pub mod hid;
pub mod ids;
pub mod json;
pub mod leds;
pub mod msg;
pub mod net;
pub mod result;
pub mod server;
pub mod shutdown;
pub mod text;
pub mod video;

pub use addr::{Addr, BindAddr, DBusAddr, HttpAddr, HttpBindAddr, HttpTlsOpts};
pub use args::Bind;
pub use client::{Action, ButtonArgs, ClientEvent, StatusArgs};
pub use ids::{ButtonId, LedId};
pub use net::{IpAddr, SocketAddr};
pub use result::Error;
pub use server::{DeviceAction, HidConfig, Server, ServerConfig};
pub use shutdown::GracefulShutdown;
pub use msg::{SocketInput, SocketOutput};
