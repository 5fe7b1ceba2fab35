//! A software KVM: one keyboard and mouse shared by several machines.
//!
//! The library holds the decisions of the system. Sockets, portals, hooks and
//! clocks live outside; they hand plain values in and take plain values back.

pub mod active;
pub mod addresses;
pub mod client;
pub mod clipboard;
pub mod clipboard_target;
pub mod control;
pub mod credentials;
pub mod discovery;
pub mod double;
pub mod edge;
pub mod rounding;
pub mod held;
pub mod hotkeys;
pub mod interfaces;
pub mod keys;
pub mod landing;
pub mod roaming;
pub mod meeting;
pub mod member;
pub mod barriers;
pub mod directions;
pub mod links;
pub mod pixels;
pub mod keyboard;
pub mod typing;
pub mod streaming;
pub mod hooks;
pub mod trust;
pub mod neighbours;
pub mod layout;
pub mod linux_capture;
pub mod linux_inject;
pub mod linux_input;
pub mod mac_inject;
pub mod macos_capture;
pub mod moved;
pub mod order;
pub mod packet;
pub mod pairing;
pub mod platform;
pub mod receive;
pub mod recency;
pub mod seqs;
pub mod shared_input;
pub mod single;
pub mod status;
pub mod switch;
pub mod targets;
pub mod text;
pub mod transport;
pub mod upkeep;
pub mod windows_capture;
pub mod windows_helper;
pub mod wiring;
pub mod words;
