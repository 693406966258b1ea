//! Decision logic of a proxy bridge for an Electron desktop client.

pub mod text;
pub mod config;
pub mod state;
pub mod tcp_proxy;
pub mod udp_bypass;
pub mod launch;
pub mod installer;
