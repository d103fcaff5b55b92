//! Verified core of a remote desktop server for macOS.

pub mod bitmap_encoder;
pub mod cli;
pub mod client;
pub mod codecs;
pub mod config;
pub mod credentials;
pub mod daemon;
pub mod decode;
pub mod desktop;
pub mod diagnostics;
pub mod encoder;
pub mod fast_path;
pub mod frame;
pub mod graphics;
pub mod input;
pub mod keymap;
pub mod mac_display;
pub mod mac_input;
pub mod packets;
pub mod pdu;
pub mod receive;
pub mod rows;
pub mod server;
pub mod session;
pub mod text;
pub mod tile_encoder;
pub mod tiles;
pub mod wire;
