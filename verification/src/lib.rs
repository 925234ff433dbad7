//! Jitterbug: a small encrypted datagram protocol for synchronised audio playback.
//!
//! The library holds the protocol's logic: the frame format, the handshake and
//! sequence-number discipline of client and server, the command and instruction
//! formats, the pairing ("sharing") key, the playback queue and the terminal
//! view model. Sockets, the audio device, downloads and the terminal itself are
//! driven by the application around it.

pub mod audio;
pub mod client;
pub mod codec;
pub mod commands;
pub mod connections;
pub mod constants;
pub mod crypto;
pub mod protocol;
pub mod server;
pub mod tui;
pub mod sharing;
pub mod utils;
