//! Wire constants shared by client and server.

pub mod packet_types;

use vstd::prelude::*;

verus! {

/// The bytes that open every frame, in the clear; a datagram that does not
/// begin with them is not meant for this protocol.
pub const MAGIC_BYTES: [u8; 4] = [0x67, 0xf2, 0x5a, 0x00];

/// Length of the clear header of a frame: magic bytes, then the nonce.
pub const HEADER_LEN: usize = 16;

/// Length of the encrypted content header: packet type, then sequence number.
pub const CONTENT_HEADER_LEN: usize = 5;

/// The address the server binds to.
pub const SERVER_HOST: &'static str = "127.0.0.1";

/// The port the server binds to.
pub const SERVER_PORT: u16 = 8080;

/// Directory where downloaded audio is kept.
pub const OUTPUT_FILE_PATH: &'static str = "temp-assets";

/// What the server knows of one connected client.
#[derive(Clone, Copy, Debug, PartialEq, Eq, Structural)]
pub struct ConnectionState {
    /// The sequence number of the last frame exchanged with the client.
    pub sequence_number: u32,
    /// Whether the client has acknowledged the last broadcast instruction.
    pub acked_signal: bool,
}

} // verus!
