//! Packet type bytes carried (encrypted) at the start of every frame's content.

use vstd::prelude::*;

verus! {

/// Client to server: opens the handshake.
pub const CONNECTION_SYN: u8 = 0x00;

/// Server to client: answers the handshake with the client's challenge.
pub const CONNECTION_ACK: u8 = 0x01;

/// A command the server did not recognise, broadcast as is.
pub const MISC: u8 = 0x67;

/// Wildcard for receiving: any of the audio instructions, or `MISC`.
pub const AUDIO_ANY: u8 = 0x10;

/// Download a track and queue it.
pub const AUDIO_LOAD: u8 = 0x11;

/// Swap the front of the queue in as the current track.
pub const AUDIO_SWAP: u8 = 0x12;

/// Seek, wait until a given instant, then play.
pub const AUDIO_PLAY: u8 = 0x13;

/// Pause playback.
pub const AUDIO_PAUSE: u8 = 0x14;

/// Skip five seconds forward.
pub const AUDIO_FWD: u8 = 0x15;

/// Skip five seconds back.
pub const AUDIO_BACK: u8 = 0x16;

/// Set the volume, as a percentage.
pub const AUDIO_VOL: u8 = 0x17;

/// Client to server: the track of the last load instruction is ready.
pub const LOADED_ACK: u8 = 0x20;

} // verus!
