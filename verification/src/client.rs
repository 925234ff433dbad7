//! The client's side of the protocol: the handshake, the sequence number it
//! keeps with the server, and what the instructions it receives mean.

use vstd::prelude::*;
use vstd::utf8::{decode_utf8, valid_utf8};
use crate::codec::{be_to_nat, string_from_utf8, u128_from_be_bytes, u32_be, u32_to_be_bytes};
use crate::constants::packet_types::{
    AUDIO_ANY, AUDIO_BACK, AUDIO_FWD, AUDIO_LOAD, AUDIO_PAUSE, AUDIO_PLAY, AUDIO_SWAP, AUDIO_VOL,
    CONNECTION_ACK, CONNECTION_SYN, LOADED_ACK,
};
use crate::crypto::{generate_nonce, Cipher};
use crate::sharing::{parse_sharing_key, parse_sharing_spec, SharingKeyError};
use vstd::string::StringSliceAdditionalSpecFns;
use crate::utils::{
    extract_packet, extract_payload, frame_content, open_frame, received_packet, received_payload, seal_datagram,
    sealed_frame, slice_range,
};

verus! {

/// The protocol state a client keeps: where the server is, the key shared
/// with it, and the sequence number of the last frame exchanged.
pub struct Client {
    /// The server's host, as the pairing key gave it.
    pub server_host: String,
    /// The server's port, as the pairing key gave it.
    pub server_port: u16,
    /// The sequence number of the last frame sent to or accepted from the server.
    pub sequence_number: u32,
    /// The pre-shared key.
    pub cipher: Cipher,
}

/// Why the handshake failed.
#[derive(Clone, Copy, Debug, PartialEq, Eq, Structural)]
pub enum HandshakeError {
    /// The answer was not an acknowledgement frame with the expected sequence number.
    Internal,
    /// The acknowledgement did not carry back the challenge that was sent.
    NonceMismatch,
}

/// What the server's answer to a handshake opened at sequence number `seq`
/// with `challenge` means.
pub open spec fn handshake_spec(key: Seq<u8>, seq: u32, challenge: Seq<u8>, datagram: Seq<u8>) -> Result<(), HandshakeError> {
    match received_payload(key, datagram, (seq + 1) as u32, CONNECTION_ACK) {
        None => Err(HandshakeError::Internal),
        Some(payload) => if payload == challenge {
            Ok(())
        } else {
            Err(HandshakeError::NonceMismatch)
        },
    }
}

/// An instruction from the server, as the client acts on it.
pub enum Instruction {
    /// Seek to `to_set` milliseconds, wait until the Unix time `when` (in
    /// milliseconds), then play.
    Play { to_set: u128, when: u128 },
    /// Pause playback.
    Pause,
    /// Skip five seconds forward.
    Forward,
    /// Skip five seconds back.
    Backward,
    /// Swap the front of the queue in as the current track.
    Swap,
    /// Download the track at `url`, queue it and acknowledge.
    Load { url: String },
    /// Set the volume to `level` percent.
    Volume { level: u128 },
    /// Nothing to do.
    Ignore,
}

/// The meaning of an instruction, over plain values.
pub enum InstructionView {
    Play { to_set: u128, when: u128 },
    Pause,
    Forward,
    Backward,
    Swap,
    Load { url: Seq<char> },
    Volume { level: u128 },
    Ignore,
}

impl View for Instruction {
    type V = InstructionView;

    open spec fn view(&self) -> InstructionView {
        match self {
            Instruction::Play { to_set, when } => InstructionView::Play { to_set: *to_set, when: *when },
            Instruction::Pause => InstructionView::Pause,
            Instruction::Forward => InstructionView::Forward,
            Instruction::Backward => InstructionView::Backward,
            Instruction::Swap => InstructionView::Swap,
            Instruction::Load { url } => InstructionView::Load { url: url@ },
            Instruction::Volume { level } => InstructionView::Volume { level: *level },
            Instruction::Ignore => InstructionView::Ignore,
        }
    }
}

/// Why an instruction's payload could not be read.
#[derive(Clone, Copy, Debug, PartialEq, Eq, Structural)]
pub enum InstructionError {
    /// A play or volume instruction whose payload is shorter than its numbers.
    Truncated,
    /// A load instruction whose URL is not UTF-8.
    NotUtf8,
}

/// What an instruction of type `packet_type` with `payload` means.
pub open spec fn instruction_spec(packet_type: u8, payload: Seq<u8>) -> Result<InstructionView, InstructionError> {
    if packet_type == AUDIO_PLAY {
        if payload.len() < 32 {
            Err(InstructionError::Truncated)
        } else {
            Ok(InstructionView::Play {
                to_set: be_to_nat(payload.subrange(0, 16)) as u128,
                when: be_to_nat(payload.subrange(16, 32)) as u128,
            })
        }
    } else if packet_type == AUDIO_PAUSE {
        Ok(InstructionView::Pause)
    } else if packet_type == AUDIO_FWD {
        Ok(InstructionView::Forward)
    } else if packet_type == AUDIO_BACK {
        Ok(InstructionView::Backward)
    } else if packet_type == AUDIO_SWAP {
        Ok(InstructionView::Swap)
    } else if packet_type == AUDIO_LOAD {
        if valid_utf8(payload) {
            Ok(InstructionView::Load { url: decode_utf8(payload) })
        } else {
            Err(InstructionError::NotUtf8)
        }
    } else if packet_type == AUDIO_VOL {
        if payload.len() < 16 {
            Err(InstructionError::Truncated)
        } else {
            Ok(InstructionView::Volume { level: be_to_nat(payload.subrange(0, 16)) as u128 })
        }
    } else {
        Ok(InstructionView::Ignore)
    }
}

/// The view of an instruction result.
pub open spec fn instruction_result_view(r: Result<Instruction, InstructionError>) -> Result<InstructionView, InstructionError> {
    match r {
        Ok(i) => Ok(i@),
        Err(e) => Err(e),
    }
}

/// Reads the instruction that a frame of type `packet_type` carries in `payload`.
pub fn parse_instruction(packet_type: u8, payload: &[u8]) -> (r: Result<Instruction, InstructionError>)
    ensures
        instruction_result_view(r) == instruction_spec(packet_type, payload@),
{
    if packet_type == AUDIO_PLAY {
        if payload.len() < 32 {
            return Err(InstructionError::Truncated);
        }
        let first = slice_range(payload, 0, 16);
        let second = slice_range(payload, 16, 32);
        let to_set = u128_from_be_bytes(first.as_slice());
        let when = u128_from_be_bytes(second.as_slice());
        Ok(Instruction::Play { to_set, when })
    } else if packet_type == AUDIO_PAUSE {
        Ok(Instruction::Pause)
    } else if packet_type == AUDIO_FWD {
        Ok(Instruction::Forward)
    } else if packet_type == AUDIO_BACK {
        Ok(Instruction::Backward)
    } else if packet_type == AUDIO_SWAP {
        Ok(Instruction::Swap)
    } else if packet_type == AUDIO_LOAD {
        let bytes = slice_range(payload, 0, payload.len());
        assert(bytes@ =~= payload@);
        match string_from_utf8(bytes) {
            Ok(url) => Ok(Instruction::Load { url }),
            Err(_) => Err(InstructionError::NotUtf8),
        }
    } else if packet_type == AUDIO_VOL {
        if payload.len() < 16 {
            return Err(InstructionError::Truncated);
        }
        let first = slice_range(payload, 0, 16);
        let level = u128_from_be_bytes(first.as_slice());
        Ok(Instruction::Volume { level })
    } else {
        Ok(Instruction::Ignore)
    }
}

/// What a client at sequence number `seq` takes from a datagram while
/// waiting for instructions: the packet type and the payload.
pub open spec fn accept_spec(key: Seq<u8>, seq: u32, datagram: Seq<u8>) -> Option<(u8, Seq<u8>)> {
    received_packet(key, datagram, (seq + 1) as u32, AUDIO_ANY)
}

impl Client {
    /// A client of the server at `server_host`:`server_port` sharing `cipher`,
    /// before any frame is exchanged.
    pub fn new(server_host: String, server_port: u16, cipher: Cipher) -> (client: Client)
        ensures
            client.server_host == server_host,
            client.server_port == server_port,
            client.sequence_number == 0,
            client.cipher == cipher,
    {
        Client { server_host, server_port, sequence_number: 0, cipher }
    }

    /// A client of the server that a pairing key names, before any frame is
    /// exchanged.
    pub fn from_sharing_key(sharing_key: &str) -> (r: Result<Client, SharingKeyError>)
        ensures
            match parse_sharing_spec(sharing_key.spec_bytes()) {
                Ok((host, port, key)) => r matches Ok(c) && c.server_host@ == host && c.server_port == port
                    && c.cipher.key@ == key && c.sequence_number == 0,
                Err(e) => r matches Err(re) && re == e,
            },
    {
        match parse_sharing_key(sharing_key) {
            Ok(parsed) => Ok(Client::new(parsed.host, parsed.port, Cipher::new(parsed.key))),
            Err(e) => Err(e),
        }
    }

    /// Opens the handshake: a fresh twelve-byte challenge, and the connection
    /// request frame that carries it under the current sequence number.
    pub fn offer_handshake(&self) -> (r: ([u8; 12], Vec<u8>))
        ensures
            r.1@ == sealed_frame(self.cipher.key@, r.1@.subrange(4, 16),
                frame_content(CONNECTION_SYN, u32_be(self.sequence_number), r.0@)),
            open_frame(self.cipher.key@, r.1@) == Some(
                frame_content(CONNECTION_SYN, u32_be(self.sequence_number), r.0@),
            ),
            r.1@.len() == 49,
    {
        let challenge = generate_nonce();
        let seq_bytes = u32_to_be_bytes(self.sequence_number);
        match seal_datagram(&self.cipher, CONNECTION_SYN, seq_bytes.as_slice(), challenge.as_slice()) {
            Ok(frame) => (challenge, frame),
            Err(_) => {
                proof {
                    assert(false);
                }
                (challenge, Vec::new())
            },
        }
    }

    /// Records that a frame went out: the sequence number moves on by one.
    pub fn frame_sent(&mut self)
        requires
            old(self).sequence_number < u32::MAX,
        ensures
            final(self).sequence_number == old(self).sequence_number + 1,
            final(self).server_host == old(self).server_host,
            final(self).server_port == old(self).server_port,
            final(self).cipher == old(self).cipher,
    {
        self.sequence_number = self.sequence_number + 1;
    }

    /// Checks the server's answer to the handshake: an acknowledgement with the
    /// next sequence number that carries back `challenge`. On success the
    /// sequence number moves on by one.
    pub fn complete_handshake(&mut self, challenge: &[u8], datagram: &[u8]) -> (r: Result<(), HandshakeError>)
        requires
            old(self).sequence_number < u32::MAX,
        ensures
            r == handshake_spec(old(self).cipher.key@, old(self).sequence_number, challenge@, datagram@),
            final(self).sequence_number == if r is Ok {
                (old(self).sequence_number + 1) as u32
            } else {
                old(self).sequence_number
            },
            final(self).server_host == old(self).server_host,
            final(self).server_port == old(self).server_port,
            final(self).cipher == old(self).cipher,
    {
        let got = match extract_payload(&self.cipher, datagram, self.sequence_number + 1, CONNECTION_ACK) {
            None => {
                return Err(HandshakeError::Internal);
            },
            Some(payload) => payload,
        };
        if !bytes_equal(got.as_slice(), challenge) {
            return Err(HandshakeError::NonceMismatch);
        }
        self.sequence_number = self.sequence_number + 1;
        Ok(())
    }

    /// Takes an instruction from a datagram: its packet type and payload, when
    /// it is an audio instruction frame with the next sequence number (which
    /// the client then moves on to); `None`, and no change, otherwise.
    pub fn accept_instruction(&mut self, datagram: &[u8]) -> (r: Option<(u8, Vec<u8>)>)
        requires
            old(self).sequence_number < u32::MAX,
        ensures
            match accept_spec(old(self).cipher.key@, old(self).sequence_number, datagram@) {
                None => r is None && final(self).sequence_number == old(self).sequence_number,
                Some((t, p)) => r matches Some((rt, rp)) && rt == t && rp@ == p
                    && final(self).sequence_number == old(self).sequence_number + 1,
            },
            final(self).server_host == old(self).server_host,
            final(self).server_port == old(self).server_port,
            final(self).cipher == old(self).cipher,
    {
        match extract_packet(&self.cipher, datagram, self.sequence_number + 1, AUDIO_ANY) {
            None => None,
            Some((packet_type, payload)) => {
                self.sequence_number = self.sequence_number + 1;
                Some((packet_type, payload))
            },
        }
    }

    /// What the client sends back once it has carried out `instruction`
    /// (`loaded` tells whether a load's download succeeded): for a load that
    /// succeeded, the acknowledgement that the track is ready (under the
    /// current sequence number, with no payload); nothing otherwise.
    pub fn response_to(&self, instruction: &Instruction, loaded: bool) -> (r: Option<Vec<u8>>)
        ensures
            r is Some <==> (instruction is Load && loaded),
            r matches Some(frame) ==> open_frame(self.cipher.key@, frame@) == Some(
                frame_content(LOADED_ACK, u32_be(self.sequence_number), Seq::empty()),
            ),
            r matches Some(frame) ==> frame@ == sealed_frame(self.cipher.key@, frame@.subrange(4, 16),
                frame_content(LOADED_ACK, u32_be(self.sequence_number), Seq::empty())),
    {
        match instruction {
            Instruction::Load { .. } => if loaded {
                Some(self.loaded_ack_frame())
            } else {
                None
            },
            _ => None,
        }
    }

    /// The frame acknowledging that the last loaded track is ready, under the
    /// current sequence number and with no payload.
    pub fn loaded_ack_frame(&self) -> (frame: Vec<u8>)
        ensures
            frame@ == sealed_frame(self.cipher.key@, frame@.subrange(4, 16),
                frame_content(LOADED_ACK, u32_be(self.sequence_number), Seq::empty())),
            open_frame(self.cipher.key@, frame@) == Some(
                frame_content(LOADED_ACK, u32_be(self.sequence_number), Seq::empty()),
            ),
            frame@.len() == 37,
    {
        let seq_bytes = u32_to_be_bytes(self.sequence_number);
        let empty: [u8; 0] = [];
        assert(empty@ =~= Seq::<u8>::empty());
        match seal_datagram(&self.cipher, LOADED_ACK, seq_bytes.as_slice(), empty.as_slice()) {
            Ok(frame) => frame,
            Err(_) => {
                proof {
                    assert(false);
                }
                Vec::new()
            },
        }
    }
}

/// Whether two byte strings are equal.
pub fn bytes_equal(a: &[u8], b: &[u8]) -> (r: bool)
    ensures
        r == (a@ == b@),
{
    if a.len() != b.len() {
        return false;
    }
    let mut i: usize = 0;
    while i < a.len()
        invariant
            i <= a@.len() == b@.len(),
            forall|j: int| 0 <= j < i ==> a@[j] == b@[j],
        decreases a@.len() - i,
    {
        if a[i] != b[i] {
            return false;
        }
        i = i + 1;
    }
    assert(a@ =~= b@);
    true
}

} // verus!
