//! The frame format: building an encrypted frame and taking one apart.
//!
//! A frame is the four magic bytes, the twelve-byte nonce, then the AES-128-GCM
//! encryption (no associated data) of the content: the packet type byte, the
//! sequence number (four bytes, big-endian as the sender writes it) and the
//! payload.

use vstd::prelude::*;
use crate::codec::{be_to_nat, u32_be};
use crate::constants::{MAGIC_BYTES, HEADER_LEN, CONTENT_HEADER_LEN};
use crate::constants::packet_types::{
    AUDIO_ANY, AUDIO_BACK, AUDIO_FWD, AUDIO_LOAD, AUDIO_PAUSE, AUDIO_PLAY, AUDIO_SWAP, AUDIO_VOL,
    CONNECTION_ACK, CONNECTION_SYN, MISC,
};
use crate::crypto::{aes128gcm_decrypt, aes128gcm_encrypt, aes128gcm_open, aes128gcm_seal, generate_nonce, Cipher, P_MAX};

verus! {

/// Why a frame could not be built.
#[derive(Clone, Copy, Debug, PartialEq, Eq, Structural)]
pub enum FrameError {
    /// The cipher refused the content (it is longer than AES-GCM allows).
    Encryption,
}

/// The plaintext content of a frame: packet type, sequence number bytes, payload.
pub open spec fn frame_content(packet_type: u8, sequence_number: Seq<u8>, payload: Seq<u8>) -> Seq<u8> {
    seq![packet_type] + sequence_number + payload
}

/// The payload bytes an optional payload stands for.
pub open spec fn payload_bytes(payload: Option<&[u8]>) -> Seq<u8> {
    match payload {
        Some(p) => p@,
        None => Seq::empty(),
    }
}

/// The frame that seals `content` under `key` and `nonce`.
pub open spec fn sealed_frame(key: Seq<u8>, nonce: Seq<u8>, content: Seq<u8>) -> Seq<u8> {
    MAGIC_BYTES@ + nonce + aes128gcm_seal(key, nonce, Seq::empty(), content)
}

/// The content of a datagram, if it is long enough to hold the clear header,
/// carries the magic bytes, and its ciphertext authenticates under `key` and
/// its nonce.
pub open spec fn open_frame(key: Seq<u8>, datagram: Seq<u8>) -> Option<Seq<u8>> {
    if datagram.len() < HEADER_LEN || datagram.take(4) != MAGIC_BYTES@ {
        None
    } else {
        aes128gcm_open(key, datagram.subrange(4, 16), Seq::empty(), datagram.skip(16))
    }
}

/// The packet types a receiver waiting for `AUDIO_ANY` accepts.
pub open spec fn is_audio_instruction(packet_type: u8) -> bool {
    packet_type == AUDIO_LOAD || packet_type == AUDIO_SWAP || packet_type == AUDIO_PLAY
        || packet_type == AUDIO_PAUSE || packet_type == AUDIO_FWD || packet_type == AUDIO_BACK
        || packet_type == AUDIO_VOL || packet_type == MISC
}

/// Whether a receiver waiting for `expected` accepts a frame of type `actual`.
pub open spec fn accepts_type(expected: u8, actual: u8) -> bool {
    if expected == AUDIO_ANY {
        is_audio_instruction(actual)
    } else {
        actual == expected
    }
}

/// The decrypted content of `datagram` that a receiver waiting for a frame of
/// type `packet_type` with sequence number `expected_seq` accepts: the frame
/// opens, its content holds at least a type and a sequence number, the type is
/// accepted and the sequence number is the expected one.
pub open spec fn accepted_content(key: Seq<u8>, datagram: Seq<u8>, expected_seq: u32, packet_type: u8) -> Option<Seq<u8>> {
    match open_frame(key, datagram) {
        None => None,
        Some(content) => if content.len() >= 5 && accepts_type(packet_type, content[0])
            && be_to_nat(content.subrange(1, 5)) == expected_seq as nat {
            Some(content)
        } else {
            None
        },
    }
}

/// The packet type and payload of an accepted frame.
pub open spec fn received_packet(key: Seq<u8>, datagram: Seq<u8>, expected_seq: u32, packet_type: u8) -> Option<(u8, Seq<u8>)> {
    match accepted_content(key, datagram, expected_seq, packet_type) {
        None => None,
        Some(content) => Some((content[0], content.skip(5))),
    }
}

/// The payload of an accepted frame: its content after the type and the
/// sequence number (empty, not absent, when the frame carries none).
pub open spec fn received_payload(key: Seq<u8>, datagram: Seq<u8>, expected_seq: u32, packet_type: u8) -> Option<Seq<u8>> {
    match accepted_content(key, datagram, expected_seq, packet_type) {
        None => None,
        Some(content) => Some(content.skip(5)),
    }
}

/// Builds the frame that carries `packet_type`, `sequence_number` and
/// `payload`, encrypted under `cipher` with `nonce`.
pub fn create_frame(
    cipher: &Cipher,
    packet_type: u8,
    sequence_number: &[u8],
    nonce: &[u8],
    payload: Option<&[u8]>,
) -> (r: Result<Vec<u8>, FrameError>)
    requires
        nonce@.len() == 12,
    ensures
        r is Ok <==> frame_content(packet_type, sequence_number@, payload_bytes(payload)).len() <= P_MAX,
        r matches Ok(frame) ==> frame@ == sealed_frame(cipher.key@, nonce@,
            frame_content(packet_type, sequence_number@, payload_bytes(payload))),
        r matches Ok(frame) ==> open_frame(cipher.key@, frame@) == Some(
            frame_content(packet_type, sequence_number@, payload_bytes(payload)),
        ),
        r matches Ok(frame) ==> frame@.len() == 32 + frame_content(packet_type, sequence_number@, payload_bytes(payload)).len(),
{
    let mut content: Vec<u8> = Vec::new();
    content.push(packet_type);
    content.extend_from_slice(sequence_number);
    match payload {
        Some(p) => content.extend_from_slice(p),
        None => {},
    }
    let ghost expected = frame_content(packet_type, sequence_number@, payload_bytes(payload));
    assert(content@ =~= expected);
    let nonce_array: [u8; 12] = [
        nonce[0], nonce[1], nonce[2], nonce[3], nonce[4], nonce[5],
        nonce[6], nonce[7], nonce[8], nonce[9], nonce[10], nonce[11],
    ];
    assert(nonce_array@ =~= nonce@);
    let empty: [u8; 0] = [];
    assert(empty@ =~= Seq::<u8>::empty());
    match aes128gcm_encrypt(&cipher.key, &nonce_array, empty.as_slice(), content.as_slice()) {
        Ok(sealed) => {
            let mut frame: Vec<u8> = Vec::new();
            frame.extend_from_slice(MAGIC_BYTES.as_slice());
            frame.extend_from_slice(nonce);
            frame.extend_from_slice(sealed.as_slice());
            proof {
                assert(frame@ =~= sealed_frame(cipher.key@, nonce@, expected));
                assert(frame@.take(4) =~= MAGIC_BYTES@);
                assert(frame@.subrange(4, 16) =~= nonce@);
                assert(frame@.skip(16) =~= sealed@);
            }
            Ok(frame)
        },
        Err(_) => Err(FrameError::Encryption),
    }
}

/// Takes apart a received datagram: its packet type and payload when it is a
/// frame for us of an accepted type and the expected sequence number, `None`
/// otherwise (a datagram too short for the clear header among them).
pub fn extract_packet(cipher: &Cipher, datagram: &[u8], expected_seq: u32, packet_type: u8) -> (r: Option<(u8, Vec<u8>)>)
    ensures
        match received_packet(cipher.key@, datagram@, expected_seq, packet_type) {
            None => r is None,
            Some((t, p)) => r matches Some((rt, rp)) && rt == t && rp@ == p,
        },
{
    if datagram.len() < HEADER_LEN {
        return None;
    }
    if datagram[0] != MAGIC_BYTES[0] || datagram[1] != MAGIC_BYTES[1] || datagram[2] != MAGIC_BYTES[2]
        || datagram[3] != MAGIC_BYTES[3] {
        proof {
            assert(datagram@.take(4) != MAGIC_BYTES@) by {
                if datagram@.take(4) == MAGIC_BYTES@ {
                    assert(datagram@.take(4)[0] == datagram@[0]);
                    assert(datagram@.take(4)[1] == datagram@[1]);
                    assert(datagram@.take(4)[2] == datagram@[2]);
                    assert(datagram@.take(4)[3] == datagram@[3]);
                }
            }
        }
        return None;
    }
    proof {
        assert(datagram@.take(4) =~= MAGIC_BYTES@);
    }
    let nonce: [u8; 12] = [
        datagram[4], datagram[5], datagram[6], datagram[7], datagram[8], datagram[9],
        datagram[10], datagram[11], datagram[12], datagram[13], datagram[14], datagram[15],
    ];
    assert(nonce@ =~= datagram@.subrange(4, 16));
    let empty: [u8; 0] = [];
    assert(empty@ =~= Seq::<u8>::empty());
    let ciphertext = slice_from(datagram, HEADER_LEN);
    let content = match aes128gcm_decrypt(&cipher.key, &nonce, empty.as_slice(), ciphertext.as_slice()) {
        Ok(content) => content,
        Err(_) => {
            return None;
        },
    };
    if content.len() < CONTENT_HEADER_LEN {
        return None;
    }
    if !packet_type_accepted(packet_type, content[0]) {
        return None;
    }
    let seq_bytes = slice_range(content.as_slice(), 1, 5);
    let sequence_number = crate::codec::u32_from_be_bytes(seq_bytes.as_slice());
    if sequence_number != expected_seq {
        return None;
    }
    let payload = slice_from(content.as_slice(), CONTENT_HEADER_LEN);
    Some((content[0], payload))
}

/// Takes the payload from a received datagram: the content after the packet
/// type and sequence number when it is a frame for us of an accepted type and
/// the expected sequence number, `None` otherwise. A frame with no payload
/// gives an empty one.
pub fn extract_payload(cipher: &Cipher, datagram: &[u8], expected_seq: u32, packet_type: u8) -> (r: Option<Vec<u8>>)
    ensures
        match received_payload(cipher.key@, datagram@, expected_seq, packet_type) {
            None => r is None,
            Some(p) => r matches Some(rp) && rp@ == p,
        },
{
    match extract_packet(cipher, datagram, expected_seq, packet_type) {
        None => None,
        Some((_, payload)) => Some(payload),
    }
}

/// The bytes of `s` from `start` on, copied.
pub fn slice_from(s: &[u8], start: usize) -> (r: Vec<u8>)
    requires
        start <= s@.len(),
    ensures
        r@ == s@.skip(start as int),
{
    slice_range(s, start, s.len())
}

/// The bytes of `s` from `start` up to `end`, copied.
pub fn slice_range(s: &[u8], start: usize, end: usize) -> (r: Vec<u8>)
    requires
        start <= end <= s@.len(),
    ensures
        r@ == s@.subrange(start as int, end as int),
{
    let mut r: Vec<u8> = Vec::new();
    let mut i = start;
    while i < end
        invariant
            start <= i <= end <= s@.len(),
            r@ == s@.subrange(start as int, i as int),
        decreases end - i,
    {
        r.push(s[i]);
        i = i + 1;
        assert(r@ =~= s@.subrange(start as int, i as int));
    }
    r
}

/// Whether a receiver waiting for `expected` accepts a frame of type `actual`.
pub fn packet_type_accepted(expected: u8, actual: u8) -> (r: bool)
    ensures
        r == accepts_type(expected, actual),
{
    if expected == AUDIO_ANY {
        actual == AUDIO_LOAD || actual == AUDIO_SWAP || actual == AUDIO_PLAY || actual == AUDIO_PAUSE
            || actual == AUDIO_FWD || actual == AUDIO_BACK || actual == AUDIO_VOL || actual == MISC
    } else {
        actual == expected
    }
}

/// Builds a frame for `packet_type`, `sequence_number` and `payload` under a
/// freshly generated nonce.
pub fn seal_datagram(cipher: &Cipher, packet_type: u8, sequence_number: &[u8], payload: &[u8]) -> (r: Result<Vec<u8>, FrameError>)
    ensures
        r is Ok <==> frame_content(packet_type, sequence_number@, payload@).len() <= P_MAX,
        r matches Ok(frame) ==> frame@.len() == 32 + frame_content(packet_type, sequence_number@, payload@).len(),
        r matches Ok(frame) ==> frame@ == sealed_frame(cipher.key@, frame@.subrange(4, 16),
            frame_content(packet_type, sequence_number@, payload@)),
        r matches Ok(frame) ==> open_frame(cipher.key@, frame@) == Some(
            frame_content(packet_type, sequence_number@, payload@),
        ),
{
    let nonce = generate_nonce();
    let r = create_frame(cipher, packet_type, sequence_number, nonce.as_slice(), Some(payload));
    proof {
        if let Ok(frame) = &r {
            assert(frame@.subrange(4, 16) =~= nonce@);
        }
    }
    r
}

/// The display name of a packet type.
pub open spec fn packet_type_name(packet_type: u8) -> Seq<char> {
    if packet_type == CONNECTION_SYN {
        "Connection SYN"@
    } else if packet_type == CONNECTION_ACK {
        "Connection ACK"@
    } else if packet_type == MISC {
        "Misc"@
    } else if packet_type == AUDIO_LOAD {
        "Audio Load"@
    } else if packet_type == AUDIO_SWAP {
        "Audio Swap"@
    } else if packet_type == AUDIO_PLAY {
        "Audio Play"@
    } else if packet_type == AUDIO_PAUSE {
        "Audio Pause"@
    } else if packet_type == AUDIO_FWD {
        "Audio Forward"@
    } else if packet_type == AUDIO_BACK {
        "Audio Back"@
    } else if packet_type == AUDIO_VOL {
        "Audio Volume"@
    } else {
        "Unknown"@
    }
}

/// Names a packet type for display.
pub fn packet_type_to_text(packet_type: u8) -> (text: &'static str)
    ensures
        text@ == packet_type_name(packet_type),
{
    if packet_type == CONNECTION_SYN {
        "Connection SYN"
    } else if packet_type == CONNECTION_ACK {
        "Connection ACK"
    } else if packet_type == MISC {
        "Misc"
    } else if packet_type == AUDIO_LOAD {
        "Audio Load"
    } else if packet_type == AUDIO_SWAP {
        "Audio Swap"
    } else if packet_type == AUDIO_PLAY {
        "Audio Play"
    } else if packet_type == AUDIO_PAUSE {
        "Audio Pause"
    } else if packet_type == AUDIO_FWD {
        "Audio Forward"
    } else if packet_type == AUDIO_BACK {
        "Audio Back"
    } else if packet_type == AUDIO_VOL {
        "Audio Volume"
    } else {
        "Unknown"
    }
}

/// Law: a frame whose content carries packet type `packet_type`, the
/// sequence number `seq` and `payload` is taken by a receiver waiting for that
/// sequence number and a type that accepts `packet_type`, which reads back
/// that type and exactly that payload.
pub proof fn law_frame_delivery(key: Seq<u8>, frame: Seq<u8>, packet_type: u8, seq: u32, payload: Seq<u8>, expected_type: u8)
    requires
        open_frame(key, frame) == Some(frame_content(packet_type, u32_be(seq), payload)),
        accepts_type(expected_type, packet_type),
    ensures
        accepted_content(key, frame, seq, expected_type) == Some(frame_content(packet_type, u32_be(seq), payload)),
        received_packet(key, frame, seq, expected_type) == Some((packet_type, payload)),
        received_payload(key, frame, seq, expected_type) == Some(payload),
{
    let content = frame_content(packet_type, u32_be(seq), payload);
    crate::codec::law_u32_be_roundtrip(seq);
    assert(content.subrange(1, 5) =~= u32_be(seq));
    assert(content.skip(5) =~= payload);
}

} // verus!
