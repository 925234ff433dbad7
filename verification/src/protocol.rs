//! Laws of the protocol as client and server run it together.

use vstd::prelude::*;
use crate::client::{accept_spec, handshake_spec, HandshakeError};
use crate::codec::{law_u32_be_roundtrip, u32_be};
use crate::constants::packet_types::{
    AUDIO_BACK, AUDIO_FWD, AUDIO_LOAD, AUDIO_PAUSE, AUDIO_PLAY, AUDIO_SWAP, AUDIO_VOL, CONNECTION_ACK, CONNECTION_SYN,
    MISC,
};
use crate::connections::PeerAddr;
use crate::constants::ConnectionState;
use crate::constants::packet_types::LOADED_ACK;
use crate::server::{advanced, connection_challenge, fresh_connection, loaded_ack_taken};
use crate::utils::{frame_content, is_audio_instruction, law_frame_delivery, open_frame};

verus! {

/// Law (handshake): the connection request a fresh client (sequence number
/// zero) sends carries its challenge to the server; the server, registering
/// the client, answers with sequence number two; and the client, having moved
/// to one when it sent the request, accepts that answer when it carries the
/// challenge back. Both sides then stand at sequence number two.
pub proof fn law_handshake(key: Seq<u8>, request: Seq<u8>, answer: Seq<u8>, challenge: Seq<u8>)
    requires
        open_frame(key, request) == Some(frame_content(CONNECTION_SYN, u32_be(0), challenge)),
        open_frame(key, answer) == Some(frame_content(CONNECTION_ACK, u32_be(advanced(fresh_connection()).sequence_number), challenge)),
    ensures
        connection_challenge(key, request) == Some(challenge),
        handshake_spec(key, 1, challenge, answer) == Ok::<(), HandshakeError>(()),
        advanced(fresh_connection()).sequence_number == 1 + 1,
{
    law_frame_delivery(key, request, CONNECTION_SYN, 0, challenge, CONNECTION_SYN);
    law_frame_delivery(key, answer, CONNECTION_ACK, 2, challenge, CONNECTION_ACK);
}

/// Law (instruction delivery): when client and server agree on the sequence
/// number, the frame the server makes for an audio instruction (under the next
/// sequence number) is accepted by the client with its packet type and
/// payload; both then stand at that next number.
pub proof fn law_instruction_delivery(key: Seq<u8>, frame: Seq<u8>, seq: u32, packet_type: u8, payload: Seq<u8>)
    requires
        seq < u32::MAX,
        is_audio_instruction(packet_type),
        open_frame(key, frame) == Some(frame_content(packet_type, u32_be((seq + 1) as u32), payload)),
    ensures
        accept_spec(key, seq, frame) == Some((packet_type, payload)),
{
    law_frame_delivery(key, frame, packet_type, (seq + 1) as u32, payload, crate::constants::packet_types::AUDIO_ANY);
}

/// Law (replay): a frame whose sequence number is not the one after the
/// client's is refused, whatever it carries; so is one of a type that is not
/// an audio instruction.
pub proof fn law_out_of_sequence_refused(key: Seq<u8>, frame: Seq<u8>, client_seq: u32, frame_seq: u32, packet_type: u8, payload: Seq<u8>)
    requires
        client_seq < u32::MAX,
        frame_seq != client_seq + 1 || !is_audio_instruction(packet_type),
        open_frame(key, frame) == Some(frame_content(packet_type, u32_be(frame_seq), payload)),
    ensures
        accept_spec(key, client_seq, frame) is None,
{
    law_u32_be_roundtrip(frame_seq);
    let content = frame_content(packet_type, u32_be(frame_seq), payload);
    assert(content.subrange(1, 5) =~= u32_be(frame_seq));
    assert(content[0] == packet_type);
}

/// Law (loaded acknowledgement): the acknowledgement a client sends under
/// the sequence number the server holds for it is taken; a frame under any
/// other sequence number, or of any other type, is not.
pub proof fn law_loaded_ack(
    key: Seq<u8>,
    frame: Seq<u8>,
    connections: Map<PeerAddr, ConnectionState>,
    sender: PeerAddr,
    packet_type: u8,
    frame_seq: u32,
    payload: Seq<u8>,
)
    requires
        connections.contains_key(sender),
        open_frame(key, frame) == Some(frame_content(packet_type, u32_be(frame_seq), payload)),
    ensures
        loaded_ack_taken(key, connections, frame, sender) <==> (packet_type == LOADED_ACK
            && frame_seq == connections[sender].sequence_number),
{
    law_u32_be_roundtrip(frame_seq);
    let content = frame_content(packet_type, u32_be(frame_seq), payload);
    assert(content.subrange(1, 5) =~= u32_be(frame_seq));
    assert(content[0] == packet_type);
}

/// Law (audio instruction types): a client waiting for instructions takes a
/// frame under its next sequence number, with that frame's type and payload,
/// exactly when the type is load, swap, play, pause, forward, back, volume or
/// misc; a frame of any other type is refused.
pub proof fn law_audio_instruction_types(key: Seq<u8>, frame: Seq<u8>, seq: u32, packet_type: u8, payload: Seq<u8>)
    requires
        seq < u32::MAX,
        open_frame(key, frame) == Some(frame_content(packet_type, u32_be((seq + 1) as u32), payload)),
    ensures
        (packet_type == AUDIO_LOAD || packet_type == AUDIO_SWAP || packet_type == AUDIO_PLAY
            || packet_type == AUDIO_PAUSE || packet_type == AUDIO_FWD || packet_type == AUDIO_BACK
            || packet_type == AUDIO_VOL || packet_type == MISC) ==> accept_spec(key, seq, frame) == Some((packet_type, payload)),
        !(packet_type == AUDIO_LOAD || packet_type == AUDIO_SWAP || packet_type == AUDIO_PLAY
            || packet_type == AUDIO_PAUSE || packet_type == AUDIO_FWD || packet_type == AUDIO_BACK
            || packet_type == AUDIO_VOL || packet_type == MISC) ==> accept_spec(key, seq, frame) is None,
{
    law_u32_be_roundtrip((seq + 1) as u32);
    let content = frame_content(packet_type, u32_be((seq + 1) as u32), payload);
    assert(content.subrange(1, 5) =~= u32_be((seq + 1) as u32));
    assert(content[0] == packet_type);
    assert(content.skip(5) =~= payload);
}

} // verus!
