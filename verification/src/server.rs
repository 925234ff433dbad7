//! The server's side of the protocol: accepting connections, counting
//! acknowledgements, framing instructions for every client, and the commands
//! its operator types.

use vstd::prelude::*;
use crate::audio::{preflight_spec, Audio};
use crate::codec::{u32_be, u32_to_be_bytes};
use crate::commands::{
    command_packet, command_result_view, command_spec, packet_spec, parse_command, play_start_time, Command,
    CommandError, CommandView, PLAY_LEAD_MS,
};
use crate::connections::{ConnectionTable, PeerAddr};
use crate::constants::{ConnectionState, SERVER_HOST, SERVER_PORT};
use crate::constants::packet_types::{CONNECTION_ACK, CONNECTION_SYN, LOADED_ACK};
use crate::crypto::{Cipher, P_MAX};
use crate::sharing::{base64_encode, host_fits, make_sharing_key, parse_sharing_spec, sharing_text, SharingKeyError};
use vstd::string::StringSliceAdditionalSpecFns;
use vstd::utf8::encode_utf8;
use crate::utils::{
    extract_payload, frame_content, open_frame, received_payload, seal_datagram, sealed_frame, FrameError,
};

verus! {

/// The server's protocol state.
pub struct Server {
    /// The host the server listens on.
    pub host: String,
    /// The port the server listens on.
    pub port: u16,
    /// The connected clients.
    pub connections: ConnectionTable,
    /// The pre-shared key.
    pub cipher: Cipher,
}

/// Why a frame for a client could not be made.
#[derive(Clone, Copy, Debug, PartialEq, Eq, Structural)]
pub enum SendError {
    /// The address is not a connected client.
    RecipientNotFound,
    /// The content could not be encrypted.
    Frame(FrameError),
}

/// The challenge a connection request carries: the payload of a frame of
/// type `CONNECTION_SYN` with sequence number zero.
pub open spec fn connection_challenge(key: Seq<u8>, datagram: Seq<u8>) -> Option<Seq<u8>> {
    received_payload(key, datagram, 0, CONNECTION_SYN)
}

/// The state a connection has once a new frame was exchanged with the client.
pub open spec fn advanced(state: ConnectionState) -> ConnectionState {
    ConnectionState { sequence_number: (state.sequence_number + 1) as u32, acked_signal: state.acked_signal }
}

/// The state a client starts with when its connection request arrives.
pub open spec fn fresh_connection() -> ConnectionState {
    ConnectionState { sequence_number: 1, acked_signal: false }
}

/// Whether `datagram` from `sender` is the loaded acknowledgement its
/// connection waits for: `sender` is connected, and the datagram is a frame
/// of type `LOADED_ACK` under the client's current sequence number.
pub open spec fn loaded_ack_taken(
    key: Seq<u8>,
    connections: Map<PeerAddr, ConnectionState>,
    datagram: Seq<u8>,
    sender: PeerAddr,
) -> bool {
    connections.contains_key(sender)
        && received_payload(key, datagram, connections[sender].sequence_number, LOADED_ACK) is Some
}

/// Whether every connected client's sequence number can still move on.
pub open spec fn sequence_room(connections: Map<PeerAddr, ConnectionState>) -> bool {
    forall|k: PeerAddr| #[trigger] connections.contains_key(k) ==> connections[k].sequence_number < u32::MAX
}

/// What a broadcast of an instruction of type `packet_type` with `payload`,
/// under `key`, leaves of the clients `before`: the same clients, each with
/// its sequence number moved on by one and its acknowledgement cleared; and
/// exactly one frame per client, carrying the instruction under the client's
/// new sequence number (or the encryption error, when the content is too long),
/// in the order of `connected`, the clients' entries in the order they
/// connected.
pub open spec fn broadcast_spec(
    key: Seq<u8>,
    connected: Seq<(PeerAddr, ConnectionState)>,
    before: Map<PeerAddr, ConnectionState>,
    after: Map<PeerAddr, ConnectionState>,
    packet_type: u8,
    payload: Seq<u8>,
    frames: Seq<(PeerAddr, Result<Vec<u8>, SendError>)>,
) -> bool {
    &&& after.dom() == before.dom()
    &&& frames.len() == before.dom().len()
    &&& forall|i: int| 0 <= i < frames.len() ==> frames[i].0 == (#[trigger] connected[i]).0
    &&& forall|k: PeerAddr| #[trigger] before.contains_key(k) ==> after[k] == (ConnectionState {
        sequence_number: (before[k].sequence_number + 1) as u32,
        acked_signal: false,
    })
    &&& forall|k: PeerAddr| #[trigger] before.contains_key(k) ==> exists|i: int| 0 <= i < frames.len() && frames[i].0 == k
    &&& forall|i: int, j: int| 0 <= i < j < frames.len() ==> frames[i].0 != frames[j].0
    &&& forall|i: int| 0 <= i < frames.len() ==> {
        let k = #[trigger] frames[i].0;
        &&& before.contains_key(k)
        &&& (frames[i].1 is Ok <==> payload.len() + 5 <= P_MAX)
        &&& frames[i].1 matches Ok(frame) ==> open_frame(key, frame@) == Some(
            frame_content(packet_type, u32_be(after[k].sequence_number), payload),
        )
        &&& frames[i].1 matches Err(e) ==> e == SendError::Frame(FrameError::Encryption)
    }
}

/// What an operator's command line came to.
pub enum ActionOutcome {
    /// The line was refused; nothing was sent.
    Refused(CommandError),
    /// The player cannot carry out the instruction of type `packet_type` now
    /// (a swap with nothing loaded, or play, pause or a skip with no current
    /// track); nothing was sent.
    NotReady { packet_type: u8 },
    /// The instruction went to every client: the command, the position and
    /// start time a play carries (zero for other commands), and the frames.
    Broadcast {
        command: Command,
        position_ms: u128,
        play_at_ms: u128,
        frames: Vec<(PeerAddr, Result<Vec<u8>, SendError>)>,
    },
}

/// The position and start time a command puts in its packet: for a play
/// command, the player's position and the start time `PLAY_LEAD_MS` after
/// `now_ms`; zero for the others.
pub open spec fn play_values(command: CommandView, position_ms: u128, now_ms: u128) -> (u128, u128) {
    if command is Play {
        (position_ms, (now_ms + PLAY_LEAD_MS) as u128)
    } else {
        (0, 0)
    }
}

/// Whether the command on `line` gets past parsing and the player's
/// preflight check, and so is broadcast.
pub open spec fn command_goes_out(line: Seq<u8>, tracks: &Audio) -> bool {
    command_spec(line) matches Ok(command)
        && preflight_spec(tracks.current is Some, tracks.queue@.len(), packet_spec(command, 0, 0).0)
}

impl Server {
    /// A server at `host`:`port` sharing `cipher`, with no client connected.
    pub fn new(host: String, port: u16, cipher: Cipher) -> (server: Server)
        ensures
            server.host == host,
            server.port == port,
            server.cipher == cipher,
            server.connections@ == Map::<PeerAddr, ConnectionState>::empty(),
    {
        Server { host, port, connections: ConnectionTable::new(), cipher }
    }

    /// The server at the configured host and port, with a freshly generated key.
    pub fn with_generated_key() -> (server: Server)
        ensures
            server.host@ == SERVER_HOST@,
            server.port == SERVER_PORT,
            server.connections@ == Map::<PeerAddr, ConnectionState>::empty(),
            host_fits(encode_utf8(server.host@)),
            encode_utf8(server.host@).len() + 32 <= 3 * (usize::MAX / 4),
    {
        let server = Server::new(SERVER_HOST.to_owned(), SERVER_PORT, Cipher::generate());
        proof {
            reveal_strlit("127.0.0.1");
            let chars = server.host@;
            assert(chars.len() == 9);
            assert(vstd::utf8::is_ascii_chars(chars));
            vstd::utf8::is_ascii_chars_encode_utf8(chars);
            let bytes = encode_utf8(chars);
            assert forall|i: int| 0 <= i < bytes.len() implies bytes[i] != 0x3a && bytes[i] != 0x7c by {
                assert(bytes[i] == chars[i] as u8);
            }
        }
        server
    }

    /// The pairing key that tells clients this server's host, port and key.
    pub fn sharing_key(&self) -> (sharing: String)
        requires
            encode_utf8(self.host@).len() + 32 <= 3 * (usize::MAX / 4),
        ensures
            encode_utf8(sharing@) == base64_encode(sharing_text(encode_utf8(self.host@), self.port, self.cipher.key@)),
            host_fits(encode_utf8(self.host@)) ==> parse_sharing_spec(encode_utf8(sharing@)) == Ok::<
                (Seq<char>, u16, Seq<u8>),
                SharingKeyError,
            >((self.host@, self.port, self.cipher.key@)),
    {
        make_sharing_key(self.host.as_str(), self.port, &self.cipher.key)
    }

    /// Handles a connection request from `sender`: when it is a request
    /// frame, the client is registered (unless it already is), its sequence
    /// number moves on, and the acknowledgement that carries its challenge
    /// back is returned for sending. Anything else is ignored.
    pub fn receive_connection(&mut self, datagram: &[u8], sender: &PeerAddr) -> (r: Result<Option<Vec<u8>>, FrameError>)
        requires
            old(self).connections@.contains_key(*sender) ==> old(self).connections@[*sender].sequence_number < u32::MAX,
        ensures
            final(self).host == old(self).host,
            final(self).port == old(self).port,
            final(self).cipher == old(self).cipher,
            match connection_challenge(old(self).cipher.key@, datagram@) {
                None => r == Ok::<Option<Vec<u8>>, FrameError>(None) && final(self).connections@ == old(self).connections@,
                Some(challenge) => {
                    let before = if old(self).connections@.contains_key(*sender) {
                        old(self).connections@[*sender]
                    } else {
                        fresh_connection()
                    };
                    &&& final(self).connections@ == old(self).connections@.insert(*sender, advanced(before))
                    &&& match r {
                        Ok(Some(frame)) => frame@ == sealed_frame(old(self).cipher.key@, frame@.subrange(4, 16),
                            frame_content(CONNECTION_ACK, u32_be(advanced(before).sequence_number), challenge))
                            && open_frame(old(self).cipher.key@, frame@) == Some(
                            frame_content(CONNECTION_ACK, u32_be(advanced(before).sequence_number), challenge),
                        ),
                        Ok(None) => false,
                        Err(_) => challenge.len() + 5 > P_MAX,
                    }
                },
            },
    {
        let challenge = match extract_payload(&self.cipher, datagram, 0, CONNECTION_SYN) {
            None => {
                return Ok(None);
            },
            Some(payload) => payload,
        };
        let before = self.connections.insert_if_absent(sender, ConnectionState { sequence_number: 1, acked_signal: false });
        let after = ConnectionState { sequence_number: before.sequence_number + 1, acked_signal: before.acked_signal };
        self.connections.set(sender, after);
        let seq_bytes = u32_to_be_bytes(after.sequence_number);
        match seal_datagram(&self.cipher, CONNECTION_ACK, seq_bytes.as_slice(), challenge.as_slice()) {
            Ok(frame) => Ok(Some(frame)),
            Err(e) => Err(e),
        }
    }

    /// Handles the acknowledgement that `sender` has loaded the last track:
    /// when `datagram` is a loaded acknowledgement frame under the client's
    /// current sequence number, the client counts as acknowledged and its
    /// sequence number moves on. Anything else, and a datagram from an
    /// address that is not connected, changes nothing. Returns whether the
    /// acknowledgement was taken.
    pub fn receive_loaded_ack(&mut self, datagram: &[u8], sender: &PeerAddr) -> (taken: bool)
        requires
            old(self).connections@.contains_key(*sender) ==> old(self).connections@[*sender].sequence_number < u32::MAX,
        ensures
            final(self).host == old(self).host,
            final(self).port == old(self).port,
            final(self).cipher == old(self).cipher,
            taken == loaded_ack_taken(old(self).cipher.key@, old(self).connections@, datagram@, *sender),
            final(self).connections@ == if taken {
                old(self).connections@.insert(*sender, ConnectionState {
                    sequence_number: (old(self).connections@[*sender].sequence_number + 1) as u32,
                    acked_signal: true,
                })
            } else {
                old(self).connections@
            },
    {
        match self.connections.get(sender) {
            Some(state) => {
                match extract_payload(&self.cipher, datagram, state.sequence_number, LOADED_ACK) {
                    Some(_) => {
                        self.connections.set(sender, ConnectionState { sequence_number: state.sequence_number + 1, acked_signal: true });
                        true
                    },
                    None => false,
                }
            },
            None => false,
        }
    }

    /// Handles a datagram from `sender`: from an unknown address it is taken
    /// as a connection request, from a connected client as a loaded
    /// acknowledgement (taken only when it is one). Returns the frame to send
    /// back, if any.
    pub fn process_received_datagram(&mut self, datagram: &[u8], sender: &PeerAddr) -> (r: Result<Option<Vec<u8>>, FrameError>)
        requires
            old(self).connections@.contains_key(*sender) ==> old(self).connections@[*sender].sequence_number < u32::MAX,
        ensures
            final(self).host == old(self).host,
            final(self).port == old(self).port,
            final(self).cipher == old(self).cipher,
            old(self).connections@.contains_key(*sender) ==> r == Ok::<Option<Vec<u8>>, FrameError>(None)
                && final(self).connections@ == if loaded_ack_taken(old(self).cipher.key@, old(self).connections@, datagram@, *sender) {
                    old(self).connections@.insert(*sender, ConnectionState {
                        sequence_number: (old(self).connections@[*sender].sequence_number + 1) as u32,
                        acked_signal: true,
                    })
                } else {
                    old(self).connections@
                },
            !old(self).connections@.contains_key(*sender) ==> match connection_challenge(old(self).cipher.key@, datagram@) {
                None => r == Ok::<Option<Vec<u8>>, FrameError>(None) && final(self).connections@ == old(self).connections@,
                Some(challenge) => {
                    &&& final(self).connections@ == old(self).connections@.insert(*sender, advanced(fresh_connection()))
                    &&& match r {
                        Ok(Some(frame)) => open_frame(old(self).cipher.key@, frame@) == Some(
                            frame_content(CONNECTION_ACK, u32_be(2), challenge),
                        ),
                        Ok(None) => false,
                        Err(_) => challenge.len() + 5 > P_MAX,
                    }
                },
            },
    {
        if !self.connections.contains_key(sender) {
            self.receive_connection(datagram, sender)
        } else {
            self.receive_loaded_ack(datagram, sender);
            Ok(None)
        }
    }

    /// The frame of an instruction for `recipient`: its sequence number moves
    /// on first, and the frame carries the new one.
    pub fn frame_for_client(&mut self, recipient: &PeerAddr, packet_type: u8, payload: &[u8]) -> (r: Result<Vec<u8>, SendError>)
        requires
            old(self).connections@.contains_key(*recipient) ==> old(self).connections@[*recipient].sequence_number < u32::MAX,
        ensures
            final(self).host == old(self).host,
            final(self).port == old(self).port,
            final(self).cipher == old(self).cipher,
            !old(self).connections@.contains_key(*recipient) ==> r == Err::<Vec<u8>, SendError>(SendError::RecipientNotFound)
                && final(self).connections@ == old(self).connections@,
            old(self).connections@.contains_key(*recipient) ==> {
                let after = advanced(old(self).connections@[*recipient]);
                &&& final(self).connections@ == old(self).connections@.insert(*recipient, after)
                &&& (r is Ok <==> frame_content(packet_type, u32_be(after.sequence_number), payload@).len() <= P_MAX)
                &&& r matches Ok(frame) ==> open_frame(old(self).cipher.key@, frame@) == Some(
                    frame_content(packet_type, u32_be(after.sequence_number), payload@),
                )
                &&& r matches Ok(frame) ==> frame@ == sealed_frame(old(self).cipher.key@, frame@.subrange(4, 16),
                    frame_content(packet_type, u32_be(after.sequence_number), payload@))
                &&& r matches Err(e) ==> e == SendError::Frame(FrameError::Encryption)
            },
    {
        let state = match self.connections.get(recipient) {
            None => {
                return Err(SendError::RecipientNotFound);
            },
            Some(state) => state,
        };
        let after = ConnectionState { sequence_number: state.sequence_number + 1, acked_signal: state.acked_signal };
        self.connections.set(recipient, after);
        let seq_bytes = u32_to_be_bytes(after.sequence_number);
        match seal_datagram(&self.cipher, packet_type, seq_bytes.as_slice(), payload) {
            Ok(frame) => Ok(frame),
            Err(e) => Err(SendError::Frame(e)),
        }
    }

    /// Frames an instruction for every connected client, one frame each, in
    /// the order they connected; every client's sequence number moves on by
    /// one and its acknowledgement is cleared.
    pub fn broadcast(&mut self, packet_type: u8, payload: &[u8]) -> (frames: Vec<(PeerAddr, Result<Vec<u8>, SendError>)>)
        requires
            sequence_room(old(self).connections@),
        ensures
            final(self).host == old(self).host,
            final(self).port == old(self).port,
            final(self).cipher == old(self).cipher,
            broadcast_spec(old(self).cipher.key@, old(self).connections.entry_seq(), old(self).connections@, final(self).connections@, packet_type, payload@, frames@),
    {
        let recipients = self.connections.keys();
        let ghost old_connections = self.connections@;
        let mut frames: Vec<(PeerAddr, Result<Vec<u8>, SendError>)> = Vec::new();
        let mut i: usize = 0;
        while i < recipients.len()
            invariant
                i <= recipients@.len(),
                recipients@.no_duplicates(),
                recipients@.len() == old_connections.dom().len(),
                forall|j: int| 0 <= j < recipients@.len() ==> #[trigger] recipients@[j] == old(self).connections.entry_seq()[j].0,
                forall|k: PeerAddr| #[trigger] old_connections.contains_key(k) <==> recipients@.contains(k),
                self.host == old(self).host,
                self.port == old(self).port,
                self.cipher == old(self).cipher,
                old_connections == old(self).connections@,
                sequence_room(old_connections),
                self.connections@.dom() == old_connections.dom(),
                forall|j: int| 0 <= j < i ==> #[trigger] self.connections@[recipients@[j]] == (ConnectionState {
                    sequence_number: (old_connections[recipients@[j]].sequence_number + 1) as u32,
                    acked_signal: false,
                }),
                forall|j: int| i <= j < recipients@.len() ==> #[trigger] self.connections@[recipients@[j]]
                    == old_connections[recipients@[j]],
                frames@.len() == i,
                forall|j: int| 0 <= j < i ==> (#[trigger] frames@[j].1 matches Err(e) ==> e == SendError::Frame(FrameError::Encryption)),
                forall|j: int| 0 <= j < i ==> {
                    let k = #[trigger] frames@[j].0;
                    &&& k == recipients@[j]
                    &&& (frames@[j].1 is Ok <==> payload@.len() + 5 <= P_MAX)
                    &&& frames@[j].1 matches Ok(frame) ==> open_frame(self.cipher.key@, frame@) == Some(
                        frame_content(packet_type, u32_be(self.connections@[k].sequence_number), payload@),
                    )
                },
            decreases recipients@.len() - i,
        {
            let recipient = recipients[i];
            proof {
                assert(recipients@.contains(recipient));
                assert(old_connections.contains_key(recipient));
            }
            let r = self.frame_for_client(&recipient, packet_type, payload);
            match self.connections.get(&recipient) {
                Some(state) => {
                    self.connections.set(&recipient, ConnectionState { sequence_number: state.sequence_number, acked_signal: false });
                },
                None => {},
            }
            proof {
                assert forall|j: int| 0 <= j < recipients@.len() && j != i implies recipients@[j] != recipient by {
                    assert(recipients@[i as int] == recipient);
                }
                crate::codec::law_u32_be_roundtrip((old_connections[recipient].sequence_number + 1) as u32);
                assert(frame_content(packet_type, u32_be((old_connections[recipient].sequence_number + 1) as u32), payload@).len()
                    == payload@.len() + 5);
            }
            frames.push((recipient, r));
            i = i + 1;
        }
        proof {
            assert forall|k: PeerAddr| #[trigger] old_connections.contains_key(k) implies
                self.connections@[k] == (ConnectionState {
                    sequence_number: (old_connections[k].sequence_number + 1) as u32,
                    acked_signal: false,
                }) && exists|j: int| 0 <= j < frames@.len() && frames@[j].0 == k by {
                assert(recipients@.contains(k));
                let j = choose|j: int| 0 <= j < recipients@.len() && recipients@[j] == k;
                assert(frames@[j].0 == k);
            }
            assert forall|j: int| 0 <= j < frames@.len() implies old_connections.contains_key(#[trigger] frames@[j].0) by {
                assert(recipients@.contains(recipients@[j]));
            }
            assert forall|a: int, b: int| 0 <= a < b < frames@.len() implies frames@[a].0 != frames@[b].0 by {
                assert(frames@[a].0 == recipients@[a]);
                assert(frames@[b].0 == recipients@[b]);
            }
        }
        frames
    }

    /// Carries out an operator's command line: it is parsed (a refused line
    /// goes no further); a play command takes the player's position
    /// `position_ms` and starts `PLAY_LEAD_MS` after `now_ms`; the player
    /// `tracks` must be able to carry the instruction out; then it is
    /// broadcast to every client. The caller then carries the command out on
    /// its own player.
    pub fn select_action(&mut self, line: &str, tracks: &Audio, position_ms: u128, now_ms: u128) -> (r: ActionOutcome)
        requires
            command_spec(line.spec_bytes()) matches Ok(CommandView::Play) ==> now_ms <= u128::MAX - PLAY_LEAD_MS,
            command_goes_out(line.spec_bytes(), tracks) ==> sequence_room(old(self).connections@),
        ensures
            final(self).host == old(self).host,
            final(self).port == old(self).port,
            final(self).cipher == old(self).cipher,
            match command_spec(line.spec_bytes()) {
                Err(e) => r matches ActionOutcome::Refused(re) && re == e
                    && final(self).connections@ == old(self).connections@,
                Ok(command) => {
                    let values = play_values(command, position_ms, now_ms);
                    let packet = packet_spec(command, values.0, values.1);
                    if !preflight_spec(tracks.current is Some, tracks.queue@.len(), packet.0) {
                        r matches ActionOutcome::NotReady { packet_type } && packet_type == packet.0
                            && final(self).connections@ == old(self).connections@
                    } else {
                        r matches ActionOutcome::Broadcast { command: c, position_ms: p, play_at_ms: a, frames }
                            && c@ == command && p == values.0 && a == values.1
                            && broadcast_spec(old(self).cipher.key@, old(self).connections.entry_seq(), old(self).connections@, final(self).connections@,
                                packet.0, packet.1, frames@)
                    }
                },
            },
    {
        let command = match parse_command(line) {
            Ok(command) => command,
            Err(e) => {
                return ActionOutcome::Refused(e);
            },
        };
        let (position_ms, play_at_ms) = match command {
            Command::Play => (position_ms, play_start_time(now_ms)),
            _ => (0, 0),
        };
        let (packet_type, payload) = command_packet(&command, position_ms, play_at_ms);
        if !tracks.preflight_check(packet_type) {
            return ActionOutcome::NotReady { packet_type };
        }
        let frames = self.broadcast(packet_type, payload.as_slice());
        ActionOutcome::Broadcast { command, position_ms, play_at_ms, frames }
    }
}

} // verus!
