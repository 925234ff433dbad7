use jitterbug::audio::{Audio, Track};
use jitterbug::client::{parse_instruction, Client, HandshakeError, Instruction, InstructionError};
use jitterbug::commands::{command_packet, is_quit_command, parse_command, Command, CommandError};
use jitterbug::connections::PeerAddr;
use jitterbug::constants::packet_types::{AUDIO_LOAD, AUDIO_PAUSE, AUDIO_PLAY, AUDIO_SWAP, AUDIO_VOL, MISC};
use jitterbug::constants::ConnectionState;
use jitterbug::crypto::Cipher;
use jitterbug::server::{ActionOutcome, SendError, Server};

fn peer(port: u16) -> PeerAddr {
    PeerAddr { ip: 0x7f000001, port, is_v6: false, flowinfo: 0, scope_id: 0 }
}

fn pair() -> (Server, Client) {
    let server = Server::new("127.0.0.1".to_string(), 8080, Cipher::new([11u8; 16]));
    let client = Client::new("127.0.0.1".to_string(), 8080, Cipher::new([11u8; 16]));
    (server, client)
}

fn connect(server: &mut Server, client: &mut Client, who: &PeerAddr) {
    let (challenge, request) = client.offer_handshake();
    client.frame_sent();
    let answer = server.process_received_datagram(&request, who).unwrap().unwrap();
    client.complete_handshake(&challenge, &answer).unwrap();
}

#[test]
fn handshake_synchronises_sequence_numbers() {
    let (mut server, mut client) = pair();
    let who = peer(5000);
    let (challenge, request) = client.offer_handshake();
    assert_eq!(request.len(), 49);
    client.frame_sent();
    assert_eq!(client.sequence_number, 1);
    let answer = server.process_received_datagram(&request, &who).unwrap().unwrap();
    assert_eq!(server.connections.get(&who), Some(ConnectionState { sequence_number: 2, acked_signal: false }));
    assert_eq!(client.complete_handshake(&challenge, &answer), Ok(()));
    assert_eq!(client.sequence_number, 2);
}

#[test]
fn handshake_rejects_wrong_challenge_or_key() {
    let (mut server, mut client) = pair();
    let who = peer(5001);
    let (_challenge, request) = client.offer_handshake();
    client.frame_sent();
    let answer = server.process_received_datagram(&request, &who).unwrap().unwrap();
    assert_eq!(client.complete_handshake(&[0u8; 12], &answer), Err(HandshakeError::NonceMismatch));
    assert_eq!(client.sequence_number, 1);

    let mut stranger = Client::new("127.0.0.1".to_string(), 8080, Cipher::new([12u8; 16]));
    let (_c, request) = stranger.offer_handshake();
    let before = server.connections.len();
    assert_eq!(server.process_received_datagram(&request, &peer(5002)), Ok(None));
    assert_eq!(server.connections.len(), before);
}

#[test]
fn handshake_answer_must_be_an_acknowledgement() {
    let (_server, mut client) = pair();
    let (challenge, request) = client.offer_handshake();
    client.frame_sent();
    // the client's own request is not an acknowledgement
    assert_eq!(client.complete_handshake(&challenge, &request), Err(HandshakeError::Internal));
}

#[test]
fn broadcast_instruction_reaches_client_once() {
    let (mut server, mut client) = pair();
    let who = peer(5003);
    connect(&mut server, &mut client, &who);
    let frames = server.broadcast(AUDIO_PAUSE, &[]);
    assert_eq!(frames.len(), 1);
    assert_eq!(frames[0].0, who);
    let frame = frames[0].1.clone().unwrap();
    assert_eq!(server.connections.get(&who), Some(ConnectionState { sequence_number: 3, acked_signal: false }));
    let (packet_type, payload) = client.accept_instruction(&frame).unwrap();
    assert_eq!(packet_type, AUDIO_PAUSE);
    assert!(payload.is_empty());
    assert_eq!(client.sequence_number, 3);
    // the same frame again is a replay
    assert_eq!(client.accept_instruction(&frame), None);
    assert_eq!(client.sequence_number, 3);
}

#[test]
fn load_command_round_trip_and_loaded_ack() {
    let (mut server, mut client) = pair();
    let who = peer(5004);
    connect(&mut server, &mut client, &who);
    let command = parse_command("load https://example.com/watch?v=abc").unwrap();
    let (packet_type, payload) = command_packet(&command, 0, 0);
    assert_eq!(packet_type, AUDIO_LOAD);
    let frames = server.broadcast(packet_type, &payload);
    let (t, p) = client.accept_instruction(frames[0].1.as_ref().unwrap()).unwrap();
    match parse_instruction(t, &p) {
        Ok(Instruction::Load { url }) => assert_eq!(url, "https://example.com/watch?v=abc"),
        _ => panic!("expected a load instruction"),
    }
    let ack = client.loaded_ack_frame();
    client.frame_sent();
    assert_eq!(server.process_received_datagram(&ack, &who), Ok(None));
    assert_eq!(server.connections.get(&who), Some(ConnectionState { sequence_number: 4, acked_signal: true }));
    assert_eq!(client.sequence_number, 4);
    // still in step: the next instruction is accepted
    let frames = server.broadcast(AUDIO_SWAP, &[]);
    assert_eq!(client.accept_instruction(frames[0].1.as_ref().unwrap()).map(|x| x.0), Some(AUDIO_SWAP));
}

#[test]
fn play_and_volume_commands_round_trip() {
    let (mut server, mut client) = pair();
    let who = peer(5005);
    connect(&mut server, &mut client, &who);
    let (t, payload) = command_packet(&parse_command("play").unwrap(), 61_234, 1_700_000_000_500);
    assert_eq!(t, AUDIO_PLAY);
    assert_eq!(payload.len(), 32);
    let frames = server.broadcast(t, &payload);
    let (t, p) = client.accept_instruction(frames[0].1.as_ref().unwrap()).unwrap();
    match parse_instruction(t, &p) {
        Ok(Instruction::Play { to_set, when }) => {
            assert_eq!(to_set, 61_234);
            assert_eq!(when, 1_700_000_000_500);
        },
        _ => panic!("expected a play instruction"),
    }
    let (t, payload) = command_packet(&parse_command("vol 42").unwrap(), 0, 0);
    assert_eq!(t, AUDIO_VOL);
    let frames = server.broadcast(t, &payload);
    let (t, p) = client.accept_instruction(frames[0].1.as_ref().unwrap()).unwrap();
    assert!(matches!(parse_instruction(t, &p), Ok(Instruction::Volume { level: 42 })));
}

#[test]
fn instruction_errors() {
    assert!(matches!(parse_instruction(AUDIO_PLAY, &[0u8; 31]), Err(InstructionError::Truncated)));
    assert!(matches!(parse_instruction(AUDIO_VOL, &[0u8; 15]), Err(InstructionError::Truncated)));
    assert!(matches!(parse_instruction(AUDIO_LOAD, &[0xff, 0xfe]), Err(InstructionError::NotUtf8)));
    assert!(matches!(parse_instruction(MISC, b"whatever"), Ok(Instruction::Ignore)));
}

#[test]
fn frames_for_unknown_clients_are_refused() {
    let (mut server, _client) = pair();
    assert_eq!(server.frame_for_client(&peer(6000), AUDIO_PAUSE, &[]), Err(SendError::RecipientNotFound));
}

#[test]
fn broadcast_reaches_every_client_in_connection_order() {
    let mut server = Server::new("127.0.0.1".to_string(), 8080, Cipher::new([11u8; 16]));
    let mut a = Client::new("127.0.0.1".to_string(), 8080, Cipher::new([11u8; 16]));
    let mut b = Client::new("127.0.0.1".to_string(), 8080, Cipher::new([11u8; 16]));
    connect(&mut server, &mut a, &peer(7001));
    connect(&mut server, &mut b, &peer(7002));
    assert_eq!(server.connections.len(), 2);
    let frames = server.broadcast(MISC, b"hi");
    assert_eq!(frames.iter().map(|f| f.0).collect::<Vec<_>>(), vec![peer(7001), peer(7002)]);
    assert!(a.accept_instruction(frames[0].1.as_ref().unwrap()).is_some());
    assert!(b.accept_instruction(frames[1].1.as_ref().unwrap()).is_some());
}

fn loaded_player() -> Audio {
    let mut audio = Audio::new("temp-assets".to_string());
    audio.enqueue(Track { title: "one".to_string(), duration: Some(180), path: "temp-assets/one.mp3".to_string() });
    audio
}

#[test]
fn short_datagrams_are_ignored_by_both_sides() {
    let (mut server, mut client) = pair();
    let who = peer(7100);
    let stray = [1u8, 2, 3, 4, 5, 6, 7, 8];
    assert_eq!(server.process_received_datagram(&stray, &who), Ok(None));
    assert_eq!(server.receive_connection(&[], &who), Ok(None));
    assert_eq!(server.connections.len(), 0);
    assert_eq!(client.accept_instruction(&stray), None);
    assert_eq!(client.complete_handshake(&[0u8; 12], &stray), Err(HandshakeError::Internal));
    assert_eq!(client.sequence_number, 0);
}

#[test]
fn select_action_broadcasts_load_once_per_client() {
    let mut server = Server::new("127.0.0.1".to_string(), 8080, Cipher::new([11u8; 16]));
    let mut a = Client::new("127.0.0.1".to_string(), 8080, Cipher::new([11u8; 16]));
    let mut b = Client::new("127.0.0.1".to_string(), 8080, Cipher::new([11u8; 16]));
    connect(&mut server, &mut a, &peer(7201));
    connect(&mut server, &mut b, &peer(7202));
    let player = Audio::new("temp-assets".to_string());
    match server.select_action("load https://example.com/x", &player, 0, 0) {
        ActionOutcome::Broadcast { command, position_ms, play_at_ms, frames } => {
            assert!(matches!(command, Command::Load { ref url } if url == b"https://example.com/x"));
            assert_eq!((position_ms, play_at_ms), (0, 0));
            assert_eq!(frames.len(), 2);
            assert_ne!(frames[0].0, frames[1].0);
            let (t, p) = a.accept_instruction(frames[0].1.as_ref().unwrap()).unwrap();
            assert_eq!((t, p), (AUDIO_LOAD, b"https://example.com/x".to_vec()));
            assert!(b.accept_instruction(frames[1].1.as_ref().unwrap()).is_some());
        },
        _ => panic!("expected a broadcast"),
    }
    assert_eq!(server.connections.get(&peer(7201)), Some(ConnectionState { sequence_number: 3, acked_signal: false }));
    assert_eq!(server.connections.get(&peer(7202)), Some(ConnectionState { sequence_number: 3, acked_signal: false }));
}

#[test]
fn select_action_play_carries_position_and_start_time() {
    let (mut server, mut client) = pair();
    let who = peer(7300);
    connect(&mut server, &mut client, &who);
    let mut player = loaded_player();
    let outcome = server.select_action("play", &player, 1_000, 1_700_000_000_000);
    // nothing is current yet: the player cannot play
    assert!(matches!(outcome, ActionOutcome::NotReady { packet_type: AUDIO_PLAY }));
    assert_eq!(server.connections.get(&who), Some(ConnectionState { sequence_number: 2, acked_signal: false }));
    let outcome = player.swap();
    player.set_current(outcome.next.unwrap());
    match server.select_action("play", &player, 1_000, 1_700_000_000_000) {
        ActionOutcome::Broadcast { position_ms, play_at_ms, frames, .. } => {
            assert_eq!((position_ms, play_at_ms), (1_000, 1_700_000_000_500));
            let (t, p) = client.accept_instruction(frames[0].1.as_ref().unwrap()).unwrap();
            assert!(matches!(parse_instruction(t, &p), Ok(Instruction::Play { to_set: 1_000, when: 1_700_000_000_500 })));
        },
        _ => panic!("expected a broadcast"),
    }
}

#[test]
fn select_action_refusals_send_nothing() {
    let (mut server, mut client) = pair();
    let who = peer(7400);
    connect(&mut server, &mut client, &who);
    let player = Audio::new("temp-assets".to_string());
    assert!(matches!(server.select_action("vol 0.5", &player, 0, 0), ActionOutcome::Refused(CommandError::VolumeNotInteger)));
    assert!(matches!(server.select_action("vol 101", &player, 0, 0), ActionOutcome::Refused(CommandError::VolumeTooHigh)));
    assert!(matches!(server.select_action("vol x", &player, 0, 0), ActionOutcome::Refused(CommandError::VolumeInvalid)));
    assert!(matches!(server.select_action("swap", &player, 0, 0), ActionOutcome::NotReady { packet_type: AUDIO_SWAP }));
    assert!(matches!(server.select_action("pause", &player, 0, 0), ActionOutcome::NotReady { packet_type: AUDIO_PAUSE }));
    assert_eq!(server.connections.get(&who), Some(ConnectionState { sequence_number: 2, acked_signal: false }));
    // a volume change and an unknown line need no track
    match server.select_action("vol 42", &player, 0, 0) {
        ActionOutcome::Broadcast { frames, .. } => {
            let (t, p) = client.accept_instruction(frames[0].1.as_ref().unwrap()).unwrap();
            assert!(matches!(parse_instruction(t, &p), Ok(Instruction::Volume { level: 42 })));
        },
        _ => panic!("expected a broadcast"),
    }
    match server.select_action("hello", &player, 0, 0) {
        ActionOutcome::Broadcast { frames, .. } => {
            assert_eq!(client.accept_instruction(frames[0].1.as_ref().unwrap()), Some((MISC, vec![])));
        },
        _ => panic!("expected a broadcast"),
    }
}

#[test]
fn client_acknowledges_only_loads() {
    let (mut server, mut client) = pair();
    let who = peer(7500);
    connect(&mut server, &mut client, &who);
    assert!(client.response_to(&Instruction::Pause, true).is_none());
    assert!(client.response_to(&Instruction::Volume { level: 3 }, true).is_none());
    // a failed download is not acknowledged
    assert!(client.response_to(&Instruction::Load { url: "u".to_string() }, false).is_none());
    let ack = client.response_to(&Instruction::Load { url: "u".to_string() }, true).unwrap();
    assert_eq!(ack.len(), 37);
    client.frame_sent();
    assert_eq!(server.process_received_datagram(&ack, &who), Ok(None));
    assert_eq!(server.connections.get(&who), Some(ConnectionState { sequence_number: 3, acked_signal: true }));
}

#[test]
fn quit_line() {
    assert!(is_quit_command("quit"));
    assert!(!is_quit_command("quit "));
    assert!(!is_quit_command("qui"));
    assert!(!is_quit_command("pause"));
}

#[test]
fn only_a_genuine_loaded_ack_counts() {
    let (mut server, mut client) = pair();
    let who = peer(7600);
    connect(&mut server, &mut client, &who);
    let before = ConnectionState { sequence_number: 2, acked_signal: false };
    // a stray datagram, a garbled acknowledgement, one under another key, one
    // under the wrong sequence number and a frame of another type change nothing
    assert!(!server.receive_loaded_ack(&[1, 2, 3, 4, 5, 6, 7, 8], &who));
    let ack = client.loaded_ack_frame();
    let mut garbled = ack.clone();
    garbled[20] ^= 1;
    assert_eq!(server.process_received_datagram(&garbled, &who), Ok(None));
    assert_eq!(server.connections.get(&who), Some(before));
    let stranger = Client::new("127.0.0.1".to_string(), 8080, Cipher::new([12u8; 16]));
    let mut shifted = Client::new("127.0.0.1".to_string(), 8080, Cipher::new([11u8; 16]));
    shifted.sequence_number = 3;
    assert!(!server.receive_loaded_ack(&stranger.loaded_ack_frame(), &who));
    assert!(!server.receive_loaded_ack(&shifted.loaded_ack_frame(), &who));
    let (_challenge, request) = client.offer_handshake();
    assert!(!server.receive_loaded_ack(&request, &who));
    assert_eq!(server.connections.get(&who), Some(before));
    // an acknowledgement from an address that is not connected changes nothing
    assert!(!server.receive_loaded_ack(&ack, &peer(7601)));
    // the genuine one is taken
    assert!(server.receive_loaded_ack(&ack, &who));
    assert_eq!(server.connections.get(&who), Some(ConnectionState { sequence_number: 3, acked_signal: true }));
    // and not twice
    assert!(!server.receive_loaded_ack(&ack, &who));
    assert_eq!(server.connections.get(&who), Some(ConnectionState { sequence_number: 3, acked_signal: true }));
}
