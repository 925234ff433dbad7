use jitterbug::constants::packet_types::{
    AUDIO_ANY, AUDIO_LOAD, AUDIO_PAUSE, AUDIO_PLAY, AUDIO_VOL, CONNECTION_ACK, CONNECTION_SYN, LOADED_ACK, MISC,
};
use jitterbug::constants::MAGIC_BYTES;
use jitterbug::crypto::Cipher;
use jitterbug::utils::{create_frame, extract_packet, extract_payload, packet_type_to_text, seal_datagram};

fn cipher() -> Cipher {
    Cipher::new([7u8; 16])
}

fn hex(s: &str) -> Vec<u8> {
    (0..s.len()).step_by(2).map(|i| u8::from_str_radix(&s[i..i + 2], 16).unwrap()).collect()
}

#[test]
fn packet_type_names() {
    assert_eq!(packet_type_to_text(CONNECTION_SYN), "Connection SYN");
    assert_eq!(packet_type_to_text(CONNECTION_ACK), "Connection ACK");
    assert_eq!(packet_type_to_text(MISC), "Misc");
    assert_eq!(packet_type_to_text(AUDIO_LOAD), "Audio Load");
    assert_eq!(packet_type_to_text(AUDIO_PLAY), "Audio Play");
    assert_eq!(packet_type_to_text(AUDIO_VOL), "Audio Volume");
    assert_eq!(packet_type_to_text(LOADED_ACK), "Unknown");
    assert_eq!(packet_type_to_text(0xff), "Unknown");
}

#[test]
fn frame_layout_and_aes_gcm_known_answer() {
    // Content of sixteen zero bytes under the all-zero key and nonce: the
    // AES-128-GCM test vector of the GCM specification (test case 2).
    let zero = Cipher::new([0u8; 16]);
    let frame = create_frame(&zero, 0, &[0, 0, 0, 0], &[0u8; 12], Some(&[0u8; 11])).unwrap();
    assert_eq!(frame.len(), 16 + 16 + 16);
    assert_eq!(&frame[0..4], &MAGIC_BYTES);
    assert_eq!(&frame[4..16], &[0u8; 12]);
    assert_eq!(frame[16..32].to_vec(), hex("0388dace60b6a392f328c2b971b2fe78"));
    assert_eq!(frame[32..48].to_vec(), hex("ab6e47d42cec13bdf53a67b21257bddf"));
}

#[test]
fn frame_round_trip() {
    let c = cipher();
    let nonce = [3u8; 12];
    let frame = create_frame(&c, AUDIO_PAUSE, &42u32.to_be_bytes(), &nonce, Some(b"hello")).unwrap();
    assert_eq!(frame.len(), 32 + 1 + 4 + 5);
    // the content is encrypted, not copied
    assert_ne!(&frame[16..26], &[AUDIO_PAUSE, 0, 0, 0, 42, b'h', b'e', b'l', b'l', b'o']);
    let payload = extract_payload(&c, &frame, 42, AUDIO_PAUSE).unwrap();
    assert_eq!(payload, b"hello".to_vec());
    // a receiver waiting for any audio instruction takes it too, and learns its type
    assert_eq!(extract_payload(&c, &frame, 42, AUDIO_ANY).unwrap(), payload);
    assert_eq!(extract_packet(&c, &frame, 42, AUDIO_ANY), Some((AUDIO_PAUSE, payload)));
}

#[test]
fn frame_without_payload() {
    let c = cipher();
    let frame = create_frame(&c, LOADED_ACK, &5u32.to_be_bytes(), &[1u8; 12], None).unwrap();
    assert_eq!(frame.len(), 32 + 5);
    // an empty payload, which is not the same as none
    assert_eq!(extract_payload(&c, &frame, 5, LOADED_ACK), Some(vec![]));
    assert_eq!(extract_packet(&c, &frame, 5, LOADED_ACK), Some((LOADED_ACK, vec![])));
}

#[test]
fn frame_payload_read_back_exactly() {
    let zero = Cipher::new([0u8; 16]);
    let frame = create_frame(&zero, AUDIO_PLAY, &[0, 0, 0, 7], &[0u8; 12], Some(&[0xAA, 0xBB])).unwrap();
    assert_eq!(extract_payload(&zero, &frame, 7, AUDIO_PLAY), Some(vec![0xAA, 0xBB]));
    let empty = create_frame(&zero, LOADED_ACK, &[0, 0, 0, 3], &[0u8; 12], None).unwrap();
    assert_eq!(extract_payload(&zero, &empty, 3, LOADED_ACK), Some(vec![]));
}

#[test]
fn short_datagrams_are_refused() {
    let c = cipher();
    assert_eq!(extract_payload(&c, &[], 0, MISC), None);
    assert_eq!(extract_payload(&c, &MAGIC_BYTES[..3], 0, MISC), None);
    // wrong magic bytes, shorter than the clear header
    assert_eq!(extract_payload(&c, &[1, 2, 3, 4, 5, 6, 7, 8], 0, MISC), None);
    // the right magic bytes, but no room for a nonce
    let mut short = MAGIC_BYTES.to_vec();
    short.extend_from_slice(&[0u8; 11]);
    assert_eq!(extract_payload(&c, &short, 0, MISC), None);
    assert_eq!(extract_packet(&c, &short, 0, MISC), None);
}

#[test]
fn frame_refused_on_wrong_sequence_number() {
    let c = cipher();
    let frame = create_frame(&c, AUDIO_PAUSE, &42u32.to_be_bytes(), &[3u8; 12], None).unwrap();
    assert_eq!(extract_payload(&c, &frame, 41, AUDIO_PAUSE), None);
    assert_eq!(extract_payload(&c, &frame, 43, AUDIO_PAUSE), None);
}

#[test]
fn frame_refused_on_wrong_type() {
    let c = cipher();
    let frame = create_frame(&c, AUDIO_PAUSE, &1u32.to_be_bytes(), &[3u8; 12], None).unwrap();
    assert_eq!(extract_payload(&c, &frame, 1, AUDIO_PLAY), None);
    let ack = create_frame(&c, CONNECTION_ACK, &1u32.to_be_bytes(), &[3u8; 12], None).unwrap();
    assert_eq!(extract_payload(&c, &ack, 1, AUDIO_ANY), None);
    let any = create_frame(&c, AUDIO_ANY, &1u32.to_be_bytes(), &[3u8; 12], None).unwrap();
    assert_eq!(extract_payload(&c, &any, 1, AUDIO_ANY), None);
}

#[test]
fn frame_refused_on_wrong_magic_key_or_tampering() {
    let c = cipher();
    let frame = create_frame(&c, MISC, &9u32.to_be_bytes(), &[3u8; 12], Some(b"x")).unwrap();
    let mut bad_magic = frame.clone();
    bad_magic[0] ^= 1;
    assert_eq!(extract_payload(&c, &bad_magic, 9, MISC), None);
    let mut tampered = frame.clone();
    tampered[20] ^= 0x80;
    assert_eq!(extract_payload(&c, &tampered, 9, MISC), None);
    let other = Cipher::new([8u8; 16]);
    assert_eq!(extract_payload(&other, &frame, 9, MISC), None);
    // a frame too short to hold the sequence number
    let short = create_frame(&c, MISC, &[0, 0], &[3u8; 12], None).unwrap();
    assert_eq!(extract_payload(&c, &short, 0, MISC), None);
    // shorter than a tag
    assert_eq!(extract_payload(&c, &frame[..20], 9, MISC), None);
}

#[test]
fn sealed_datagrams_use_fresh_nonces() {
    let c = cipher();
    let a = seal_datagram(&c, MISC, &1u32.to_be_bytes(), b"same").unwrap();
    let b = seal_datagram(&c, MISC, &1u32.to_be_bytes(), b"same").unwrap();
    assert_ne!(&a[4..16], &b[4..16]);
    assert_eq!(extract_payload(&c, &a, 1, MISC).unwrap(), extract_payload(&c, &b, 1, MISC).unwrap());
}
