use jitterbug::client::Client;
use jitterbug::crypto::Cipher;
use jitterbug::server::Server;
use jitterbug::sharing::{make_sharing_key, parse_sharing_key, SharingKeyError};

#[test]
fn sharing_key_known_value() {
    let key = make_sharing_key("127.0.0.1", 8080, &[0u8; 16]);
    assert_eq!(key, "MTI3LjAuMC4xOjgwODB8fEFBQUFBQUFBQUFBQUFBQUFBQUFBQUE9PQ==");
}

#[test]
fn sharing_key_round_trip() {
    let secret = [9u8, 1, 2, 3, 4, 5, 6, 7, 8, 9, 10, 11, 12, 13, 14, 255];
    let key = make_sharing_key("192.168.1.20", 65535, &secret);
    let parsed = parse_sharing_key(&key).unwrap();
    assert_eq!(parsed.host, "192.168.1.20");
    assert_eq!(parsed.port, 65535);
    assert_eq!(parsed.key, secret);
}

#[test]
fn sharing_key_with_unicode_host() {
    let key = make_sharing_key("héllo.example", 1, &[1u8; 16]);
    let parsed = parse_sharing_key(&key).unwrap();
    assert_eq!(parsed.host, "héllo.example");
    assert_eq!(parsed.port, 1);
}

#[test]
fn sharing_key_errors() {
    assert_eq!(parse_sharing_key("not base64!!").err(), Some(SharingKeyError::NotBase64));
    assert_eq!(parse_sharing_key("//4=").err(), Some(SharingKeyError::NotUtf8));
    assert_eq!(parse_sharing_key("bm9ob3N0").err(), Some(SharingKeyError::MissingKeySeparator));
    assert_eq!(
        parse_sharing_key("aG9zdHx8QUFBQUFBQUFBQUFBQUFBQUFBQUFBQT09").err(),
        Some(SharingKeyError::MissingPortSeparator)
    );
    assert_eq!(parse_sharing_key("aDoxfHwhISE=").err(), Some(SharingKeyError::KeyNotBase64));
    assert_eq!(parse_sharing_key("aDoxfHxBQUFBQUFBQUFBQT0=").err(), Some(SharingKeyError::BadKeyLength));
    assert_eq!(
        parse_sharing_key("aDo5OTk5OXx8QUFBQUFBQUFBQUFBQUFBQUFBQUFBQT09").err(),
        Some(SharingKeyError::BadPort)
    );
}

#[test]
fn client_from_server_sharing_key() {
    let server = Server::new("10.0.0.5".to_string(), 4242, Cipher::new([5u8; 16]));
    let client = Client::from_sharing_key(&server.sharing_key()).unwrap();
    assert_eq!(client.server_host, "10.0.0.5");
    assert_eq!(client.server_port, 4242);
    assert_eq!(client.cipher.key, [5u8; 16]);
    assert_eq!(client.sequence_number, 0);
}

#[test]
fn generated_server_key_pairs() {
    let server = Server::with_generated_key();
    assert_eq!(server.host, "127.0.0.1");
    assert_eq!(server.port, 8080);
    let client = Client::from_sharing_key(&server.sharing_key()).unwrap();
    assert_eq!(client.cipher.key, server.cipher.key);
}
