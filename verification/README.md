# Jitterbug

A network protocol and terminal application for synchronised audio playback
across devices: a server hands its clients a pairing key, then broadcasts
load, swap, play, pause, skip and volume instructions over AES-128-GCM
encrypted UDP frames, and every client plays the same track at the same
instant.

## Layout

- `src/` — the verified library (Verus):
  - `utils.rs`: the frame format (`create_frame`, `extract_packet`,
    `extract_payload`);
  - `client.rs`, `server.rs`, `connections.rs`: the handshake, the
    sequence-number discipline, the server's client table;
  - `commands.rs`: operator commands and the instruction packets they become;
  - `sharing.rs`: the pairing key;
  - `audio.rs`: the playback queue and player decisions;
  - `tui.rs`: the terminal interface's view model;
  - `codec.rs`: big-endian integers and decimal numerals;
  - `crypto.rs`: the AES-128-GCM primitives (from `aes_gcm`);
  - `protocol.rs`: laws of client and server running together.
- `app/` — the programs (`server`, `client`, `audiotest`): sockets, the audio
  device, downloads and the terminal.
- `tests/` — tests of the library.

## Frame

    magic bytes (4) | nonce (12) | AES-128-GCM( type (1) | sequence number (4) | payload ) | tag (16)
