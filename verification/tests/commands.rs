use jitterbug::commands::{command_packet, parse_command, play_start_time, Command, CommandError};
use jitterbug::constants::packet_types::{AUDIO_BACK, AUDIO_FWD, AUDIO_PAUSE, AUDIO_SWAP, MISC};

#[test]
fn commands_by_keyword() {
    assert!(matches!(parse_command("swap"), Ok(Command::Swap)));
    assert!(matches!(parse_command("swapping"), Ok(Command::Swap)));
    assert!(matches!(parse_command("play"), Ok(Command::Play)));
    assert!(matches!(parse_command("pause"), Ok(Command::Pause)));
    assert!(matches!(parse_command("forward"), Ok(Command::Forward)));
    assert!(matches!(parse_command("backward"), Ok(Command::Backward)));
    assert!(matches!(parse_command("hello"), Ok(Command::Misc)));
    assert!(matches!(parse_command("load"), Ok(Command::Misc)));
    match parse_command("load x") {
        Ok(Command::Load { url }) => assert_eq!(url, b"x".to_vec()),
        _ => panic!("expected load"),
    }
}

#[test]
fn volume_commands() {
    assert!(matches!(parse_command("vol 0"), Ok(Command::Volume { level: 0 })));
    assert!(matches!(parse_command("vol 100"), Ok(Command::Volume { level: 100 })));
    assert!(matches!(parse_command("vol 0.5"), Err(CommandError::VolumeNotInteger)));
    assert!(matches!(parse_command("vol loud"), Err(CommandError::VolumeInvalid)));
    assert!(matches!(parse_command("vol 101"), Err(CommandError::VolumeTooHigh)));
}

#[test]
fn command_packets() {
    assert_eq!(command_packet(&Command::Swap, 1, 2), (AUDIO_SWAP, vec![]));
    assert_eq!(command_packet(&Command::Pause, 1, 2), (AUDIO_PAUSE, vec![]));
    assert_eq!(command_packet(&Command::Forward, 1, 2), (AUDIO_FWD, vec![]));
    assert_eq!(command_packet(&Command::Backward, 1, 2), (AUDIO_BACK, vec![]));
    assert_eq!(command_packet(&Command::Misc, 1, 2), (MISC, vec![]));
    let (_, play) = command_packet(&Command::Play, 7, 9);
    assert_eq!(&play[..16], &7u128.to_be_bytes());
    assert_eq!(&play[16..], &9u128.to_be_bytes());
    assert_eq!(play_start_time(1_000), 1_500);
}
