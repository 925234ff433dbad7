//! The commands the server's operator types, and the instruction packets
//! they become.

use vstd::prelude::*;
use vstd::string::StringSliceAdditionalSpecFns;
use vstd::utf8::{decode_utf8, encode_utf8, encode_utf8_valid_utf8};
use crate::client::{instruction_spec, InstructionView};
use crate::codec::{
    all_digits, digits_value, is_digit, unsigned_digits, law_u128_be_roundtrip, lemma_valid_utf8_around_ascii, parse_unsigned, parse_unsigned_spec, u128_be,
    u128_to_be_bytes,
};
use crate::constants::packet_types::{
    AUDIO_BACK, AUDIO_FWD, AUDIO_LOAD, AUDIO_PAUSE, AUDIO_PLAY, AUDIO_SWAP, AUDIO_VOL, MISC,
};
use crate::utils::{slice_from};

verus! {

/// `load ` (followed by the track's URL).
pub const LOAD_PREFIX: [u8; 5] = [0x6c, 0x6f, 0x61, 0x64, 0x20];
/// `swap`.
pub const SWAP_PREFIX: [u8; 4] = [0x73, 0x77, 0x61, 0x70];
/// `play`.
pub const PLAY_PREFIX: [u8; 4] = [0x70, 0x6c, 0x61, 0x79];
/// `pause`.
pub const PAUSE_PREFIX: [u8; 5] = [0x70, 0x61, 0x75, 0x73, 0x65];
/// `forward`.
pub const FORWARD_PREFIX: [u8; 7] = [0x66, 0x6f, 0x72, 0x77, 0x61, 0x72, 0x64];
/// `backward`.
pub const BACKWARD_PREFIX: [u8; 8] = [0x62, 0x61, 0x63, 0x6b, 0x77, 0x61, 0x72, 0x64];
/// `vol ` (followed by a percentage).
pub const VOL_PREFIX: [u8; 4] = [0x76, 0x6f, 0x6c, 0x20];

/// How far ahead of now the server schedules playback, in milliseconds.
pub const PLAY_LEAD_MS: u128 = 500;

/// `quit`: the line that stops the server.
pub const QUIT_LINE: [u8; 4] = [0x71, 0x75, 0x69, 0x74];

/// The largest volume, in percent.
pub const MAX_VOLUME: u128 = 100;

/// An operator's command.
pub enum Command {
    /// Load the track at the URL (the rest of the line after `load `).
    Load { url: Vec<u8> },
    /// Swap the next track in.
    Swap,
    /// Play, in step, shortly from now.
    Play,
    /// Pause.
    Pause,
    /// Skip forward.
    Forward,
    /// Skip back.
    Backward,
    /// Set the volume, in percent.
    Volume { level: u128 },
    /// Anything else: passed on to the clients as a miscellaneous packet.
    Misc,
}

/// The meaning of a command, over plain values.
pub enum CommandView {
    Load { url: Seq<u8> },
    Swap,
    Play,
    Pause,
    Forward,
    Backward,
    Volume { level: u128 },
    Misc,
}

impl View for Command {
    type V = CommandView;

    open spec fn view(&self) -> CommandView {
        match self {
            Command::Load { url } => CommandView::Load { url: url@ },
            Command::Swap => CommandView::Swap,
            Command::Play => CommandView::Play,
            Command::Pause => CommandView::Pause,
            Command::Forward => CommandView::Forward,
            Command::Backward => CommandView::Backward,
            Command::Volume { level } => CommandView::Volume { level: *level },
            Command::Misc => CommandView::Misc,
        }
    }
}

/// Why a volume command was refused.
#[derive(Clone, Copy, Debug, PartialEq, Eq, Structural)]
pub enum CommandError {
    /// The level has a decimal point.
    VolumeNotInteger,
    /// The level is not a number.
    VolumeInvalid,
    /// The level is above 100.
    VolumeTooHigh,
}

/// Whether `s` begins with `prefix`.
pub open spec fn has_prefix(s: Seq<u8>, prefix: Seq<u8>) -> bool {
    prefix.len() <= s.len() && s.take(prefix.len() as int) == prefix
}

/// Whether `s` holds the byte `b`.
pub open spec fn has_byte(s: Seq<u8>, b: u8) -> bool {
    exists|i: int| 0 <= i < s.len() && s[i] == b
}

/// What a volume argument means.
pub open spec fn volume_spec(arg: Seq<u8>) -> Result<CommandView, CommandError> {
    if has_byte(arg, 0x2e) {
        Err(CommandError::VolumeNotInteger)
    } else {
        match parse_unsigned_spec(arg, u128::MAX as nat) {
            None => Err(CommandError::VolumeInvalid),
            Some(level) => if level > MAX_VOLUME {
                Err(CommandError::VolumeTooHigh)
            } else {
                Ok(CommandView::Volume { level: level as u128 })
            },
        }
    }
}

/// What the command line with bytes `line` means; the first keyword that
/// begins the line decides.
pub open spec fn command_spec(line: Seq<u8>) -> Result<CommandView, CommandError> {
    if has_prefix(line, LOAD_PREFIX@) {
        Ok(CommandView::Load { url: line.skip(5) })
    } else if has_prefix(line, SWAP_PREFIX@) {
        Ok(CommandView::Swap)
    } else if has_prefix(line, PLAY_PREFIX@) {
        Ok(CommandView::Play)
    } else if has_prefix(line, PAUSE_PREFIX@) {
        Ok(CommandView::Pause)
    } else if has_prefix(line, FORWARD_PREFIX@) {
        Ok(CommandView::Forward)
    } else if has_prefix(line, BACKWARD_PREFIX@) {
        Ok(CommandView::Backward)
    } else if has_prefix(line, VOL_PREFIX@) {
        volume_spec(line.skip(4))
    } else {
        Ok(CommandView::Misc)
    }
}

/// The view of a command result.
pub open spec fn command_result_view(r: Result<Command, CommandError>) -> Result<CommandView, CommandError> {
    match r {
        Ok(c) => Ok(c@),
        Err(e) => Err(e),
    }
}

/// Whether `s` begins with `prefix`.
pub fn starts_with(s: &[u8], prefix: &[u8]) -> (r: bool)
    ensures
        r == has_prefix(s@, prefix@),
{
    if prefix.len() > s.len() {
        return false;
    }
    let mut i: usize = 0;
    while i < prefix.len()
        invariant
            i <= prefix@.len() <= s@.len(),
            forall|j: int| 0 <= j < i ==> s@[j] == prefix@[j],
        decreases prefix@.len() - i,
    {
        if s[i] != prefix[i] {
            proof {
                assert(s@.take(prefix@.len() as int)[i as int] != prefix@[i as int]);
            }
            return false;
        }
        i = i + 1;
    }
    assert(s@.take(prefix@.len() as int) =~= prefix@);
    true
}

/// Whether `s` holds the byte `b`.
pub fn contains_byte(s: &[u8], b: u8) -> (r: bool)
    ensures
        r == has_byte(s@, b),
{
    let mut i: usize = 0;
    while i < s.len()
        invariant
            i <= s@.len(),
            forall|j: int| 0 <= j < i ==> s@[j] != b,
        decreases s@.len() - i,
    {
        if s[i] == b {
            return true;
        }
        i = i + 1;
    }
    false
}

/// Reads an operator's command line.
pub fn parse_command(line: &str) -> (r: Result<Command, CommandError>)
    ensures
        command_result_view(r) == command_spec(line.spec_bytes()),
{
    let bytes = line.as_bytes();
    if starts_with(bytes, LOAD_PREFIX.as_slice()) {
        Ok(Command::Load { url: slice_from(bytes, 5) })
    } else if starts_with(bytes, SWAP_PREFIX.as_slice()) {
        Ok(Command::Swap)
    } else if starts_with(bytes, PLAY_PREFIX.as_slice()) {
        Ok(Command::Play)
    } else if starts_with(bytes, PAUSE_PREFIX.as_slice()) {
        Ok(Command::Pause)
    } else if starts_with(bytes, FORWARD_PREFIX.as_slice()) {
        Ok(Command::Forward)
    } else if starts_with(bytes, BACKWARD_PREFIX.as_slice()) {
        Ok(Command::Backward)
    } else if starts_with(bytes, VOL_PREFIX.as_slice()) {
        let arg = slice_from(bytes, 4);
        if contains_byte(arg.as_slice(), 0x2e) {
            return Err(CommandError::VolumeNotInteger);
        }
        match parse_unsigned(arg.as_slice(), u128::MAX) {
            None => Err(CommandError::VolumeInvalid),
            Some(level) => if level > MAX_VOLUME {
                Err(CommandError::VolumeTooHigh)
            } else {
                Ok(Command::Volume { level })
            },
        }
    } else {
        Ok(Command::Misc)
    }
}

/// Whether the operator's line asks the server to stop: it is exactly `quit`.
pub fn is_quit_command(line: &str) -> (r: bool)
    ensures
        r == (line.spec_bytes() == QUIT_LINE@),
{
    let bytes = line.as_bytes();
    let r = bytes.len() == 4 && starts_with(bytes, QUIT_LINE.as_slice());
    proof {
        if bytes@.len() == 4 {
            assert(bytes@.take(4) =~= bytes@);
        }
    }
    r
}

/// The instruction packet (type and payload) a command becomes; a play
/// command carries the player's position and the Unix time to start at, both
/// in milliseconds.
pub open spec fn packet_spec(command: CommandView, position_ms: u128, play_at_ms: u128) -> (u8, Seq<u8>) {
    match command {
        CommandView::Load { url } => (AUDIO_LOAD, url),
        CommandView::Swap => (AUDIO_SWAP, Seq::empty()),
        CommandView::Play => (AUDIO_PLAY, u128_be(position_ms) + u128_be(play_at_ms)),
        CommandView::Pause => (AUDIO_PAUSE, Seq::empty()),
        CommandView::Forward => (AUDIO_FWD, Seq::empty()),
        CommandView::Backward => (AUDIO_BACK, Seq::empty()),
        CommandView::Volume { level } => (AUDIO_VOL, u128_be(level)),
        CommandView::Misc => (MISC, Seq::empty()),
    }
}

/// The instruction packet (type and payload) for `command`.
pub fn command_packet(command: &Command, position_ms: u128, play_at_ms: u128) -> (r: (u8, Vec<u8>))
    ensures
        r.0 == packet_spec(command@, position_ms, play_at_ms).0,
        r.1@ == packet_spec(command@, position_ms, play_at_ms).1,
{
    match command {
        Command::Load { url } => (AUDIO_LOAD, slice_from(url.as_slice(), 0)),
        Command::Swap => (AUDIO_SWAP, Vec::new()),
        Command::Play => {
            let mut payload = u128_to_be_bytes(position_ms);
            let second = u128_to_be_bytes(play_at_ms);
            payload.extend_from_slice(second.as_slice());
            (AUDIO_PLAY, payload)
        },
        Command::Pause => (AUDIO_PAUSE, Vec::new()),
        Command::Forward => (AUDIO_FWD, Vec::new()),
        Command::Backward => (AUDIO_BACK, Vec::new()),
        Command::Volume { level } => (AUDIO_VOL, u128_to_be_bytes(*level)),
        Command::Misc => (MISC, Vec::new()),
    }
}

/// The Unix time (milliseconds) at which a play command issued at `now_ms`
/// starts playback everywhere.
pub fn play_start_time(now_ms: u128) -> (at: u128)
    requires
        now_ms <= u128::MAX - PLAY_LEAD_MS,
    ensures
        at == now_ms + PLAY_LEAD_MS,
{
    now_ms + PLAY_LEAD_MS
}

/// The instruction a client should take from a command.
pub open spec fn intended_instruction(command: CommandView, position_ms: u128, play_at_ms: u128) -> InstructionView {
    match command {
        CommandView::Load { url } => InstructionView::Load { url: decode_utf8(url) },
        CommandView::Swap => InstructionView::Swap,
        CommandView::Play => InstructionView::Play { to_set: position_ms, when: play_at_ms },
        CommandView::Pause => InstructionView::Pause,
        CommandView::Forward => InstructionView::Forward,
        CommandView::Backward => InstructionView::Backward,
        CommandView::Volume { level } => InstructionView::Volume { level },
        CommandView::Misc => InstructionView::Ignore,
    }
}

/// Law: every command the operator's line parses to reaches a client as the
/// instruction it stands for: the URL of a load, the position and start time
/// of a play, the level of a volume change.
pub proof fn law_command_reaches_client(line: Seq<char>, position_ms: u128, play_at_ms: u128)
    requires
        command_spec(encode_utf8(line)) is Ok,
    ensures
        ({
            let command = command_spec(encode_utf8(line))->Ok_0;
            let packet = packet_spec(command, position_ms, play_at_ms);
            instruction_spec(packet.0, packet.1) == Ok::<InstructionView, crate::client::InstructionError>(
                intended_instruction(command, position_ms, play_at_ms),
            )
        }),
{
    let bytes = encode_utf8(line);
    let command = command_spec(bytes)->Ok_0;
    let packet = packet_spec(command, position_ms, play_at_ms);
    match command {
        CommandView::Load { url } => {
            encode_utf8_valid_utf8(line);
            assert(bytes.take(5) == LOAD_PREFIX@);
            assert(bytes[4] == bytes.take(5)[4]);
            lemma_valid_utf8_around_ascii(bytes, 4);
        },
        CommandView::Play => {
            law_u128_be_roundtrip(position_ms);
            law_u128_be_roundtrip(play_at_ms);
            assert(packet.1.subrange(0, 16) =~= u128_be(position_ms));
            assert(packet.1.subrange(16, 32) =~= u128_be(play_at_ms));
        },
        CommandView::Volume { level } => {
            law_u128_be_roundtrip(level);
            assert(packet.1.subrange(0, 16) =~= u128_be(level));
        },
        _ => {},
    }
}

/// Law (volume level): `vol ` followed by decimal digits is a volume command
/// carrying exactly the number the digits denote, when it is at most 100; a
/// larger number (within `u128`) is refused as too high.
pub proof fn law_volume_level(arg: Seq<u8>)
    requires
        arg.len() > 0,
        all_digits(arg),
    ensures
        digits_value(arg) <= 100 ==> command_spec(seq![0x76u8, 0x6fu8, 0x6cu8, 0x20u8] + arg)
            == Ok::<CommandView, CommandError>(CommandView::Volume { level: digits_value(arg) as u128 }),
        100 < digits_value(arg) <= u128::MAX ==> command_spec(seq![0x76u8, 0x6fu8, 0x6cu8, 0x20u8] + arg)
            == Err::<CommandView, CommandError>(CommandError::VolumeTooHigh),
{
    let line = seq![0x76u8, 0x6fu8, 0x6cu8, 0x20u8] + arg;
    assert(line[0] == 0x76u8);
    assert(!has_prefix(line, LOAD_PREFIX@)) by {
        if has_prefix(line, LOAD_PREFIX@) {
            assert(line.take(5)[0] == line[0]);
        }
    }
    assert(!has_prefix(line, SWAP_PREFIX@)) by {
        if has_prefix(line, SWAP_PREFIX@) {
            assert(line.take(4)[0] == line[0]);
        }
    }
    assert(!has_prefix(line, PLAY_PREFIX@)) by {
        if has_prefix(line, PLAY_PREFIX@) {
            assert(line.take(4)[0] == line[0]);
        }
    }
    assert(!has_prefix(line, PAUSE_PREFIX@)) by {
        if has_prefix(line, PAUSE_PREFIX@) {
            assert(line.take(5)[0] == line[0]);
        }
    }
    assert(!has_prefix(line, FORWARD_PREFIX@)) by {
        if has_prefix(line, FORWARD_PREFIX@) {
            assert(line.take(7)[0] == line[0]);
        }
    }
    assert(!has_prefix(line, BACKWARD_PREFIX@)) by {
        if has_prefix(line, BACKWARD_PREFIX@) {
            assert(line.take(8)[0] == line[0]);
        }
    }
    assert(line.take(4) =~= VOL_PREFIX@);
    assert(line.skip(4) =~= arg);
    assert(!has_byte(arg, 0x2e)) by {
        if has_byte(arg, 0x2e) {
            let i = choose|i: int| 0 <= i < arg.len() && arg[i] == 0x2e;
            assert(is_digit(arg[i]));
        }
    }
    assert(is_digit(arg[0]));
    assert(unsigned_digits(arg) == arg);
}

} // verus!
