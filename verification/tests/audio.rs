use jitterbug::audio::{is_track_file, backward_position, forward_position, play_schedule, Audio, PlaySchedule, Position, Track};
use jitterbug::constants::packet_types::{AUDIO_BACK, AUDIO_FWD, AUDIO_LOAD, AUDIO_PAUSE, AUDIO_PLAY, AUDIO_SWAP, AUDIO_VOL, MISC};

fn track(title: &str) -> Track {
    Track { title: title.to_string(), duration: Some(180), path: format!("temp-assets/{}.mp3", title) }
}

#[test]
fn queue_plays_first_loaded_first() {
    let mut audio = Audio::new("temp-assets".to_string());
    assert!(!audio.preflight_check(AUDIO_SWAP));
    assert!(!audio.preflight_check(AUDIO_PLAY));
    assert!(audio.preflight_check(AUDIO_LOAD));
    assert!(audio.preflight_check(AUDIO_VOL));
    assert!(audio.preflight_check(MISC));
    audio.enqueue(track("one"));
    audio.enqueue(track("two"));
    assert_eq!(audio.get_queue_len(), 2);
    assert_eq!(audio.get_queue_titles(), vec!["one".to_string(), "two".to_string()]);
    assert!(audio.preflight_check(AUDIO_SWAP));
    let outcome = audio.swap();
    assert!(outcome.discarded.is_none());
    let next = outcome.next.unwrap();
    assert_eq!(next.title, "one");
    assert_eq!(audio.get_current_track_title(), None);
    audio.set_current(next);
    assert_eq!(audio.get_current_track_title(), Some("one".to_string()));
    assert!(audio.preflight_check(AUDIO_PAUSE));
    assert!(audio.preflight_check(AUDIO_FWD));
    assert!(audio.preflight_check(AUDIO_BACK));
    let outcome = audio.swap();
    assert_eq!(outcome.discarded.unwrap().title, "one");
    assert_eq!(outcome.next.unwrap().title, "two");
    assert_eq!(audio.get_queue_len(), 0);
    let outcome = audio.swap();
    assert!(outcome.discarded.is_none() && outcome.next.is_none());
}

#[test]
fn skips() {
    let p = Position { secs: 12, nanos: 500 };
    assert_eq!(forward_position(p), Position { secs: 17, nanos: 500 });
    assert_eq!(backward_position(p), Position { secs: 7, nanos: 500 });
    assert_eq!(backward_position(Position { secs: 4, nanos: 999_999_999 }), Position { secs: 0, nanos: 0 });
    assert_eq!(backward_position(Position { secs: 5, nanos: 0 }), Position { secs: 0, nanos: 0 });
    assert_eq!(backward_position(forward_position(p)), p);
}

#[test]
fn play_schedules() {
    assert_eq!(play_schedule(61_999, 2_000, 1_500), PlaySchedule { seek_secs: 61, wait_ms: Some(500) });
    assert_eq!(play_schedule(0, 1_000, 1_000), PlaySchedule { seek_secs: 0, wait_ms: None });
    assert_eq!(play_schedule(999, 1_000, 5_000), PlaySchedule { seek_secs: 0, wait_ms: None });
}

#[test]
fn downloaded_file_is_recognised() {
    assert!(is_track_file("dQw4w9WgXcQ.mp3", "dQw4w9WgXcQ"));
    assert!(is_track_file("test_audio_dQw4w9WgXcQ.mp3", "dQw4w9WgXcQ"));
    assert!(!is_track_file("dQw4w9WgXcQ.webm", "dQw4w9WgXcQ"));
    assert!(!is_track_file("other.mp3", "dQw4w9WgXcQ"));
    assert!(!is_track_file(".mp3", "x"));
    assert!(is_track_file("x.mp3", ""));
}
