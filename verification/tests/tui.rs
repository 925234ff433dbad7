use jitterbug::constants::ConnectionState;
use jitterbug::tui::{char_is_whitespace, KeyInput, UiModel};

#[test]
fn command_line_editing() {
    let mut ui = UiModel::new("KEY".to_string(), true);
    for c in "  play ".chars() {
        assert_eq!(ui.handle_key(KeyInput::Char(c)), None);
    }
    assert_eq!(ui.input_text(), ">   play ");
    assert_eq!(ui.handle_key(KeyInput::Backspace), None);
    assert_eq!(ui.handle_key(KeyInput::Char('s')), None);
    assert_eq!(ui.handle_key(KeyInput::Other), None);
    assert_eq!(ui.handle_key(KeyInput::Enter), Some("plays".to_string()));
    assert_eq!(ui.input_text(), "> ");
    assert_eq!(ui.handle_key(KeyInput::Char(' ')), None);
    assert_eq!(ui.handle_key(KeyInput::Enter), None);
    assert_eq!(ui.handle_key(KeyInput::Backspace), None);
}

#[test]
fn panels() {
    let mut ui = UiModel::new("KEY".to_string(), true);
    assert_eq!(ui.status_text(), "Pairing Key: \tKEY\nStatus: \tReady to pair");
    assert_eq!(ui.queue_text(), "");
    assert_eq!(ui.clients_text(), "--");
    ui.set_status("Loading track...".to_string());
    assert_eq!(ui.status_text(), "Pairing Key: \tKEY\nStatus: \tLoading track...");
    ui.update_current_track(Some("Song".to_string()));
    ui.update_queue(vec!["Next".to_string(), "Later".to_string()]);
    ui.add_to_loading_queue("url1".to_string());
    ui.add_to_loading_queue("url2".to_string());
    assert_eq!(ui.queue_text(), "> Song\n  Next\n  Later\n* url1\n* url2");
    ui.remove_from_loading_queue("url1".to_string());
    assert_eq!(ui.queue_text(), "> Song\n  Next\n  Later\n* url2");
    ui.update_current_track(None);
    assert_eq!(ui.current_track, "--");
    ui.render_current_clients(vec![
        ("127.0.0.1:5000".to_string(), ConnectionState { sequence_number: 3, acked_signal: true }),
        ("127.0.0.1:5001".to_string(), ConnectionState { sequence_number: 3, acked_signal: false }),
    ]);
    assert_eq!(ui.clients_text(), "127.0.0.1:5000: Loaded Track\n127.0.0.1:5001: Loading...");
    assert_eq!(ui.track_text(), "--\n");
}

#[test]
fn audio_status_line() {
    let mut ui = UiModel::new("KEY".to_string(), false);
    ui.update_audio_status(65, 200, 50, true);
    let expected = format!(" ▶ | 01:05 {}{} 03:20 | Vol: 50%", "█".repeat(13), "░".repeat(22));
    assert_eq!(ui.audio_info, expected);
    ui.update_audio_status(0, 0, 100, false);
    let expected = format!(" ⏸ | 00:00 {} 00:00 | Vol: 100%", "░".repeat(35));
    assert_eq!(ui.audio_info, expected);
    assert_eq!(ui.track_text(), format!("--\n{}", expected));
}

#[test]
fn white_space_agrees_with_std() {
    for n in 0u32..0x110000 {
        if let Some(c) = char::from_u32(n) {
            assert_eq!(char_is_whitespace(c), c.is_whitespace(), "U+{:04X}", n);
        }
    }
}
