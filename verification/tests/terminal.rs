use outside::terminal::{
    base_color_index, clear_sequence, effect_off_sequence, effect_on_sequence, errno_name, io_err,
    io_error_message, move_sequence, parse_u16, sgr_bg, sgr_fg, utf8_continuation_count,
    BackendState, BaseColor, Color, ColorPair, Effect, Feed, Key, KeyDecoder, KeyEvent,
    ScreenSize, SendStep, after_send,
};

fn decode(bytes: &[u8]) -> Option<KeyEvent> {
    let mut decoder = KeyDecoder::new();
    for &b in bytes {
        match decoder.feed(b) {
            Feed::More => continue,
            Feed::Done(ev) => return ev,
        }
    }
    panic!("sequence not finished");
}

#[test]
fn names_errnos() {
    assert_eq!(errno_name(0), "OK");
    assert_eq!(errno_name(14), "ECONNREFUSED");
    assert_eq!(errno_name(73), "ETIMEDOUT");
    assert_eq!(errno_name(999), "errno");
}

#[test]
fn io_error_messages() {
    assert_eq!(io_error_message(14), "rootshell_socket: ECONNREFUSED (14)");
    assert_eq!(io_error_message(-3), "rootshell_socket: errno (-3)");
    let e = io_err(28);
    assert_eq!(e.kind(), std::io::ErrorKind::Other);
    assert_eq!(e.to_string(), "rootshell_socket: EINVAL (28)");
    let refused = io_err(14);
    assert_eq!(refused.kind(), std::io::ErrorKind::Other);
    assert_eq!(refused.to_string(), "rootshell_socket: ECONNREFUSED (14)");
    assert_eq!(io_err(-1).to_string(), "rootshell_socket: errno (-1)");
}

#[test]
fn parses_sizes() {
    assert_eq!(parse_u16("80"), Some(80));
    assert_eq!(parse_u16("+120"), Some(120));
    assert_eq!(parse_u16("65535"), Some(65535));
    assert_eq!(parse_u16("65536"), None);
    assert_eq!(parse_u16(""), None);
    assert_eq!(parse_u16("+"), None);
    assert_eq!(parse_u16(" 80"), None);
    assert_eq!(parse_u16("-1"), None);
}

#[test]
fn screen_size_from_environment_then_reports() {
    let mut size = ScreenSize::unknown();
    assert_eq!(size.screen_size(Some("100"), None), (100, 24));
    assert_eq!(size.screen_size(Some("50"), Some("10")), (100, 24));
    size.set_screen_size(132, 43);
    assert_eq!(size.screen_size(None, None), (132, 43));
    let mut fresh = ScreenSize::unknown();
    assert_eq!(fresh.screen_size(Some("wide"), Some("7")), (80, 7));
}

#[test]
fn colour_sequences() {
    assert_eq!(base_color_index(BaseColor::White), 7);
    assert_eq!(sgr_fg(Color::TerminalDefault), "39");
    assert_eq!(sgr_bg(Color::TerminalDefault), "49");
    assert_eq!(sgr_fg(Color::Dark(BaseColor::Red)), "31");
    assert_eq!(sgr_bg(Color::Light(BaseColor::Blue)), "104");
    assert_eq!(sgr_fg(Color::Rgb(1, 22, 255)), "38;2;1;22;255");
    assert_eq!(sgr_bg(Color::RgbLowRes(5, 5, 5)), "48;5;231");
    assert_eq!(
        clear_sequence(Color::Dark(BaseColor::Black)),
        "\x1b[30;40m\x1b[2J\x1b[H"
    );
    assert_eq!(move_sequence(0, 0), "\x1b[1;1H");
    assert_eq!(move_sequence(9, 4), "\x1b[5;10H");
}

#[test]
fn effect_sequences() {
    assert_eq!(effect_on_sequence(Effect::Simple), None);
    assert_eq!(effect_on_sequence(Effect::Bold), Some("\x1b[1m"));
    assert_eq!(effect_off_sequence(Effect::Bold), Some("\x1b[22m"));
    assert_eq!(effect_off_sequence(Effect::Dim), Some("\x1b[22m"));
    assert_eq!(effect_off_sequence(Effect::Strikethrough), Some("\x1b[29m"));
}

#[test]
fn backend_writes_colours_only_on_change() {
    let mut state = BackendState::new();
    let red = ColorPair { front: Color::Dark(BaseColor::Red), back: Color::TerminalDefault };
    let (prev, seq) = state.set_color(red);
    assert_eq!(prev, ColorPair { front: Color::TerminalDefault, back: Color::TerminalDefault });
    assert_eq!(seq, Some("\x1b[31;49m".to_string()));
    let (prev, seq) = state.set_color(red);
    assert_eq!(prev, red);
    assert_eq!(seq, None);
}

#[test]
fn backend_alternates_polls() {
    let mut state = BackendState::new();
    assert!(!state.poll_skips_read());
    state.record_poll(true);
    assert!(state.poll_skips_read());
    assert!(!state.poll_skips_read());
    state.record_poll(false);
    assert!(!state.poll_skips_read());
}

#[test]
fn decodes_plain_bytes() {
    assert_eq!(decode(b"a"), Some(KeyEvent::Char('a')));
    assert_eq!(decode(b"\x7f"), Some(KeyEvent::Key(Key::Backspace)));
    assert_eq!(decode(b"\r"), Some(KeyEvent::Key(Key::Enter)));
    assert_eq!(decode(b"\n"), Some(KeyEvent::Key(Key::Enter)));
    assert_eq!(decode(b"\t"), Some(KeyEvent::Key(Key::Tab)));
    assert_eq!(decode(b"\x03"), Some(KeyEvent::CtrlChar('c')));
    assert_eq!(decode(b"\x01"), Some(KeyEvent::CtrlChar('a')));
    assert_eq!(decode(b"\x1a"), Some(KeyEvent::CtrlChar('z')));
    assert_eq!(decode(b"\x00"), None);
    assert_eq!(decode(b"\x80"), None);
}

#[test]
fn decodes_escape_sequences() {
    assert_eq!(decode(b"\x1b[A"), Some(KeyEvent::Key(Key::Up)));
    assert_eq!(decode(b"\x1b[D"), Some(KeyEvent::Key(Key::Left)));
    assert_eq!(decode(b"\x1b[Z"), Some(KeyEvent::Shift(Key::Tab)));
    assert_eq!(decode(b"\x1b[3~"), Some(KeyEvent::Key(Key::Del)));
    assert_eq!(decode(b"\x1b[24~"), Some(KeyEvent::Key(Key::F12)));
    assert_eq!(decode(b"\x1b[5;2~"), Some(KeyEvent::Key(Key::PageUp)));
    assert_eq!(decode(b"\x1b[9~"), None);
    assert_eq!(decode(b"\x1b[1;5A"), None);
    assert_eq!(decode(b"\x1b[1234567~"), None);
    assert_eq!(decode(b"\x1bOP"), Some(KeyEvent::Key(Key::F1)));
    assert_eq!(decode(b"\x1bOS"), Some(KeyEvent::Key(Key::F4)));
    assert_eq!(decode(b"\x1b\x1b"), Some(KeyEvent::Key(Key::Esc)));
    assert_eq!(decode(b"\x1bx"), Some(KeyEvent::AltChar('x')));
    assert_eq!(decode(b"\x1b7"), Some(KeyEvent::AltChar('7')));
    assert_eq!(decode(b"\x1b-"), Some(KeyEvent::Key(Key::Esc)));
}

#[test]
fn decodes_utf8() {
    assert_eq!(utf8_continuation_count(0xc3), Some(1));
    assert_eq!(utf8_continuation_count(0xe2), Some(2));
    assert_eq!(utf8_continuation_count(0xf0), Some(3));
    assert_eq!(utf8_continuation_count(0xff), None);
    assert_eq!(decode("é".as_bytes()), Some(KeyEvent::Char('é')));
    assert_eq!(decode("€".as_bytes()), Some(KeyEvent::Char('€')));
    assert_eq!(decode("😀".as_bytes()), Some(KeyEvent::Char('😀')));
    assert_eq!(decode(b"\xc3\x41"), None);
    assert_eq!(decode(b"\xf8"), None);
}

#[test]
fn send_steps() {
    assert!(matches!(after_send(0, 10, 0, 4), SendStep::Continue(4)));
    assert!(matches!(after_send(4, 10, 0, 6), SendStep::Done));
    assert!(matches!(after_send(4, 10, 0, 0), SendStep::WroteZero));
    assert!(matches!(after_send(4, 10, 8, 3), SendStep::Failed(8)));
}
