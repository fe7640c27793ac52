//! Decoding of terminal input bytes into events.
use gitgui::term::input::{Event, Key, MouseButton, Mods, Parser};


fn feed(bytes: &[u8]) -> Vec<Event> {
    Parser::new(true, 16, 34).feed(bytes)
}

fn key(k: Key, mods: Mods, text: Option<&str>) -> Event {
    Event::Key {
        key: k,
        mods,
        text: text.map(|s| s.to_owned()),
        pressed: true,
        repeat: false,
    }
}

#[test]
fn kitty_plain_letter_has_text() {
    assert_eq!(
        feed(b"\x1b[113u"),
        vec![key(Key::Char('q'), Mods::none(), Some("q"))]
    );
    assert_eq!(
        feed(b"\x1b[113;1u"),
        vec![key(Key::Char('q'), Mods::none(), Some("q"))]
    );
    assert_eq!(
        feed(b"\x1b[113;1:1u"),
        vec![key(Key::Char('q'), Mods::none(), Some("q"))]
    );
}

#[test]
fn kitty_repeat_and_release() {
    assert_eq!(
        feed(b"\x1b[106;1:2u"),
        vec![Event::Key {
            key: Key::Char('j'),
            mods: Mods::none(),
            text: Some("j".into()),
            pressed: true,
            repeat: true
        }]
    );
    assert_eq!(
        feed(b"\x1b[106;1:3u"),
        vec![Event::Key {
            key: Key::Char('j'),
            mods: Mods::none(),
            text: None,
            pressed: false,
            repeat: false
        }]
    );
}

#[test]
fn kitty_shift_uses_shifted_key_or_uppercase() {
    // shift+a with alternate key reported
    assert_eq!(
        feed(b"\x1b[97:65;2u"),
        vec![key(Key::Char('a'), Mods::shift_only(), Some("A"))]
    );
    // shift+1 -> '!'
    assert_eq!(
        feed(b"\x1b[49:33;2u"),
        vec![key(Key::Char('1'), Mods::shift_only(), Some("!"))]
    );
    // no alternate key: uppercase ascii
    assert_eq!(
        feed(b"\x1b[112;2u"),
        vec![key(Key::Char('p'), Mods::shift_only(), Some("P"))]
    );
}

#[test]
fn kitty_ctrl_and_alt_have_no_text() {
    assert_eq!(
        feed(b"\x1b[99;5u"),
        vec![key(Key::Char('c'), Mods::ctrl_only(), None)]
    );
    assert_eq!(
        feed(b"\x1b[120;3u"),
        vec![key(Key::Char('x'), Mods::alt_only(), None)]
    );
    // ctrl+shift+p: modifier 6
    assert_eq!(
        feed(b"\x1b[112;6u"),
        vec![key(
            Key::Char('p'),
            Mods {
                shift: true,
                ctrl: true,
                ..Mods::none()
            },
            None
        )]
    );
}

#[test]
fn kitty_text_field_wins() {
    // key 97 with explicit text codepoints "ä" (228)
    assert_eq!(
        feed(b"\x1b[97;1;228u"),
        vec![key(Key::Char('a'), Mods::none(), Some("ä"))]
    );
}

#[test]
fn kitty_lock_modifiers_are_masked() {
    // caps lock (64) + shift (1): param 66
    assert_eq!(
        feed(b"\x1b[97:65;66u"),
        vec![key(Key::Char('a'), Mods::shift_only(), Some("A"))]
    );
    // num lock alone: param 129 -> no mods
    assert_eq!(
        feed(b"\x1b[57399;129u"),
        vec![key(Key::Char('0'), Mods::none(), Some("0"))]
    );
}

#[test]
fn kitty_functional_keys() {
    assert_eq!(feed(b"\x1b[27u"), vec![key(Key::Escape, Mods::none(), None)]);
    assert_eq!(feed(b"\x1b[13u"), vec![key(Key::Enter, Mods::none(), None)]);
    assert_eq!(feed(b"\x1b[13;5u"), vec![key(Key::Enter, Mods::ctrl_only(), None)]);
    assert_eq!(feed(b"\x1b[9u"), vec![key(Key::Tab, Mods::none(), None)]);
    assert_eq!(
        feed(b"\x1b[127u"),
        vec![key(Key::Backspace, Mods::none(), None)]
    );
    assert_eq!(
        feed(b"\x1b[57348u"),
        vec![key(Key::Insert, Mods::none(), None)]
    );
    assert_eq!(
        feed(b"\x1b[57349u"),
        vec![key(Key::Delete, Mods::none(), None)]
    );
    assert_eq!(feed(b"\x1b[57350u"), vec![key(Key::Left, Mods::none(), None)]);
    assert_eq!(
        feed(b"\x1b[57351u"),
        vec![key(Key::Right, Mods::none(), None)]
    );
    assert_eq!(feed(b"\x1b[57352u"), vec![key(Key::Up, Mods::none(), None)]);
    assert_eq!(feed(b"\x1b[57353u"), vec![key(Key::Down, Mods::none(), None)]);
    assert_eq!(
        feed(b"\x1b[57354u"),
        vec![key(Key::PageUp, Mods::none(), None)]
    );
    assert_eq!(
        feed(b"\x1b[57355u"),
        vec![key(Key::PageDown, Mods::none(), None)]
    );
    assert_eq!(feed(b"\x1b[57356u"), vec![key(Key::Home, Mods::none(), None)]);
    assert_eq!(feed(b"\x1b[57357u"), vec![key(Key::End, Mods::none(), None)]);
    assert_eq!(feed(b"\x1b[57364u"), vec![key(Key::F(1), Mods::none(), None)]);
    assert_eq!(
        feed(b"\x1b[57375u"),
        vec![key(Key::F(12), Mods::none(), None)]
    );
    // space is text
    assert_eq!(
        feed(b"\x1b[32u"),
        vec![key(Key::Char(' '), Mods::none(), Some(" "))]
    );
    // left shift press: Other, no text
    assert_eq!(
        feed(b"\x1b[57441;2u"),
        vec![key(Key::Other(57441), Mods::shift_only(), None)]
    );
}

#[test]
fn legacy_keys() {
    assert_eq!(feed(b"\x1b[A"), vec![key(Key::Up, Mods::none(), None)]);
    assert_eq!(feed(b"\x1b[B"), vec![key(Key::Down, Mods::none(), None)]);
    assert_eq!(feed(b"\x1b[C"), vec![key(Key::Right, Mods::none(), None)]);
    assert_eq!(feed(b"\x1b[D"), vec![key(Key::Left, Mods::none(), None)]);
    assert_eq!(feed(b"\x1b[1;5A"), vec![key(Key::Up, Mods::ctrl_only(), None)]);
    assert_eq!(feed(b"\x1b[1;2D"), vec![key(Key::Left, Mods::shift_only(), None)]);
    assert_eq!(feed(b"\x1b[H"), vec![key(Key::Home, Mods::none(), None)]);
    assert_eq!(feed(b"\x1b[F"), vec![key(Key::End, Mods::none(), None)]);
    assert_eq!(feed(b"\x1b[2~"), vec![key(Key::Insert, Mods::none(), None)]);
    assert_eq!(feed(b"\x1b[3~"), vec![key(Key::Delete, Mods::none(), None)]);
    assert_eq!(feed(b"\x1b[5~"), vec![key(Key::PageUp, Mods::none(), None)]);
    assert_eq!(feed(b"\x1b[6~"), vec![key(Key::PageDown, Mods::none(), None)]);
    assert_eq!(feed(b"\x1b[3;5~"), vec![key(Key::Delete, Mods::ctrl_only(), None)]);
    assert_eq!(feed(b"\x1b[Z"), vec![key(Key::Tab, Mods::shift_only(), None)]);
    assert_eq!(feed(b"\x1bOA"), vec![key(Key::Up, Mods::none(), None)]);
    assert_eq!(feed(b"\x1b[15~"), vec![key(Key::F(5), Mods::none(), None)]);
}

#[test]
fn fallback_text_ctrl_and_alt() {
    assert_eq!(feed(b"a"), vec![key(Key::Char('a'), Mods::none(), Some("a"))]);
    assert_eq!(
        feed("é".as_bytes()),
        vec![key(Key::Char('é'), Mods::none(), Some("é"))]
    );
    assert_eq!(feed(b"\x03"), vec![key(Key::Char('c'), Mods::ctrl_only(), None)]);
    assert_eq!(feed(b"\x01"), vec![key(Key::Char('a'), Mods::ctrl_only(), None)]);
    assert_eq!(feed(b"\r"), vec![key(Key::Enter, Mods::none(), None)]);
    assert_eq!(feed(b"\t"), vec![key(Key::Tab, Mods::none(), None)]);
    assert_eq!(feed(b"\x7f"), vec![key(Key::Backspace, Mods::none(), None)]);
    assert_eq!(feed(b"\x1bx"), vec![key(Key::Char('x'), Mods::alt_only(), None)]);
    assert_eq!(
        feed(b"ab"),
        vec![
            key(Key::Char('a'), Mods::none(), Some("a")),
            key(Key::Char('b'), Mods::none(), Some("b"))
        ]
    );
}

#[test]
fn utf8_split_across_feeds() {
    let mut p = Parser::new(true, 16, 34);
    let bytes = "é".as_bytes();
    assert!(p.feed(&bytes[..1]).is_empty());
    assert!(p.has_pending());
    assert_eq!(
        p.feed(&bytes[1..]),
        vec![key(Key::Char('é'), Mods::none(), Some("é"))]
    );
    assert!(!p.has_pending());
}

#[test]
fn sgr_mouse_pixels() {
    assert_eq!(
        feed(b"\x1b[<0;101;201M"),
        vec![Event::MouseButton {
            button: MouseButton::Left,
            pressed: true,
            x: 100,
            y: 200,
            mods: Mods::none()
        }]
    );
    assert_eq!(
        feed(b"\x1b[<0;101;201m"),
        vec![Event::MouseButton {
            button: MouseButton::Left,
            pressed: false,
            x: 100,
            y: 200,
            mods: Mods::none()
        }]
    );
    assert_eq!(
        feed(b"\x1b[<2;1;1M"),
        vec![Event::MouseButton {
            button: MouseButton::Right,
            pressed: true,
            x: 0,
            y: 0,
            mods: Mods::none()
        }]
    );
    assert_eq!(
        feed(b"\x1b[<1;5;5M"),
        vec![Event::MouseButton {
            button: MouseButton::Middle,
            pressed: true,
            x: 4,
            y: 4,
            mods: Mods::none()
        }]
    );
    // motion with no button: 32 + 3
    assert_eq!(
        feed(b"\x1b[<35;11;21M"),
        vec![Event::MouseMove {
            x: 10,
            y: 20,
            mods: Mods::none()
        }]
    );
    // drag with left button: 32 + 0
    assert_eq!(
        feed(b"\x1b[<32;11;21M"),
        vec![Event::MouseMove {
            x: 10,
            y: 20,
            mods: Mods::none()
        }]
    );
    // shift+click: 4
    assert_eq!(
        feed(b"\x1b[<4;11;21M"),
        vec![Event::MouseButton {
            button: MouseButton::Left,
            pressed: true,
            x: 10,
            y: 20,
            mods: Mods::shift_only()
        }]
    );
    // ctrl+drag: 16 + 32
    assert_eq!(
        feed(b"\x1b[<48;11;21M"),
        vec![Event::MouseMove {
            x: 10,
            y: 20,
            mods: Mods::ctrl_only()
        }]
    );
}

#[test]
fn sgr_wheel() {
    assert_eq!(
        feed(b"\x1b[<64;11;21M"),
        vec![Event::Wheel {
            dx: 0,
            dy: 1,
            x: 10,
            y: 20,
            mods: Mods::none()
        }]
    );
    assert_eq!(
        feed(b"\x1b[<65;11;21M"),
        vec![Event::Wheel {
            dx: 0,
            dy: -1,
            x: 10,
            y: 20,
            mods: Mods::none()
        }]
    );
    assert_eq!(
        feed(b"\x1b[<66;11;21M"),
        vec![Event::Wheel {
            dx: 1,
            dy: 0,
            x: 10,
            y: 20,
            mods: Mods::none()
        }]
    );
    assert_eq!(
        feed(b"\x1b[<67;11;21M"),
        vec![Event::Wheel {
            dx: -1,
            dy: 0,
            x: 10,
            y: 20,
            mods: Mods::none()
        }]
    );
    // shift+wheel down: 65 + 4
    assert_eq!(
        feed(b"\x1b[<69;11;21M"),
        vec![Event::Wheel {
            dx: 0,
            dy: -1,
            x: 10,
            y: 20,
            mods: Mods::shift_only()
        }]
    );
}

#[test]
fn sgr_mouse_cells_convert_to_pixel_centers() {
    let mut p = Parser::new(false, 16, 34);
    assert_eq!(
        p.feed(b"\x1b[<0;3;2M"),
        vec![Event::MouseButton {
            button: MouseButton::Left,
            pressed: true,
            x: 2 * 16 + 8,
            y: 34 + 17,
            mods: Mods::none()
        }]
    );
}

#[test]
fn focus_and_paste() {
    assert_eq!(feed(b"\x1b[I"), vec![Event::Focus(true)]);
    assert_eq!(feed(b"\x1b[O"), vec![Event::Focus(false)]);
    assert_eq!(
        feed(b"\x1b[200~hello\nworld\x1b[201~"),
        vec![Event::Paste("hello\nworld".into())]
    );
    // Paste split across feeds
    let mut p = Parser::new(true, 1, 1);
    assert!(p.feed(b"\x1b[200~par").is_empty());
    assert_eq!(
        p.feed(b"tial\x1b[201~x"),
        vec![
            Event::Paste("partial".into()),
            key(Key::Char('x'), Mods::none(), Some("x"))
        ]
    );
}

#[test]
fn incomplete_then_complete_and_flush() {
    let mut p = Parser::new(true, 1, 1);
    assert!(p.feed(b"\x1b[<0;10").is_empty());
    assert!(p.has_pending());
    assert_eq!(
        p.feed(b";20M"),
        vec![Event::MouseButton {
            button: MouseButton::Left,
            pressed: true,
            x: 9,
            y: 19,
            mods: Mods::none()
        }]
    );
    // lone ESC then flush -> Escape key
    assert!(p.feed(b"\x1b").is_empty());
    assert_eq!(p.flush(), vec![key(Key::Escape, Mods::none(), None)]);
    assert!(!p.has_pending());
    // ESC ESC -> two escapes eventually
    assert_eq!(
        p.feed(b"\x1b\x1b"),
        vec![key(Key::Escape, Mods::none(), None)]
    );
    assert_eq!(p.flush(), vec![key(Key::Escape, Mods::none(), None)]);
}

#[test]
fn mixed_stream_in_one_feed() {
    let evs = feed(b"\x1b[113u\x1b[<35;5;5Mq\x1b[I");
    assert_eq!(evs.len(), 4);
    assert!(matches!(
        evs[0],
        Event::Key {
            key: Key::Char('q'),
            ..
        }
    ));
    assert!(matches!(evs[1], Event::MouseMove { .. }));
    assert!(matches!(
        evs[2],
        Event::Key {
            key: Key::Char('q'),
            ..
        }
    ));
    assert_eq!(evs[3], Event::Focus(true));
}

#[test]
fn terminal_replies_are_skipped() {
    // Late probe replies (APC graphics OK, DA) must not produce key events.
    assert!(feed(b"\x1b_Gi=31;OK\x1b\\").is_empty());
    assert_eq!(
        feed(b"\x1b[?62;22c"),
        vec![Event::Unknown(b"\x1b[?62;22c".to_vec())]
    );
    assert!(feed(b"\x1b]11;rgb:1e1e/1e1e/2e2e\x1b\\").is_empty());
    assert!(feed(b"\x1b]11;rgb:1e1e/1e1e/2e2e\x07").is_empty());
}

#[test]
fn flush_turns_an_unfinished_sequence_into_one_unknown() {
    let mut p = Parser::new(true, 1, 1);
    assert!(p.feed(b"\x1b]ab").is_empty());
    assert_eq!(p.flush(), vec![Event::Unknown(b"\x1b]ab".to_vec())]);
    assert!(!p.has_pending());
    assert!(p.feed(b"\x1b[1;").is_empty());
    assert_eq!(p.flush(), vec![Event::Unknown(b"\x1b[1;".to_vec())]);
    assert!(!p.has_pending());
    assert!(p.flush().is_empty());
}
