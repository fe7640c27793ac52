use gitgui::demo::{paint, wants_quit, BG, SQUARE};
use gitgui::runtime::{encode_osc52_copy, encode_pointer_shape, is_ctrl_c, pointer_shape, raw_dump_line, Interaction};
use gitgui::term::input::{Event, Key, Mods};

#[test]
fn quit_detection() {
    assert!(wants_quit(b"q"));
    assert!(wants_quit(b"\x03"));
    assert!(wants_quit(b"\x1b[113u"));
    assert!(wants_quit(b"\x1b[113;1u"));
    assert!(wants_quit(b"\x1b[113;1:1u"));
    assert!(wants_quit(b"\x1b[113;1:2u"));
    assert!(!wants_quit(b"\x1b[113;1:3u"), "release must not quit");
    assert!(wants_quit(b"\x1b[99;5u"));
    assert!(!wants_quit(b"\x1b[99;1u"));
    assert!(!wants_quit(b"\x1b[<35;100;200M"));
    assert!(!wants_quit(b"abc"));
}

#[test]
fn quit_detection_edges() {
    assert!(!wants_quit(b"\x1b[113"), "cut off report");
    assert!(wants_quit(b"x\x1b[Aq"), "q after another sequence");
    assert!(!wants_quit(b"\x1b[113;\xffu"), "parameters that are not UTF-8");
}

#[test]
fn pointer_shape_sequences() {
    let mut out = Vec::new();
    encode_pointer_shape(&mut out, "grab");
    assert_eq!(out, b"\x1b]22;grab\x1b\\");
    out.clear();
    encode_pointer_shape(&mut out, "");
    assert_eq!(out, b"\x1b]22;\x1b\\");
    assert_eq!(pointer_shape(Interaction::Grab), "grab");
    assert_eq!(pointer_shape(Interaction::Nothing), "");
}

#[test]
fn osc52_copy_bytes() {
    let mut out = Vec::new();
    encode_osc52_copy(&mut out, "hi");
    assert_eq!(out, b"\x1b]52;c;aGk=\x1b\\");
}

#[test]
fn dump_input_lines() {
    assert_eq!(raw_dump_line(&[0x1b, 0x5b, 0x41]), b"raw: 1b 5b 41 \r\n");
    assert_eq!(raw_dump_line(&[]), b"raw: \r\n");
    let ctrl_c = Event::Key {
        key: Key::Char('c'),
        mods: Mods::ctrl_only(),
        text: None,
        pressed: true,
        repeat: false,
    };
    assert!(is_ctrl_c(&ctrl_c));
    let plain_c = Event::Key {
        key: Key::Char('c'),
        mods: Mods::none(),
        text: Some("c".into()),
        pressed: true,
        repeat: false,
    };
    assert!(!is_ctrl_c(&plain_c));
}

#[test]
fn paint_square_pixels() {
    let (w, h) = (50u32, 50u32);
    let mut fb = vec![0u8; (w * h * 4) as usize];
    // The square's corner at (5.0, 5.0) lands on pixel (5, 5).
    paint(&mut fb, w, h, 5, 5);
    assert_eq!(&fb[0..4], &BG);
    let i = ((10 * w + 10) * 4) as usize;
    assert_eq!(&fb[i..i + 4], &SQUARE);
    let i = ((46 * w + 46) * 4) as usize;
    assert_eq!(&fb[i..i + 4], &BG);
}

#[test]
fn paint_clips_at_the_frame_edge() {
    let (w, h) = (8u32, 6u32);
    let mut fb = vec![7u8; (w * h * 4 + 3) as usize];
    paint(&mut fb, w, h, 6, 4);
    for y in 0..h {
        for x in 0..w {
            let i = ((y * w + x) * 4) as usize;
            let want = if x >= 6 && y >= 4 { SQUARE } else { BG };
            assert_eq!(&fb[i..i + 4], &want, "pixel {x},{y}");
        }
    }
    assert_eq!(&fb[(w * h * 4) as usize..], &[7, 7, 7]);
}
