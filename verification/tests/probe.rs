use gitgui::term::probe::{apply_winsize, parse_replies, probe_request, Capabilities};

fn scale(caps: &Capabilities) -> f32 {
    caps.pixels_per_point_x2() as f32 / 2.0
}

#[test]
fn parses_all_replies_ghostty_style() {
    let bytes = b"\x1b_Gi=31;OK\x1b\\\x1b_Gi=32;OK\x1b\\\x1b[?1u\x1b[?1016;2$y\x1b[6;32;14t\x1b[4;1000;1600t\x1b[8;31;114t\x1b[?62;22c";
    let mut caps = Capabilities::default();
    assert!(parse_replies(bytes, &mut caps));
    assert!(caps.kitty_graphics);
    assert!(caps.shm);
    assert!(caps.pixel_mouse);
    assert_eq!(caps.kitty_keyboard, Some(1));
    assert_eq!((caps.cell_w, caps.cell_h), (14, 32));
    assert_eq!((caps.px_w, caps.px_h), (1600, 1000));
    assert_eq!((caps.cols, caps.rows), (114, 31));
    assert_eq!(caps.da, "?62;22");
    assert_eq!(caps.frame_size(), (114 * 14, 31 * 32));
    assert_eq!(scale(&caps), 2.0);
}

#[test]
fn graphics_error_reply_is_unsupported() {
    let bytes = b"\x1b_Gi=31;EINVAL:unsupported\x1b\\\x1b[?6c";
    let mut caps = Capabilities::default();
    assert!(parse_replies(bytes, &mut caps));
    assert!(!caps.kitty_graphics);
    assert!(!caps.shm);
}

#[test]
fn no_graphics_only_da() {
    let bytes = b"\x1b[?1;2c";
    let mut caps = Capabilities::default();
    assert!(parse_replies(bytes, &mut caps));
    assert!(!caps.kitty_graphics);
    assert_eq!(caps.kitty_keyboard, None);
    assert_eq!(caps.cell_w, 0);
}

#[test]
fn incomplete_sequence_does_not_finish() {
    let bytes = b"\x1b_Gi=31;OK\x1b\\\x1b[?62;2";
    let mut caps = Capabilities::default();
    assert!(!parse_replies(bytes, &mut caps));
    assert!(caps.kitty_graphics);
}

#[test]
fn stray_bytes_between_replies_are_ignored() {
    let bytes = b"xx\x1b[6;16;8tyy\x1b[?c";
    let mut caps = Capabilities::default();
    assert!(parse_replies(bytes, &mut caps));
    assert_eq!((caps.cell_w, caps.cell_h), (8, 16));
    assert_eq!(scale(&caps), 1.0);
}

#[test]
fn osc11_background() {
    let mut caps = Capabilities::default();
    assert!(parse_replies(
        b"\x1b]11;rgb:1e1e/1e1e/2e2e\x1b\\\x1b[?c",
        &mut caps
    ));
    assert_eq!(caps.background, Some([0x1e, 0x1e, 0x2e]));
    let mut caps = Capabilities::default();
    assert!(parse_replies(b"\x1b]11;rgb:ff/ff/ff\x07\x1b[?c", &mut caps));
    assert_eq!(caps.background, Some([0xff, 0xff, 0xff]));
    let mut caps = Capabilities::default();
    assert!(parse_replies(
        b"\x1b]10;rgb:ffff/ffff/ffff\x1b\\\x1b[?c",
        &mut caps
    ));
    assert_eq!(caps.background, None, "foreground reply is ignored");
}

#[test]
fn decrqm_states() {
    let mut caps = Capabilities::default();
    parse_replies(b"\x1b[?1016;0$y\x1b[?c", &mut caps);
    assert!(!caps.pixel_mouse, "0 means not recognised");
    parse_replies(b"\x1b[?1016;1$y\x1b[?c", &mut caps);
    assert!(caps.pixel_mouse);
    caps.pixel_mouse = false;
    parse_replies(b"\x1b[?2004;2$y\x1b[?c", &mut caps);
    assert!(!caps.pixel_mouse, "other modes are ignored");
}

#[test]
fn scale_buckets() {
    let mut c = Capabilities::default();
    for (h, want) in [
        (16, 1.0),
        (19, 1.0),
        (20, 1.5),
        (24, 1.5),
        (28, 2.0),
        (34, 2.0),
    ] {
        c.cell_h = h;
        assert_eq!(scale(&c), want, "cell_h {h}");
    }
}

#[test]
fn osc_one_and_three_digit_channels() {
    let mut caps = Capabilities::default();
    assert!(parse_replies(b"\x1b]11;rgb:f/0/8\x07\x1b[?c", &mut caps));
    assert_eq!(caps.background, Some([0xff, 0x00, 0x88]));
    let mut caps = Capabilities::default();
    assert!(parse_replies(b"\x1b]11;rgb:fff/100/abc\x07\x1b[?c", &mut caps));
    assert_eq!(caps.background, Some([0xff, 0x10, 0xab]));
}

#[test]
fn cut_off_osc_and_graphics_end_the_parse() {
    let mut caps = Capabilities::default();
    assert!(!parse_replies(b"\x1b]11;rgb:ff/ff/ff", &mut caps));
    assert_eq!(caps.background, None);
    let mut caps = Capabilities::default();
    assert!(!parse_replies(b"\x1b_Gi=31;OK\x1b[?c", &mut caps));
    assert!(!caps.kitty_graphics);
}

#[test]
fn shm_grid_and_da_replies() {
    let bytes = b"\x1b_Gi=32;OK\x1b\\\x1b[8;24;80t\x1b[?62c";
    let mut once = Capabilities::default();
    assert!(parse_replies(bytes, &mut once));
    assert!(once.shm);
    assert_eq!((once.rows, once.cols), (24, 80));
    assert_eq!(once.da, "?62");
}

#[test]
fn winsize_updates_grid_and_cells() {
    let mut caps = Capabilities::default();
    caps.cell_w = 9;
    caps.cell_h = 18;
    apply_winsize(&mut caps, Some((40, 100, 0, 0)));
    assert_eq!((caps.rows, caps.cols, caps.cell_w, caps.cell_h), (40, 100, 9, 18));
    apply_winsize(&mut caps, Some((50, 120, 1200, 1000)));
    assert_eq!((caps.rows, caps.cols), (50, 120));
    assert_eq!((caps.px_w, caps.px_h), (1200, 1000));
    assert_eq!((caps.cell_w, caps.cell_h), (10, 20));
    apply_winsize(&mut caps, Some((0, 10, 100, 100)));
    assert_eq!((caps.rows, caps.cols), (50, 120));
    apply_winsize(&mut caps, None);
    assert_eq!((caps.rows, caps.cols), (50, 120));
}

#[test]
fn probe_request_bytes() {
    let out = probe_request(None);
    let mut want = b"\x1b_Gi=31,s=1,v=1,a=q,t=d,f=24;AAAA\x1b\\".to_vec();
    want.extend_from_slice(b"\x1b[?u\x1b[?1016$p\x1b]11;?\x1b\\\x1b[16t\x1b[14t\x1b[18t\x1b[c");
    assert_eq!(out, want);
    let out = probe_request(Some("/tg-1-1"));
    assert!(out
        .windows(11)
        .any(|w| w == b"f=32;L3RnLT"));
}

#[test]
fn capabilities_report_lines() {
    let mut caps = Capabilities::default();
    caps.kitty_graphics = true;
    caps.kitty_keyboard = Some(1);
    caps.cell_w = 10;
    caps.cell_h = 24;
    caps.px_w = 800;
    caps.px_h = 600;
    caps.cols = 80;
    caps.rows = 25;
    caps.background = Some([0x1e, 0x1e, 0x2e]);
    caps.da = "?62;22".into();
    caps.term_program = "ghostty".into();
    let text = caps.describe();
    let lines: Vec<&str> = text.lines().collect();
    assert_eq!(lines[0], "kitty graphics : true");
    assert_eq!(lines[1], "shm transport  : false");
    assert_eq!(lines[2], "kitty keyboard : yes (flags 1)");
    assert_eq!(lines[4], "cell size      : 10x24 px");
    assert_eq!(lines[6], "grid           : 80 cols x 25 rows");
    assert_eq!(lines[7], "frame          : 800x600 px, scale 1.5");
    assert_eq!(lines[8], "background     : #1e1e2e");
    assert_eq!(lines[9], "primary DA     : ?62;22");
    assert_eq!(lines[11], "TERM_PROGRAM   : ghostty");
    assert_eq!(lines[12], "multiplexer    : none");
    assert!(text.ends_with('\n'));
    caps.cell_h = 16;
    caps.kitty_keyboard = None;
    caps.background = None;
    caps.multiplexer = Some("tmux".into());
    let text = caps.describe();
    assert!(text.contains("kitty keyboard : no\n"));
    assert!(text.contains("scale 1\n"));
    assert!(text.contains("background     : unknown\n"));
    assert!(text.ends_with("multiplexer    : tmux\n"));
}
