use gitgui::term::session::{enter_seq, leave_seq, TermState};

#[test]
fn enter_sequence_bytes() {
    assert_eq!(
        enter_seq(),
        b"\x1b[?1049h\x1b[?25l\x1b[?1004h\x1b[?1003h\x1b[?1006h\x1b[?1016h\x1b[?2004h\x1b[>15u"
    );
}

#[test]
fn leave_sequence_is_reverse_of_enter_with_delete_all() {
    let leave = leave_seq();
    assert!(leave.starts_with(b"\x1b_Ga=d,d=A,q=2\x1b\\"));
    let s = std::str::from_utf8(&leave).unwrap();
    let order = [
        "\x1b[<u", "?2004l", "?1016l", "?1006l", "?1003l", "?1004l", "?25h", "?1049l",
    ];
    let mut last = 0;
    for o in order {
        let pos = s[last..].find(o).unwrap_or_else(|| panic!("missing {o:?}")) + last;
        assert!(pos >= last);
        last = pos;
    }
}

#[test]
fn restore_without_session_is_noop() {
    let mut t = TermState::new();
    let mut out = Vec::new();
    assert!(!t.restore_terminal(&mut out));
    assert!(out.is_empty());
    assert!(!t.in_session());
}

#[test]
fn restore_after_session_writes_leave_once() {
    let mut t = TermState::new();
    assert!(t.enter_raw());
    assert!(!t.enter_raw());
    t.enter();
    let mut out = Vec::new();
    assert!(t.restore_terminal(&mut out));
    assert_eq!(out, leave_seq());
    let mut again = Vec::new();
    assert!(!t.restore_terminal(&mut again));
    assert!(again.is_empty());
    assert!(!t.in_session());
    assert!(!t.raw_saved());
}

#[test]
fn leave_raw_mode_restores_once() {
    let mut t = TermState::new();
    assert!(!t.leave_raw_mode());
    t.enter_raw();
    assert!(t.leave_raw_mode());
    assert!(!t.leave_raw_mode());
}
