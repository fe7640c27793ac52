use gitgui::split::{
    cmux_send_args, editor_kitty_args, editor_route, EditorRoute, build_cmdline, child_argv, detect_host, editor_cmdline, ghostty_split_action, is_cmux,
    is_gui_editor, kitty_launch_args, resolve_editor, shell_quote, Direction, Host,
};

#[test]
fn shell_quote_literals() {
    assert_eq!(shell_quote("hello"), "hello");
    assert_eq!(shell_quote("/tmp/a b"), "'/tmp/a b'");
    assert_eq!(shell_quote("it's"), "'it'\\''s'");
    assert_eq!(shell_quote(""), "''");
}

#[test]
fn child_argv_strips_split_flags() {
    let args = vec![
        "gitgui".into(),
        "--split".into(),
        "right".into(),
        "--size".into(),
        "0.4".into(),
        "--repo".into(),
        "/tmp/r".into(),
    ];
    let child = child_argv(&args);
    assert_eq!(child, vec!["gitgui", "--repo", "/tmp/r"]);
}

#[test]
fn direction_parse() {
    assert_eq!(Direction::parse("right"), Some(Direction::Right));
    assert_eq!(Direction::parse("bogus"), None);
}

#[test]
fn editor_resolution_order() {
    assert_eq!(resolve_editor(Some("nano"), Some("vim"), Some("code"), Some("vi")), "nano");
    assert_eq!(resolve_editor(None, Some(" vim "), Some("code"), None), "vim");
    assert_eq!(resolve_editor(None, Some(""), None, Some("emacs -nw")), "emacs -nw");
    assert_eq!(resolve_editor(None, None, None, None), "vi");
}

#[test]
fn gui_editors_detected_by_basename() {
    assert!(is_gui_editor("code -w"));
    assert!(is_gui_editor("/usr/local/bin/subl"));
    assert!(!is_gui_editor("vim"));
    assert!(!is_gui_editor("emacs -nw"));
}

#[test]
fn editor_cmdline_quotes_paths_not_editor() {
    let line = editor_cmdline("code -w", "/tmp/my repo", "src/a b.rs");
    assert_eq!(line, "cd '/tmp/my repo' && code -w 'src/a b.rs'");
}

#[test]
fn hosts_from_environment() {
    assert_eq!(detect_host(true, Some("kitty")), Some(Host::Cmux));
    assert_eq!(detect_host(false, Some("cmux")), Some(Host::Cmux));
    assert_eq!(detect_host(false, Some("ghostty")), Some(Host::Ghostty));
    assert_eq!(detect_host(false, Some("kitty")), Some(Host::Kitty));
    assert_eq!(detect_host(false, Some("xterm")), None);
    assert_eq!(detect_host(false, None), None);
    assert!(is_cmux(false, Some("cmux")));
    assert!(!is_cmux(false, Some("kitty")));
}

#[test]
fn launch_command_lines() {
    let args: Vec<String> = vec!["--repo".into(), "/tmp/a b".into(), "ls".into()];
    assert_eq!(build_cmdline("/usr/bin/gitgui", &args), "/usr/bin/gitgui --repo '/tmp/a b' ls");
    assert_eq!(
        kitty_launch_args(Direction::Up, "/bin/g", &["-x".to_string()]),
        vec!["@", "launch", "--location=hsplit", "--cwd=current", "/bin/g", "-x"]
    );
    assert_eq!(ghostty_split_action(Direction::Left), "+new_split:left");
    assert_eq!(Direction::Right.kitty(), "vsplit");
    assert_eq!(Direction::Down.cmux(), "down");
}

#[test]
fn editors_open_where_the_host_allows() {
    assert_eq!(editor_route("code -w", None, "x"), Ok(EditorRoute::Detached));
    assert_eq!(editor_route("vim", Some(Host::Cmux), "x"), Ok(EditorRoute::CmuxSplit));
    assert_eq!(editor_route("/usr/bin/nvim", Some(Host::Kitty), "x"), Ok(EditorRoute::KittySplit));
    assert_eq!(
        editor_route("vim", Some(Host::Ghostty), "cd '/r' && vim 'a.rs'"),
        Err("Ghostty has no split CLI; run: cd '/r' && vim 'a.rs'".to_owned())
    );
    assert_eq!(editor_route("vim", None, "x"), Err("no split integration for this terminal".to_owned()));
}

#[test]
fn split_command_lines() {
    assert_eq!(cmux_send_args("s1", "gitgui"), vec!["send", "--surface", "s1", "--", "gitgui\n"]);
    assert_eq!(
        editor_kitty_args("/home/me/repo", "vim a"),
        vec!["@", "launch", "--location=vsplit", "--cwd=/home/me/repo", "sh", "-c", "vim a"]
    );
}
