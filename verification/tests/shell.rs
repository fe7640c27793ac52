use gitgui::shell::{modifiers, ui_key, Clipboard, NamedKey, Shell, UiEvent, UiKey, UiMods};
use gitgui::term::input::{Event, Key, Mods, MouseButton};

#[test]
fn clipboard_collects_writes_and_reads_the_paste() {
    let mut c = Clipboard::default();
    assert_eq!(c.read(), None);
    c.write("one".into());
    c.write("two".into());
    assert_eq!(c.copied, vec!["one".to_owned(), "two".to_owned()]);
    c.paste = Some("pasted".into());
    assert_eq!(c.read().as_deref(), Some("pasted"));
}

fn no_mods() -> Mods {
    Mods { shift: false, alt: false, ctrl: false, sup: false }
}

#[test]
fn keys_map_to_iced_keys() {
    assert_eq!(ui_key(Key::Enter, &None), Some(UiKey::Named(NamedKey::Enter)));
    assert_eq!(ui_key(Key::Char('a'), &Some("A".into())), Some(UiKey::Character("A".into())));
    assert_eq!(ui_key(Key::Char(' '), &Some(" ".into())), Some(UiKey::Named(NamedKey::Space)));
    assert_eq!(ui_key(Key::Other(57441), &None), None);
}

#[test]
fn mouse_events_carry_points() {
    let ppp: f32 = 2.0;
    let mut s = Shell::new();
    s.push(&Event::MouseButton { button: MouseButton::Left, pressed: true, x: 40, y: 20, mods: no_mods() });
    let (x, y) = s.cursor().unwrap();
    assert_eq!((x as f32 / ppp, y as f32 / ppp), (20.0, 10.0));
    assert!(matches!(
        s.events.as_slice(),
        [UiEvent::CursorMoved { .. }, UiEvent::ButtonPressed(MouseButton::Left)]
    ));
    s.push(&Event::Wheel { dx: 0, dy: -1, x: 40, y: 20, mods: no_mods() });
    assert!(matches!(s.events.last(), Some(UiEvent::WheelScrolled { dy, .. }) if *dy as f32 == -1.0));
}

#[test]
fn keys_past_f12_and_control_text_fall_back() {
    assert_eq!(ui_key(Key::F(12), &None), Some(UiKey::Named(NamedKey::F(12))));
    assert_eq!(ui_key(Key::F(13), &None), None);
    assert_eq!(ui_key(Key::Left, &None), Some(UiKey::Named(NamedKey::ArrowLeft)));
    assert_eq!(ui_key(Key::Char('a'), &Some("\u{1}".into())), Some(UiKey::Character("a".into())));
    assert_eq!(ui_key(Key::Char('a'), &Some("ab".into())), Some(UiKey::Character("a".into())));
    assert_eq!(ui_key(Key::Char('é'), &None), Some(UiKey::Character("é".into())));
}

#[test]
fn ctrl_sets_the_command_flag() {
    let m = modifiers(Mods { shift: true, alt: false, ctrl: true, sup: true });
    assert_eq!(m, UiMods { shift: true, ctrl: true, alt: false, logo: true, command: true });
}

#[test]
fn repeated_moves_and_modifiers_are_sent_once() {
    let mut s = Shell::new();
    s.push(&Event::MouseMove { x: 5, y: 6, mods: no_mods() });
    s.push(&Event::MouseMove { x: 5, y: 6, mods: no_mods() });
    assert_eq!(s.events, vec![UiEvent::CursorMoved { x: 5, y: 6 }]);
    s.rescaled();
    s.push(&Event::MouseMove { x: 5, y: 6, mods: no_mods() });
    assert_eq!(s.events.len(), 2);
    let shift = Mods { shift: true, ..no_mods() };
    s.events.clear();
    s.push(&Event::MouseButton { button: MouseButton::Right, pressed: false, x: 5, y: 6, mods: shift });
    s.push(&Event::MouseButton { button: MouseButton::Right, pressed: true, x: 5, y: 6, mods: shift });
    assert_eq!(
        s.events,
        vec![
            UiEvent::ModifiersChanged(modifiers(shift)),
            UiEvent::ButtonReleased(MouseButton::Right),
            UiEvent::ButtonPressed(MouseButton::Right),
        ]
    );
    assert_eq!(s.modifiers(), modifiers(shift));
}

#[test]
fn key_text_is_dropped_under_ctrl_and_paste_goes_through_the_paste_key() {
    let mut s = Shell::new();
    let ctrl = Mods { ctrl: true, ..no_mods() };
    s.push(&Event::Key { key: Key::Char('c'), mods: ctrl, text: Some("c".into()), pressed: true, repeat: false });
    assert_eq!(
        s.events,
        vec![
            UiEvent::ModifiersChanged(modifiers(ctrl)),
            UiEvent::KeyPressed { key: UiKey::Character("c".into()), mods: modifiers(ctrl), text: None, repeat: false },
        ]
    );
    s.events.clear();
    s.push(&Event::Key { key: Key::Char('x'), mods: no_mods(), text: Some("x".into()), pressed: true, repeat: true });
    s.push(&Event::Key { key: Key::Other(1), mods: no_mods(), text: None, pressed: true, repeat: false });
    assert_eq!(
        s.events,
        vec![
            UiEvent::ModifiersChanged(modifiers(no_mods())),
            UiEvent::KeyPressed { key: UiKey::Character("x".into()), mods: modifiers(no_mods()), text: Some("x".into()), repeat: true },
        ]
    );
    s.events.clear();
    s.push(&Event::Paste("hello".into()));
    let cmd = UiMods { shift: false, ctrl: false, alt: false, logo: false, command: true };
    assert_eq!(
        s.events,
        vec![
            UiEvent::ModifiersChanged(cmd),
            UiEvent::KeyPressed { key: UiKey::Character("v".into()), mods: cmd, text: None, repeat: false },
            UiEvent::KeyReleased { key: UiKey::Character("v".into()), mods: cmd },
            UiEvent::ModifiersChanged(modifiers(no_mods())),
        ]
    );
    assert_eq!(s.clipboard.read().as_deref(), Some("hello"));
    s.events.clear();
    s.push(&Event::Focus(false));
    s.push(&Event::Unknown(vec![1]));
    assert_eq!(s.events, vec![UiEvent::Unfocused]);
}
