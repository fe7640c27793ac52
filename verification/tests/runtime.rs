use gitgui::runtime::{frame_plan, merge_redraw, min_frame_interval_ms, route_input, FramePlan, Redraw};
use gitgui::shell::{Shell, UiEvent};
use gitgui::term::input::{Event, Key, Mods, MouseButton};
use gitgui::term::kitty::Transport;
use gitgui::term::probe::Capabilities;

fn no_mods() -> Mods {
    Mods { shift: false, alt: false, ctrl: false, sup: false }
}

#[test]
fn input_goes_to_the_shell_the_worker_and_the_capabilities() {
    let mut shell = Shell::new();
    let mut caps = Capabilities::default();
    let events = vec![
        Event::Focus(true),
        Event::MouseButton { button: MouseButton::Left, pressed: true, x: 3, y: 4, mods: no_mods() },
        Event::Unknown(b"\x1b[6;32;14t".to_vec()),
        Event::Unknown(b"\x1b[9z".to_vec()),
    ];
    let r = route_input(&mut shell, &mut caps, &events);
    assert!(!r.quit);
    assert_eq!(r.focus, vec![true]);
    assert!(r.resize_needed);
    assert_eq!((caps.cell_w, caps.cell_h), (14, 32));
    assert_eq!(
        shell.events,
        vec![UiEvent::Focused, UiEvent::CursorMoved { x: 3, y: 4 }, UiEvent::ButtonPressed(MouseButton::Left)]
    );
}

#[test]
fn ctrl_c_quits_after_the_batch_and_unchanged_sizes_need_no_resize() {
    let mut shell = Shell::new();
    let mut caps = Capabilities::default();
    caps.cell_w = 14;
    caps.cell_h = 32;
    let ctrl = Mods { ctrl: true, ..no_mods() };
    let events = vec![
        Event::Key { key: Key::Char('c'), mods: ctrl, text: None, pressed: true, repeat: false },
        Event::Unknown(b"\x1b[6;32;14t".to_vec()),
        Event::Focus(false),
    ];
    let r = route_input(&mut shell, &mut caps, &events);
    assert!(r.quit);
    assert!(!r.resize_needed);
    assert_eq!(r.focus, vec![false]);
    assert_eq!(shell.events, vec![UiEvent::Unfocused]);
}

#[test]
fn redraw_requests_merge_to_the_sooner() {
    assert_eq!(merge_redraw(Redraw::At(5), Redraw::NextFrame), Redraw::NextFrame);
    assert_eq!(merge_redraw(Redraw::At(9), Redraw::At(5)), Redraw::At(5));
    assert_eq!(merge_redraw(Redraw::Wait, Redraw::At(7)), Redraw::At(7));
    assert_eq!(merge_redraw(Redraw::Wait, Redraw::Wait), Redraw::Wait);
}

#[test]
fn frames_are_paced_and_state_waits_for_the_pointer_to_rest() {
    let shm = min_frame_interval_ms(Transport::Shm);
    let direct = min_frame_interval_ms(Transport::Direct);
    assert_eq!((shm, direct), (16, 50));
    assert_eq!(frame_plan(Redraw::NextFrame, 100, false, shm), FramePlan { delay_ms: 16, flush_state: false });
    assert_eq!(frame_plan(Redraw::At(1100), 100, false, shm), FramePlan { delay_ms: 1000, flush_state: false });
    assert_eq!(frame_plan(Redraw::At(90), 100, false, direct), FramePlan { delay_ms: 50, flush_state: false });
    assert_eq!(frame_plan(Redraw::Wait, 100, false, shm), FramePlan { delay_ms: 3_600_000, flush_state: false });
    assert_eq!(frame_plan(Redraw::NextFrame, 100, true, shm), FramePlan { delay_ms: 300, flush_state: false });
    assert_eq!(frame_plan(Redraw::Wait, 100, true, shm), FramePlan { delay_ms: 3_600_000, flush_state: true });
}
