//! The byte sequences the interactive loop writes besides frames, the
//! interactive loop's decisions (where each input event goes, when the next
//! frame is due), and the pieces of `--dump-input` that are not I/O.
use vstd::prelude::*;
use vstd::utf8::encode_utf8;

use crate::shell::{push_spec, ui_event_views, Shell, ShellState, UiEventView};
use crate::term::input::{Event, Key};
use crate::term::probe::{parse_replies, replies_from, CapsView, Capabilities};
use crate::term::kitty::{base64_encode, base64_standard, Transport};
use crate::text::{append_bytes, str_bytes};

verus! {

/// `OSC 22 ; <shape> ST`.
pub open spec fn pointer_shape_bytes(shape: Seq<char>) -> Seq<u8> {
    seq![0x1bu8, 0x5d, 0x32, 0x32, 0x3b] + encode_utf8(shape) + seq![0x1bu8, 0x5c]
}

/// `OSC 22 ; <shape> ST`: the pointer shape (kitty, Ghostty, cmux). An
/// empty shape restores the terminal's default.
pub fn encode_pointer_shape(out: &mut Vec<u8>, shape: &str)
    ensures
        final(out)@ == old(out)@ + pointer_shape_bytes(shape@),
{
    let head: Vec<u8> = vec![0x1b, 0x5d, 0x32, 0x32, 0x3b];
    append_bytes(out, head.as_slice());
    append_bytes(out, str_bytes(shape));
    out.push(0x1b);
    out.push(0x5c);
    assert(final(out)@ =~= old(out)@ + pointer_shape_bytes(shape@));
}

/// `OSC 52 ; c ; <base64> ST`.
pub open spec fn osc52_bytes(text: Seq<char>) -> Seq<u8> {
    seq![0x1bu8, 0x5d, 0x35, 0x32, 0x3b, 0x63, 0x3b] + base64_encode(encode_utf8(text)) + seq![
        0x1bu8,
        0x5c,
    ]
}

/// What the UI reports under the pointer.
#[derive(Debug, Clone, Copy, PartialEq, Eq, Structural)]
pub enum Interaction {
    /// Nothing is under the pointer.
    Nothing,
    Idle,
    Pointer,
    Grab,
    Grabbing,
    Text,
    ResizingHorizontally,
    ResizingVertically,
    ResizingDiagonallyUp,
    ResizingDiagonallyDown,
    Move,
    NotAllowed,
    NoDrop,
    Crosshair,
    Help,
    Wait,
    Progress,
    /// Any other interaction, which has no terminal pointer shape.
    Other,
}

pub open spec fn pointer_shape_name(i: Interaction) -> Seq<char> {
    match i {
        Interaction::Pointer => "pointer"@,
        Interaction::Grab => "grab"@,
        Interaction::Grabbing => "grabbing"@,
        Interaction::Text => "text"@,
        Interaction::ResizingHorizontally => "ew-resize"@,
        Interaction::ResizingVertically => "ns-resize"@,
        Interaction::ResizingDiagonallyUp => "nesw-resize"@,
        Interaction::ResizingDiagonallyDown => "nwse-resize"@,
        Interaction::Move => "move"@,
        Interaction::NotAllowed | Interaction::NoDrop => "not-allowed"@,
        Interaction::Crosshair => "crosshair"@,
        Interaction::Help => "help"@,
        Interaction::Wait | Interaction::Progress => "wait"@,
        _ => ""@,
    }
}

/// CSS-style pointer name for what the UI reports under the pointer; empty
/// for the terminal's default.
pub fn pointer_shape(i: Interaction) -> (r: &'static str)
    ensures
        r@ == pointer_shape_name(i),
{
    match i {
        Interaction::Pointer => "pointer",
        Interaction::Grab => "grab",
        Interaction::Grabbing => "grabbing",
        Interaction::Text => "text",
        Interaction::ResizingHorizontally => "ew-resize",
        Interaction::ResizingVertically => "ns-resize",
        Interaction::ResizingDiagonallyUp => "nesw-resize",
        Interaction::ResizingDiagonallyDown => "nwse-resize",
        Interaction::Move => "move",
        Interaction::NotAllowed | Interaction::NoDrop => "not-allowed",
        Interaction::Crosshair => "crosshair",
        Interaction::Help => "help",
        Interaction::Wait | Interaction::Progress => "wait",
        _ => "",
    }
}

/// `OSC 52 ; c ; <base64> ST`: write to the terminal clipboard.
pub fn encode_osc52_copy(out: &mut Vec<u8>, text: &str)
    ensures
        final(out)@ == old(out)@ + osc52_bytes(text@),
{
    let head: Vec<u8> = vec![0x1b, 0x5d, 0x35, 0x32, 0x3b, 0x63, 0x3b];
    append_bytes(out, head.as_slice());
    let b = str_bytes(text);
    let enc = base64_standard(b);
    append_bytes(out, enc.as_slice());
    out.push(0x1b);
    out.push(0x5c);
    assert(final(out)@ =~= old(out)@ + osc52_bytes(text@));
}

/// A lowercase hex digit.
pub open spec fn hex_digit(v: int) -> u8 {
    if v < 10 {
        (0x30 + v) as u8
    } else {
        (0x61 + v - 10) as u8
    }
}

/// Each byte as two lowercase hex digits and a space.
pub open spec fn hex_bytes(b: Seq<u8>) -> Seq<u8>
    decreases b.len(),
{
    if b.len() == 0 {
        seq![]
    } else {
        hex_bytes(b.drop_last()) + seq![hex_digit(b.last() as int / 16), hex_digit(b.last() as int % 16), 0x20u8]
    }
}

/// `raw: 1b 5b 41 \r\n`: the line `--dump-input` prints for the bytes of
/// one read.
pub open spec fn raw_line_bytes(b: Seq<u8>) -> Seq<u8> {
    seq![0x72u8, 0x61, 0x77, 0x3a, 0x20] + hex_bytes(b) + seq![0x0du8, 0x0a]
}

fn hex_digit_exec(v: u8) -> (r: u8)
    requires
        v < 16,
    ensures
        r == hex_digit(v as int),
{
    if v < 10 {
        0x30 + v
    } else {
        0x61 + v - 10
    }
}

/// The line `--dump-input` prints for the bytes of one read.
pub fn raw_dump_line(bytes: &[u8]) -> (r: Vec<u8>)
    ensures
        r@ == raw_line_bytes(bytes@),
{
    let mut out: Vec<u8> = vec![0x72, 0x61, 0x77, 0x3a, 0x20];
    let mut i: usize = 0;
    while i < bytes.len()
        invariant
            i <= bytes.len(),
            out@ == seq![0x72u8, 0x61, 0x77, 0x3a, 0x20] + hex_bytes(bytes@.take(i as int)),
        decreases bytes.len() - i,
    {
        let b = bytes[i];
        out.push(hex_digit_exec(b / 16));
        out.push(hex_digit_exec(b % 16));
        out.push(0x20);
        assert(bytes@.take(i + 1).drop_last() =~= bytes@.take(i as int));
        assert(out@ =~= seq![0x72u8, 0x61, 0x77, 0x3a, 0x20] + hex_bytes(bytes@.take(i + 1)));
        i = i + 1;
    }
    out.push(0x0d);
    out.push(0x0a);
    assert(bytes@.take(bytes.len() as int) =~= bytes@);
    assert(out@ =~= raw_line_bytes(bytes@));
    out
}

/// A press of Ctrl+C, which ends `--dump-input`.
pub open spec fn is_ctrl_c_press(ev: Event) -> bool {
    ev matches Event::Key { key: Key::Char(c), mods, pressed, .. } && c == 'c' && mods.ctrl && pressed
}

pub fn is_ctrl_c(ev: &Event) -> (r: bool)
    ensures
        r == is_ctrl_c_press(*ev),
{
    match ev {
        Event::Key { key: Key::Char(c), mods, pressed, .. } => *c == 'c' && mods.ctrl && *pressed,
        _ => false,
    }
}

/// The cell size and grid a resize depends on.
pub open spec fn grid(c: CapsView) -> (u32, u32, u32, u32) {
    (c.cell_w, c.cell_h, c.cols, c.rows)
}

/// A window-operation reply (`CSI ... t`) in the input: its last byte is `t`.
pub open spec fn is_size_reply(ev: Event) -> bool {
    ev matches Event::Unknown(b) && b@.len() > 0 && b@.last() == 0x74u8
}

/// Where the interactive loop has got to in a batch of input events.
pub ghost struct RouteState {
    pub shell: ShellState,
    pub queued: Seq<UiEventView>,
    pub caps: CapsView,
    pub quit: bool,
    pub focus: Seq<bool>,
    pub resize: bool,
}

/// One input event: Ctrl+C asks to quit; a focus change goes to the git
/// worker and to the UI; a size reply updates the capabilities and asks for
/// a resize where the cell size or grid changed; everything else goes to
/// the UI.
pub open spec fn route_one(s: RouteState, ev: Event) -> RouteState {
    if is_ctrl_c_press(ev) {
        RouteState { quit: true, ..s }
    } else if is_size_reply(ev) {
        let c = replies_from(ev->Unknown_0@, 0, s.caps, false).0;
        RouteState { caps: c, resize: s.resize || grid(c) != grid(s.caps), ..s }
    } else {
        let p = push_spec(s.shell, ev@);
        let focus = match ev {
            Event::Focus(f) => s.focus.push(f),
            _ => s.focus,
        };
        RouteState { shell: p.0, queued: s.queued + p.1, focus, ..s }
    }
}

pub open spec fn route_all(s: RouteState, evs: Seq<Event>) -> RouteState
    decreases evs.len(),
{
    if evs.len() == 0 {
        s
    } else {
        route_one(route_all(s, evs.drop_last()), evs.last())
    }
}

/// What a batch of input events asks of the interactive loop.
#[derive(Debug, Clone, PartialEq, Eq)]
pub struct InputRoute {
    /// Ctrl+C was pressed: leave the loop after this batch.
    pub quit: bool,
    /// Focus changes to tell the git worker, in order.
    pub focus: Vec<bool>,
    /// The cell size or grid changed: lay the frame out again.
    pub resize_needed: bool,
}

pub open spec fn route_start(shell: ShellState, caps: CapsView) -> RouteState {
    RouteState { shell, queued: seq![], caps, quit: false, focus: seq![], resize: false }
}

fn ends_with_t(b: &Vec<u8>) -> (r: bool)
    ensures
        r == (b@.len() > 0 && b@.last() == 0x74u8),
{
    b.len() > 0 && b[b.len() - 1] == 0x74
}

/// Hand a batch of parsed input events to the UI shell, the capabilities
/// and the loop, in order.
pub fn route_input(shell: &mut Shell, caps: &mut Capabilities, events: &[Event]) -> (r: InputRoute)
    ensures
        ({
            let s = route_all(route_start(old(shell).state(), old(caps)@), events@);
            &&& final(shell).state() == s.shell
            &&& ui_event_views(final(shell).events@) == ui_event_views(old(shell).events@) + s.queued
            &&& final(shell).clipboard.copied@ == old(shell).clipboard.copied@
            &&& final(caps)@ == s.caps
            &&& r.quit == s.quit
            &&& r.focus@ == s.focus
            &&& r.resize_needed == s.resize
        }),
{
    let ghost s0 = route_start(shell.state(), caps@);
    let ghost ev0 = ui_event_views(shell.events@);
    let mut quit = false;
    let mut focus: Vec<bool> = Vec::new();
    let mut resize_needed = false;
    let mut i: usize = 0;
    while i < events.len()
        invariant
            i <= events.len(),
            ({
                let s = route_all(s0, events@.take(i as int));
                &&& shell.state() == s.shell
                &&& ui_event_views(shell.events@) == ev0 + s.queued
                &&& shell.clipboard.copied@ == old(shell).clipboard.copied@
                &&& caps@ == s.caps
                &&& quit == s.quit
                &&& focus@ == s.focus
                &&& resize_needed == s.resize
            }),
        decreases events.len() - i,
    {
        let ev = &events[i];
        proof {
            assert(events@.take(i + 1).drop_last() =~= events@.take(i as int));
            assert(events@.take(i + 1).last() == events@[i as int]);
        }
        let ghost before = ui_event_views(shell.events@);
        if is_ctrl_c(ev) {
            quit = true;
        } else {
            let size_reply = match ev {
                Event::Unknown(b) => ends_with_t(b),
                _ => false,
            };
            if size_reply {
                match ev {
                    Event::Unknown(b) => {
                        let (w0, h0, c0, r0) = (caps.cell_w, caps.cell_h, caps.cols, caps.rows);
                        parse_replies(b.as_slice(), caps);
                        if caps.cell_w != w0 || caps.cell_h != h0 || caps.cols != c0 || caps.rows != r0 {
                            resize_needed = true;
                        }
                    },
                    _ => {},
                }
            } else {
                match ev {
                    Event::Focus(f) => focus.push(*f),
                    _ => {},
                }
                shell.push(ev);
                proof {
                    assert(ui_event_views(shell.events@) =~= ev0 + (route_all(s0, events@.take(i as int)).queued + push_spec(route_all(s0, events@.take(i as int)).shell, ev@).1));
                }
            }
        }
        i = i + 1;
    }
    proof {
        assert(events@.take(events.len() as int) =~= events@);
    }
    InputRoute { quit, focus, resize_needed }
}

/// What the UI asked for after a frame: the next frame right away, one at a
/// time (milliseconds on the loop's clock), or nothing until an event.
#[derive(Debug, Clone, Copy, PartialEq, Eq, Structural)]
pub enum Redraw {
    NextFrame,
    At(u64),
    Wait,
}

pub open spec fn merge_redraw_spec(a: Redraw, b: Redraw) -> Redraw {
    match (a, b) {
        (Redraw::NextFrame, _) | (_, Redraw::NextFrame) => Redraw::NextFrame,
        (Redraw::At(x), Redraw::At(y)) => Redraw::At(if x <= y { x } else { y }),
        (Redraw::At(x), Redraw::Wait) | (Redraw::Wait, Redraw::At(x)) => Redraw::At(x),
        (Redraw::Wait, Redraw::Wait) => Redraw::Wait,
    }
}

/// Two redraw requests as one: the sooner wins.
pub fn merge_redraw(a: Redraw, b: Redraw) -> (r: Redraw)
    ensures
        r == merge_redraw_spec(a, b),
{
    match (a, b) {
        (Redraw::NextFrame, _) | (_, Redraw::NextFrame) => Redraw::NextFrame,
        (Redraw::At(x), Redraw::At(y)) => Redraw::At(if x <= y { x } else { y }),
        (Redraw::At(x), Redraw::Wait) | (Redraw::Wait, Redraw::At(x)) => Redraw::At(x),
        (Redraw::Wait, Redraw::Wait) => Redraw::Wait,
    }
}

/// How long the loop waits when the UI asks for nothing: an hour.
pub const IDLE_WAIT_MS: u64 = 3600000;

/// How long layout changes wait for the pointer to rest before they are
/// written to the state file.
pub const STATE_SETTLE_MS: u64 = 300;

/// When the next frame is due and whether to write the state file now.
#[derive(Debug, Clone, Copy, PartialEq, Eq, Structural)]
pub struct FramePlan {
    /// Milliseconds after this frame.
    pub delay_ms: u64,
    pub flush_state: bool,
}

pub open spec fn frame_plan_spec(redraw: Redraw, now_ms: u64, state_dirty: bool, min_interval_ms: u64) -> FramePlan {
    let asked: int = match redraw {
        Redraw::NextFrame => 0,
        Redraw::At(at) => if at >= now_ms { at - now_ms } else { 0 },
        Redraw::Wait => IDLE_WAIT_MS as int,
    };
    let (delay, flush) = if state_dirty {
        if redraw == Redraw::NextFrame {
            (STATE_SETTLE_MS as int, false)
        } else {
            (asked, true)
        }
    } else {
        (asked, false)
    };
    FramePlan { delay_ms: if delay >= min_interval_ms { delay as u64 } else { min_interval_ms }, flush_state: flush }
}

/// After a frame drawn at `now_ms`: the delay to the next one, never under
/// the transport's minimum interval, and whether unsaved layout changes are
/// written now. While frames follow each other (a drag), the state waits
/// for the pointer to rest.
pub fn frame_plan(redraw: Redraw, now_ms: u64, state_dirty: bool, min_interval_ms: u64) -> (r: FramePlan)
    ensures
        r == frame_plan_spec(redraw, now_ms, state_dirty, min_interval_ms),
{
    let asked: u64 = match redraw {
        Redraw::NextFrame => 0,
        Redraw::At(at) => if at >= now_ms { at - now_ms } else { 0 },
        Redraw::Wait => IDLE_WAIT_MS,
    };
    let next_frame = match redraw {
        Redraw::NextFrame => true,
        _ => false,
    };
    let (delay, flush) = if state_dirty {
        if next_frame {
            (STATE_SETTLE_MS, false)
        } else {
            (asked, true)
        }
    } else {
        (asked, false)
    };
    FramePlan { delay_ms: if delay >= min_interval_ms { delay } else { min_interval_ms }, flush_state: flush }
}

/// The shortest time between frames: shared memory keeps up with 60 frames
/// a second, the inline transport with 20.
pub fn min_frame_interval_ms(t: Transport) -> (r: u64)
    ensures
        r == match t {
            Transport::Shm => 16u64,
            Transport::Direct => 50u64,
        },
{
    match t {
        Transport::Shm => 16,
        Transport::Direct => 50,
    }
}

} // verus!
