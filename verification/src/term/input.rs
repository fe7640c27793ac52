//! Terminal input decoding: bytes from stdin to [`Event`]s.
//!
//! Covers the kitty keyboard protocol, the legacy CSI key forms, plain
//! UTF-8 text with the Ctrl and Alt fallbacks, SGR mouse in pixel or cell
//! coordinates, focus events and bracketed paste. The parser is pure: feed
//! bytes, get events; incomplete sequences stay buffered until more bytes or
//! a [`Parser::flush`].
use vstd::prelude::*;
use vstd::slice::{slice_subrange, slice_to_vec};
use vstd::utf8::*;

use crate::seqs::{
    find_bytes, find_byte, find_pat, first_index_of, lemma_find_pat_extend, lemma_find_pat_facts,
    lemma_first_index_extend, lemma_first_index_facts, occurs_at,
    lemma_split_seq_len, parse_num, parse_u32, split_bytes, split_seq, decimal_value, number_digits,
};
use crate::text::{char_from_u32, lossy_string, push_char, str_from_utf8, utf8_lossy};

verus! {

#[derive(Debug, Clone, Copy, PartialEq, Eq, Structural, Default)]
pub struct Mods {
    pub shift: bool,
    pub alt: bool,
    pub ctrl: bool,
    pub sup: bool,
}

pub open spec fn mods_of(shift: bool, alt: bool, ctrl: bool, sup: bool) -> Mods {
    Mods { shift, alt, ctrl, sup }
}

pub open spec fn no_mods() -> Mods {
    mods_of(false, false, false, false)
}

/// The kitty / xterm modifier parameter `1 + bits`.
pub open spec fn mods_from_param(p: u32) -> Mods {
    let bits = if p >= 1 { (p - 1) as u32 } else { 0u32 };
    mods_of(bits & 1 != 0, bits & 2 != 0, bits & 4 != 0, bits & 8 != 0)
}

impl Mods {
    /// No modifier held.
    pub fn none() -> (m: Mods)
        ensures
            m == no_mods(),
    {
        Mods { shift: false, alt: false, ctrl: false, sup: false }
    }

    /// Shift alone.
    pub fn shift_only() -> (m: Mods)
        ensures
            m == mods_of(true, false, false, false),
    {
        Mods { shift: true, alt: false, ctrl: false, sup: false }
    }

    /// Alt alone.
    pub fn alt_only() -> (m: Mods)
        ensures
            m == mods_of(false, true, false, false),
    {
        Mods { shift: false, alt: true, ctrl: false, sup: false }
    }

    /// Ctrl alone.
    pub fn ctrl_only() -> (m: Mods)
        ensures
            m == mods_of(false, false, true, false),
    {
        Mods { shift: false, alt: false, ctrl: true, sup: false }
    }

    /// From the kitty / xterm modifier parameter (`1 + bits`).
    fn from_param(p: u32) -> (m: Mods)
        ensures
            m == mods_from_param(p),
    {
        let bits = p.saturating_sub(1);
        Mods { shift: bits & 1 != 0, alt: bits & 2 != 0, ctrl: bits & 4 != 0, sup: bits & 8 != 0 }
    }
}

#[derive(Debug, Clone, Copy, PartialEq, Eq, Structural)]
pub enum Key {
    Char(char),
    Enter,
    Tab,
    Escape,
    Backspace,
    Insert,
    Delete,
    Left,
    Right,
    Up,
    Down,
    PageUp,
    PageDown,
    Home,
    End,
    F(u8),
    /// A key we do not map, with its kitty codepoint (modifier keys etc).
    Other(u32),
}

/// The key a kitty keyboard codepoint stands for.
pub open spec fn key_from_codepoint(cp: u32) -> Key {
    if cp == 13 {
        Key::Enter
    } else if cp == 9 {
        Key::Tab
    } else if cp == 27 {
        Key::Escape
    } else if cp == 127 || cp == 8 {
        Key::Backspace
    } else if cp == 57348 {
        Key::Insert
    } else if cp == 57349 {
        Key::Delete
    } else if cp == 57350 {
        Key::Left
    } else if cp == 57351 {
        Key::Right
    } else if cp == 57352 {
        Key::Up
    } else if cp == 57353 {
        Key::Down
    } else if cp == 57354 {
        Key::PageUp
    } else if cp == 57355 {
        Key::PageDown
    } else if cp == 57356 {
        Key::Home
    } else if cp == 57357 {
        Key::End
    } else if 57364 <= cp <= 57375 {
        Key::F((cp - 57364 + 1) as u8)
    } else if 57399 <= cp <= 57408 {
        // Keypad digits map to their plain equivalents.
        Key::Char(((0x30 + cp - 57399) as u8) as char)
    } else if cp == 57414 {
        Key::Enter
    } else if cp == 57417 {
        Key::Left
    } else if cp == 57418 {
        Key::Right
    } else if cp == 57419 {
        Key::Up
    } else if cp == 57420 {
        Key::Down
    } else if cp == 57421 {
        Key::PageUp
    } else if cp == 57422 {
        Key::PageDown
    } else if cp == 57423 {
        Key::Home
    } else if cp == 57424 {
        Key::End
    } else if cp == 57425 {
        Key::Insert
    } else if cp == 57426 {
        Key::Delete
    } else if is_scalar(cp) && cp >= 32 && !(0xE000 <= cp <= 0xF8FF) {
        Key::Char(cp as char)
    } else {
        Key::Other(cp)
    }
}

impl Key {
    fn from_codepoint(cp: u32) -> (k: Key)
        ensures
            k == key_from_codepoint(cp),
    {
        if cp == 13 {
            Key::Enter
        } else if cp == 9 {
            Key::Tab
        } else if cp == 27 {
            Key::Escape
        } else if cp == 127 || cp == 8 {
            Key::Backspace
        } else if cp == 57348 {
            Key::Insert
        } else if cp == 57349 {
            Key::Delete
        } else if cp == 57350 {
            Key::Left
        } else if cp == 57351 {
            Key::Right
        } else if cp == 57352 {
            Key::Up
        } else if cp == 57353 {
            Key::Down
        } else if cp == 57354 {
            Key::PageUp
        } else if cp == 57355 {
            Key::PageDown
        } else if cp == 57356 {
            Key::Home
        } else if cp == 57357 {
            Key::End
        } else if 57364 <= cp && cp <= 57375 {
            Key::F((cp - 57364 + 1) as u8)
        } else if 57399 <= cp && cp <= 57408 {
            Key::Char(((0x30 + cp - 57399) as u8) as char)
        } else if cp == 57414 {
            Key::Enter
        } else if cp == 57417 {
            Key::Left
        } else if cp == 57418 {
            Key::Right
        } else if cp == 57419 {
            Key::Up
        } else if cp == 57420 {
            Key::Down
        } else if cp == 57421 {
            Key::PageUp
        } else if cp == 57422 {
            Key::PageDown
        } else if cp == 57423 {
            Key::Home
        } else if cp == 57424 {
            Key::End
        } else if cp == 57425 {
            Key::Insert
        } else if cp == 57426 {
            Key::Delete
        } else {
            match char_from_u32(cp) {
                Some(c) => if cp >= 32 && !(0xE000 <= cp && cp <= 0xF8FF) {
                    proof {
                        vstd::utf8::char_u32_cast(c, cp);
                    }
                    Key::Char(c)
                } else {
                    Key::Other(cp)
                },
                None => Key::Other(cp),
            }
        }
    }
}

#[derive(Debug, Clone, Copy, PartialEq, Eq, Structural)]
pub enum MouseButton {
    Left,
    Middle,
    Right,
}

#[derive(Debug, Clone, PartialEq, Eq)]
pub enum Event {
    Key {
        key: Key,
        mods: Mods,
        /// Text produced by this key press, if any.
        text: Option<String>,
        pressed: bool,
        repeat: bool,
    },
    MouseButton { button: MouseButton, pressed: bool, x: i32, y: i32, mods: Mods },
    MouseMove { x: i32, y: i32, mods: Mods },
    /// One wheel notch. `dy` is +1 for up, -1 for down; `dx` +1 for left, -1 for right.
    Wheel { dx: i32, dy: i32, x: i32, y: i32, mods: Mods },
    Paste(String),
    Focus(bool),
    /// A complete sequence we did not understand.
    Unknown(Vec<u8>),
}

/// The mathematical value of an [`Event`]: strings and byte buffers as
/// sequences.
pub ghost enum EventView {
    Key { key: Key, mods: Mods, text: Option<Seq<char>>, pressed: bool, repeat: bool },
    MouseButton { button: MouseButton, pressed: bool, x: i32, y: i32, mods: Mods },
    MouseMove { x: i32, y: i32, mods: Mods },
    Wheel { dx: i32, dy: i32, x: i32, y: i32, mods: Mods },
    Paste(Seq<char>),
    Focus(bool),
    Unknown(Seq<u8>),
}

pub open spec fn opt_string_view(t: Option<String>) -> Option<Seq<char>> {
    match t {
        Some(s) => Some(s@),
        None => None,
    }
}

impl View for Event {
    type V = EventView;

    open spec fn view(&self) -> EventView {
        match self {
            Event::Key { key, mods, text, pressed, repeat } => EventView::Key {
                key: *key,
                mods: *mods,
                text: opt_string_view(*text),
                pressed: *pressed,
                repeat: *repeat,
            },
            Event::MouseButton { button, pressed, x, y, mods } => EventView::MouseButton {
                button: *button,
                pressed: *pressed,
                x: *x,
                y: *y,
                mods: *mods,
            },
            Event::MouseMove { x, y, mods } => EventView::MouseMove { x: *x, y: *y, mods: *mods },
            Event::Wheel { dx, dy, x, y, mods } => EventView::Wheel {
                dx: *dx,
                dy: *dy,
                x: *x,
                y: *y,
                mods: *mods,
            },
            Event::Paste(s) => EventView::Paste(s@),
            Event::Focus(b) => EventView::Focus(*b),
            Event::Unknown(v) => EventView::Unknown(v@),
        }
    }
}

/// The view of each event, in order.
pub open spec fn events_view(v: Seq<Event>) -> Seq<EventView> {
    v.map_values(|e: Event| e@)
}

/// A key press with no repeat.
pub open spec fn key_press(key: Key, mods: Mods, text: Option<Seq<char>>) -> EventView {
    EventView::Key { key, mods, text, pressed: true, repeat: false }
}

// ---------------------------------------------------------------------------
// The decoding, stated over byte sequences.

pub const ESC: u8 = 0x1b;

pub open spec fn utf8_len(first: u8) -> int {
    if first <= 0x7f {
        1
    } else if 0xc0 <= first <= 0xdf {
        2
    } else if 0xe0 <= first <= 0xef {
        3
    } else if 0xf0 <= first <= 0xf7 {
        4
    } else {
        1
    }
}

/// The key event a C0 control byte or DEL stands for.
pub open spec fn control_event(c: u8) -> EventView {
    if c == 0x0d {
        key_press(Key::Enter, no_mods(), None)
    } else if c == 0x0a {
        key_press(Key::Enter, mods_of(false, false, true, false), None)
    } else if c == 0x09 {
        key_press(Key::Tab, no_mods(), None)
    } else if c == 0x7f || c == 0x08 {
        key_press(Key::Backspace, no_mods(), None)
    } else if c == 0x00 {
        key_press(Key::Char(' '), mods_of(false, false, true, false), None)
    } else if 0x01 <= c <= 0x1a {
        key_press(Key::Char(((0x61 + c - 1) as u8) as char), mods_of(false, false, true, false), None)
    } else if 0x1c <= c <= 0x1f {
        key_press(Key::Char(((0x34 + c - 0x1c) as u8) as char), mods_of(false, false, true, false), None)
    } else {
        EventView::Unknown(seq![c])
    }
}

/// `ESC` followed by `b` when nothing else claims it: Alt + that byte.
pub open spec fn alt_byte_event(b: u8) -> EventView {
    if b < 0x20 || b == 0x7f {
        if b == ESC {
            EventView::Unknown(seq![ESC, b])
        } else {
            match control_event(b) {
                EventView::Key { key, mods, text, pressed, repeat } => EventView::Key {
                    key,
                    mods: Mods { alt: true, ..mods },
                    text,
                    pressed,
                    repeat,
                },
                other => other,
            }
        }
    } else {
        key_press(Key::Char(b as char), mods_of(false, true, false, false), None)
    }
}

/// The result of one decoding step.
pub ghost enum StepView {
    /// Consumed n bytes, produced an event (or none for ignored sequences).
    Done(nat, Option<EventView>),
    /// Need more bytes.
    Incomplete,
}

pub open spec fn is_final_byte(c: u8) -> bool {
    0x40 <= c <= 0x7e
}

pub open spec fn is_first_final(s: Seq<u8>, i: int) -> bool {
    &&& 0 <= i < s.len()
    &&& is_final_byte(s[i])
    &&& forall|j: int| 0 <= j < i ==> !is_final_byte(#[trigger] s[j])
}

/// Position of the first CSI final byte (0x40..=0x7E) in `s`.
pub open spec fn first_final(s: Seq<u8>) -> Option<int> {
    if exists|i: int| is_first_final(s, i) {
        Some(choose|i: int| is_first_final(s, i))
    } else {
        None
    }
}

/// Step over a plain (non-ESC) byte: a control key or a UTF-8 char.
pub open spec fn step_plain_spec(b: Seq<u8>) -> StepView {
    let c = b[0];
    if c < 0x20 || c == 0x7f {
        StepView::Done(1, Some(control_event(c)))
    } else if b.len() < utf8_len(c) {
        StepView::Incomplete
    } else if valid_utf8(b.take(utf8_len(c))) {
        let ch = decode_utf8(b.take(utf8_len(c)))[0];
        StepView::Done(utf8_len(c) as nat, Some(key_press(Key::Char(ch), no_mods(), Some(seq![ch]))))
    } else {
        StepView::Done(1, Some(EventView::Unknown(seq![c])))
    }
}

/// `ESC O x`: the SS3 forms of the arrow, Home, End and F1..F4 keys.
pub open spec fn ss3_key(f: u8) -> Option<Key> {
    if f == 0x41 {
        Some(Key::Up)
    } else if f == 0x42 {
        Some(Key::Down)
    } else if f == 0x43 {
        Some(Key::Right)
    } else if f == 0x44 {
        Some(Key::Left)
    } else if f == 0x48 {
        Some(Key::Home)
    } else if f == 0x46 {
        Some(Key::End)
    } else if f == 0x50 {
        Some(Key::F(1))
    } else if f == 0x51 {
        Some(Key::F(2))
    } else if f == 0x52 {
        Some(Key::F(3))
    } else if f == 0x53 {
        Some(Key::F(4))
    } else {
        None
    }
}

/// String terminator `ESC \`.
pub open spec fn st_bytes() -> Seq<u8> {
    seq![ESC, 0x5c]
}

/// End of a bracketed paste, `ESC [ 201 ~`.
pub open spec fn paste_end_bytes() -> Seq<u8> {
    seq![ESC, 0x5b, 0x32, 0x30, 0x31, 0x7e]
}

/// Length of an APC / OSC / DCS / PM string starting at `b` (which begins
/// with `ESC` and the introducer), up to and including its terminator:
/// ST, or BEL for OSC.
pub open spec fn string_seq_len(b: Seq<u8>) -> Option<nat> {
    let body = b.skip(2);
    let st = find_pat(body, st_bytes());
    let bel = if b[1] == 0x5d {
        first_index_of(body, 0x07u8)
    } else {
        None
    };
    match (st, bel) {
        (Some(s), Some(l)) => Some((2 + if s + 2 <= l + 1 { s + 2 } else { l + 1 }) as nat),
        (Some(s), None) => Some((2 + s + 2) as nat),
        (None, Some(l)) => Some((2 + l + 1) as nat),
        (None, None) => None,
    }
}

/// One decoding step at the start of `b`, which is not empty.
#[verifier::opaque]
pub open spec fn step_spec(b: Seq<u8>, pixel_mouse: bool, cell_w: u32, cell_h: u32) -> StepView {
    if b[0] != ESC {
        step_plain_spec(b)
    } else if b.len() == 1 {
        StepView::Incomplete
    } else if b[1] == 0x5b {
        step_csi_spec(b, pixel_mouse, cell_w, cell_h)
    } else if b[1] == 0x4f {
        if b.len() < 3 {
            StepView::Incomplete
        } else {
            match ss3_key(b[2]) {
                Some(k) => StepView::Done(3, Some(key_press(k, no_mods(), None))),
                None => StepView::Done(3, Some(EventView::Unknown(b.take(3)))),
            }
        }
    } else if b[1] == 0x5f || b[1] == 0x5d || b[1] == 0x50 || b[1] == 0x5e {
        match string_seq_len(b) {
            Some(n) => StepView::Done(n, None),
            None => StepView::Incomplete,
        }
    } else if b[1] == ESC {
        StepView::Done(1, Some(key_press(Key::Escape, no_mods(), None)))
    } else if b[1] >= 0x80 {
        let need = utf8_len(b[1]);
        if b.len() < 1 + need {
            StepView::Incomplete
        } else if valid_utf8(b.subrange(1, 1 + need)) {
            let ch = decode_utf8(b.subrange(1, 1 + need))[0];
            StepView::Done((1 + need) as nat, Some(key_press(Key::Char(ch), mods_of(false, true, false, false), None)))
        } else {
            StepView::Done((1 + need) as nat, Some(EventView::Unknown(b.take(1 + need))))
        }
    } else {
        StepView::Done(2, Some(alt_byte_event(b[1])))
    }
}

/// A CSI sequence `ESC [ params final`, or a bracketed paste.
pub open spec fn step_csi_spec(b: Seq<u8>, pixel_mouse: bool, cell_w: u32, cell_h: u32) -> StepView {
    let body = b.skip(2);
    match first_final(body) {
        None => StepView::Incomplete,
        Some(fin_idx) => {
            let fin = body[fin_idx];
            let params = body.take(fin_idx);
            let total = 2 + fin_idx + 1;
            if fin == 0x7e && params == seq![0x32u8, 0x30, 0x30] {
                let rest = b.skip(total);
                match find_pat(rest, paste_end_bytes()) {
                    None => StepView::Incomplete,
                    Some(end) => StepView::Done(
                        (total + end + 6) as nat,
                        Some(EventView::Paste(utf8_lossy(rest.take(end)))),
                    ),
                }
            } else {
                match csi_event(fin, params, pixel_mouse, cell_w, cell_h) {
                    Some(ev) => StepView::Done(total as nat, Some(ev)),
                    None => StepView::Done(total as nat, Some(EventView::Unknown(b.take(total)))),
                }
            }
        },
    }
}

/// The key of a legacy `CSI [1;mod] X` sequence with final byte `fin`.
pub open spec fn csi_letter_key(fin: u8) -> Option<Key> {
    if fin == 0x41 {
        Some(Key::Up)
    } else if fin == 0x42 {
        Some(Key::Down)
    } else if fin == 0x43 {
        Some(Key::Right)
    } else if fin == 0x44 {
        Some(Key::Left)
    } else if fin == 0x48 {
        Some(Key::Home)
    } else if fin == 0x46 {
        Some(Key::End)
    } else if fin == 0x50 {
        Some(Key::F(1))
    } else if fin == 0x51 {
        Some(Key::F(2))
    } else if fin == 0x53 {
        Some(Key::F(4))
    } else if fin == 0x5a {
        Some(Key::Tab)
    } else {
        None
    }
}

/// The key of a `CSI num [;mod] ~` sequence.
pub open spec fn tilde_key(num: u32) -> Option<Key> {
    if num == 2 {
        Some(Key::Insert)
    } else if num == 3 {
        Some(Key::Delete)
    } else if num == 5 {
        Some(Key::PageUp)
    } else if num == 6 {
        Some(Key::PageDown)
    } else if num == 1 || num == 7 {
        Some(Key::Home)
    } else if num == 4 || num == 8 {
        Some(Key::End)
    } else if 11 <= num <= 15 {
        Some(Key::F((num - 10) as u8))
    } else if 17 <= num <= 21 {
        Some(Key::F((num - 11) as u8))
    } else if num == 23 || num == 24 {
        Some(Key::F((num - 12) as u8))
    } else {
        None
    }
}

pub open spec fn mods_or_none(p: Option<u32>) -> Mods {
    match p {
        Some(v) => mods_from_param(v),
        None => no_mods(),
    }
}

/// `"1;5"` has modifier 5; a bare `"5"` (no key number) is accepted too.
pub open spec fn legacy_mods_spec(params: Seq<u8>) -> Mods {
    let pieces = split_seq(params, 0x3bu8);
    if pieces.len() >= 2 {
        mods_or_none(parse_u32(pieces[1]))
    } else if pieces[0].len() > 0 && pieces[0] != seq![0x31u8] {
        mods_or_none(parse_u32(pieces[0]))
    } else {
        no_mods()
    }
}

/// The event a complete CSI sequence (other than a paste) stands for.
pub open spec fn csi_event(fin: u8, params: Seq<u8>, pixel_mouse: bool, cell_w: u32, cell_h: u32) -> Option<EventView> {
    if fin == 0x75 {
        kitty_key_spec(params)
    } else if (fin == 0x4d || fin == 0x6d) && params.len() > 0 && params[0] == 0x3c {
        sgr_mouse_spec(params.skip(1), fin == 0x4d, pixel_mouse, cell_w, cell_h)
    } else if fin == 0x49 && params.len() == 0 {
        Some(EventView::Focus(true))
    } else if fin == 0x4f && params.len() == 0 {
        Some(EventView::Focus(false))
    } else if csi_letter_key(fin) is Some {
        let m = legacy_mods_spec(params);
        let mods = if fin == 0x5a { Mods { shift: true, ..m } } else { m };
        Some(key_press(csi_letter_key(fin)->0, mods, None))
    } else if fin == 0x7e {
        let pieces = split_seq(params, 0x3bu8);
        let num = match parse_u32(pieces[0]) {
            Some(n) => n,
            None => 0,
        };
        let mods = if pieces.len() >= 2 {
            mods_or_none(parse_u32(pieces[1]))
        } else {
            no_mods()
        };
        match tilde_key(num) {
            Some(k) => Some(key_press(k, mods, None)),
            None => None,
        }
    } else {
        None
    }
}

/// `c / 2` rounded toward zero, as Rust's `i32` division does.
pub open spec fn half_toward_zero(c: i32) -> i32 {
    if c >= 0 {
        (c / 2) as i32
    } else {
        (-((-c) / 2)) as i32
    }
}

/// A mouse coordinate: pixels are 1-based in the report, cells are turned
/// into the pixel at the center of the cell.
pub open spec fn mouse_coord(p: i32, pixel_mouse: bool, cell: u32) -> i32 {
    let z = p.wrapping_sub(1);
    let z = if z < 0 { 0i32 } else { z };
    if pixel_mouse {
        z
    } else {
        z.wrapping_mul(cell as i32).wrapping_add(half_toward_zero(cell as i32))
    }
}

/// `CSI < cb ; x ; y (M|m)`: an SGR mouse report.
pub open spec fn sgr_mouse_spec(params: Seq<u8>, press: bool, pixel_mouse: bool, cell_w: u32, cell_h: u32) -> Option<EventView> {
    let pieces = split_seq(params, 0x3bu8);
    if pieces.len() < 3 {
        None
    } else {
        match (parse_u32(pieces[0]), parse_u32(pieces[1]), parse_u32(pieces[2])) {
            (Some(cb), Some(px), Some(py)) => {
                let x = mouse_coord(px as i32, pixel_mouse, cell_w);
                let y = mouse_coord(py as i32, pixel_mouse, cell_h);
                let mods = mods_of(cb & 4 != 0, cb & 8 != 0, cb & 16 != 0, false);
                if cb & 64 != 0 {
                    let low = cb & 3;
                    let dx: i32 = if low == 2 { 1i32 } else if low == 3 { -1i32 } else { 0i32 };
                    let dy: i32 = if low == 0 { 1i32 } else if low == 1 { -1i32 } else { 0i32 };
                    Some(EventView::Wheel { dx, dy, x, y, mods })
                } else if cb & 32 != 0 {
                    Some(EventView::MouseMove { x, y, mods })
                } else if cb & 3 == 0 {
                    Some(EventView::MouseButton { button: MouseButton::Left, pressed: press, x, y, mods })
                } else if cb & 3 == 1 {
                    Some(EventView::MouseButton { button: MouseButton::Middle, pressed: press, x, y, mods })
                } else if cb & 3 == 2 {
                    Some(EventView::MouseButton { button: MouseButton::Right, pressed: press, x, y, mods })
                } else {
                    Some(EventView::MouseMove { x, y, mods })
                }
            },
            _ => None,
        }
    }
}

/// The chars named by the `:`-separated codepoints of a kitty text field;
/// pieces that are not numbers or not scalar values are skipped.
pub open spec fn codepoint_text(pieces: Seq<Seq<u8>>) -> Seq<char>
    decreases pieces.len(),
{
    if pieces.len() == 0 {
        seq![]
    } else {
        let rest = codepoint_text(pieces.drop_last());
        match parse_u32(pieces.last()) {
            Some(v) => if is_scalar(v) {
                rest.push(v as char)
            } else {
                rest
            },
            None => rest,
        }
    }
}

pub open spec fn is_ascii_lower(c: char) -> bool {
    'a' <= c <= 'z'
}

/// `char::to_ascii_uppercase`.
pub open spec fn ascii_upper(c: char) -> char {
    if is_ascii_lower(c) {
        ((c as u32 - 32) as u8) as char
    } else {
        c
    }
}

/// `CSI key[:shifted[:base]] ; mods[:event] [; text...] u`.
pub open spec fn kitty_key_spec(params: Seq<u8>) -> Option<EventView> {
    let fields = split_seq(params, 0x3bu8);
    let keyf = fields[0];
    let modf = if fields.len() >= 2 { fields[1] } else { seq![0x31u8] };
    let keyparts = split_seq(keyf, 0x3au8);
    match parse_u32(keyparts[0]) {
        None => None,
        Some(cp) => {
            let shifted = if keyparts.len() >= 2 { parse_u32(keyparts[1]) } else { None };
            let modparts = split_seq(modf, 0x3au8);
            let modp = match parse_u32(modparts[0]) {
                Some(v) => v,
                None => 1u32,
            };
            let event = if modparts.len() >= 2 {
                match parse_u32(modparts[1]) {
                    Some(v) => v,
                    None => 1u32,
                }
            } else {
                1u32
            };
            let masked = ((if modp >= 1 { (modp - 1) as u32 } else { 0u32 }) & 0x3f) as u32;
            let mods = mods_from_param((masked + 1) as u32);
            let pressed = event != 3;
            let repeat = event == 2;
            let key = key_from_codepoint(cp);
            let text = if !pressed {
                None
            } else if fields.len() >= 3 {
                let s = codepoint_text(split_seq(fields[2], 0x3au8));
                if s.len() == 0 {
                    None
                } else {
                    Some(s)
                }
            } else if mods.ctrl || mods.alt || mods.sup {
                None
            } else {
                match key {
                    Key::Char(c) => if mods.shift {
                        match shifted {
                            Some(v) => if is_scalar(v) {
                                Some(seq![v as char])
                            } else {
                                Some(seq![ascii_upper(c)])
                            },
                            None => Some(seq![ascii_upper(c)]),
                        }
                    } else {
                        Some(seq![c])
                    },
                    _ => None,
                }
            };
            Some(EventView::Key { key, mods, text, pressed, repeat })
        },
    }
}

/// Resolve an incomplete buffer for good: a lone ESC is the Escape key,
/// anything else is one unknown sequence. Nothing stays buffered.
pub open spec fn flush_spec(b: Seq<u8>) -> (Seq<EventView>, Seq<u8>) {
    if b == seq![ESC] {
        (seq![key_press(Key::Escape, no_mods(), None)], seq![])
    } else {
        (seq![EventView::Unknown(b)], seq![])
    }
}

pub open spec fn opt_seq<T>(o: Option<T>) -> Seq<T> {
    match o {
        Some(x) => seq![x],
        None => seq![],
    }
}

/// Decode as much of `b` as possible: the events and the bytes left
/// buffered. With `force` an incomplete tail is resolved by `flush_spec`.
pub open spec fn drain_spec(b: Seq<u8>, force: bool, pixel_mouse: bool, cell_w: u32, cell_h: u32) -> (Seq<EventView>, Seq<u8>)
    decreases b.len(),
{
    if b.len() == 0 {
        (seq![], seq![])
    } else {
        match step_spec(b, pixel_mouse, cell_w, cell_h) {
            StepView::Done(n, ev) => if 0 < n <= b.len() {
                let (evs, rest) = drain_spec(b.skip(n as int), force, pixel_mouse, cell_w, cell_h);
                (opt_seq(ev) + evs, rest)
            } else {
                (seq![], b)
            },
            StepView::Incomplete => if force {
                flush_spec(b)
            } else {
                (seq![], b)
            },
        }
    }
}

// ---------------------------------------------------------------------------
// The executable parser.

pub struct Parser {
    buf: Vec<u8>,
    /// SGR mouse reports pixels (`?1016` accepted); otherwise cells.
    pub pixel_mouse: bool,
    pub cell_w: u32,
    pub cell_h: u32,
}

enum Step {
    /// Consumed n bytes, produced an event (or none for ignored sequences).
    Done(usize, Option<Event>),
    /// Need more bytes.
    Incomplete,
}

pub open spec fn opt_event_view(e: Option<Event>) -> Option<EventView> {
    match e {
        Some(ev) => Some(ev@),
        None => None,
    }
}

spec fn step_view(s: Step) -> StepView {
    match s {
        Step::Done(n, e) => StepView::Done(n as nat, opt_event_view(e)),
        Step::Incomplete => StepView::Incomplete,
    }
}

fn key_event(key: Key, mods: Mods, text: Option<String>) -> (e: Event)
    ensures
        e@ == key_press(key, mods, opt_string_view(text)),
{
    Event::Key { key, mods, text, pressed: true, repeat: false }
}

/// The key event of a C0 control byte or DEL.
fn control_key(c: u8) -> (e: Event)
    requires
        c < 0x20 || c == 0x7f,
    ensures
        e@ == control_event(c),
{
    if c == 0x0d {
        key_event(Key::Enter, Mods::none(), None)
    } else if c == 0x0a {
        key_event(Key::Enter, Mods::ctrl_only(), None)
    } else if c == 0x09 {
        key_event(Key::Tab, Mods::none(), None)
    } else if c == 0x7f || c == 0x08 {
        key_event(Key::Backspace, Mods::none(), None)
    } else if c == 0x00 {
        key_event(Key::Char(' '), Mods::ctrl_only(), None)
    } else if 0x01 <= c && c <= 0x1a {
        key_event(Key::Char((0x61 + c - 1) as char), Mods::ctrl_only(), None)
    } else if 0x1c <= c && c <= 0x1f {
        key_event(Key::Char((0x34 + c - 0x1c) as char), Mods::ctrl_only(), None)
    } else {
        let mut v: Vec<u8> = Vec::new();
        v.push(c);
        assert(v@ =~= seq![c]);
        Event::Unknown(v)
    }
}

fn alt_byte(b: u8) -> (e: Event)
    ensures
        e@ == alt_byte_event(b),
{
    if b < 0x20 || b == 0x7f {
        if b == ESC {
            let mut v: Vec<u8> = Vec::new();
            v.push(ESC);
            v.push(b);
            assert(v@ =~= seq![ESC, b]);
            Event::Unknown(v)
        } else {
            match control_key(b) {
                Event::Key { key, mods, text, pressed, repeat } => Event::Key {
                    key,
                    mods: Mods { alt: true, ..mods },
                    text,
                    pressed,
                    repeat,
                },
                other => other,
            }
        }
    } else {
        key_event(Key::Char(b as char), Mods::alt_only(), None)
    }
}

fn utf8_len_of(first: u8) -> (n: usize)
    ensures
        n == utf8_len(first),
        1 <= n <= 4,
{
    if first <= 0x7f {
        1
    } else if 0xc0 <= first && first <= 0xdf {
        2
    } else if 0xe0 <= first && first <= 0xef {
        3
    } else if 0xf0 <= first && first <= 0xf7 {
        4
    } else {
        1
    }
}

/// The first char of `b` when `b` is valid UTF-8.
fn decode_char(b: &[u8]) -> (r: Option<char>)
    requires
        b.len() > 0,
    ensures
        r is Some <==> valid_utf8(b@),
        r matches Some(c) ==> c == decode_utf8(b@)[0],
{
    match str_from_utf8(b) {
        Some(s) => {
            assert(s@.len() > 0) by {
                assert(decode_utf8(b@) == seq![decode_first_scalar(b@) as char] + decode_utf8(
                    pop_first_scalar(b@),
                ));
            }
            Some(s.get_char(0))
        },
        None => None,
    }
}

/// Position of the first CSI final byte in `s`.
pub fn find_final(s: &[u8]) -> (r: Option<usize>)
    ensures
        r matches Some(i) ==> first_final(s@) == Some(i as int),
        r is None ==> first_final(s@) is None,
{
    let mut i: usize = 0;
    while i < s.len()
        invariant
            i <= s.len(),
            forall|j: int| 0 <= j < i ==> !is_final_byte(#[trigger] s@[j]),
        decreases s.len() - i,
    {
        if 0x40 <= s[i] && s[i] <= 0x7e {
            proof {
                let k = choose|k: int| is_first_final(s@, k);
                assert(is_first_final(s@, i as int));
                assert(is_first_final(s@, k));
                if k < i {
                    assert(!is_final_byte(s@[k]));
                } else if i < k {
                    assert(!is_final_byte(s@[i as int]));
                }
            }
            return Some(i);
        }
        i = i + 1;
    }
    None
}

fn mods_opt(p: Option<u32>) -> (m: Mods)
    ensures
        m == mods_or_none(p),
{
    match p {
        Some(v) => Mods::from_param(v),
        None => Mods::none(),
    }
}

fn legacy_mods(params: &[u8]) -> (m: Mods)
    ensures
        m == legacy_mods_spec(params@),
{
    let pieces = split_bytes(params, 0x3b);
    proof {
        lemma_split_seq_len(params@, 0x3bu8);
    }
    if pieces.len() >= 2 {
        mods_opt(parse_num(pieces[1].as_slice()))
    } else {
        let first = pieces[0].as_slice();
        if first.len() > 0 && !(first.len() == 1 && first[0] == 0x31) {
            proof {
                if first@ == seq![0x31u8] {
                    assert(first@[0] == 0x31);
                }
            }
            mods_opt(parse_num(first))
        } else {
            proof {
                if first.len() == 1 {
                    assert(first@ =~= seq![0x31u8]);
                }
            }
            Mods::none()
        }
    }
}

fn letter_key(fin: u8) -> (k: Option<Key>)
    ensures
        k == csi_letter_key(fin),
{
    if fin == 0x41 {
        Some(Key::Up)
    } else if fin == 0x42 {
        Some(Key::Down)
    } else if fin == 0x43 {
        Some(Key::Right)
    } else if fin == 0x44 {
        Some(Key::Left)
    } else if fin == 0x48 {
        Some(Key::Home)
    } else if fin == 0x46 {
        Some(Key::End)
    } else if fin == 0x50 {
        Some(Key::F(1))
    } else if fin == 0x51 {
        Some(Key::F(2))
    } else if fin == 0x53 {
        Some(Key::F(4))
    } else if fin == 0x5a {
        Some(Key::Tab)
    } else {
        None
    }
}

fn tilde_key_of(num: u32) -> (k: Option<Key>)
    ensures
        k == tilde_key(num),
{
    if num == 2 {
        Some(Key::Insert)
    } else if num == 3 {
        Some(Key::Delete)
    } else if num == 5 {
        Some(Key::PageUp)
    } else if num == 6 {
        Some(Key::PageDown)
    } else if num == 1 || num == 7 {
        Some(Key::Home)
    } else if num == 4 || num == 8 {
        Some(Key::End)
    } else if 11 <= num && num <= 15 {
        Some(Key::F((num - 10) as u8))
    } else if 17 <= num && num <= 21 {
        Some(Key::F((num - 11) as u8))
    } else if num == 23 || num == 24 {
        Some(Key::F((num - 12) as u8))
    } else {
        None
    }
}

fn ss3_key_of(f: u8) -> (k: Option<Key>)
    ensures
        k == ss3_key(f),
{
    if f == 0x41 {
        Some(Key::Up)
    } else if f == 0x42 {
        Some(Key::Down)
    } else if f == 0x43 {
        Some(Key::Right)
    } else if f == 0x44 {
        Some(Key::Left)
    } else if f == 0x48 {
        Some(Key::Home)
    } else if f == 0x46 {
        Some(Key::End)
    } else if f == 0x50 {
        Some(Key::F(1))
    } else if f == 0x51 {
        Some(Key::F(2))
    } else if f == 0x52 {
        Some(Key::F(3))
    } else if f == 0x53 {
        Some(Key::F(4))
    } else {
        None
    }
}

fn half_of(c: i32) -> (h: i32)
    ensures
        h == half_toward_zero(c),
{
    let c64 = c as i64;
    if c64 >= 0 {
        (c64 / 2) as i32
    } else {
        (-((-c64) / 2)) as i32
    }
}

fn coord(p: i32, pixel_mouse: bool, cell: u32) -> (r: i32)
    ensures
        r == mouse_coord(p, pixel_mouse, cell),
{
    let z = p.wrapping_sub(1);
    let z = if z < 0 {
        0i32
    } else {
        z
    };
    if pixel_mouse {
        z
    } else {
        z.wrapping_mul(cell as i32).wrapping_add(half_of(cell as i32))
    }
}

/// `CSI key[:shifted[:base]] ; mods[:event] [; text...] u`
fn parse_kitty_key(params: &[u8]) -> (r: Option<Event>)
    ensures
        opt_event_view(r) == kitty_key_spec(params@),
{
    let fields = split_bytes(params, 0x3b);
    proof {
        lemma_split_seq_len(params@, 0x3bu8);
    }
    let keyf = fields[0].as_slice();
    let one: Vec<u8> = vec![0x31u8];
    assert(one@ =~= seq![0x31u8]);
    let modf: &[u8] = if fields.len() >= 2 {
        fields[1].as_slice()
    } else {
        one.as_slice()
    };
    let keyparts = split_bytes(keyf, 0x3a);
    proof {
        lemma_split_seq_len(keyf@, 0x3au8);
    }
    let cp = match parse_num(keyparts[0].as_slice()) {
        Some(v) => v,
        None => return None,
    };
    let shifted = if keyparts.len() >= 2 {
        parse_num(keyparts[1].as_slice())
    } else {
        None
    };
    let modparts = split_bytes(modf, 0x3a);
    proof {
        lemma_split_seq_len(modf@, 0x3au8);
    }
    let modp = match parse_num(modparts[0].as_slice()) {
        Some(v) => v,
        None => 1u32,
    };
    let event = if modparts.len() >= 2 {
        match parse_num(modparts[1].as_slice()) {
            Some(v) => v,
            None => 1u32,
        }
    } else {
        1u32
    };
    let low = modp.saturating_sub(1);
    let masked = low & 0x3f;
    assert(masked <= 0x3f) by (bit_vector)
        requires
            masked == low & 0x3f,
    ;
    let mods = Mods::from_param(masked + 1);
    let pressed = event != 3;
    let repeat = event == 2;
    let key = Key::from_codepoint(cp);
    let text: Option<String> = if !pressed {
        None
    } else if fields.len() >= 3 {
        let s = codepoints_to_text(fields[2].as_slice());
        if s.unicode_len() == 0 {
            None
        } else {
            Some(s)
        }
    } else if mods.ctrl || mods.alt || mods.sup {
        None
    } else {
        match key {
            Key::Char(c) => {
                let t = if mods.shift {
                    match shifted {
                        Some(v) => match char_from_u32(v) {
                            Some(sc) => {
                                proof {
                                    vstd::utf8::char_u32_cast(sc, v);
                                }
                                sc
                            },
                            None => upper_ascii(c),
                        },
                        None => upper_ascii(c),
                    }
                } else {
                    c
                };
                let mut s = String::new();
                push_char(&mut s, t);
                assert(s@ =~= seq![t]);
                Some(s)
            },
            _ => None,
        }
    };
    Some(Event::Key { key, mods, text, pressed, repeat })
}

/// `char::to_ascii_uppercase`.
fn upper_ascii(c: char) -> (u: char)
    ensures
        u == ascii_upper(c),
{
    if 'a' <= c && c <= 'z' {
        ((c as u32 - 32) as u8) as char
    } else {
        c
    }
}

/// The text of a kitty text field: `:`-separated codepoints.
fn codepoints_to_text(field: &[u8]) -> (s: String)
    ensures
        s@ == codepoint_text(split_seq(field@, 0x3au8)),
{
    let pieces = split_bytes(field, 0x3a);
    let ghost pv = split_seq(field@, 0x3au8);
    let mut s = String::new();
    let mut i: usize = 0;
    while i < pieces.len()
        invariant
            i <= pieces@.len(),
            pieces@.len() == pv.len(),
            forall|k: int| 0 <= k < pieces@.len() ==> #[trigger] pieces@[k]@ == pv[k],
            s@ == codepoint_text(pv.take(i as int)),
        decreases pieces.len() - i,
    {
        proof {
            assert(pv.take(i + 1).drop_last() =~= pv.take(i as int));
            assert(pv.take(i + 1).last() == pieces@[i as int]@);
        }
        match parse_num(pieces[i].as_slice()) {
            Some(v) => match char_from_u32(v) {
                Some(c) => {
                    proof {
                        vstd::utf8::char_u32_cast(c, v);
                    }
                    push_char(&mut s, c);
                },
                None => {},
            },
            None => {},
        }
        i = i + 1;
    }
    assert(pv.take(pieces.len() as int) =~= pv);
    s
}

impl Parser {
    /// The bytes of an incomplete sequence waiting for more input.
    pub closed spec fn pending(&self) -> Seq<u8> {
        self.buf@
    }

    /// Whether mouse reports are read as pixels.
    pub closed spec fn mouse_pixels(&self) -> bool {
        self.pixel_mouse
    }

    /// The cell width used to turn cell reports into pixels.
    pub closed spec fn cell_width(&self) -> u32 {
        self.cell_w
    }

    /// The cell height used to turn cell reports into pixels.
    pub closed spec fn cell_height(&self) -> u32 {
        self.cell_h
    }

    pub fn new(pixel_mouse: bool, cell_w: u32, cell_h: u32) -> (p: Self)
        ensures
            p.pending() == Seq::<u8>::empty(),
            p.mouse_pixels() == pixel_mouse,
            p.cell_width() == (if cell_w >= 1 { cell_w } else { 1 }),
            p.cell_height() == (if cell_h >= 1 { cell_h } else { 1 }),
    {
        Parser {
            buf: Vec::with_capacity(256),
            pixel_mouse,
            cell_w: if cell_w >= 1 {
                cell_w
            } else {
                1
            },
            cell_h: if cell_h >= 1 {
                cell_h
            } else {
                1
            },
        }
    }

    /// True while an incomplete sequence is buffered (call [`Parser::flush`]
    /// after the escape timeout).
    pub fn has_pending(&self) -> (r: bool)
        ensures
            r == (self.pending().len() > 0),
    {
        self.buf.len() > 0
    }

    /// Decode `bytes` after what was buffered. Complete sequences become
    /// events; an incomplete tail stays buffered.
    pub fn feed(&mut self, bytes: &[u8]) -> (evs: Vec<Event>)
        ensures
            (events_view(evs@), final(self).pending()) == drain_spec(
                old(self).pending() + bytes@,
                false,
                old(self).mouse_pixels(),
                old(self).cell_width(),
                old(self).cell_height(),
            ),
            final(self).mouse_pixels() == old(self).mouse_pixels(),
            final(self).cell_width() == old(self).cell_width(),
            final(self).cell_height() == old(self).cell_height(),
    {
        let mut i: usize = 0;
        let ghost start = self.buf@;
        while i < bytes.len()
            invariant
                i <= bytes.len(),
                self.pixel_mouse == old(self).pixel_mouse,
                self.cell_w == old(self).cell_w,
                self.cell_h == old(self).cell_h,
                self.buf@ == start + bytes@.take(i as int),
            decreases bytes.len() - i,
        {
            self.buf.push(bytes[i]);
            assert(bytes@.take(i + 1) =~= bytes@.take(i as int).push(bytes@[i as int]));
            i = i + 1;
        }
        assert(bytes@.take(bytes.len() as int) =~= bytes@);
        let mut out = Vec::new();
        assert(events_view(out@) =~= Seq::<EventView>::empty());
        self.drain(&mut out, false);
        out
    }

    /// Resolve buffered bytes that will not be completed: a lone ESC becomes
    /// the Escape key, anything else is emitted as [`Event::Unknown`].
    pub fn flush(&mut self) -> (evs: Vec<Event>)
        ensures
            (events_view(evs@), final(self).pending()) == drain_spec(
                old(self).pending(),
                true,
                old(self).mouse_pixels(),
                old(self).cell_width(),
                old(self).cell_height(),
            ),
            final(self).pending().len() == 0,
            final(self).mouse_pixels() == old(self).mouse_pixels(),
            final(self).cell_width() == old(self).cell_width(),
            final(self).cell_height() == old(self).cell_height(),
    {
        let mut out = Vec::new();
        assert(events_view(out@) =~= Seq::<EventView>::empty());
        proof {
            lemma_forced_drain_empties(self.buf@, self.pixel_mouse, self.cell_w, self.cell_h);
        }
        self.drain(&mut out, true);
        out
    }

    fn drain(&mut self, out: &mut Vec<Event>, force: bool)
        ensures
            events_view(final(out)@) == events_view(old(out)@) + drain_spec(
                old(self).buf@,
                force,
                old(self).pixel_mouse,
                old(self).cell_w,
                old(self).cell_h,
            ).0,
            final(self).buf@ == drain_spec(
                old(self).buf@,
                force,
                old(self).pixel_mouse,
                old(self).cell_w,
                old(self).cell_h,
            ).1,
            final(self).pixel_mouse == old(self).pixel_mouse,
            final(self).cell_w == old(self).cell_w,
            final(self).cell_h == old(self).cell_h,
    {
        let ghost pm = self.pixel_mouse;
        let ghost cw = self.cell_w;
        let ghost ch = self.cell_h;
        let ghost whole = drain_spec(self.buf@, force, pm, cw, ch);
        let ghost before = events_view(out@);
        loop
            invariant
                self.pixel_mouse == pm,
                self.cell_w == cw,
                self.cell_h == ch,
                pm == old(self).pixel_mouse,
                cw == old(self).cell_w,
                ch == old(self).cell_h,
                whole == drain_spec(old(self).buf@, force, pm, cw, ch),
                before == events_view(old(out)@),
                before + whole.0 == events_view(out@) + drain_spec(self.buf@, force, pm, cw, ch).0,
                whole.1 == drain_spec(self.buf@, force, pm, cw, ch).1,
            decreases self.buf@.len(),
        {
            if self.buf.len() == 0 {
                assert(events_view(out@) + Seq::<EventView>::empty() =~= events_view(out@));
                return;
            }
            let ghost old_buf = self.buf@;
            let ghost old_out = events_view(out@);
            match self.step() {
                Step::Done(n, ev) => {
                    self.advance(n, ev, out);
                    proof {
                        let (evs, rest) = drain_spec(old_buf.skip(n as int), force, pm, cw, ch);
                        assert(drain_spec(old_buf, force, pm, cw, ch) == (opt_seq(opt_event_view(ev)) + evs, rest));
                        assert(old_out + (opt_seq(opt_event_view(ev)) + evs) =~= events_view(out@) + evs);
                    }
                },
                Step::Incomplete => {
                    if force {
                        self.flush_incomplete(out);
                    } else {
                        assert(events_view(out@) + Seq::<EventView>::empty() =~= events_view(out@));
                    }
                    return;
                },
            }
        }
    }

    /// Drop the `n` bytes of a finished step and emit its event.
    fn advance(&mut self, n: usize, ev: Option<Event>, out: &mut Vec<Event>)
        requires
            n <= old(self).buf@.len(),
        ensures
            final(self).buf@ == old(self).buf@.skip(n as int),
            events_view(final(out)@) == events_view(old(out)@) + opt_seq(opt_event_view(ev)),
            final(self).pixel_mouse == old(self).pixel_mouse,
            final(self).cell_w == old(self).cell_w,
            final(self).cell_h == old(self).cell_h,
    {
        let rest = slice_to_vec(slice_subrange(self.buf.as_slice(), n, self.buf.len()));
        self.buf = rest;
        assert(self.buf@ =~= old(self).buf@.skip(n as int));
        match ev {
            Some(e) => {
                let ghost ev_view = e@;
                out.push(e);
                assert(events_view(out@) =~= events_view(old(out)@) + seq![ev_view]);
            },
            None => {
                assert(events_view(out@) =~= events_view(old(out)@) + Seq::<EventView>::empty());
            },
        }
    }

    /// Resolve an incomplete buffer for good (see `flush_spec`).
    fn flush_incomplete(&mut self, out: &mut Vec<Event>)
        requires
            old(self).buf@.len() > 0,
        ensures
            final(self).buf@ == flush_spec(old(self).buf@).1,
            events_view(final(out)@) == events_view(old(out)@) + flush_spec(old(self).buf@).0,
            final(self).pixel_mouse == old(self).pixel_mouse,
            final(self).cell_w == old(self).cell_w,
            final(self).cell_h == old(self).cell_h,
    {
        let ghost old_out = events_view(out@);
        let ghost old_buf = self.buf@;
        let n = self.buf.len();
        if n == 1 && self.buf[0] == ESC {
            assert(old_buf =~= seq![ESC]);
            self.buf = Vec::new();
            let e = key_event(Key::Escape, Mods::none(), None);
            let ghost ev_view = e@;
            out.push(e);
            assert(events_view(out@) =~= old_out + seq![ev_view]);
            assert(self.buf@ =~= Seq::<u8>::empty());
        } else {
            proof {
                if old_buf == seq![ESC] {
                    assert(old_buf.len() == 1 && old_buf[0] == ESC);
                }
            }
            let mut rest: Vec<u8> = Vec::new();
            std::mem::swap(&mut rest, &mut self.buf);
            let ghost ev_view = EventView::Unknown(rest@);
            out.push(Event::Unknown(rest));
            assert(events_view(out@) =~= old_out + seq![ev_view]);
            assert(self.buf@ =~= Seq::<u8>::empty());
        }
    }

    fn step(&self) -> (r: Step)
        requires
            self.buf@.len() > 0,
        ensures
            step_view(r) == step_spec(self.buf@, self.pixel_mouse, self.cell_w, self.cell_h),
            r matches Step::Done(n, _) ==> 0 < n <= self.buf@.len(),
    {
        reveal(step_spec);
        let b = self.buf.as_slice();
        if b[0] != ESC {
            return self.step_plain();
        }
        if b.len() == 1 {
            return Step::Incomplete;
        }
        let second = b[1];
        if second == 0x5b {
            self.step_csi()
        } else if second == 0x4f {
            if b.len() < 3 {
                return Step::Incomplete;
            }
            match ss3_key_of(b[2]) {
                Some(k) => Step::Done(3, Some(key_event(k, Mods::none(), None))),
                None => Step::Done(3, Some(Event::Unknown(slice_to_vec(slice_subrange(b, 0, 3))))),
            }
        } else if second == 0x5f || second == 0x5d || second == 0x50 || second == 0x5e {
            // APC / OSC / DCS / PM: skip until ST (or BEL for OSC).
            let body = slice_subrange(b, 2, b.len());
            let st_pat: Vec<u8> = vec![ESC, 0x5c];
            assert(st_pat@ =~= st_bytes());
            let st = find_bytes(body, st_pat.as_slice());
            let bel = if second == 0x5d {
                find_byte(body, 0x07)
            } else {
                None
            };
            proof {
                lemma_find_pat_facts(body@, st_bytes());
                lemma_first_index_facts(body@, 0x07u8);
            }
            match (st, bel) {
                (Some(s), Some(l)) => {
                    let end = if s + 2 <= l + 1 {
                        s + 2
                    } else {
                        l + 1
                    };
                    Step::Done(2 + end, None)
                },
                (Some(s), None) => Step::Done(2 + s + 2, None),
                (None, Some(l)) => Step::Done(2 + l + 1, None),
                (None, None) => Step::Incomplete,
            }
        } else if second == ESC {
            // ESC ESC: the first one is a lone Escape.
            Step::Done(1, Some(key_event(Key::Escape, Mods::none(), None)))
        } else if second >= 0x80 {
            // Alt + byte: when it starts UTF-8, wait for the whole char.
            let need = utf8_len_of(second);
            if b.len() < 1 + need {
                return Step::Incomplete;
            }
            let seqb = slice_subrange(b, 1, 1 + need);
            match decode_char(seqb) {
                Some(c) => Step::Done(1 + need, Some(key_event(Key::Char(c), Mods::alt_only(), None))),
                None => Step::Done(1 + need, Some(Event::Unknown(slice_to_vec(slice_subrange(b, 0, 1 + need))))),
            }
        } else {
            Step::Done(2, Some(alt_byte(second)))
        }
    }

    fn step_plain(&self) -> (r: Step)
        requires
            self.buf@.len() > 0,
            self.buf@[0] != ESC,
        ensures
            step_view(r) == step_plain_spec(self.buf@),
            r matches Step::Done(n, _) ==> 0 < n <= self.buf@.len(),
    {
        let b = self.buf.as_slice();
        let c = b[0];
        if c < 0x20 || c == 0x7f {
            return Step::Done(1, Some(control_key(c)));
        }
        let need = utf8_len_of(c);
        if b.len() < need {
            return Step::Incomplete;
        }
        let first = slice_subrange(b, 0, need);
        assert(first@ == b@.take(need as int));
        match decode_char(first) {
            Some(ch) => {
                let mut s = String::new();
                push_char(&mut s, ch);
                assert(s@ =~= seq![ch]);
                Step::Done(need, Some(key_event(Key::Char(ch), Mods::none(), Some(s))))
            },
            None => {
                let mut v: Vec<u8> = Vec::new();
                v.push(c);
                assert(v@ =~= seq![c]);
                Step::Done(1, Some(Event::Unknown(v)))
            },
        }
    }

    fn step_csi(&self) -> (r: Step)
        requires
            self.buf@.len() >= 2,
            self.buf@[0] == ESC,
            self.buf@[1] == 0x5b,
        ensures
            step_view(r) == step_csi_spec(self.buf@, self.pixel_mouse, self.cell_w, self.cell_h),
            r matches Step::Done(n, _) ==> 0 < n <= self.buf@.len(),
    {
        let b = self.buf.as_slice();
        // ESC [ params (0x30..0x3F) intermediates (0x20..0x2F) final (0x40..0x7E)
        let body = slice_subrange(b, 2, b.len());
        assert(body@ == b@.skip(2));
        let fin_idx = match find_final(body) {
            Some(i) => i,
            None => return Step::Incomplete,
        };
        proof {
            let k = choose|k: int| is_first_final(body@, k);
            assert(is_first_final(body@, k));
        }
        let fin = body[fin_idx];
        let params = slice_subrange(body, 0, fin_idx);
        assert(params@ == body@.take(fin_idx as int));
        let total = 2 + fin_idx + 1;
        // Bracketed paste: CSI 200 ~ ... CSI 201 ~
        let is_paste_start = fin == 0x7e && params.len() == 3 && params[0] == 0x32 && params[1] == 0x30
            && params[2] == 0x30;
        proof {
            if params@ == seq![0x32u8, 0x30, 0x30] {
                assert(params@[0] == 0x32 && params@[1] == 0x30 && params@[2] == 0x30);
            }
            if is_paste_start {
                assert(params@ =~= seq![0x32u8, 0x30, 0x30]);
            }
        }
        if is_paste_start {
            let rest = slice_subrange(b, total, b.len());
            assert(rest@ == b@.skip(total as int));
            let end_pat: Vec<u8> = vec![ESC, 0x5b, 0x32, 0x30, 0x31, 0x7e];
            assert(end_pat@ =~= paste_end_bytes());
            let end = match find_bytes(rest, end_pat.as_slice()) {
                Some(e) => e,
                None => return Step::Incomplete,
            };
            proof {
                lemma_find_pat_facts(rest@, paste_end_bytes());
            }
            let text = lossy_string(slice_subrange(rest, 0, end));
            assert(rest@.subrange(0, end as int) == rest@.take(end as int));
            return Step::Done(total + end + 6, Some(Event::Paste(text)));
        }
        let ev = self.csi_event_of(fin, params);
        match ev {
            Some(e) => Step::Done(total, Some(e)),
            None => Step::Done(total, Some(Event::Unknown(slice_to_vec(slice_subrange(b, 0, total))))),
        }
    }

    fn csi_event_of(&self, fin: u8, params: &[u8]) -> (r: Option<Event>)
        ensures
            opt_event_view(r) == csi_event(fin, params@, self.pixel_mouse, self.cell_w, self.cell_h),
    {
        if fin == 0x75 {
            parse_kitty_key(params)
        } else if (fin == 0x4d || fin == 0x6d) && params.len() > 0 && params[0] == 0x3c {
            self.parse_sgr_mouse(slice_subrange(params, 1, params.len()), fin == 0x4d)
        } else if fin == 0x49 && params.len() == 0 {
            Some(Event::Focus(true))
        } else if fin == 0x4f && params.len() == 0 {
            Some(Event::Focus(false))
        } else {
            match letter_key(fin) {
                Some(key) => {
                    // CSI 1 ; mod X  or  CSI X.  CSI Z is shift-tab.
                    let mut mods = legacy_mods(params);
                    if fin == 0x5a {
                        mods.shift = true;
                    }
                    Some(key_event(key, mods, None))
                },
                None => {
                    if fin == 0x7e {
                        let pieces = split_bytes(params, 0x3b);
                        proof {
                            lemma_split_seq_len(params@, 0x3bu8);
                        }
                        let num: u32 = match parse_num(pieces[0].as_slice()) {
                            Some(n) => n,
                            None => 0,
                        };
                        let mods = if pieces.len() >= 2 {
                            mods_opt(parse_num(pieces[1].as_slice()))
                        } else {
                            Mods::none()
                        };
                        match tilde_key_of(num) {
                            Some(k) => Some(key_event(k, mods, None)),
                            None => None,
                        }
                    } else {
                        None
                    }
                },
            }
        }
    }

    fn parse_sgr_mouse(&self, params: &[u8], is_press_or_motion: bool) -> (r: Option<Event>)
        ensures
            opt_event_view(r) == sgr_mouse_spec(
                params@,
                is_press_or_motion,
                self.pixel_mouse,
                self.cell_w,
                self.cell_h,
            ),
    {
        let pieces = split_bytes(params, 0x3b);
        if pieces.len() < 3 {
            return None;
        }
        let cb = match parse_num(pieces[0].as_slice()) {
            Some(v) => v,
            None => return None,
        };
        let px = match parse_num(pieces[1].as_slice()) {
            Some(v) => v,
            None => return None,
        };
        let py = match parse_num(pieces[2].as_slice()) {
            Some(v) => v,
            None => return None,
        };
        let x = coord(px as i32, self.pixel_mouse, self.cell_w);
        let y = coord(py as i32, self.pixel_mouse, self.cell_h);
        let mods = Mods { shift: cb & 4 != 0, alt: cb & 8 != 0, ctrl: cb & 16 != 0, sup: false };
        if cb & 64 != 0 {
            let low = cb & 3;
            let dx: i32 = if low == 2 {
                1
            } else if low == 3 {
                -1
            } else {
                0
            };
            let dy: i32 = if low == 0 {
                1
            } else if low == 1 {
                -1
            } else {
                0
            };
            return Some(Event::Wheel { dx, dy, x, y, mods });
        }
        if cb & 32 != 0 {
            return Some(Event::MouseMove { x, y, mods });
        }
        let low = cb & 3;
        if low == 0 {
            Some(Event::MouseButton { button: MouseButton::Left, pressed: is_press_or_motion, x, y, mods })
        } else if low == 1 {
            Some(Event::MouseButton { button: MouseButton::Middle, pressed: is_press_or_motion, x, y, mods })
        } else if low == 2 {
            Some(Event::MouseButton { button: MouseButton::Right, pressed: is_press_or_motion, x, y, mods })
        } else {
            Some(Event::MouseMove { x, y, mods })
        }
    }
}

// ---------------------------------------------------------------------------
// Laws.

proof fn lemma_first_final_facts(s: Seq<u8>)
    ensures
        first_final(s) matches Some(i) ==> is_first_final(s, i),
        first_final(s) is None ==> forall|j: int| 0 <= j < s.len() ==> !is_final_byte(#[trigger] s[j]),
{
    if first_final(s) is None {
        assert forall|j: int| 0 <= j < s.len() implies !is_final_byte(#[trigger] s[j]) by {
            if is_final_byte(s[j]) {
                lemma_first_final_exists(s, j);
            }
        }
    }
}

proof fn lemma_first_final_exists(s: Seq<u8>, i: int)
    requires
        0 <= i < s.len(),
        is_final_byte(s[i]),
    ensures
        first_final(s) is Some,
    decreases i,
{
    if forall|j: int| 0 <= j < i ==> !is_final_byte(#[trigger] s[j]) {
        assert(is_first_final(s, i));
    } else {
        let j = choose|j: int| 0 <= j < i && is_final_byte(#[trigger] s[j]);
        lemma_first_final_exists(s, j);
    }
}

proof fn lemma_first_final_extend(s: Seq<u8>, t: Seq<u8>)
    requires
        first_final(s) is Some,
    ensures
        first_final(s + t) == first_final(s),
{
    lemma_first_final_facts(s);
    let i = first_final(s)->0;
    assert(is_first_final(s + t, i)) by {
        assert forall|j: int| 0 <= j < i implies !is_final_byte(#[trigger] (s + t)[j]) by {
            assert((s + t)[j] == s[j]);
        }
    }
    let k = choose|k: int| is_first_final(s + t, k);
    assert(is_first_final(s + t, k));
    if k < i {
        assert(!is_final_byte((s + t)[k]));
    } else if i < k {
        assert(!is_final_byte((s + t)[i]));
    }
}

/// Draining with `force` leaves nothing buffered.
pub proof fn lemma_forced_drain_empties(b: Seq<u8>, pixel_mouse: bool, cell_w: u32, cell_h: u32)
    ensures
        drain_spec(b, true, pixel_mouse, cell_w, cell_h).1.len() == 0,
    decreases b.len(),
{
    if b.len() > 0 {
        lemma_step_done_len(b, pixel_mouse, cell_w, cell_h);
        match step_spec(b, pixel_mouse, cell_w, cell_h) {
            StepView::Done(n, _) => {
                lemma_forced_drain_empties(b.skip(n as int), pixel_mouse, cell_w, cell_h);
            },
            StepView::Incomplete => {},
        }
    }
}

/// A finished step consumes at least one byte and no more than it has.
pub proof fn lemma_step_done_len(b: Seq<u8>, pixel_mouse: bool, cell_w: u32, cell_h: u32)
    requires
        b.len() > 0,
    ensures
        step_spec(b, pixel_mouse, cell_w, cell_h) matches StepView::Done(n, _) ==> 0 < n <= b.len(),
{
    reveal(step_spec);
    let body = b.skip(2);
    if b[0] == ESC && b.len() >= 2 {
        if b[1] == 0x5b {
            lemma_first_final_facts(body);
            if let Some(fin_idx) = first_final(body) {
                let total = 2 + fin_idx + 1;
                let rest = b.skip(total);
                lemma_find_pat_facts(rest, paste_end_bytes());
            }
        } else if b[1] == 0x5f || b[1] == 0x5d || b[1] == 0x50 || b[1] == 0x5e {
            lemma_find_pat_facts(body, st_bytes());
            lemma_first_index_facts(body, 0x07u8);
        }
    }
}

/// Decoding is prefix stable: a step that finishes on `s` finishes the same
/// way on any longer input that starts with `s`.
#[verifier::rlimit(40)]
pub proof fn lemma_step_extend(s: Seq<u8>, t: Seq<u8>, pixel_mouse: bool, cell_w: u32, cell_h: u32)
    requires
        s.len() > 0,
        step_spec(s, pixel_mouse, cell_w, cell_h) is Done,
    ensures
        step_spec(s + t, pixel_mouse, cell_w, cell_h) == step_spec(s, pixel_mouse, cell_w, cell_h),
{
    reveal(step_spec);
    let st = s + t;
    assert(st[0] == s[0]);
    if s[0] != ESC {
        let need = utf8_len(s[0]);
        if s.len() >= need {
            assert(st.take(need) =~= s.take(need));
        }
    } else if s.len() >= 2 {
        assert(st[1] == s[1]);
        let body = s.skip(2);
        assert(st.skip(2) =~= body + t);
        if s[1] == 0x5b {
            lemma_first_final_facts(body);
            lemma_first_final_extend(body, t);
            let fin_idx = first_final(body)->0;
            let total = 2 + fin_idx + 1;
            assert((body + t)[fin_idx] == body[fin_idx]);
            assert((body + t).take(fin_idx) =~= body.take(fin_idx));
            assert(st.take(total) =~= s.take(total));
            let rest = s.skip(total);
            assert(st.skip(total) =~= rest + t);
            if body[fin_idx] == 0x7e && body.take(fin_idx) == seq![0x32u8, 0x30, 0x30] {
                lemma_find_pat_facts(rest, paste_end_bytes());
                lemma_find_pat_extend(rest, t, paste_end_bytes());
                let end = find_pat(rest, paste_end_bytes())->0;
                assert((rest + t).take(end) =~= rest.take(end));
            }
        } else if s[1] == 0x4f {
            assert(st[2] == s[2]);
            assert(st.take(3) =~= s.take(3));
        } else if s[1] == 0x5f || s[1] == 0x5d || s[1] == 0x50 || s[1] == 0x5e {
            let bt = body + t;
            lemma_find_pat_facts(body, st_bytes());
            lemma_find_pat_facts(bt, st_bytes());
            lemma_first_index_facts(body, 0x07u8);
            lemma_first_index_facts(bt, 0x07u8);
            if find_pat(body, st_bytes()) is Some {
                lemma_find_pat_extend(body, t, st_bytes());
            } else if find_pat(bt, st_bytes()) is Some {
                let k = find_pat(bt, st_bytes())->0;
                if k + 2 <= body.len() {
                    assert(bt.subrange(k, k + 2) =~= body.subrange(k, k + 2));
                    assert(occurs_at(body, st_bytes(), k));
                }
            }
            if s[1] == 0x5d {
                if first_index_of(body, 0x07u8) is Some {
                    lemma_first_index_extend(body, t, 0x07u8);
                } else if first_index_of(bt, 0x07u8) is Some {
                    let k = first_index_of(bt, 0x07u8)->0;
                    if k < body.len() {
                        assert(bt[k] == body[k]);
                    }
                }
            }
        } else if s[1] >= 0x80 && s[1] != ESC {
            let need = utf8_len(s[1]);
            if s.len() >= 1 + need {
                assert(st.subrange(1, 1 + need) =~= s.subrange(1, 1 + need));
                assert(st.take(1 + need) =~= s.take(1 + need));
            }
        }
    }
}

/// Feeding bytes in two pieces decodes the same events and leaves the same
/// bytes pending as feeding them at once: `feed(s)` then `feed(t)` is
/// `feed(s + t)`.
pub proof fn lemma_feed_in_pieces(s: Seq<u8>, t: Seq<u8>, pixel_mouse: bool, cell_w: u32, cell_h: u32)
    ensures
        ({
            let (e1, r1) = drain_spec(s, false, pixel_mouse, cell_w, cell_h);
            let (e2, r2) = drain_spec(r1 + t, false, pixel_mouse, cell_w, cell_h);
            let (e, r) = drain_spec(s + t, false, pixel_mouse, cell_w, cell_h);
            e1 + e2 == e && r2 == r
        }),
    decreases s.len(),
{
    if s.len() == 0 {
        assert(s + t =~= t);
        assert(Seq::<u8>::empty() + t =~= t);
        let e = drain_spec(t, false, pixel_mouse, cell_w, cell_h).0;
        assert(Seq::<EventView>::empty() + e =~= e);
    } else {
        lemma_step_done_len(s, pixel_mouse, cell_w, cell_h);
        match step_spec(s, pixel_mouse, cell_w, cell_h) {
            StepView::Done(n, ev) => {
                lemma_step_extend(s, t, pixel_mouse, cell_w, cell_h);
                assert((s + t).skip(n as int) =~= s.skip(n as int) + t);
                lemma_feed_in_pieces(s.skip(n as int), t, pixel_mouse, cell_w, cell_h);
                let (e1, r1) = drain_spec(s.skip(n as int), false, pixel_mouse, cell_w, cell_h);
                let (e2, r2) = drain_spec(r1 + t, false, pixel_mouse, cell_w, cell_h);
                assert(opt_seq(ev) + e1 + e2 =~= opt_seq(ev) + (e1 + e2));
            },
            StepView::Incomplete => {
                let e = drain_spec(s + t, false, pixel_mouse, cell_w, cell_h).0;
                assert(Seq::<EventView>::empty() + e =~= e);
            },
        }
    }
}

/// The two decimal digits of `n`, as bytes.
pub open spec fn two_digits(n: int) -> Seq<u8> {
    seq![(0x30 + n / 10) as u8, (0x30 + n % 10) as u8]
}

/// The numbers of the function keys F1 to F12 in their `CSI n ~` form, in
/// order: 11 to 15, 17 to 21, 23 and 24.
pub open spec fn function_key_codes() -> Seq<int> {
    seq![11, 12, 13, 14, 15, 17, 18, 19, 20, 21, 23, 24]
}

proof fn lemma_two_digits(n: int)
    requires
        10 <= n <= 99,
    ensures
        split_seq(two_digits(n), 0x3bu8) == seq![two_digits(n)],
        parse_u32(two_digits(n)) == Some(n as u32),
{
    let p = two_digits(n);
    lemma_first_index_facts(p, 0x3bu8);
    if first_index_of(p, 0x3bu8) is Some {
        let i = first_index_of(p, 0x3bu8)->Some_0;
        assert(p[i] == 0x3bu8);
    }
    assert(number_digits(p) == p);
    assert(p.drop_last() =~= seq![(0x30 + n / 10) as u8]);
    let q = p.drop_last();
    assert(q.drop_last() =~= Seq::<u8>::empty());
    assert(decimal_value(q.drop_last()) == 0);
    assert(q.last() == (0x30 + n / 10) as u8);
    assert(decimal_value(q) == decimal_value(q.drop_last()) * 10 + (q.last() - 0x30) as nat);
    assert(decimal_value(q) == n / 10);
    assert(decimal_value(p) == n);
}

/// `CSI n ~` with the twelve function key numbers, in order, is F1 to F12,
/// each without modifiers: ESC [ 17 ~ is F6 and ESC [ 21 ~ is F10.
pub proof fn lemma_tilde_function_keys(pixel_mouse: bool, cell_w: u32, cell_h: u32)
    ensures
        forall|i: int|
            0 <= i < 12 ==> csi_event(0x7e, two_digits(#[trigger] function_key_codes()[i]), pixel_mouse, cell_w, cell_h)
                == Some(key_press(Key::F((i + 1) as u8), no_mods(), None)),
{
    assert forall|i: int| 0 <= i < 12 implies csi_event(
        0x7e,
        two_digits(#[trigger] function_key_codes()[i]),
        pixel_mouse,
        cell_w,
        cell_h,
    ) == Some(key_press(Key::F((i + 1) as u8), no_mods(), None)) by {
        let n = function_key_codes()[i];
        lemma_two_digits(n);
    }
}

} // verus!
