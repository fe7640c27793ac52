//! The input side of the UI shell: terminal events become the UI toolkit's
//! events (pointer moves, buttons, wheel, keys with their modifiers, paste,
//! focus), queued for the next frame, and the terminal clipboard the UI
//! talks to (writes are collected and go out as OSC 52, reads give back the
//! last bracketed paste).
use vstd::prelude::*;

use crate::term::input::{Event, EventView, Key, Mods, MouseButton};
use crate::text::{chars_of, push_char};

verus! {

/// Text copied by the UI since the last frame, and the last paste.
#[derive(Debug)]
pub struct Clipboard {
    pub copied: Vec<String>,
    pub paste: Option<String>,
}

impl Default for Clipboard {
    fn default() -> (r: Self)
        ensures
            r.copied@.len() == 0,
            r.paste is None,
    {
        Clipboard { copied: Vec::new(), paste: None }
    }
}

impl Clipboard {
    /// What a read gets: the last bracketed paste.
    pub fn read(&self) -> (r: Option<String>)
        ensures
            match (r, self.paste) {
                (Some(a), Some(b)) => a@ == b@,
                (None, None) => true,
                _ => false,
            },
    {
        match &self.paste {
            Some(p) => Some(p.clone()),
            None => None,
        }
    }

    /// A write: the text is queued for the terminal.
    pub fn write(&mut self, contents: String)
        ensures
            final(self).copied@ == old(self).copied@.push(contents),
            final(self).paste == old(self).paste,
    {
        self.copied.push(contents);
    }
}

/// The UI toolkit's modifier flags. `command` is the toolkit's platform
/// binding for copy, paste, select all and friends.
#[derive(Debug, Clone, Copy, PartialEq, Eq, Structural)]
pub struct UiMods {
    pub shift: bool,
    pub ctrl: bool,
    pub alt: bool,
    pub logo: bool,
    pub command: bool,
}

/// Terminal modifiers as the toolkit's. A terminal only ever delivers Ctrl
/// (Cmd belongs to the terminal), so Ctrl also sets the command flag.
pub open spec fn ui_mods(m: Mods) -> UiMods {
    UiMods { shift: m.shift, ctrl: m.ctrl, alt: m.alt, logo: m.sup, command: m.ctrl }
}

/// The command flag alone, what a paste is delivered with.
pub open spec fn command_only() -> UiMods {
    UiMods { shift: false, ctrl: false, alt: false, logo: false, command: true }
}

/// Terminal modifiers as the toolkit's modifier flags.
pub fn modifiers(m: Mods) -> (r: UiMods)
    ensures
        r == ui_mods(m),
{
    UiMods { shift: m.shift, ctrl: m.ctrl, alt: m.alt, logo: m.sup, command: m.ctrl }
}

/// The toolkit's named keys that terminal keys map to.
#[derive(Debug, Clone, Copy, PartialEq, Eq, Structural)]
pub enum NamedKey {
    Enter,
    Tab,
    Escape,
    Backspace,
    Insert,
    Delete,
    ArrowLeft,
    ArrowRight,
    ArrowUp,
    ArrowDown,
    PageUp,
    PageDown,
    Home,
    End,
    /// F1 to F12.
    F(u8),
    Space,
}

/// A key as the toolkit sees it: named, or the text of a character key.
#[derive(Debug, Clone, PartialEq, Eq)]
pub enum UiKey {
    Named(NamedKey),
    Character(String),
}

pub ghost enum UiKeyView {
    Named(NamedKey),
    Character(Seq<char>),
}

impl View for UiKey {
    type V = UiKeyView;

    open spec fn view(&self) -> UiKeyView {
        match self {
            UiKey::Named(n) => UiKeyView::Named(*n),
            UiKey::Character(s) => UiKeyView::Character(s@),
        }
    }
}

/// A control character (general category Cc): U+0000 to U+001F and U+007F
/// to U+009F.
pub open spec fn is_control(c: char) -> bool {
    (c as u32) < 0x20 || (0x7f <= (c as u32) && (c as u32) < 0xa0)
}

pub open spec fn has_control(s: Seq<char>) -> bool {
    exists|i: int| 0 <= i < s.len() && is_control(#[trigger] s[i])
}

/// The toolkit key for a terminal key and the text it produced. A
/// character key carries its text when that is one printable character
/// (the shifted character), else the character itself; space is the named
/// key; F-keys past F12 and unmapped keys have none.
pub open spec fn ui_key_spec(k: Key, text: Option<Seq<char>>) -> Option<UiKeyView> {
    match k {
        Key::Enter => Some(UiKeyView::Named(NamedKey::Enter)),
        Key::Tab => Some(UiKeyView::Named(NamedKey::Tab)),
        Key::Escape => Some(UiKeyView::Named(NamedKey::Escape)),
        Key::Backspace => Some(UiKeyView::Named(NamedKey::Backspace)),
        Key::Insert => Some(UiKeyView::Named(NamedKey::Insert)),
        Key::Delete => Some(UiKeyView::Named(NamedKey::Delete)),
        Key::Left => Some(UiKeyView::Named(NamedKey::ArrowLeft)),
        Key::Right => Some(UiKeyView::Named(NamedKey::ArrowRight)),
        Key::Up => Some(UiKeyView::Named(NamedKey::ArrowUp)),
        Key::Down => Some(UiKeyView::Named(NamedKey::ArrowDown)),
        Key::PageUp => Some(UiKeyView::Named(NamedKey::PageUp)),
        Key::PageDown => Some(UiKeyView::Named(NamedKey::PageDown)),
        Key::Home => Some(UiKeyView::Named(NamedKey::Home)),
        Key::End => Some(UiKeyView::Named(NamedKey::End)),
        Key::F(n) => if 1 <= n <= 12 {
            Some(UiKeyView::Named(NamedKey::F(n)))
        } else {
            None
        },
        Key::Char(c) => if c == ' ' {
            Some(UiKeyView::Named(NamedKey::Space))
        } else {
            match text {
                Some(t) => if t.len() == 1 && !has_control(t) {
                    Some(UiKeyView::Character(t))
                } else {
                    Some(UiKeyView::Character(seq![c]))
                },
                None => Some(UiKeyView::Character(seq![c])),
            }
        },
        Key::Other(_) => None,
    }
}

fn has_control_exec(s: &[char]) -> (r: bool)
    ensures
        r == has_control(s@),
{
    let mut i: usize = 0;
    while i < s.len()
        invariant
            i <= s.len(),
            forall|j: int| 0 <= j < i ==> !is_control(#[trigger] s@[j]),
        decreases s.len() - i,
    {
        let c = s[i];
        if (c as u32) < 0x20 || (0x7f <= (c as u32) && (c as u32) < 0xa0) {
            return true;
        }
        i = i + 1;
    }
    false
}

fn char_string(c: char) -> (r: String)
    ensures
        r@ == seq![c],
{
    let mut s = String::new();
    push_char(&mut s, c);
    s
}

/// The toolkit key for a terminal key and the text it produced.
pub fn ui_key(k: Key, text: &Option<String>) -> (r: Option<UiKey>)
    ensures
        match r {
            Some(u) => ui_key_spec(k, opt_text(*text)) == Some(u@),
            None => ui_key_spec(k, opt_text(*text)) is None,
        },
{
    match k {
        Key::Enter => Some(UiKey::Named(NamedKey::Enter)),
        Key::Tab => Some(UiKey::Named(NamedKey::Tab)),
        Key::Escape => Some(UiKey::Named(NamedKey::Escape)),
        Key::Backspace => Some(UiKey::Named(NamedKey::Backspace)),
        Key::Insert => Some(UiKey::Named(NamedKey::Insert)),
        Key::Delete => Some(UiKey::Named(NamedKey::Delete)),
        Key::Left => Some(UiKey::Named(NamedKey::ArrowLeft)),
        Key::Right => Some(UiKey::Named(NamedKey::ArrowRight)),
        Key::Up => Some(UiKey::Named(NamedKey::ArrowUp)),
        Key::Down => Some(UiKey::Named(NamedKey::ArrowDown)),
        Key::PageUp => Some(UiKey::Named(NamedKey::PageUp)),
        Key::PageDown => Some(UiKey::Named(NamedKey::PageDown)),
        Key::Home => Some(UiKey::Named(NamedKey::Home)),
        Key::End => Some(UiKey::Named(NamedKey::End)),
        Key::F(n) => if 1 <= n && n <= 12 {
            Some(UiKey::Named(NamedKey::F(n)))
        } else {
            None
        },
        Key::Char(c) => if c == ' ' {
            Some(UiKey::Named(NamedKey::Space))
        } else {
            match text {
                Some(t) => {
                    let v = chars_of(t.as_str());
                    if v.len() == 1 && !has_control_exec(v.as_slice()) {
                        Some(UiKey::Character(t.clone()))
                    } else {
                        Some(UiKey::Character(char_string(c)))
                    }
                },
                None => Some(UiKey::Character(char_string(c))),
            }
        },
        Key::Other(_) => None,
    }
}

pub open spec fn opt_text(t: Option<String>) -> Option<Seq<char>> {
    match t {
        Some(s) => Some(s@),
        None => None,
    }
}

/// An event for the toolkit. Pointer positions are in terminal pixels; the
/// renderer turns them into points.
#[derive(Debug, Clone, PartialEq, Eq)]
pub enum UiEvent {
    CursorMoved { x: i32, y: i32 },
    ButtonPressed(MouseButton),
    ButtonReleased(MouseButton),
    /// Scrolled by whole lines.
    WheelScrolled { dx: i32, dy: i32 },
    KeyPressed { key: UiKey, mods: UiMods, text: Option<String>, repeat: bool },
    KeyReleased { key: UiKey, mods: UiMods },
    ModifiersChanged(UiMods),
    Focused,
    Unfocused,
}

pub ghost enum UiEventView {
    CursorMoved { x: i32, y: i32 },
    ButtonPressed(MouseButton),
    ButtonReleased(MouseButton),
    WheelScrolled { dx: i32, dy: i32 },
    KeyPressed { key: UiKeyView, mods: UiMods, text: Option<Seq<char>>, repeat: bool },
    KeyReleased { key: UiKeyView, mods: UiMods },
    ModifiersChanged(UiMods),
    Focused,
    Unfocused,
}

impl View for UiEvent {
    type V = UiEventView;

    open spec fn view(&self) -> UiEventView {
        match self {
            UiEvent::CursorMoved { x, y } => UiEventView::CursorMoved { x: *x, y: *y },
            UiEvent::ButtonPressed(b) => UiEventView::ButtonPressed(*b),
            UiEvent::ButtonReleased(b) => UiEventView::ButtonReleased(*b),
            UiEvent::WheelScrolled { dx, dy } => UiEventView::WheelScrolled { dx: *dx, dy: *dy },
            UiEvent::KeyPressed { key, mods, text, repeat } => UiEventView::KeyPressed {
                key: key@,
                mods: *mods,
                text: opt_text(*text),
                repeat: *repeat,
            },
            UiEvent::KeyReleased { key, mods } => UiEventView::KeyReleased { key: key@, mods: *mods },
            UiEvent::ModifiersChanged(m) => UiEventView::ModifiersChanged(*m),
            UiEvent::Focused => UiEventView::Focused,
            UiEvent::Unfocused => UiEventView::Unfocused,
        }
    }
}

pub open spec fn ui_event_views(v: Seq<UiEvent>) -> Seq<UiEventView> {
    v.map_values(|e: UiEvent| e@)
}

/// What the shell remembers between events: the pointer position (in
/// pixels) and whether the scale changed since it was taken, the modifier
/// flags last sent, and the last paste.
pub ghost struct ShellState {
    pub cursor: Option<(i32, i32)>,
    pub rescaled: bool,
    pub mods: UiMods,
    pub paste: Option<Seq<char>>,
}

/// A pointer move: news only where the position differs from the one last
/// sent, or the scale changed since.
pub open spec fn move_step(st: ShellState, x: i32, y: i32) -> (ShellState, Seq<UiEventView>) {
    if !st.rescaled && st.cursor == Some((x, y)) {
        (st, seq![])
    } else {
        (ShellState { cursor: Some((x, y)), rescaled: false, ..st }, seq![UiEventView::CursorMoved { x, y }])
    }
}

/// New modifier flags: the widgets are told only when they changed.
pub open spec fn mods_step(st: ShellState, m: UiMods) -> (ShellState, Seq<UiEventView>) {
    if m != st.mods {
        (ShellState { mods: m, ..st }, seq![UiEventView::ModifiersChanged(m)])
    } else {
        (st, seq![])
    }
}

/// The text a key press carries: its text, unless Ctrl or Alt is held or
/// the text has a control character.
pub open spec fn press_text(mods: Mods, text: Option<Seq<char>>) -> Option<Seq<char>> {
    match text {
        Some(t) => if !mods.ctrl && !mods.alt && !has_control(t) {
            Some(t)
        } else {
            None
        },
        None => None,
    }
}

pub open spec fn paste_key() -> UiKeyView {
    UiKeyView::Character(seq!['v'])
}

/// What one terminal event does to the shell and the events it queues.
/// A plain pointer move takes the modifiers without telling the widgets; a
/// paste is handed to the focused editor through its own paste key, which
/// reads the clipboard, with the command flag announced before and the
/// held modifiers restored after.
pub open spec fn push_spec(st: ShellState, ev: EventView) -> (ShellState, Seq<UiEventView>) {
    match ev {
        EventView::MouseMove { x, y, mods } => move_step(ShellState { mods: ui_mods(mods), ..st }, x, y),
        EventView::MouseButton { button, pressed, x, y, mods } => {
            let a = mods_step(st, ui_mods(mods));
            let b = move_step(a.0, x, y);
            let e = if pressed {
                UiEventView::ButtonPressed(button)
            } else {
                UiEventView::ButtonReleased(button)
            };
            (b.0, a.1 + b.1 + seq![e])
        },
        EventView::Wheel { dx, dy, x, y, mods } => {
            let a = mods_step(st, ui_mods(mods));
            let b = move_step(a.0, x, y);
            (b.0, a.1 + b.1 + seq![UiEventView::WheelScrolled { dx, dy }])
        },
        EventView::Key { key, mods, text, pressed, repeat } => {
            let a = mods_step(st, ui_mods(mods));
            match ui_key_spec(key, text) {
                None => a,
                Some(k) => {
                    let e = if pressed {
                        UiEventView::KeyPressed { key: k, mods: a.0.mods, text: press_text(mods, text), repeat }
                    } else {
                        UiEventView::KeyReleased { key: k, mods: a.0.mods }
                    };
                    (a.0, a.1 + seq![e])
                },
            }
        },
        EventView::Paste(s) => (
            ShellState { paste: Some(s), ..st },
            seq![
                UiEventView::ModifiersChanged(command_only()),
                UiEventView::KeyPressed { key: paste_key(), mods: command_only(), text: None, repeat: false },
                UiEventView::KeyReleased { key: paste_key(), mods: command_only() },
                UiEventView::ModifiersChanged(st.mods),
            ],
        ),
        EventView::Focus(f) => (st, seq![if f {
            UiEventView::Focused
        } else {
            UiEventView::Unfocused
        }]),
        EventView::Unknown(_) => (st, seq![]),
    }
}

/// The input side of the UI shell: the events queued for the next frame,
/// what it remembers between events, and the clipboard.
#[derive(Debug)]
pub struct Shell {
    pub cursor: Option<(i32, i32)>,
    pub rescaled: bool,
    pub mods: UiMods,
    pub events: Vec<UiEvent>,
    pub clipboard: Clipboard,
}

impl Shell {
    pub open spec fn state(&self) -> ShellState {
        ShellState {
            cursor: self.cursor,
            rescaled: self.rescaled,
            mods: self.mods,
            paste: opt_text(self.clipboard.paste),
        }
    }

    /// A shell with no pointer position, no modifiers, nothing queued.
    pub fn new() -> (r: Shell)
        ensures
            r.state() == (ShellState {
                cursor: None,
                rescaled: false,
                mods: ui_mods(Mods { shift: false, alt: false, ctrl: false, sup: false }),
                paste: None,
            }),
            r.events@.len() == 0,
            r.clipboard.copied@.len() == 0,
    {
        Shell {
            cursor: None,
            rescaled: false,
            mods: UiMods { shift: false, ctrl: false, alt: false, logo: false, command: false },
            events: Vec::new(),
            clipboard: Clipboard::default(),
        }
    }

    /// The scale from pixels to points changed: the next pointer position
    /// is news even at the same pixel.
    pub fn rescaled(&mut self)
        ensures
            final(self).state() == (ShellState { rescaled: true, ..old(self).state() }),
            final(self).events@ == old(self).events@,
            final(self).clipboard.copied@ == old(self).clipboard.copied@,
    {
        self.rescaled = true;
    }

    /// The modifier flags last sent to the widgets.
    pub fn modifiers(&self) -> (r: UiMods)
        ensures
            r == self.state().mods,
    {
        self.mods
    }

    /// The pointer position last sent, in pixels, if any.
    pub fn cursor(&self) -> (r: Option<(i32, i32)>)
        ensures
            r == self.state().cursor,
    {
        self.cursor
    }

    fn set_modifiers(&mut self, m: UiMods)
        ensures
            final(self).state() == mods_step(old(self).state(), m).0,
            ui_event_views(final(self).events@) == ui_event_views(old(self).events@) + mods_step(old(self).state(), m).1,
            final(self).clipboard.copied@ == old(self).clipboard.copied@,
    {
        if m != self.mods {
            self.mods = m;
            self.events.push(UiEvent::ModifiersChanged(m));
        }
        proof {
            assert(ui_event_views(final(self).events@) =~= ui_event_views(old(self).events@) + mods_step(old(self).state(), m).1);
        }
    }

    fn move_to(&mut self, x: i32, y: i32)
        ensures
            final(self).state() == move_step(old(self).state(), x, y).0,
            ui_event_views(final(self).events@) == ui_event_views(old(self).events@) + move_step(old(self).state(), x, y).1,
            final(self).clipboard.copied@ == old(self).clipboard.copied@,
    {
        let same = match self.cursor {
            Some((cx, cy)) => cx == x && cy == y,
            None => false,
        };
        if self.rescaled || !same {
            self.cursor = Some((x, y));
            self.rescaled = false;
            self.events.push(UiEvent::CursorMoved { x, y });
        }
        proof {
            assert(ui_event_views(final(self).events@) =~= ui_event_views(old(self).events@) + move_step(old(self).state(), x, y).1);
        }
    }

    fn queue(&mut self, e: UiEvent)
        ensures
            final(self).state() == old(self).state(),
            ui_event_views(final(self).events@) == ui_event_views(old(self).events@) + seq![e@],
            final(self).clipboard.copied@ == old(self).clipboard.copied@,
    {
        self.events.push(e);
        proof {
            assert(ui_event_views(final(self).events@) =~= ui_event_views(old(self).events@) + seq![e@]);
        }
    }

    /// Queue a terminal event for the next frame.
    pub fn push(&mut self, ev: &Event)
        ensures
            final(self).state() == push_spec(old(self).state(), ev@).0,
            ui_event_views(final(self).events@) == ui_event_views(old(self).events@) + push_spec(old(self).state(), ev@).1,
            final(self).clipboard.copied@ == old(self).clipboard.copied@,
    {
        let ghost st0 = self.state();
        let ghost ev0 = ui_event_views(self.events@);
        match ev {
            Event::MouseMove { x, y, mods } => {
                self.mods = modifiers(*mods);
                self.move_to(*x, *y);
            },
            Event::MouseButton { button, pressed, x, y, mods } => {
                self.set_modifiers(modifiers(*mods));
                self.move_to(*x, *y);
                if *pressed {
                    self.queue(UiEvent::ButtonPressed(*button));
                } else {
                    self.queue(UiEvent::ButtonReleased(*button));
                }
                proof {
                    let a = mods_step(st0, ui_mods(*mods));
                    let b = move_step(a.0, *x, *y);
                    assert(ui_event_views(self.events@) =~= ev0 + (a.1 + b.1 + seq![push_spec(st0, ev@).1.last()]));
                }
            },
            Event::Wheel { dx, dy, x, y, mods } => {
                self.set_modifiers(modifiers(*mods));
                self.move_to(*x, *y);
                self.queue(UiEvent::WheelScrolled { dx: *dx, dy: *dy });
                proof {
                    let a = mods_step(st0, ui_mods(*mods));
                    let b = move_step(a.0, *x, *y);
                    assert(ui_event_views(self.events@) =~= ev0 + (a.1 + b.1 + seq![UiEventView::WheelScrolled { dx: *dx, dy: *dy }]));
                }
            },
            Event::Key { key, mods, text, pressed, repeat } => {
                self.set_modifiers(modifiers(*mods));
                let ghost ev1 = ui_event_views(self.events@);
                match ui_key(*key, text) {
                    None => {},
                    Some(k) => {
                        if *pressed {
                            let t = match text {
                                Some(t) => {
                                    let v = chars_of(t.as_str());
                                    if !mods.ctrl && !mods.alt && !has_control_exec(v.as_slice()) {
                                        Some(t.clone())
                                    } else {
                                        None
                                    }
                                },
                                None => None,
                            };
                            let m = self.mods;
                            self.queue(UiEvent::KeyPressed { key: k, mods: m, text: t, repeat: *repeat });
                        } else {
                            let m = self.mods;
                            self.queue(UiEvent::KeyReleased { key: k, mods: m });
                        }
                        proof {
                            assert(ui_event_views(self.events@) =~= ev1 + seq![push_spec(st0, ev@).1.last()]);
                            assert(push_spec(st0, ev@).1 =~= mods_step(st0, ui_mods(*mods)).1 + seq![push_spec(st0, ev@).1.last()]);
                        }
                    },
                }
            },
            Event::Paste(s) => {
                self.clipboard.paste = Some(s.clone());
                let held = self.mods;
                let cmd = UiMods { shift: false, ctrl: false, alt: false, logo: false, command: true };
                let k1 = "v".to_owned();
                let k2 = "v".to_owned();
                proof {
                    reveal_strlit("v");
                    assert(k1@ =~= seq!['v']);
                    assert(k2@ =~= seq!['v']);
                }
                self.queue(UiEvent::ModifiersChanged(cmd));
                self.queue(UiEvent::KeyPressed { key: UiKey::Character(k1), mods: cmd, text: None, repeat: false });
                self.queue(UiEvent::KeyReleased { key: UiKey::Character(k2), mods: cmd });
                self.queue(UiEvent::ModifiersChanged(held));
                proof {
                    let p = push_spec(st0, ev@).1;
                    let q = ui_event_views(self.events@);
                    assert(q.len() == ev0.len() + 4);
                    assert(q[ev0.len() as int] == p[0]);
                    assert(q[ev0.len() as int + 1] == p[1]);
                    assert(q[ev0.len() as int + 2] == p[2]);
                    assert(q[ev0.len() as int + 3] == p[3]);
                    assert(q =~= ev0 + p);
                }
            },
            Event::Focus(f) => {
                if *f {
                    self.queue(UiEvent::Focused);
                } else {
                    self.queue(UiEvent::Unfocused);
                }
            },
            Event::Unknown(_) => {
                proof {
                    assert(ui_event_views(self.events@) =~= ev0 + seq![]);
                }
            },
        }
    }
}

/// A pointer that moves to where it already is, with the same modifiers,
/// queues nothing and changes nothing; so does a button or wheel event's
/// modifier update when the modifiers did not change.
pub proof fn lemma_repeated_move_is_quiet(st: ShellState, x: i32, y: i32, mods: Mods)
    ensures
        ({
            let ev = EventView::MouseMove { x, y, mods };
            let s1 = push_spec(st, ev).0;
            push_spec(s1, ev).0 == s1 && push_spec(s1, ev).1 == Seq::<UiEventView>::empty()
        }),
        mods_step(mods_step(st, ui_mods(mods)).0, ui_mods(mods)).1 == Seq::<UiEventView>::empty(),
{
    let ev = EventView::MouseMove { x, y, mods };
    let s1 = push_spec(st, ev).0;
    assert(s1.cursor == Some((x, y)) && !s1.rescaled && s1.mods == ui_mods(mods));
    assert(push_spec(s1, ev).1 =~= Seq::<UiEventView>::empty());
}

/// A paste leaves the held modifiers as they were and ends by telling the
/// widgets so.
pub proof fn lemma_paste_restores_modifiers(st: ShellState, text: Seq<char>)
    ensures
        push_spec(st, EventView::Paste(text)).0.mods == st.mods,
        push_spec(st, EventView::Paste(text)).1.last() == UiEventView::ModifiersChanged(st.mods),
        push_spec(st, EventView::Paste(text)).0.paste == Some(text),
{
}

} // verus!
