//! The terminal session: the sequences that enter and leave the alternate
//! screen and input modes, and the bookkeeping that makes restoring the
//! terminal safe to repeat.
use vstd::prelude::*;

use crate::term::kitty::{delete_all_bytes, encode_delete_all};
use crate::text::append_bytes;

verus! {

/// The mode toggles of a session in the order they are switched on: each
/// entry holds the CSI parameters that set the mode and those that reset
/// it. Alternate screen, hidden cursor, focus events, any-motion mouse
/// tracking, SGR mouse, SGR pixel mouse, bracketed paste, kitty keyboard
/// flags 15.
pub open spec fn toggles() -> Seq<(Seq<u8>, Seq<u8>)> {
    seq![
        (seq![0x3fu8, 0x31, 0x30, 0x34, 0x39, 0x68], seq![0x3f, 0x31, 0x30, 0x34, 0x39, 0x6c]),
        (seq![0x3f, 0x32, 0x35, 0x6c], seq![0x3f, 0x32, 0x35, 0x68]),
        (seq![0x3f, 0x31, 0x30, 0x30, 0x34, 0x68], seq![0x3f, 0x31, 0x30, 0x30, 0x34, 0x6c]),
        (seq![0x3f, 0x31, 0x30, 0x30, 0x33, 0x68], seq![0x3f, 0x31, 0x30, 0x30, 0x33, 0x6c]),
        (seq![0x3f, 0x31, 0x30, 0x30, 0x36, 0x68], seq![0x3f, 0x31, 0x30, 0x30, 0x36, 0x6c]),
        (seq![0x3f, 0x31, 0x30, 0x31, 0x36, 0x68], seq![0x3f, 0x31, 0x30, 0x31, 0x36, 0x6c]),
        (seq![0x3f, 0x32, 0x30, 0x30, 0x34, 0x68], seq![0x3f, 0x32, 0x30, 0x30, 0x34, 0x6c]),
        (seq![0x3e, 0x31, 0x35, 0x75], seq![0x3c, 0x75]),
    ]
}

pub open spec fn csi(p: Seq<u8>) -> Seq<u8> {
    seq![0x1bu8, 0x5b] + p
}

/// The set sequences of the first `n` toggles, in order.
pub open spec fn sets_in_order(t: Seq<(Seq<u8>, Seq<u8>)>, n: nat) -> Seq<u8>
    decreases n,
{
    if n == 0 || n > t.len() {
        seq![]
    } else {
        sets_in_order(t, (n - 1) as nat) + csi(t[n - 1].0)
    }
}

/// The reset sequences of the first `n` toggles, last one first.
pub open spec fn resets_reversed(t: Seq<(Seq<u8>, Seq<u8>)>, n: nat) -> Seq<u8>
    decreases n,
{
    if n == 0 || n > t.len() {
        seq![]
    } else {
        csi(t[n - 1].1) + resets_reversed(t, (n - 1) as nat)
    }
}

/// The bytes written when a session starts.
pub open spec fn enter_bytes() -> Seq<u8> {
    seq![0x1bu8, 0x5b, 0x3f, 0x31, 0x30, 0x34, 0x39, 0x68, 0x1b, 0x5b, 0x3f, 0x32, 0x35, 0x6c, 0x1b, 0x5b, 0x3f, 0x31, 0x30, 0x30, 0x34, 0x68, 0x1b, 0x5b, 0x3f, 0x31, 0x30, 0x30, 0x33, 0x68, 0x1b, 0x5b, 0x3f, 0x31, 0x30, 0x30, 0x36, 0x68, 0x1b, 0x5b, 0x3f, 0x31, 0x30, 0x31, 0x36, 0x68, 0x1b, 0x5b, 0x3f, 0x32, 0x30, 0x30, 0x34, 0x68, 0x1b, 0x5b, 0x3e, 0x31, 0x35, 0x75]
}

/// The bytes written when a session ends: delete every image placement,
/// then the resets.
pub open spec fn leave_bytes() -> Seq<u8> {
    delete_all_bytes() + seq![0x1bu8, 0x5b, 0x3c, 0x75, 0x1b, 0x5b, 0x3f, 0x32, 0x30, 0x30, 0x34, 0x6c, 0x1b, 0x5b, 0x3f, 0x31, 0x30, 0x31, 0x36, 0x6c, 0x1b, 0x5b, 0x3f, 0x31, 0x30, 0x30, 0x36, 0x6c, 0x1b, 0x5b, 0x3f, 0x31, 0x30, 0x30, 0x33, 0x6c, 0x1b, 0x5b, 0x3f, 0x31, 0x30, 0x30, 0x34, 0x6c, 0x1b, 0x5b, 0x3f, 0x32, 0x35, 0x68, 0x1b, 0x5b, 0x3f, 0x31, 0x30, 0x34, 0x39, 0x6c]
}

/// Leaving undoes entering: the session starts by setting each mode in
/// turn and ends by deleting all images and resetting the same modes in
/// the opposite order.
pub proof fn lemma_leave_reverses_enter()
    ensures
        enter_bytes() == sets_in_order(toggles(), toggles().len()),
        leave_bytes() == delete_all_bytes() + resets_reversed(toggles(), toggles().len()),
{
    reveal_with_fuel(sets_in_order, 9);
    reveal_with_fuel(resets_reversed, 9);
    assert(enter_bytes() =~= sets_in_order(toggles(), toggles().len()));
    assert(leave_bytes() =~= delete_all_bytes() + resets_reversed(toggles(), toggles().len()));
}

/// The sequences sent when entering the session.
pub fn enter_seq() -> (out: Vec<u8>)
    ensures
        out@ == enter_bytes(),
{
    let out: Vec<u8> = vec![0x1b, 0x5b, 0x3f, 0x31, 0x30, 0x34, 0x39, 0x68, 0x1b, 0x5b, 0x3f, 0x32, 0x35, 0x6c, 0x1b, 0x5b, 0x3f, 0x31, 0x30, 0x30, 0x34, 0x68, 0x1b, 0x5b, 0x3f, 0x31, 0x30, 0x30, 0x33, 0x68, 0x1b, 0x5b, 0x3f, 0x31, 0x30, 0x30, 0x36, 0x68, 0x1b, 0x5b, 0x3f, 0x31, 0x30, 0x31, 0x36, 0x68, 0x1b, 0x5b, 0x3f, 0x32, 0x30, 0x30, 0x34, 0x68, 0x1b, 0x5b, 0x3e, 0x31, 0x35, 0x75];
    assert(out@ =~= enter_bytes());
    out
}

/// The sequences sent when leaving, reverse order, preceded by the
/// delete-all graphics command so nothing leaks into the main screen.
pub fn leave_seq() -> (out: Vec<u8>)
    ensures
        out@ == leave_bytes(),
{
    let mut out: Vec<u8> = Vec::new();
    encode_delete_all(&mut out);
    let tail: Vec<u8> = vec![0x1b, 0x5b, 0x3c, 0x75, 0x1b, 0x5b, 0x3f, 0x32, 0x30, 0x30, 0x34, 0x6c, 0x1b, 0x5b, 0x3f, 0x31, 0x30, 0x31, 0x36, 0x6c, 0x1b, 0x5b, 0x3f, 0x31, 0x30, 0x30, 0x36, 0x6c, 0x1b, 0x5b, 0x3f, 0x31, 0x30, 0x30, 0x33, 0x6c, 0x1b, 0x5b, 0x3f, 0x31, 0x30, 0x30, 0x34, 0x6c, 0x1b, 0x5b, 0x3f, 0x32, 0x35, 0x68, 0x1b, 0x5b, 0x3f, 0x31, 0x30, 0x34, 0x39, 0x6c];
    append_bytes(&mut out, tail.as_slice());
    assert(out@ =~= leave_bytes());
    out
}

/// What the process knows of the terminal: whether a full session (the
/// alternate screen and input modes) is active, and whether the settings
/// that raw mode replaced are saved for restoring.
pub struct TermState {
    in_session: bool,
    raw_saved: bool,
}

/// The mathematical value of [`TermState`].
pub ghost struct TermView {
    pub in_session: bool,
    pub raw_saved: bool,
}

impl View for TermState {
    type V = TermView;

    closed spec fn view(&self) -> TermView {
        TermView { in_session: self.in_session, raw_saved: self.raw_saved }
    }
}

/// Restoring from `s`: the state after, the bytes to write, and whether the
/// saved settings must be put back.
pub open spec fn restore_spec(s: TermView) -> (TermView, Seq<u8>, bool) {
    (
        TermView { in_session: false, raw_saved: false },
        if s.in_session { leave_bytes() } else { Seq::empty() },
        s.raw_saved,
    )
}

impl TermState {
    /// No session, nothing saved.
    pub fn new() -> (t: Self)
        ensures
            t@ == (TermView { in_session: false, raw_saved: false }),
    {
        TermState { in_session: false, raw_saved: false }
    }

    pub fn in_session(&self) -> (r: bool)
        ensures
            r == self@.in_session,
    {
        self.in_session
    }

    pub fn raw_saved(&self) -> (r: bool)
        ensures
            r == self@.raw_saved,
    {
        self.raw_saved
    }

    /// Raw mode was switched on. Returns true when the settings read before
    /// the switch are to be saved: only the first ones are, so restoring
    /// always goes back to the settings the process started with.
    pub fn enter_raw(&mut self) -> (save: bool)
        ensures
            save == !old(self)@.raw_saved,
            final(self)@ == (TermView { raw_saved: true, ..old(self)@ }),
    {
        let save = !self.raw_saved;
        self.raw_saved = true;
        save
    }

    /// The session sequences were written (see [`enter_seq`]).
    pub fn enter(&mut self)
        ensures
            final(self)@ == (TermView { in_session: true, ..old(self)@ }),
    {
        self.in_session = true;
    }

    /// Leave raw mode: returns true when the saved settings are to be put
    /// back, which forgets them.
    pub fn leave_raw_mode(&mut self) -> (restore: bool)
        ensures
            restore == old(self)@.raw_saved,
            final(self)@ == (TermView { raw_saved: false, ..old(self)@ }),
    {
        let restore = self.raw_saved;
        self.raw_saved = false;
        restore
    }

    /// Restore everything: leave the alternate screen and modes if a
    /// session is active (the bytes are appended to `out`), then leave raw
    /// mode. Returns true when the saved settings are to be put back.
    pub fn restore_terminal(&mut self, out: &mut Vec<u8>) -> (restore: bool)
        ensures
            final(self)@ == restore_spec(old(self)@).0,
            final(out)@ == old(out)@ + restore_spec(old(self)@).1,
            restore == restore_spec(old(self)@).2,
    {
        if self.in_session {
            self.in_session = false;
            let leave = leave_seq();
            append_bytes(out, leave.as_slice());
        } else {
            assert(out@ =~= out@ + Seq::<u8>::empty());
        }
        self.leave_raw_mode()
    }
}

/// Restoring is idempotent: once the terminal is restored, restoring again
/// writes nothing and puts nothing back.
pub proof fn lemma_restore_idempotent(s: TermView)
    ensures
        restore_spec(restore_spec(s).0) == (restore_spec(s).0, Seq::<u8>::empty(), false),
{
}

} // verus!
