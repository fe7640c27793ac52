//! Terminal capability probing: the replies a terminal sends to the probe
//! sequences, decoded into [`Capabilities`].
use vstd::prelude::*;
use vstd::slice::slice_subrange;
use vstd::utf8::valid_utf8;

use crate::seqs::{
    find_bytes, find_char, find_pat, first_index_of, lemma_find_pat_facts, lemma_first_index_facts,
    lemma_split_seq_len, parse_num, parse_u32, split_bytes, split_chars, split_seq,
};
use crate::term::input::{find_final, first_final, is_first_final};
use crate::term::kitty::{
    encode_query_probe, encode_shm_probe, query_probe_bytes, shm_probe_bytes, PROBE_IMAGE_ID,
    SHM_PROBE_IMAGE_ID,
};
use crate::git::repo::{hex_char, hex_text};
use crate::text::{
    ascii_chars, decimal, push_char, push_decimal_str, push_str,
    append_bytes, chars_of, lossy_string, parse_hex_chars, parse_hex_chars_exec, parse_num_chars, parse_u32_chars,
    str_from_utf8, trim, trim_range, utf8_lossy,
};

verus! {

#[derive(Debug, Clone, PartialEq, Eq)]
pub struct Capabilities {
    /// Terminal answered the kitty graphics query with OK.
    pub kitty_graphics: bool,
    /// Terminal answered the shm probe with OK (shared memory transport works).
    pub shm: bool,
    /// Kitty keyboard protocol flags currently active, if supported.
    pub kitty_keyboard: Option<u32>,
    /// Terminal recognises mode 1016 (SGR mouse in pixels), per DECRQM.
    pub pixel_mouse: bool,
    /// Cell size in device pixels.
    pub cell_w: u32,
    pub cell_h: u32,
    /// Text area size in device pixels as reported by the terminal.
    pub px_w: u32,
    pub px_h: u32,
    /// Cell grid.
    pub rows: u32,
    pub cols: u32,
    /// Terminal background color from OSC 11, if answered.
    pub background: Option<[u8; 3]>,
    /// Raw primary DA reply parameters, for diagnostics.
    pub da: String,
    /// Environment hints.
    pub ssh: bool,
    pub term_program: String,
    pub multiplexer: Option<String>,
}

/// The mathematical value of [`Capabilities`].
pub ghost struct CapsView {
    pub kitty_graphics: bool,
    pub shm: bool,
    pub kitty_keyboard: Option<u32>,
    pub pixel_mouse: bool,
    pub cell_w: u32,
    pub cell_h: u32,
    pub px_w: u32,
    pub px_h: u32,
    pub rows: u32,
    pub cols: u32,
    pub background: Option<(u8, u8, u8)>,
    pub da: Seq<char>,
    pub ssh: bool,
    pub term_program: Seq<char>,
    pub multiplexer: Option<Seq<char>>,
}

impl View for Capabilities {
    type V = CapsView;

    open spec fn view(&self) -> CapsView {
        CapsView {
            kitty_graphics: self.kitty_graphics,
            shm: self.shm,
            kitty_keyboard: self.kitty_keyboard,
            pixel_mouse: self.pixel_mouse,
            cell_w: self.cell_w,
            cell_h: self.cell_h,
            px_w: self.px_w,
            px_h: self.px_h,
            rows: self.rows,
            cols: self.cols,
            background: match self.background {
                Some(c) => Some((c[0], c[1], c[2])),
                None => None,
            },
            da: self.da@,
            ssh: self.ssh,
            term_program: self.term_program@,
            multiplexer: match self.multiplexer {
                Some(m) => Some(m@),
                None => None,
            },
        }
    }
}

impl Default for Capabilities {
    fn default() -> (c: Self)
        ensures
            c@ == (CapsView {
                kitty_graphics: false,
                shm: false,
                kitty_keyboard: None,
                pixel_mouse: false,
                cell_w: 0,
                cell_h: 0,
                px_w: 0,
                px_h: 0,
                rows: 0,
                cols: 0,
                background: None,
                da: Seq::empty(),
                ssh: false,
                term_program: Seq::empty(),
                multiplexer: None,
            }),
    {
        Capabilities {
            kitty_graphics: false,
            shm: false,
            kitty_keyboard: None,
            pixel_mouse: false,
            cell_w: 0,
            cell_h: 0,
            px_w: 0,
            px_h: 0,
            rows: 0,
            cols: 0,
            background: None,
            da: String::new(),
            ssh: false,
            term_program: String::new(),
            multiplexer: None,
        }
    }
}

impl Capabilities {
    /// Framebuffer size: the cell grid in pixels, never the raw window size.
    pub fn frame_size(&self) -> (r: (u32, u32))
        requires
            self.cols * self.cell_w <= u32::MAX,
            self.rows * self.cell_h <= u32::MAX,
        ensures
            r == ((self.cols * self.cell_w) as u32, (self.rows * self.cell_h) as u32),
    {
        (self.cols * self.cell_w, self.rows * self.cell_h)
    }

    /// Twice the UI scale: `cell_h / 16` put in the buckets 1, 1.5 and 2
    /// (below 1.25 is 1, below 1.75 is 1.5), so 2, 3 or 4.
    pub fn pixels_per_point_x2(&self) -> (r: u32)
        ensures
            r == (if self.cell_h * 4 < 16 * 5 {
                2u32
            } else if self.cell_h * 4 < 16 * 7 {
                3u32
            } else {
                4u32
            }),
    {
        if self.cell_h < 20 {
            2
        } else if self.cell_h < 28 {
            3
        } else {
            4
        }
    }
}

// ---------------------------------------------------------------------------
// The replies, stated over byte sequences.

pub open spec fn st_seq() -> Seq<u8> {
    seq![0x1bu8, 0x5c]
}

/// One channel of an OSC 11 color: `h`, `hh`, `hhh` or `hhhh` hex digits
/// scaled to 8 bits.
pub open spec fn channel(p: Seq<char>) -> Option<u8> {
    match parse_hex_chars(p) {
        None => None,
        Some(v) => Some(
            if p.len() == 1 {
                (v * 17) as u8
            } else if p.len() == 2 {
                v as u8
            } else if p.len() == 3 {
                (v / 16) as u8
            } else {
                (v / 256) as u8
            },
        ),
    }
}

/// `11;rgb:rrrr/gggg/bbbb` (16 bit per channel) or `11;rgb:rr/gg/bb`.
pub open spec fn osc_background(text: Seq<char>) -> Option<(u8, u8, u8)> {
    if text.len() >= 7 && text.take(7) == "11;rgb:"@ {
        let parts = split_seq(text.skip(7), '/');
        if parts.len() != 3 {
            None
        } else {
            match (channel(parts[0]), channel(parts[1]), channel(parts[2])) {
                (Some(r), Some(g), Some(b)) => Some((r, g, b)),
                _ => None,
            }
        }
    } else {
        None
    }
}

pub open spec fn osc_apply(body: Seq<u8>, caps: CapsView) -> CapsView {
    match osc_background(utf8_lossy(body)) {
        Some(c) => CapsView { background: Some(c), ..caps },
        None => caps,
    }
}

/// Index of the first piece that starts with `i=`.
pub open spec fn is_first_id_piece(pieces: Seq<Seq<char>>, k: int) -> bool {
    &&& 0 <= k < pieces.len()
    &&& starts_with_id(pieces[k])
    &&& forall|j: int| 0 <= j < k ==> !starts_with_id(#[trigger] pieces[j])
}

pub open spec fn starts_with_id(p: Seq<char>) -> bool {
    p.len() >= 2 && p[0] == 'i' && p[1] == '='
}

/// The image id named by the `i=` key of the control data.
pub open spec fn reply_image_id(ctl: Seq<char>) -> Option<u32> {
    let pieces = split_seq(ctl, ',');
    if exists|k: int| is_first_id_piece(pieces, k) {
        let k = choose|k: int| is_first_id_piece(pieces, k);
        parse_u32_chars(pieces[k].skip(2))
    } else {
        None
    }
}

/// `i=ID;OK` (or an error message) answering a graphics query.
pub open spec fn graphics_apply(body: Seq<u8>, caps: CapsView) -> CapsView {
    let text = utf8_lossy(body);
    match first_index_of(text, ';') {
        None => caps,
        Some(k) => {
            let ok = trim(text.skip(k + 1)) == "OK"@;
            match reply_image_id(text.take(k)) {
                Some(id) => if id == 31 {
                    CapsView { kitty_graphics: ok, ..caps }
                } else if id == 32 {
                    CapsView { shm: ok, ..caps }
                } else {
                    caps
                },
                None => caps,
            }
        },
    }
}

/// The numbers among `;`-separated pieces, in order.
pub open spec fn parsed_numbers(pieces: Seq<Seq<u8>>) -> Seq<u32>
    decreases pieces.len(),
{
    if pieces.len() == 0 {
        seq![]
    } else {
        let rest = parsed_numbers(pieces.drop_last());
        match parse_u32(pieces.last()) {
            Some(v) => rest.push(v),
            None => rest,
        }
    }
}

/// The numbers of a `CSI Ps ; Pa ; Pb t` reply.
pub open spec fn window_numbers(params: Seq<u8>) -> Seq<u32> {
    if valid_utf8(params) {
        parsed_numbers(split_seq(params, 0x3bu8))
    } else {
        seq![]
    }
}

/// A CSI reply: kitty keyboard flags, window sizes, DECRPM, primary DA.
pub open spec fn csi_apply(fin: u8, params: Seq<u8>, caps: CapsView, saw_da: bool) -> (CapsView, bool) {
    if fin == 0x75 {
        if params.len() > 0 && params[0] == 0x3f {
            (CapsView { kitty_keyboard: parse_u32(params.skip(1)), ..caps }, saw_da)
        } else {
            (caps, saw_da)
        }
    } else if fin == 0x74 {
        let nums = window_numbers(params);
        if nums.len() == 3 {
            if nums[0] == 6 {
                (CapsView { cell_h: nums[1], cell_w: nums[2], ..caps }, saw_da)
            } else if nums[0] == 4 {
                (CapsView { px_h: nums[1], px_w: nums[2], ..caps }, saw_da)
            } else if nums[0] == 8 {
                (CapsView { rows: nums[1], cols: nums[2], ..caps }, saw_da)
            } else {
                (caps, saw_da)
            }
        } else {
            (caps, saw_da)
        }
    } else if fin == 0x79 && params.len() > 0 && params[0] == 0x3f && params.last() == 0x24 {
        // DECRPM: CSI ? Pd ; Ps $ y   (Ps 0 = not recognised)
        let inner = params.subrange(1, params.len() - 1);
        let pieces = split_seq(inner, 0x3bu8);
        let mode = parse_u32(pieces[0]);
        let state = if pieces.len() >= 2 { parse_u32(pieces[1]) } else { None };
        if mode == Some(1016u32) {
            (CapsView { pixel_mouse: (state matches Some(s) && 1 <= s <= 4), ..caps }, saw_da)
        } else {
            (caps, saw_da)
        }
    } else if fin == 0x63 && params.len() > 0 && params[0] == 0x3f {
        (CapsView { da: utf8_lossy(params), ..caps }, true)
    } else {
        (caps, saw_da)
    }
}

/// The bytes after an OSC introducer up to its end, and how long the
/// terminator is: BEL when it comes before any ST, else ST.
pub open spec fn osc_end(body: Seq<u8>) -> Option<(int, int)> {
    match (find_pat(body, st_seq()), first_index_of(body, 0x07u8)) {
        (Some(s), Some(l)) => if l < s { Some((l, 1)) } else { Some((s, 2)) },
        (Some(s), None) => Some((s, 2)),
        (None, Some(l)) => Some((l, 1)),
        (None, None) => None,
    }
}

/// The reply that follows an ESC, given the bytes after it: how many of
/// them it spans and the state after it. `None` when it is cut off.
pub open spec fn reply_after_esc(rest: Seq<u8>, caps: CapsView, saw_da: bool) -> Option<(int, CapsView, bool)> {
    if rest.len() > 0 && rest[0] == 0x5d {
        let body = rest.skip(1);
        match osc_end(body) {
            None => None,
            Some((end, skip)) => Some((1 + end + skip, osc_apply(body.take(end), caps), saw_da)),
        }
    } else if rest.len() >= 2 && rest[0] == 0x5f && rest[1] == 0x47 {
        match find_pat(rest, st_seq()) {
            None => None,
            Some(end) => Some((end + 2, graphics_apply(rest.subrange(2, end), caps), saw_da)),
        }
    } else if rest.len() > 0 && rest[0] == 0x5b {
        let body = rest.skip(1);
        match first_final(body) {
            None => None,
            Some(fin) => {
                let (c2, s2) = csi_apply(body[fin], body.take(fin), caps, saw_da);
                Some((fin + 2, c2, s2))
            },
        }
    } else {
        Some((0, caps, saw_da))
    }
}

/// Parse the replies in `buf` from position `i` on, starting from `caps`;
/// the capabilities found and whether a primary DA reply was seen.
pub open spec fn replies_from(buf: Seq<u8>, i: int, caps: CapsView, saw_da: bool) -> (CapsView, bool)
    decreases buf.len() - i,
{
    if i < 0 || i >= buf.len() {
        (caps, saw_da)
    } else if buf[i] != 0x1b {
        replies_from(buf, i + 1, caps, saw_da)
    } else {
        match reply_after_esc(buf.skip(i + 1), caps, saw_da) {
            None => (caps, saw_da),
            Some((n, c2, s2)) => if n >= 0 {
                replies_from(buf, i + 1 + n, c2, s2)
            } else {
                (caps, saw_da)
            },
        }
    }
}

/// Parse every reply present in `buf`. Returns true when the DA reply was
/// seen, meaning no more replies are expected.
pub fn parse_replies(buf: &[u8], caps: &mut Capabilities) -> (saw_da: bool)
    ensures
        (final(caps)@, saw_da) == replies_from(buf@, 0, old(caps)@, false),
{
    let mut saw_da = false;
    let mut i: usize = 0;
    let ghost whole = replies_from(buf@, 0, caps@, false);
    while i < buf.len()
        invariant_except_break
            whole == replies_from(buf@, i as int, caps@, saw_da),
        invariant
            i <= buf.len(),
        ensures
            whole == (caps@, saw_da),
        decreases buf.len() - i,
    {
        match reply_step(buf, i, caps, saw_da) {
            Some((j, s)) => {
                i = j;
                saw_da = s;
            },
            None => break,
        }
    }
    saw_da
}

/// Handle what starts at `buf[i]`: skip a stray byte or apply one reply.
/// `None` when the reply there is cut off, which ends the parse.
#[verifier::spinoff_prover]
#[verifier::rlimit(40)]
fn reply_step(buf: &[u8], i: usize, caps: &mut Capabilities, saw_da: bool) -> (r: Option<(usize, bool)>)
    requires
        i < buf.len(),
    ensures
        match r {
            Some((j, s)) => i < j <= buf.len() && replies_from(buf@, i as int, old(caps)@, saw_da)
                == replies_from(buf@, j as int, final(caps)@, s),
            None => replies_from(buf@, i as int, old(caps)@, saw_da) == (final(caps)@, saw_da),
        },
{
    if buf[i] != 0x1b {
        return Some((i + 1, saw_da));
    }
    let rest = slice_subrange(buf, i + 1, buf.len());
    assert(rest@ == buf@.skip(i + 1));
    if rest.len() > 0 && rest[0] == 0x5d {
        match osc_reply_len(rest, caps) {
            Some(n) => Some((i + 1 + n, saw_da)),
            None => None,
        }
    } else if rest.len() >= 2 && rest[0] == 0x5f && rest[1] == 0x47 {
        match graphics_reply_len(rest, caps) {
            Some(n) => Some((i + 1 + n, saw_da)),
            None => None,
        }
    } else if rest.len() > 0 && rest[0] == 0x5b {
        match csi_reply_len(rest, caps, saw_da) {
            Some((n, s)) => Some((i + 1 + n, s)),
            None => None,
        }
    } else {
        Some((i + 1, saw_da))
    }
}

/// `rest` starts with `]`: apply the OSC reply; the bytes it spans.
fn osc_reply_len(rest: &[u8], caps: &mut Capabilities) -> (r: Option<usize>)
    requires
        rest.len() > 0,
        rest@[0] == 0x5d,
    ensures
        match osc_end(rest@.skip(1)) {
            None => r is None && final(caps)@ == old(caps)@,
            Some((end, skip)) => r == Some((1 + end + skip) as usize) && 0 <= end && 1 + end + skip
                <= rest.len() && final(caps)@ == osc_apply(rest@.skip(1).take(end), old(caps)@),
        },
{
    let body = slice_subrange(rest, 1, rest.len());
    assert(body@ == rest@.skip(1));
    let st_pat: Vec<u8> = vec![0x1b, 0x5c];
    assert(st_pat@ =~= st_seq());
    let st = find_bytes(body, st_pat.as_slice());
    let bel = crate::seqs::find_byte(body, 0x07);
    proof {
        lemma_find_pat_facts(body@, st_seq());
        lemma_first_index_facts(body@, 0x07u8);
    }
    let (end, skip): (usize, usize) = match (st, bel) {
        (Some(s), Some(l)) => if l < s {
            (l, 1)
        } else {
            (s, 2)
        },
        (Some(s), None) => (s, 2),
        (None, Some(l)) => (l, 1),
        (None, None) => {
            return None;
        },
    };
    parse_osc_reply(slice_subrange(body, 0, end), caps);
    assert(body@.subrange(0, end as int) == body@.take(end as int));
    Some(1 + end + skip)
}

/// `rest` starts with `_G`: apply the graphics reply; the bytes it spans.
fn graphics_reply_len(rest: &[u8], caps: &mut Capabilities) -> (r: Option<usize>)
    requires
        rest.len() >= 2,
        rest@[0] == 0x5f,
        rest@[1] == 0x47,
    ensures
        match find_pat(rest@, st_seq()) {
            None => r is None && final(caps)@ == old(caps)@,
            Some(end) => r == Some((end + 2) as usize) && 2 <= end && end + 2 <= rest.len()
                && final(caps)@ == graphics_apply(rest@.subrange(2, end), old(caps)@),
        },
{
    let st_pat: Vec<u8> = vec![0x1b, 0x5c];
    assert(st_pat@ =~= st_seq());
    let end = match find_bytes(rest, st_pat.as_slice()) {
        Some(e) => e,
        None => return None,
    };
    proof {
        lemma_find_pat_facts(rest@, st_seq());
        if end < 2 {
            assert(rest@.subrange(end as int, end + 2)[0] == 0x1b);
        }
    }
    parse_graphics_reply(slice_subrange(rest, 2, end), caps);
    Some(end + 2)
}

/// `rest` starts with `[`: apply the CSI reply; the bytes it spans and the
/// new DA flag.
fn csi_reply_len(rest: &[u8], caps: &mut Capabilities, saw_da: bool) -> (r: Option<(usize, bool)>)
    requires
        rest.len() > 0,
        rest@[0] == 0x5b,
    ensures
        match first_final(rest@.skip(1)) {
            None => r is None && final(caps)@ == old(caps)@,
            Some(fin) => 0 <= fin && fin + 2 <= rest.len() && (r matches Some((n, s)) && n == fin + 2
                && (final(caps)@, s) == csi_apply(rest@.skip(1)[fin], rest@.skip(1).take(fin), old(caps)@, saw_da)),
        },
{
    let body = slice_subrange(rest, 1, rest.len());
    assert(body@ == rest@.skip(1));
    let fin = match find_final(body) {
        Some(f) => f,
        None => return None,
    };
    proof {
        let k = choose|k: int| is_first_final(body@, k);
        assert(is_first_final(body@, k));
    }
    let params = slice_subrange(body, 0, fin);
    assert(params@ == body@.take(fin as int));
    let s = apply_csi_reply(body[fin], params, caps, saw_da);
    Some((fin + 2, s))
}

/// Apply one CSI reply (see `csi_apply`).
fn apply_csi_reply(fin: u8, params: &[u8], caps: &mut Capabilities, saw_da: bool) -> (r: bool)
    ensures
        (final(caps)@, r) == csi_apply(fin, params@, old(caps)@, saw_da),
{
    if fin == 0x75 {
        if params.len() > 0 && params[0] == 0x3f {
            caps.kitty_keyboard = parse_num(slice_subrange(params, 1, params.len()));
        }
        saw_da
    } else if fin == 0x74 {
        let nums = window_nums(params);
        if nums.len() == 3 {
            if nums[0] == 6 {
                caps.cell_h = nums[1];
                caps.cell_w = nums[2];
            } else if nums[0] == 4 {
                caps.px_h = nums[1];
                caps.px_w = nums[2];
            } else if nums[0] == 8 {
                caps.rows = nums[1];
                caps.cols = nums[2];
            }
        }
        saw_da
    } else if fin == 0x79 && params.len() > 0 && params[0] == 0x3f && params[params.len() - 1] == 0x24 {
        let inner = slice_subrange(params, 1, params.len() - 1);
        let pieces = split_bytes(inner, 0x3b);
        proof {
            lemma_split_seq_len(inner@, 0x3bu8);
        }
        let mode = parse_num(pieces[0].as_slice());
        let state = if pieces.len() >= 2 {
            parse_num(pieces[1].as_slice())
        } else {
            None
        };
        if mode == Some(1016u32) {
            caps.pixel_mouse = match state {
                Some(s) => 1 <= s && s <= 4,
                None => false,
            };
        }
        saw_da
    } else if fin == 0x63 && params.len() > 0 && params[0] == 0x3f {
        caps.da = lossy_string(params);
        true
    } else {
        saw_da
    }
}

/// The numbers of a window size reply.
fn window_nums(params: &[u8]) -> (r: Vec<u32>)
    ensures
        r@ == window_numbers(params@),
{
    let mut out: Vec<u32> = Vec::new();
    if str_from_utf8(params).is_none() {
        return out;
    }
    let pieces = split_bytes(params, 0x3b);
    let ghost pv = split_seq(params@, 0x3bu8);
    let mut k: usize = 0;
    while k < pieces.len()
        invariant
            k <= pieces@.len(),
            pieces@.len() == pv.len(),
            forall|j: int| 0 <= j < pieces@.len() ==> #[trigger] pieces@[j]@ == pv[j],
            out@ == parsed_numbers(pv.take(k as int)),
        decreases pieces.len() - k,
    {
        assert(pv.take(k + 1).drop_last() =~= pv.take(k as int));
        assert(pv.take(k + 1).last() == pieces@[k as int]@);
        match parse_num(pieces[k].as_slice()) {
            Some(v) => out.push(v),
            None => {},
        }
        k = k + 1;
    }
    assert(pv.take(pieces.len() as int) =~= pv);
    out
}

/// `11;rgb:rrrr/gggg/bbbb` (16 bit per channel) or `11;rgb:rr/gg/bb`.
fn parse_osc_reply(body: &[u8], caps: &mut Capabilities)
    ensures
        final(caps)@ == osc_apply(body@, old(caps)@),
{
    let text = lossy_string(body);
    let t = chars_of(text.as_str());
    if !(t.len() >= 7 && t[0] == '1' && t[1] == '1' && t[2] == ';' && t[3] == 'r' && t[4] == 'g' && t[5]
        == 'b' && t[6] == ':') {
        proof {
            reveal_strlit("11;rgb:");
            if t@.len() >= 7 && t@.take(7) == "11;rgb:"@ {
                assert(t@.take(7)[0] == '1');
                assert(t@.take(7)[1] == '1');
                assert(t@.take(7)[2] == ';');
                assert(t@.take(7)[3] == 'r');
                assert(t@.take(7)[4] == 'g');
                assert(t@.take(7)[5] == 'b');
                assert(t@.take(7)[6] == ':');
            }
        }
        return;
    }
    proof {
        reveal_strlit("11;rgb:");
        assert(t@.take(7) =~= "11;rgb:"@);
    }
    let rgb = slice_subrange(t.as_slice(), 7, t.len());
    assert(rgb@ == t@.skip(7));
    let parts = split_chars(rgb, '/');
    if parts.len() != 3 {
        return;
    }
    let r = match channel_of(parts[0].as_slice()) {
        Some(v) => v,
        None => return,
    };
    let g = match channel_of(parts[1].as_slice()) {
        Some(v) => v,
        None => return,
    };
    let b = match channel_of(parts[2].as_slice()) {
        Some(v) => v,
        None => return,
    };
    caps.background = Some([r, g, b]);
}

fn channel_of(p: &[char]) -> (r: Option<u8>)
    ensures
        r == channel(p@),
{
    let v = match parse_hex_chars_exec(p) {
        Some(v) => v,
        None => return None,
    };
    if p.len() == 1 {
        proof {
            let d = crate::text::ascii_bytes(p@);
            assert(d.drop_last().len() == 0);
            assert(crate::seqs::hex_value(d.drop_last()) == 0);
        }
        Some((v * 17) as u8)
    } else if p.len() == 2 {
        Some(v as u8)
    } else if p.len() == 3 {
        Some((v / 16) as u8)
    } else {
        Some((v / 256) as u8)
    }
}

/// `i=ID;OK` or `i=ID;ERROR`: the answer to one of the graphics probes.
fn parse_graphics_reply(body: &[u8], caps: &mut Capabilities)
    ensures
        final(caps)@ == graphics_apply(body@, old(caps)@),
{
    let text = lossy_string(body);
    let t = chars_of(text.as_str());
    let k = match find_char(t.as_slice(), ';') {
        Some(k) => k,
        None => return,
    };
    let ctl = slice_subrange(t.as_slice(), 0, k);
    let msg = slice_subrange(t.as_slice(), k + 1, t.len());
    assert(ctl@ == t@.take(k as int));
    assert(msg@ == t@.skip(k + 1));
    let (a, b) = trim_range(msg);
    let trimmed = slice_subrange(msg, a, b);
    let ok = trimmed.len() == 2 && trimmed[0] == 'O' && trimmed[1] == 'K';
    proof {
        reveal_strlit("OK");
        if ok {
            assert(trimmed@ =~= "OK"@);
        } else if trimmed@ == "OK"@ {
            assert(trimmed@[0] == 'O' && trimmed@[1] == 'K');
        }
    }
    let id = image_id_of(ctl);
    match id {
        Some(v) => {
            if v == PROBE_IMAGE_ID {
                caps.kitty_graphics = ok;
            } else if v == SHM_PROBE_IMAGE_ID {
                caps.shm = ok;
            }
        },
        None => {},
    }
}

fn image_id_of(ctl: &[char]) -> (r: Option<u32>)
    ensures
        r == reply_image_id(ctl@),
{
    let pieces = split_chars(ctl, ',');
    let ghost pv = split_seq(ctl@, ',');
    let mut k: usize = 0;
    while k < pieces.len()
        invariant
            k <= pieces@.len(),
            pv == split_seq(ctl@, ','),
            pieces@.len() == pv.len(),
            forall|j: int| 0 <= j < pieces@.len() ==> #[trigger] pieces@[j]@ == pv[j],
            forall|j: int| 0 <= j < k ==> !starts_with_id(#[trigger] pv[j]),
        decreases pieces.len() - k,
    {
        let p = pieces[k].as_slice();
        if p.len() >= 2 && p[0] == 'i' && p[1] == '=' {
            proof {
                assert(is_first_id_piece(pv, k as int));
                let c = choose|c: int| is_first_id_piece(pv, c);
                assert(is_first_id_piece(pv, c));
                if c < k {
                    assert(!starts_with_id(pv[c]));
                } else if k < c {
                    assert(!starts_with_id(pv[k as int]));
                }
                assert(c == k);
            }
            let tail = slice_subrange(p, 2, p.len());
            assert(tail@ == pv[k as int].skip(2));
            return parse_num_chars(tail);
        }
        k = k + 1;
    }
    None
}

/// The window size as `TIOCGWINSZ` reports it: rows, columns, and the
/// text area in pixels (x, y), applied to the grid and cell size. The probed
/// cell size stays when the pixel fields are zero; nothing changes when the
/// grid is empty or no size could be read.
pub fn apply_winsize(caps: &mut Capabilities, ws: Option<(u32, u32, u32, u32)>)
    ensures
        match ws {
            Some((rows, cols, xp, yp)) => if rows > 0 && cols > 0 {
                if xp > 0 && yp > 0 {
                    final(caps)@ == (CapsView {
                        rows,
                        cols,
                        px_w: xp,
                        px_h: yp,
                        cell_w: xp / cols,
                        cell_h: yp / rows,
                        ..old(caps)@
                    })
                } else {
                    final(caps)@ == (CapsView { rows, cols, ..old(caps)@ })
                }
            } else {
                final(caps)@ == old(caps)@
            },
            None => final(caps)@ == old(caps)@,
        },
{
    if let Some((rows, cols, xp, yp)) = ws {
        if rows > 0 && cols > 0 {
            caps.rows = rows;
            caps.cols = cols;
            if xp > 0 && yp > 0 {
                caps.px_w = xp;
                caps.px_h = yp;
                caps.cell_w = xp / cols;
                caps.cell_h = yp / rows;
            }
        }
    }
}

/// After the probe: a terminal that reported no cell size still gets its
/// grid from the window size.
pub fn fill_grid_fallback(caps: &mut Capabilities, ws: Option<(u32, u32, u32, u32)>)
    ensures
        match ws {
            Some((rows, cols, _, _)) => if old(caps).cell_w == 0 || old(caps).cell_h == 0 {
                final(caps)@ == (CapsView { rows, cols, ..old(caps)@ })
            } else {
                final(caps)@ == old(caps)@
            },
            None => final(caps)@ == old(caps)@,
        },
{
    if caps.cell_w == 0 || caps.cell_h == 0 {
        if let Some((rows, cols, _, _)) = ws {
            caps.rows = rows;
            caps.cols = cols;
        }
    }
}

/// The environment hints: whether the session runs over ssh, the terminal
/// program, and the multiplexer (tmux before zellij).
pub fn apply_env_hints(caps: &mut Capabilities, ssh: bool, term_program: String, tmux: bool, zellij: bool)
    ensures
        final(caps)@ == (CapsView {
            ssh,
            term_program: term_program@,
            multiplexer: if tmux {
                Some("tmux"@)
            } else if zellij {
                Some("zellij"@)
            } else {
                None
            },
            ..old(caps)@
        }),
{
    caps.ssh = ssh;
    caps.term_program = term_program;
    caps.multiplexer = if tmux {
        Some("tmux".to_owned())
    } else if zellij {
        Some("zellij".to_owned())
    } else {
        None
    };
}

/// Everything the probe writes at once: the graphics query, the shm probe
/// when a shared memory object was made for it, then the kitty keyboard,
/// DECRQM 1016, OSC 11, cell size, text area, grid and primary DA queries.
pub fn probe_request(shm_name: Option<&str>) -> (out: Vec<u8>)
    ensures
        out@ == query_probe_bytes() + (match shm_name {
            Some(n) => shm_probe_bytes(n@),
            None => Seq::empty(),
        }) + probe_queries(),
{
    let mut out: Vec<u8> = Vec::new();
    encode_query_probe(&mut out);
    match shm_name {
        Some(n) => encode_shm_probe(&mut out, n),
        None => {},
    }
    let ghost before = out@;
    let tail: Vec<u8> = vec![
        0x1b, 0x5b, 0x3f, 0x75,
        0x1b, 0x5b, 0x3f, 0x31, 0x30, 0x31, 0x36, 0x24, 0x70,
        0x1b, 0x5d, 0x31, 0x31, 0x3b, 0x3f, 0x1b, 0x5c,
        0x1b, 0x5b, 0x31, 0x36, 0x74,
        0x1b, 0x5b, 0x31, 0x34, 0x74,
        0x1b, 0x5b, 0x31, 0x38, 0x74,
        0x1b, 0x5b, 0x63,
    ];
    append_bytes(&mut out, tail.as_slice());
    assert(tail@ =~= probe_queries());
    out
}

/// `ESC[?u ESC[?1016$p ESC]11;? ESC\ ESC[16t ESC[14t ESC[18t ESC[c`.
pub open spec fn probe_queries() -> Seq<u8> {
    seq![
        0x1bu8, 0x5b, 0x3f, 0x75,
        0x1b, 0x5b, 0x3f, 0x31, 0x30, 0x31, 0x36, 0x24, 0x70,
        0x1b, 0x5d, 0x31, 0x31, 0x3b, 0x3f, 0x1b, 0x5c,
        0x1b, 0x5b, 0x31, 0x36, 0x74,
        0x1b, 0x5b, 0x31, 0x34, 0x74,
        0x1b, 0x5b, 0x31, 0x38, 0x74,
        0x1b, 0x5b, 0x63,
    ]
}


// ---------------------------------------------------------------------------
// The capabilities report.

/// `true` or `false`, as `bool` displays.
pub open spec fn bool_text(b: bool) -> Seq<char> {
    if b {
        "true"@
    } else {
        "false"@
    }
}

/// A number in decimal.
pub open spec fn num_text(n: nat) -> Seq<char> {
    ascii_chars(decimal(n))
}

/// The UI scale as it displays: 1, 1.5 or 2.
pub open spec fn scale_text(x2: u32) -> Seq<char> {
    if x2 == 2 {
        "1"@
    } else if x2 == 3 {
        "1.5"@
    } else {
        "2"@
    }
}

/// The keyboard line of the report.
pub open spec fn keyboard_text(k: Option<u32>) -> Seq<char> {
    match k {
        Some(flags) => "kitty keyboard : yes (flags "@ + num_text(flags as nat) + ")\n"@,
        None => "kitty keyboard : no\n"@,
    }
}

/// The background line of the report.
pub open spec fn background_text(bg: Option<[u8; 3]>) -> Seq<char> {
    match bg {
        Some(rgb) => "background     : #"@ + hex_text(rgb@) + "\n"@,
        None => "background     : unknown\n"@,
    }
}

/// The multiplexer line of the report.
pub open spec fn multiplexer_text(m: Option<String>) -> Seq<char> {
    match m {
        Some(m) => "multiplexer    : "@ + m@ + "\n"@,
        None => "multiplexer    : none\n"@,
    }
}

/// The report `--probe` prints, one `name : value` line per capability.
pub open spec fn describe_spec(c: Capabilities) -> Seq<char> {
    let fw = (c.cols * c.cell_w) as nat;
    let fh = (c.rows * c.cell_h) as nat;
    let x2 = if c.cell_h * 4 < 16 * 5 {
        2u32
    } else if c.cell_h * 4 < 16 * 7 {
        3u32
    } else {
        4u32
    };
    "kitty graphics : "@ + bool_text(c.kitty_graphics) + "\n"@ + "shm transport  : "@ + bool_text(c.shm) + "\n"@
        + keyboard_text(c.kitty_keyboard) + "pixel mouse    : "@ + bool_text(c.pixel_mouse) + "\n"@
        + "cell size      : "@ + num_text(c.cell_w as nat) + "x"@ + num_text(c.cell_h as nat) + " px\n"@
        + "text area      : "@ + num_text(c.px_w as nat) + "x"@ + num_text(c.px_h as nat) + " px\n"@
        + "grid           : "@ + num_text(c.cols as nat) + " cols x "@ + num_text(c.rows as nat) + " rows\n"@
        + "frame          : "@ + num_text(fw) + "x"@ + num_text(fh) + " px, scale "@ + scale_text(x2) + "\n"@
        + background_text(c.background) + "primary DA     : "@ + c.da@ + "\n"@ + "ssh            : "@
        + bool_text(c.ssh) + "\n"@ + "TERM_PROGRAM   : "@ + c.term_program@ + "\n"@ + multiplexer_text(
        c.multiplexer,
    )
}

fn push_bool(s: &mut String, b: bool)
    ensures
        final(s)@ == old(s)@ + bool_text(b),
{
    if b {
        push_str(s, "true");
    } else {
        push_str(s, "false");
    }
}

fn push_num(s: &mut String, n: u32)
    ensures
        final(s)@ == old(s)@ + num_text(n as nat),
{
    push_decimal_str(s, n as u64);
}

fn keyboard_line(k: Option<u32>) -> (r: String)
    ensures
        r@ == keyboard_text(k),
{
    match k {
        Some(flags) => {
            let mut s = "kitty keyboard : yes (flags ".to_owned();
            push_num(&mut s, flags);
            push_str(&mut s, ")\n");
            s
        },
        None => "kitty keyboard : no\n".to_owned(),
    }
}

fn background_line(bg: Option<[u8; 3]>) -> (r: String)
    ensures
        r@ == background_text(bg),
{
    match bg {
        Some(rgb) => {
            let mut s = "background     : #".to_owned();
            let ghost before = s@;
            let mut k: usize = 0;
            assert(rgb@.take(0) =~= Seq::<u8>::empty());
            assert(before + hex_text(rgb@.take(0)) =~= before);
            while k < 3
                invariant
                    k <= 3,
                    s@ == before + hex_text(rgb@.take(k as int)),
                decreases 3 - k,
            {
                let b = rgb[k];
                push_char(&mut s, hex_char(b / 16));
                push_char(&mut s, hex_char(b % 16));
                assert(rgb@.take(k + 1).drop_last() =~= rgb@.take(k as int));
                assert(s@ =~= before + hex_text(rgb@.take(k + 1)));
                k = k + 1;
            }
            assert(rgb@.take(3) =~= rgb@);
            push_str(&mut s, "\n");
            s
        },
        None => "background     : unknown\n".to_owned(),
    }
}

fn multiplexer_line(m: &Option<String>) -> (r: String)
    ensures
        r@ == multiplexer_text(*m),
{
    match m {
        Some(m) => {
            let mut s = "multiplexer    : ".to_owned();
            push_str(&mut s, m.as_str());
            push_str(&mut s, "\n");
            s
        },
        None => "multiplexer    : none\n".to_owned(),
    }
}

impl Capabilities {
    /// The report of what the terminal supports, as `--probe` prints it.
    pub fn describe(&self) -> (r: String)
        requires
            self.cols * self.cell_w <= u32::MAX,
            self.rows * self.cell_h <= u32::MAX,
        ensures
            r@ == describe_spec(*self),
    {
        let mut s = "kitty graphics : ".to_owned();
        push_bool(&mut s, self.kitty_graphics);
        push_str(&mut s, "\n");
        push_str(&mut s, "shm transport  : ");
        push_bool(&mut s, self.shm);
        push_str(&mut s, "\n");
        push_str(&mut s, keyboard_line(self.kitty_keyboard).as_str());
        push_str(&mut s, "pixel mouse    : ");
        push_bool(&mut s, self.pixel_mouse);
        push_str(&mut s, "\n");
        push_str(&mut s, "cell size      : ");
        push_num(&mut s, self.cell_w);
        push_str(&mut s, "x");
        push_num(&mut s, self.cell_h);
        push_str(&mut s, " px\n");
        push_str(&mut s, "text area      : ");
        push_num(&mut s, self.px_w);
        push_str(&mut s, "x");
        push_num(&mut s, self.px_h);
        push_str(&mut s, " px\n");
        push_str(&mut s, "grid           : ");
        push_num(&mut s, self.cols);
        push_str(&mut s, " cols x ");
        push_num(&mut s, self.rows);
        push_str(&mut s, " rows\n");
        let (fw, fh) = self.frame_size();
        push_str(&mut s, "frame          : ");
        push_num(&mut s, fw);
        push_str(&mut s, "x");
        push_num(&mut s, fh);
        push_str(&mut s, " px, scale ");
        let x2 = self.pixels_per_point_x2();
        if x2 == 2 {
            push_str(&mut s, "1");
        } else if x2 == 3 {
            push_str(&mut s, "1.5");
        } else {
            push_str(&mut s, "2");
        }
        push_str(&mut s, "\n");
        push_str(&mut s, background_line(self.background).as_str());
        push_str(&mut s, "primary DA     : ");
        push_str(&mut s, self.da.as_str());
        push_str(&mut s, "\n");
        push_str(&mut s, "ssh            : ");
        push_bool(&mut s, self.ssh);
        push_str(&mut s, "\n");
        push_str(&mut s, "TERM_PROGRAM   : ");
        push_str(&mut s, self.term_program.as_str());
        push_str(&mut s, "\n");
        push_str(&mut s, multiplexer_line(&self.multiplexer).as_str());
        s
    }
}

} // verus!
