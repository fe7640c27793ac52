//! Kitty graphics protocol encoder.
//!
//! Every function appends raw bytes to an output buffer. Nothing here talks to
//! the terminal directly, so the exact sequences can be checked byte by byte.
use base64::Engine as _;
use std::io::Write as _;
use vstd::prelude::*;
use vstd::slice::slice_subrange;
use vstd::utf8::encode_utf8;

use crate::text::{append_bytes, pow10, str_bytes, ascii_bytes, ascii_chars, decimal, lemma_decimal_len, push_ascii, push_char, push_decimal, push_decimal_str};

verus! {

/// Maximum number of base64 characters per chunk on the direct transport.
pub const DIRECT_CHUNK: usize = 4096;

/// Image id used by the capability probe (1x1 RGB, action query).
pub const PROBE_IMAGE_ID: u32 = 31;

/// Image id used by the shared memory probe.
pub const SHM_PROBE_IMAGE_ID: u32 = 32;

/// The base64 alphabet of RFC 4648 (standard, with padding).
pub open spec fn b64_digit(v: int) -> u8 {
    if v < 26 {
        (0x41 + v) as u8
    } else if v < 52 {
        (0x61 + v - 26) as u8
    } else if v < 62 {
        (0x30 + v - 52) as u8
    } else if v == 62 {
        0x2b
    } else {
        0x2f
    }
}

/// Standard base64 with `=` padding, three bytes to four characters.
pub open spec fn base64_encode(d: Seq<u8>) -> Seq<u8>
    decreases d.len(),
{
    if d.len() == 0 {
        seq![]
    } else if d.len() == 1 {
        seq![b64_digit(d[0] as int / 4), b64_digit((d[0] as int % 4) * 16), 0x3d, 0x3d]
    } else if d.len() == 2 {
        seq![
            b64_digit(d[0] as int / 4),
            b64_digit((d[0] as int % 4) * 16 + d[1] as int / 16),
            b64_digit((d[1] as int % 16) * 4),
            0x3d,
        ]
    } else {
        seq![
            b64_digit(d[0] as int / 4),
            b64_digit((d[0] as int % 4) * 16 + d[1] as int / 16),
            b64_digit((d[1] as int % 16) * 4 + d[2] as int / 64),
            b64_digit(d[2] as int % 64),
        ] + base64_encode(d.skip(3))
    }
}

/// `base64::engine::general_purpose::STANDARD.encode`: the standard
/// alphabet with padding, as the crate documents. The crate panics when the
/// encoded length overflows `usize`, which the bound rules out.
#[verifier::external_body]
pub(crate) fn base64_standard(data: &[u8]) -> (s: Vec<u8>)
    requires
        data.len() / 3 * 4 + 4 <= usize::MAX,
    ensures
        s@ == base64_encode(data@),
{
    base64::engine::general_purpose::STANDARD.encode(data).into_bytes()
}

/// What flate2's zlib encoder at `Compression::fast()` produces for `data`.
pub uninterp spec fn zlib_fast(data: Seq<u8>) -> Seq<u8>;

/// `flate2::write::ZlibEncoder` with `Compression::fast()`, written into a
/// `Vec` and finished. The compressed bytes are named by `zlib_fast`; the
/// crate's deflate output is not restated here. Writing into a `Vec` cannot
/// fail, so the errors the encoder could report never happen. Like every
/// `Vec`, the result holds at most `isize::MAX` bytes.
#[verifier::external_body]
fn zlib_compress_fast(data: &[u8]) -> (z: Vec<u8>)
    ensures
        z@ == zlib_fast(data@),
        z@.len() <= isize::MAX,
{
    let mut enc = flate2::write::ZlibEncoder::new(Vec::with_capacity(data.len() / 4), flate2::Compression::fast());
    enc.write_all(data).expect("write to Vec cannot fail");
    enc.finish().expect("zlib finish cannot fail on Vec")
}

/// `APC G`: start of a graphics command.
pub open spec fn apc() -> Seq<u8> {
    seq![0x1bu8, 0x5f, 0x47]
}

/// `ST`: end of a graphics command.
pub open spec fn st() -> Seq<u8> {
    seq![0x1bu8, 0x5c]
}

fn push_apc(out: &mut Vec<u8>)
    ensures
        final(out)@ == old(out)@ + apc(),
{
    out.push(0x1b);
    out.push(0x5f);
    out.push(0x47);
    assert(final(out)@ =~= old(out)@ + apc());
}

fn push_st(out: &mut Vec<u8>)
    ensures
        final(out)@ == old(out)@ + st(),
{
    out.push(0x1b);
    out.push(0x5c);
    assert(final(out)@ =~= old(out)@ + st());
}

pub open spec fn dec(n: u32) -> Seq<u8> {
    decimal(n as nat)
}

/// The bytes of the graphics capability probe:
/// `APC G i=31,s=1,v=1,a=q,t=d,f=24 ; AAAA ST`.
pub open spec fn query_probe_bytes() -> Seq<u8> {
    apc() + ascii_bytes("i=31,s=1,v=1,a=q,t=d,f=24;AAAA"@) + st()
}

/// `APC G i=31,s=1,v=1,a=q,t=d,f=24 ; AAAA ST`: graphics capability probe.
pub fn encode_query_probe(out: &mut Vec<u8>)
    ensures
        final(out)@ == old(out)@ + query_probe_bytes(),
{
    push_apc(out);
    proof {
        reveal_strlit("i=31,s=1,v=1,a=q,t=d,f=24;AAAA");
    }
    push_ascii(out, "i=31,s=1,v=1,a=q,t=d,f=24;AAAA");
    push_st(out);
    assert(final(out)@ =~= old(out)@ + query_probe_bytes());
}

/// The bytes of the shared memory probe for the object `name`.
pub open spec fn shm_probe_bytes(name: Seq<char>) -> Seq<u8> {
    apc() + ascii_bytes("i=32,s=1,v=1,a=q,t=s,f=32;"@) + base64_encode(encode_utf8(name)) + st()
}

/// Shared memory capability probe: a 1x1 RGBA image transmitted via the named
/// shm object with `a=q`. The terminal answers `OK` and unlinks the object when
/// it supports the transport.
pub fn encode_shm_probe(out: &mut Vec<u8>, shm_name: &str)
    ensures
        final(out)@ == old(out)@ + shm_probe_bytes(shm_name@),
{
    push_apc(out);
    proof {
        reveal_strlit("i=32,s=1,v=1,a=q,t=s,f=32;");
    }
    push_ascii(out, "i=32,s=1,v=1,a=q,t=s,f=32;");
    let name = str_bytes(shm_name);
    let enc = base64_standard(name);
    append_bytes(out, enc.as_slice());
    push_st(out);
    assert(final(out)@ =~= old(out)@ + shm_probe_bytes(shm_name@));
}

/// `W,v=H,c=COLS,r=ROWS,i=ID,p=ID`: the size, grid and ids of a placement.
pub open spec fn geometry_bytes(w: u32, h: u32, id: u32, cols: u32, rows: u32) -> Seq<u8> {
    dec(w) + ascii_bytes(",v="@) + dec(h) + ascii_bytes(",c="@) + dec(cols) + ascii_bytes(",r="@)
        + dec(rows) + ascii_bytes(",i="@) + dec(id) + ascii_bytes(",p="@) + dec(id)
}

fn push_geometry(out: &mut Vec<u8>, w: u32, h: u32, id: u32, cols: u32, rows: u32)
    ensures
        final(out)@ == old(out)@ + geometry_bytes(w, h, id, cols, rows),
{
    proof {
        reveal_strlit(",v=");
        reveal_strlit(",c=");
        reveal_strlit(",r=");
        reveal_strlit(",i=");
        reveal_strlit(",p=");
    }
    let ghost o = out@;
    push_decimal(out, w as u64);
    push_ascii(out, ",v=");
    push_decimal(out, h as u64);
    let ghost p1 = dec(w) + ascii_bytes(",v="@) + dec(h);
    assert(out@ =~= o + p1);
    push_ascii(out, ",c=");
    push_decimal(out, cols as u64);
    push_ascii(out, ",r=");
    let ghost p2 = p1 + ascii_bytes(",c="@) + dec(cols) + ascii_bytes(",r="@);
    assert(out@ =~= o + p2);
    push_decimal(out, rows as u64);
    push_ascii(out, ",i=");
    push_decimal(out, id as u64);
    let ghost p3 = p2 + dec(rows) + ascii_bytes(",i="@) + dec(id);
    assert(out@ =~= o + p3);
    push_ascii(out, ",p=");
    push_decimal(out, id as u64);
    assert(out@ =~= o + geometry_bytes(w, h, id, cols, rows));
}

/// Control data of a shared memory placement.
pub open spec fn shm_place_ctl(w: u32, h: u32, id: u32, cols: u32, rows: u32) -> Seq<u8> {
    ascii_bytes("a=T,t=s,f=32,s="@) + geometry_bytes(w, h, id, cols, rows) + ascii_bytes(",C=1,q=2;"@)
}

/// The bytes that transmit and place a frame held in the shm object `name`.
pub open spec fn shm_place_bytes(w: u32, h: u32, id: u32, name: Seq<char>, cols: u32, rows: u32) -> Seq<u8> {
    apc() + shm_place_ctl(w, h, id, cols, rows) + base64_encode(encode_utf8(name)) + st()
}

/// Transmit and display a frame stored in a POSIX shared memory object.
/// `cols` and `rows` bind the placement to the whole cell grid, so the
/// terminal scales the image to the grid regardless of how it maps image
/// pixels to screen pixels.
pub fn encode_shm_place(out: &mut Vec<u8>, w: u32, h: u32, id: u32, shm_name: &str, cols: u32, rows: u32)
    ensures
        final(out)@ == old(out)@ + shm_place_bytes(w, h, id, shm_name@, cols, rows),
{
    let ghost o = out@;
    push_apc(out);
    proof {
        reveal_strlit("a=T,t=s,f=32,s=");
        reveal_strlit(",C=1,q=2;");
    }
    push_ascii(out, "a=T,t=s,f=32,s=");
    push_geometry(out, w, h, id, cols, rows);
    push_ascii(out, ",C=1,q=2;");
    assert(out@ =~= o + apc() + shm_place_ctl(w, h, id, cols, rows));
    let name = str_bytes(shm_name);
    let enc = base64_standard(name);
    append_bytes(out, enc.as_slice());
    push_st(out);
    assert(final(out)@ =~= old(out)@ + shm_place_bytes(w, h, id, shm_name@, cols, rows));
}

/// Number of chunks of at most `DIRECT_CHUNK` bytes that `len` bytes make.
pub open spec fn chunk_count(len: nat) -> nat {
    if len % 4096 == 0 {
        len / 4096
    } else {
        len / 4096 + 1
    }
}

/// Control data of the first direct chunk.
pub open spec fn direct_ctl(w: u32, h: u32, id: u32, cols: u32, rows: u32, more: u32) -> Seq<u8> {
    ascii_bytes("a=T,t=d,o=z,f=32,s="@) + geometry_bytes(w, h, id, cols, rows) + ascii_bytes(",C=1,q=2,m="@)
        + dec(more) + ascii_bytes(";"@)
}

/// Control data of chunk `k`: the full header on the first chunk, only the
/// continuation flag on the others.
pub open spec fn chunk_ctl(k: nat, w: u32, h: u32, id: u32, cols: u32, rows: u32, more: u32) -> Seq<u8> {
    if k == 0 {
        direct_ctl(w, h, id, cols, rows, more)
    } else {
        ascii_bytes("m="@) + dec(more) + ascii_bytes(";"@)
    }
}

/// The bytes of chunk `k` alone.
pub open spec fn direct_chunk(payload: Seq<u8>, k: nat, w: u32, h: u32, id: u32, cols: u32, rows: u32) -> Seq<u8> {
    let n = chunk_count(payload.len());
    let more: u32 = if k + 1 < n { 1 } else { 0 };
    let end: int = if (k + 1) * 4096 <= payload.len() { ((k + 1) * 4096) as int } else { payload.len() as int };
    apc() + chunk_ctl(k, w, h, id, cols, rows, more) + payload.subrange(k as int * 4096, end) + st()
}

/// Chunk `k` of `payload`, its neighbours and everything after it.
pub open spec fn direct_chunks(payload: Seq<u8>, k: nat, w: u32, h: u32, id: u32, cols: u32, rows: u32) -> Seq<u8>
    decreases chunk_count(payload.len()) - k,
{
    if k >= chunk_count(payload.len()) {
        seq![]
    } else {
        direct_chunk(payload, k, w, h, id, cols, rows) + direct_chunks(payload, k + 1, w, h, id, cols, rows)
    }
}

/// The bytes that transmit and place a frame inline: `rgba` compressed with
/// zlib, base64 encoded, split into chunks of at most 4096 characters.
pub open spec fn direct_place_bytes(w: u32, h: u32, id: u32, rgba: Seq<u8>, cols: u32, rows: u32) -> Seq<u8> {
    direct_chunks(base64_encode(zlib_fast(rgba)), 0, w, h, id, cols, rows)
}

/// Transmit and display a frame inline: zlib compressed, base64 encoded, split
/// into chunks of at most [`DIRECT_CHUNK`] characters.
pub fn encode_direct_place(out: &mut Vec<u8>, w: u32, h: u32, id: u32, rgba: &[u8], cols: u32, rows: u32)
    ensures
        final(out)@ == old(out)@ + direct_place_bytes(w, h, id, rgba@, cols, rows),
{
    let z = zlib_compress_fast(rgba);
    encode_direct_payload(out, w, h, id, z.as_slice(), cols, rows);
}

/// The inline transmission of already compressed pixels: `compressed`
/// base64 encoded and split into chunks of at most [`DIRECT_CHUNK`]
/// characters, the first carrying the geometry.
pub fn encode_direct_payload(out: &mut Vec<u8>, w: u32, h: u32, id: u32, compressed: &[u8], cols: u32, rows: u32)
    requires
        compressed@.len() <= isize::MAX,
    ensures
        final(out)@ == old(out)@ + direct_chunks(base64_encode(compressed@), 0, w, h, id, cols, rows),
{
    let payload = base64_standard(compressed);
    let len = payload.len();
    let n = if len % DIRECT_CHUNK == 0 {
        len / DIRECT_CHUNK
    } else {
        len / DIRECT_CHUNK + 1
    };
    let mut k: usize = 0;
    let ghost start = out@;
    while k < n
        invariant
            n == chunk_count(payload@.len()),
            len == payload@.len(),
            k <= n,
            start + direct_chunks(payload@, 0, w, h, id, cols, rows) == out@ + direct_chunks(
                payload@,
                k as nat,
                w,
                h,
                id,
                cols,
                rows,
            ),
        decreases n - k,
    {
        let ghost before = out@;
        push_direct_chunk(out, payload.as_slice(), k, n, w, h, id, cols, rows);
        assert(before + direct_chunks(payload@, k as nat, w, h, id, cols, rows) =~= out@ + direct_chunks(
            payload@,
            (k + 1) as nat,
            w,
            h,
            id,
            cols,
            rows,
        ));
        k = k + 1;
    }
    assert(out@ =~= start + direct_chunks(payload@, 0, w, h, id, cols, rows));
}

fn push_chunk_ctl(out: &mut Vec<u8>, k: usize, more: u32, w: u32, h: u32, id: u32, cols: u32, rows: u32)
    ensures
        final(out)@ == old(out)@ + chunk_ctl(k as nat, w, h, id, cols, rows, more),
{
    let ghost o = out@;
    if k == 0 {
        proof {
            reveal_strlit("a=T,t=d,o=z,f=32,s=");
            reveal_strlit(",C=1,q=2,m=");
            reveal_strlit(";");
        }
        push_ascii(out, "a=T,t=d,o=z,f=32,s=");
        push_geometry(out, w, h, id, cols, rows);
        push_ascii(out, ",C=1,q=2,m=");
        push_decimal(out, more as u64);
        push_ascii(out, ";");
        assert(out@ =~= o + direct_ctl(w, h, id, cols, rows, more));
    } else {
        proof {
            reveal_strlit("m=");
            reveal_strlit(";");
        }
        push_ascii(out, "m=");
        push_decimal(out, more as u64);
        push_ascii(out, ";");
        assert(out@ =~= o + (ascii_bytes("m="@) + dec(more) + ascii_bytes(";"@)));
    }
}

/// Appends chunk `k` of the direct transport.
fn push_direct_chunk(out: &mut Vec<u8>, payload: &[u8], k: usize, n: usize, w: u32, h: u32, id: u32, cols: u32, rows: u32)
    requires
        n == chunk_count(payload@.len()),
        k < n,
    ensures
        final(out)@ == old(out)@ + direct_chunk(payload@, k as nat, w, h, id, cols, rows),
{
    let len = payload.len();
    let more: u32 = if k + 1 < n {
        1
    } else {
        0
    };
    assert(k * 4096 < len) by (nonlinear_arith)
        requires
            k < n,
            n as int == (if len % 4096 == 0 { len as int / 4096 } else { len as int / 4096 + 1 }),
    ;
    let lo = k * DIRECT_CHUNK;
    let hi = if len - lo >= DIRECT_CHUNK {
        lo + DIRECT_CHUNK
    } else {
        len
    };
    let ghost o = out@;
    push_apc(out);
    push_chunk_ctl(out, k, more, w, h, id, cols, rows);
    let ghost ctl = chunk_ctl(k as nat, w, h, id, cols, rows, more);
    assert(out@ =~= o + apc() + ctl);
    append_bytes(out, slice_subrange(payload, lo, hi));
    push_st(out);
    assert(out@ =~= o + (apc() + ctl + payload@.subrange(lo as int, hi as int) + st()));
}

/// The bytes that delete the placement `id`.
pub open spec fn delete_placement_bytes(id: u32) -> Seq<u8> {
    apc() + ascii_bytes("a=d,d=i,i="@) + dec(id) + ascii_bytes(",p="@) + dec(id) + ascii_bytes(",q=2"@) + st()
}

/// Delete the placement with the given id (image data is kept).
pub fn encode_delete_placement(out: &mut Vec<u8>, id: u32)
    ensures
        final(out)@ == old(out)@ + delete_placement_bytes(id),
{
    push_apc(out);
    proof {
        reveal_strlit("a=d,d=i,i=");
        reveal_strlit(",p=");
        reveal_strlit(",q=2");
    }
    push_ascii(out, "a=d,d=i,i=");
    push_decimal(out, id as u64);
    push_ascii(out, ",p=");
    push_decimal(out, id as u64);
    push_ascii(out, ",q=2");
    push_st(out);
    assert(final(out)@ =~= old(out)@ + delete_placement_bytes(id));
}

/// The bytes that delete all placements and free all image data.
pub open spec fn delete_all_bytes() -> Seq<u8> {
    apc() + ascii_bytes("a=d,d=A,q=2"@) + st()
}

/// Delete all placements and free all image data.
pub fn encode_delete_all(out: &mut Vec<u8>)
    ensures
        final(out)@ == old(out)@ + delete_all_bytes(),
{
    push_apc(out);
    proof {
        reveal_strlit("a=d,d=A,q=2");
    }
    push_ascii(out, "a=d,d=A,q=2");
    push_st(out);
    assert(final(out)@ =~= old(out)@ + delete_all_bytes());
}

/// Which byte path carries frame pixels to the terminal.
#[derive(Debug, Clone, Copy, PartialEq, Eq, Structural)]
pub enum Transport {
    /// POSIX shared memory, local terminals only.
    Shm,
    /// zlib + base64 inline, works over SSH.
    Direct,
}

/// Begin synchronized output.
pub open spec fn sync_begin() -> Seq<u8> {
    ascii_bytes("\x1b[?2026h"@)
}

/// End synchronized output.
pub open spec fn sync_end() -> Seq<u8> {
    ascii_bytes("\x1b[?2026l"@)
}

/// Move the cursor to the top left cell.
pub open spec fn cursor_home() -> Seq<u8> {
    ascii_bytes("\x1b[1;1H"@)
}

/// The image id of frame number `f`: alternately 1 and 2.
pub open spec fn frame_id(f: u64) -> u32 {
    (1 + f % 2) as u32
}

/// The bytes of one full-frame update: synchronized output, home cursor,
/// the new placement, then the removal of the old one.
pub open spec fn frame_bytes(
    visible: Option<u32>,
    id: u32,
    transport: Transport,
    w: u32,
    h: u32,
    cols: u32,
    rows: u32,
    rgba: Seq<u8>,
    shm_name: Option<Seq<char>>,
) -> Seq<u8> {
    let place = match transport {
        Transport::Shm => shm_place_bytes(w, h, id, shm_name->0, cols, rows),
        Transport::Direct => direct_place_bytes(w, h, id, rgba, cols, rows),
    };
    let delete = match visible {
        Some(old) => if old != id { delete_placement_bytes(old) } else { seq![] },
        None => seq![],
    };
    sync_begin() + cursor_home() + place + delete + sync_end()
}

/// The name of the shm object number `seq` of process `pid`.
pub open spec fn shm_object_name(pid: u32, seq: u32) -> Seq<char> {
    "/tg-"@ + ascii_chars(dec(pid)) + "-"@ + ascii_chars(dec(seq))
}

/// Builds the escape sequences for one full-frame update: synchronized
/// output, home cursor, new placement on top, old placement removed.
pub struct FrameEncoder {
    transport: Transport,
    frame_no: u64,
    shm_seq: u32,
    pid: u32,
    /// Placement id currently visible, if any.
    visible: Option<u32>,
}

impl FrameEncoder {
    pub closed spec fn transport(&self) -> Transport {
        self.transport
    }

    /// Number of frames encoded so far (wrapping).
    pub closed spec fn frames(&self) -> u64 {
        self.frame_no
    }

    /// Sequence number of the last shm name handed out.
    pub closed spec fn shm_seq(&self) -> u32 {
        self.shm_seq
    }

    pub closed spec fn pid(&self) -> u32 {
        self.pid
    }

    /// The placement currently on screen.
    pub closed spec fn visible(&self) -> Option<u32> {
        self.visible
    }

    pub fn new(transport: Transport, pid: u32) -> (e: Self)
        ensures
            e.transport() == transport,
            e.frames() == 0,
            e.shm_seq() == 0,
            e.pid() == pid,
            e.visible() is None,
    {
        FrameEncoder { transport, frame_no: 0, shm_seq: 0, pid, visible: None }
    }

    /// Next shm object name, at most 31 bytes including the leading slash.
    pub fn next_shm_name(&mut self) -> (name: String)
        ensures
            final(self).shm_seq() == (old(self).shm_seq() as int + 1) % 0x1_0000_0000 % 1_000_000,
            name@ == shm_object_name(old(self).pid(), final(self).shm_seq()),
            name@.len() <= 31,
            final(self).transport() == old(self).transport(),
            final(self).frames() == old(self).frames(),
            final(self).pid() == old(self).pid(),
            final(self).visible() == old(self).visible(),
    {
        self.shm_seq = self.shm_seq.wrapping_add(1) % 1_000_000;
        let mut name = String::new();
        proof {
            reveal_strlit("/tg-");
            reveal_strlit("-");
        }
        name.append("/tg-");
        push_decimal_str(&mut name, self.pid as u64);
        name.append("-");
        push_decimal_str(&mut name, self.shm_seq as u64);
        proof {
            reveal_with_fuel(pow10, 11);
            lemma_decimal_len(self.pid as nat, 10);
            lemma_decimal_len(self.shm_seq as nat, 6);
            assert(name@ =~= shm_object_name(self.pid, self.shm_seq));
        }
        name
    }

    /// Image id for the next frame: alternates between 1 and 2.
    fn next_id(&self) -> (id: u32)
        ensures
            id == frame_id(self.frame_no),
    {
        1 + (self.frame_no % 2) as u32
    }

    /// Encode a frame. On the shm transport the pixels must already be in the
    /// object named `shm_name`; on the direct transport they are read from
    /// `rgba`.
    pub fn encode_frame(
        &mut self,
        out: &mut Vec<u8>,
        w: u32,
        h: u32,
        cols: u32,
        rows: u32,
        rgba: &[u8],
        shm_name: Option<&str>,
    )
        requires
            old(self).transport() == Transport::Shm ==> shm_name is Some,
        ensures
            final(out)@ == old(out)@ + frame_bytes(
                old(self).visible(),
                frame_id(old(self).frames()),
                old(self).transport(),
                w,
                h,
                cols,
                rows,
                rgba@,
                match shm_name {
                    Some(n) => Some(n@),
                    None => None,
                },
            ),
            final(self).visible() == Some(frame_id(old(self).frames())),
            final(self).frames() == old(self).frames().wrapping_add(1),
            final(self).transport() == old(self).transport(),
            final(self).shm_seq() == old(self).shm_seq(),
            final(self).pid() == old(self).pid(),
    {
        let id = self.next_id();
        let ghost o = out@;
        proof {
            reveal_strlit("\x1b[?2026h");
            reveal_strlit("\x1b[1;1H");
            reveal_strlit("\x1b[?2026l");
        }
        push_ascii(out, "\x1b[?2026h");
        push_ascii(out, "\x1b[1;1H");
        let ghost o2 = out@;
        match self.transport {
            Transport::Shm => {
                let name = match shm_name {
                    Some(n) => n,
                    None => "",
                };
                encode_shm_place(out, w, h, id, name, cols, rows);
            },
            Transport::Direct => encode_direct_place(out, w, h, id, rgba, cols, rows),
        }
        let ghost o3 = out@;
        match self.visible {
            Some(old) => {
                if old != id {
                    encode_delete_placement(out, old);
                }
            },
            None => {},
        }
        let ghost o4 = out@;
        push_ascii(out, "\x1b[?2026l");
        proof {
            let sn = match shm_name {
                Some(n) => Some(n@),
                None => None,
            };
            assert(out@ =~= o + frame_bytes(self.visible, id, self.transport, w, h, cols, rows, rgba@, sn));
        }
        self.visible = Some(id);
        self.frame_no = self.frame_no.wrapping_add(1);
    }

    /// Forget the visible placement, for example after a resize where all
    /// placements were deleted with [`encode_delete_all`].
    pub fn reset(&mut self)
        ensures
            final(self).visible() is None,
            final(self).transport() == old(self).transport(),
            final(self).frames() == old(self).frames(),
            final(self).shm_seq() == old(self).shm_seq(),
            final(self).pid() == old(self).pid(),
    {
        self.visible = None;
    }
}

/// Two frames in a row never share an image id, so every frame after the
/// first one deletes the placement shown before it.
pub proof fn lemma_consecutive_frames_alternate(f: u64)
    ensures
        frame_id(f.wrapping_add(1)) != frame_id(f),
        frame_id(f) == 1 || frame_id(f) == 2,
{
}

} // verus!
