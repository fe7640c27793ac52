//! The first interactive mode: a solid frame with a bouncing square, quit
//! with `q` or Ctrl+C. What here is not I/O: quit detection and painting.
use vstd::prelude::*;
use vstd::slice::slice_subrange;
use vstd::utf8::valid_utf8;
use vstd::arithmetic::div_mod::{lemma_fundamental_div_mod, lemma_fundamental_div_mod_converse, lemma_mod_bound};

use crate::seqs::{split_bytes, split_seq, lemma_split_seq_len};
use crate::term::input::{find_final, first_final, is_first_final};
use crate::text::str_from_utf8;

verus! {

/// The bytes of a kitty key report's parameters as `str::from_utf8` leaves
/// them: unchanged when valid, else nothing.
pub open spec fn utf8_or_empty(p: Seq<u8>) -> Seq<u8> {
    if valid_utf8(p) {
        p
    } else {
        seq![]
    }
}

/// The kitty key report `CSI key:... ; mods:event u` asks to quit: `q`
/// (113) or Ctrl+C (99 with modifiers 5), unless it is a release (event 3).
pub open spec fn quit_key(p: Seq<u8>) -> bool {
    let fields = split_seq(p, 0x3bu8);
    let key = split_seq(fields[0], 0x3au8)[0];
    let m = if fields.len() >= 2 {
        split_seq(fields[1], 0x3au8)
    } else {
        seq![seq![0x31u8]]
    };
    let mods = m[0];
    let event = if m.len() >= 2 {
        m[1]
    } else {
        seq![0x31u8]
    };
    event != seq![0x33u8] && (key == seq![0x31u8, 0x31, 0x33] || (key == seq![0x39u8, 0x39] && mods == seq![
        0x35u8,
    ]))
}

/// Scanning from `i`: a `q`, or a kitty key report that quits, before the
/// bytes end or a CSI is cut off.
pub open spec fn quit_from(b: Seq<u8>, i: int) -> bool
    decreases b.len() - i,
{
    if i < 0 || i >= b.len() {
        false
    } else if b[i] == 0x71 {
        true
    } else if b[i] == 0x1b && i + 1 < b.len() && b[i + 1] == 0x5b {
        let body = b.skip(i + 2);
        match first_final(body) {
            None => false,
            Some(fin) => if body[fin] == 0x75 && quit_key(utf8_or_empty(body.take(fin))) {
                true
            } else if fin >= 0 {
                quit_from(b, i + 2 + fin + 1)
            } else {
                false
            },
        }
    } else {
        quit_from(b, i + 1)
    }
}

/// Quit on a raw Ctrl+C byte anywhere, or as [`quit_from`] finds.
pub open spec fn wants_quit_spec(b: Seq<u8>) -> bool {
    b.contains(0x03u8) || quit_from(b, 0)
}

fn is_one(p: &[u8], v: u8) -> (r: bool)
    ensures
        r == (p@ == seq![v]),
{
    let r = p.len() == 1 && p[0] == v;
    proof {
        if p@ == seq![v] {
            assert(p@[0] == v);
        }
        if r {
            assert(p@ =~= seq![v]);
        }
    }
    r
}

fn quit_key_exec(params: &[u8]) -> (r: bool)
    ensures
        r == quit_key(utf8_or_empty(params@)),
{
    let empty: Vec<u8> = Vec::new();
    let p: &[u8] = if str_from_utf8(params).is_some() {
        params
    } else {
        empty.as_slice()
    };
    assert(p@ == utf8_or_empty(params@));
    let fields = split_bytes(p, 0x3b);
    proof {
        lemma_split_seq_len(p@, 0x3bu8);
    }
    let keys = split_bytes(fields[0].as_slice(), 0x3a);
    proof {
        lemma_split_seq_len(fields@[0]@, 0x3au8);
    }
    let key = keys[0].as_slice();
    let one: Vec<u8> = vec![0x31];
    let ghost fs = split_seq(p@, 0x3bu8);
    let ghost mv = if fs.len() >= 2 {
        split_seq(fs[1], 0x3au8)
    } else {
        seq![seq![0x31u8]]
    };
    let m: Vec<Vec<u8>> = if fields.len() >= 2 {
        proof {
            lemma_split_seq_len(fields@[1]@, 0x3au8);
        }
        split_bytes(fields[1].as_slice(), 0x3a)
    } else {
        let inner: Vec<u8> = vec![0x31u8];
        let v: Vec<Vec<u8>> = vec![inner];
        assert(v@[0]@ =~= seq![0x31u8]);
        v
    };
    assert(m@.len() == mv.len());
    assert(mv.len() >= 1);
    assert(m@[0]@ == mv[0]);
    assert(m@.len() >= 2 ==> m@[1]@ == mv[1]);
    let mods = m[0].as_slice();
    let released = m.len() >= 2 && is_one(m[1].as_slice(), 0x33);
    let is_q = key.len() == 3 && key[0] == 0x31 && key[1] == 0x31 && key[2] == 0x33;
    let is_c = key.len() == 2 && key[0] == 0x39 && key[1] == 0x39;
    proof {
        if key@ == seq![0x31u8, 0x31, 0x33] {
            assert(key@[0] == 0x31 && key@[1] == 0x31 && key@[2] == 0x33);
        }
        if is_q {
            assert(key@ =~= seq![0x31u8, 0x31, 0x33]);
        }
        if key@ == seq![0x39u8, 0x39] {
            assert(key@[0] == 0x39 && key@[1] == 0x39);
        }
        if is_c {
            assert(key@ =~= seq![0x39u8, 0x39]);
        }
        if m@.len() < 2 {
            assert(seq![0x31u8] != seq![0x33u8]) by {
                assert(seq![0x31u8][0] != seq![0x33u8][0]);
            }
        }
    }
    !released && (is_q || (is_c && is_one(mods, 0x35)))
}

/// Minimal quit detection: `q`, Ctrl+C as a raw byte, and the kitty
/// keyboard encodings `CSI 113 ... u` and `CSI 99 ; 5 u`.
pub fn wants_quit(bytes: &[u8]) -> (r: bool)
    ensures
        r == wants_quit_spec(bytes@),
{
    let mut k: usize = 0;
    while k < bytes.len()
        invariant
            k <= bytes.len(),
            forall|j: int| 0 <= j < k ==> bytes@[j] != 0x03,
        decreases bytes.len() - k,
    {
        if bytes[k] == 0x03 {
            assert(bytes@[k as int] == 0x03);
            return true;
        }
        k = k + 1;
    }
    assert(!bytes@.contains(0x03u8));
    let mut i: usize = 0;
    while i < bytes.len()
        invariant
            i <= bytes.len(),
            !bytes@.contains(0x03u8),
            quit_from(bytes@, 0) == quit_from(bytes@, i as int),
        decreases bytes.len() - i,
    {
        if bytes[i] == 0x71 {
            return true;
        }
        if bytes[i] == 0x1b && i + 1 < bytes.len() && bytes[i + 1] == 0x5b {
            let body = slice_subrange(bytes, i + 2, bytes.len());
            assert(body@ == bytes@.skip(i + 2));
            let fin = match find_final(body) {
                Some(f) => f,
                None => return false,
            };
            proof {
                let c = choose|c: int| is_first_final(body@, c);
                assert(is_first_final(body@, c));
            }
            let params = slice_subrange(body, 0, fin);
            assert(params@ == body@.take(fin as int));
            if body[fin] == 0x75 && quit_key_exec(params) {
                return true;
            }
            i = i + 2 + fin + 1;
        } else {
            i = i + 1;
        }
    }
    false
}

/// The background of the demo frame.
pub const BG: [u8; 4] = [0x1e, 0x1e, 0x2e, 0xff];

/// The color of the square.
pub const SQUARE: [u8; 4] = [0xf3, 0x8b, 0xa8, 0xff];

/// The square's side in pixels.
pub const SQUARE_SIZE: u32 = 40;


/// The color of pixel `q` of a `w` by `h` frame with the square's corner at
/// (`x0`, `y0`): the square where it covers the frame, else the background.
pub open spec fn pixel_color(w: int, h: int, x0: int, y0: int, q: int) -> Seq<u8> {
    if 0 <= q < w * h && x0 <= q % w < x0 + 40 && y0 <= q / w < y0 + 40 {
        SQUARE@
    } else {
        BG@
    }
}

/// Pixel `q` lies in the square and in a row before `y`, or in row `y`
/// before column `x`.
pub open spec fn drawn(w: int, h: int, x0: int, y0: int, q: int, y: int, x: int) -> bool {
    &&& 0 <= q < w * h
    &&& x0 <= q % w < x0 + 40
    &&& y0 <= q / w < y0 + 40
    &&& (q / w < y || (q / w == y && q % w < x))
}

proof fn lemma_pixel_coords(q: int, w: int, h: int)
    requires
        0 < w,
        0 <= q < w * h,
    ensures
        0 <= q % w < w,
        0 <= q / w < h,
        q == (q / w) * w + q % w,
{
    lemma_fundamental_div_mod(q, w);
    lemma_mod_bound(q, w);
    let a = q / w;
    let r = q % w;
    assert(w * a == a * w) by (nonlinear_arith);
    assert(0 <= a) by (nonlinear_arith)
        requires
            q == w * a + r,
            0 <= r < w,
            0 <= q,
            0 < w,
    ;
    assert(a < h) by (nonlinear_arith)
        requires
            q == w * a + r,
            0 <= r,
            q < w * h,
            0 < w,
    ;
}

proof fn lemma_pixel_at(x: int, y: int, w: int, h: int)
    requires
        0 <= x < w,
        0 <= y < h,
    ensures
        (y * w + x) % w == x,
        (y * w + x) / w == y,
        0 <= y * w + x < w * h,
{
    lemma_fundamental_div_mod_converse(y * w + x, w, y, x);
    assert(y * w + x < w * h) by (nonlinear_arith)
        requires
            0 <= x < w,
            0 <= y < h,
    ;
    assert(0 <= y * w) by (nonlinear_arith)
        requires
            0 <= x < w,
            0 <= y,
    ;
}

/// Write the four bytes of pixel `p`.
fn put_pixel(fb: &mut [u8], p: usize, c: [u8; 4])
    requires
        4 * p + 4 <= old(fb)@.len(),
    ensures
        final(fb)@.len() == old(fb)@.len(),
        forall|i: int|
            0 <= i < old(fb)@.len() ==> #[trigger] final(fb)@[i] == if 4 * p <= i < 4 * p + 4 {
                c@[i - 4 * p]
            } else {
                old(fb)@[i]
            },
{
    let b = 4 * p;
    fb[b] = c[0];
    fb[b + 1] = c[1];
    fb[b + 2] = c[2];
    fb[b + 3] = c[3];
}

/// Paint the demo frame: the background everywhere, then the square with
/// its corner at (`x0`, `y0`), clipped to the `w` by `h` frame.
pub fn paint(fb: &mut [u8], w: u32, h: u32, x0: u32, y0: u32)
    requires
        (w as int) * (h as int) <= u32::MAX,
        4 * ((w as int) * (h as int)) <= old(fb)@.len(),
        x0 + SQUARE_SIZE <= u32::MAX,
        y0 + SQUARE_SIZE <= u32::MAX,
    ensures
        final(fb)@.len() == old(fb)@.len(),
        forall|i: int|
            0 <= i < 4 * (old(fb)@.len() / 4) ==> #[trigger] final(fb)@[i] == pixel_color(
                w as int,
                h as int,
                x0 as int,
                y0 as int,
                i / 4,
            )[i % 4],
        forall|i: int| 4 * (old(fb)@.len() / 4) <= i < old(fb)@.len() ==> #[trigger] final(fb)@[i] == old(fb)@[i],
{
    let ghost start = fb@;
    let n = fb.len() / 4;
    let mut p: usize = 0;
    while p < n
        invariant
            p <= n,
            n == start.len() / 4,
            fb@.len() == start.len(),
            forall|i: int| 0 <= i < 4 * p ==> #[trigger] fb@[i] == BG@[i % 4],
            forall|i: int| 4 * p <= i < start.len() ==> #[trigger] fb@[i] == start[i],
        decreases n - p,
    {
        put_pixel(fb, p, BG);
        p = p + 1;
    }
    let x1 = if x0 + SQUARE_SIZE < w {
        x0 + SQUARE_SIZE
    } else {
        w
    };
    let y1 = if y0 + SQUARE_SIZE < h {
        y0 + SQUARE_SIZE
    } else {
        h
    };
    let ghost (wi, hi, xi, yi) = (w as int, h as int, x0 as int, y0 as int);
    let mut y: u32 = y0;
    proof {
        assert forall|i: int| 0 <= i < 4 * n implies #[trigger] fb@[i] == (if drawn(wi, hi, xi, yi, i / 4, y as int, x0 as int) {
            SQUARE@[i % 4]
        } else {
            BG@[i % 4]
        }) by {
            if drawn(wi, hi, xi, yi, i / 4, y as int, x0 as int) {
                lemma_pixel_coords(i / 4, wi, hi);
            }
        }
    }
    while y < y1
        invariant
            y0 <= y,
            y1 <= h,
            y1 <= y0 + SQUARE_SIZE,
            y1 == h || y1 == y0 + SQUARE_SIZE,
            y <= y1 || y1 <= y0,
            x1 <= w,
            x1 <= x0 + SQUARE_SIZE,
            x1 == w || x1 == x0 + SQUARE_SIZE,
            (wi, hi, xi, yi) == (w as int, h as int, x0 as int, y0 as int),
            (w as int) * (h as int) <= u32::MAX,
            4 * ((w as int) * (h as int)) <= start.len(),
            n == start.len() / 4,
            fb@.len() == start.len(),
            forall|i: int| 0 <= i < 4 * n ==> #[trigger] fb@[i] == (if drawn(wi, hi, xi, yi, i / 4, y as int, x0 as int) {
                SQUARE@[i % 4]
            } else {
                BG@[i % 4]
            }),
            forall|i: int| 4 * n <= i < start.len() ==> #[trigger] fb@[i] == start[i],
        decreases y1 - y,
    {
        let mut x: u32 = x0;
        while x < x1
            invariant
                x0 <= x,
                x <= x1 || x1 <= x0,
                y0 <= y < y1,
                y1 <= h,
                x1 <= w,
                x1 <= x0 + SQUARE_SIZE,
                y1 <= y0 + SQUARE_SIZE,
                x1 == w || x1 == x0 + SQUARE_SIZE,
                y1 == h || y1 == y0 + SQUARE_SIZE,
                (wi, hi, xi, yi) == (w as int, h as int, x0 as int, y0 as int),
                (w as int) * (h as int) <= u32::MAX,
                4 * ((w as int) * (h as int)) <= start.len(),
                n == start.len() / 4,
                fb@.len() == start.len(),
                forall|i: int| 0 <= i < 4 * n ==> #[trigger] fb@[i] == (if drawn(wi, hi, xi, yi, i / 4, y as int, x as int) {
                    SQUARE@[i % 4]
                } else {
                    BG@[i % 4]
                }),
                forall|i: int| 4 * n <= i < start.len() ==> #[trigger] fb@[i] == start[i],
            decreases x1 - x,
        {
            proof {
                lemma_pixel_at(x as int, y as int, wi, hi);
                assert((y as int) * (w as int) + (x as int) < (w as int) * (h as int));
                assert(4 * ((y as int) * (w as int) + (x as int)) + 4 <= 4 * n);
            }
            let q: usize = (y as usize) * (w as usize) + (x as usize);
            let ghost before = fb@;
            put_pixel(fb, q, SQUARE);
            proof {
                assert forall|i: int| 0 <= i < 4 * n implies #[trigger] fb@[i] == (if drawn(wi, hi, xi, yi, i / 4, y as int, x + 1) {
                    SQUARE@[i % 4]
                } else {
                    BG@[i % 4]
                }) by {
                    let k = i / 4;
                    if 4 * q <= i < 4 * q + 4 {
                        assert(k == q);
                    } else {
                        if drawn(wi, hi, xi, yi, k, y as int, x + 1) && k / wi == y && k % wi == x {
                            lemma_pixel_coords(k, wi, hi);
                        }
                        if drawn(wi, hi, xi, yi, k, y as int, x as int) {
                            lemma_pixel_coords(k, wi, hi);
                        }
                    }
                }
            }
            x = x + 1;
        }
        proof {
            assert forall|i: int| 0 <= i < 4 * n implies #[trigger] fb@[i] == (if drawn(wi, hi, xi, yi, i / 4, y + 1, x0 as int) {
                SQUARE@[i % 4]
            } else {
                BG@[i % 4]
            }) by {
                let k = i / 4;
                assert(x1 <= x);
                if wi > 0 && 0 <= k < wi * hi {
                    lemma_pixel_coords(k, wi, hi);
                    if k % wi < x0 + 40 {
                        assert(k % wi < x1);
                    }
                    if drawn(wi, hi, xi, yi, k, y + 1, x0 as int) {
                        assert(k / wi <= y);
                        assert(drawn(wi, hi, xi, yi, k, y as int, x as int));
                    }
                    if drawn(wi, hi, xi, yi, k, y as int, x as int) {
                        assert(drawn(wi, hi, xi, yi, k, y + 1, x0 as int));
                    }
                } else if wi == 0 {
                    assert(wi * hi == 0) by (nonlinear_arith)
                        requires
                            wi == 0,
                    ;
                }
                assert(drawn(wi, hi, xi, yi, k, y as int, x as int) == drawn(wi, hi, xi, yi, k, y + 1, x0 as int));
            }
        }
        y = y + 1;
    }
    proof {
        assert forall|i: int| 0 <= i < 4 * n implies #[trigger] fb@[i] == pixel_color(wi, hi, xi, yi, i / 4)[i % 4] by {
            let k = i / 4;
            assert(y1 <= y);
            if wi > 0 && 0 <= k < wi * hi {
                lemma_pixel_coords(k, wi, hi);
                if k / wi < y0 + 40 {
                    assert(k / wi < y1);
                }
            } else if wi == 0 {
                assert(wi * hi == 0) by (nonlinear_arith)
                    requires
                        wi == 0,
                ;
            }
            assert(drawn(wi, hi, xi, yi, k, y as int, x0 as int) == (0 <= k < wi * hi && xi <= k % wi < xi + 40 && yi
                <= k / wi < yi + 40));
        }
    }
}

} // verus!
