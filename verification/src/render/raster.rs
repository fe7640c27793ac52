//! The integer parts of the triangle rasterizer: textures, the target it
//! writes, and the color arithmetic.
//!
//! Vertex colors and textures are premultiplied alpha in gamma space, so
//! blending is `dst = src + dst * (255 - src_a) / 255` per channel with no
//! gamma conversion.
use vstd::prelude::*;

verus! {

#[derive(Clone)]
pub struct Texture {
    pub w: usize,
    pub h: usize,
    pub rgba: Vec<[u8; 4]>,
}

impl Texture {
    /// A 1x1 white texture, used for untextured meshes.
    pub fn white() -> (t: Self)
        ensures
            t.w == 1,
            t.h == 1,
            t.rgba@ == seq![[255u8, 255u8, 255u8, 255u8]],
    {
        Texture { w: 1, h: 1, rgba: vec![[255u8, 255u8, 255u8, 255u8]] }
    }

    /// The texel at `(x, y)`, row-major.
    pub fn texel(&self, x: usize, y: usize) -> (r: [u8; 4])
        requires
            x < self.w,
            y < self.h,
            self.rgba@.len() == self.w * self.h,
        ensures
            r == self.rgba@[y * self.w + x],
    {
        let n = self.rgba.len();
        proof {
            assert((y as int) * (self.w as int) + (x as int) < (self.w as int) * (self.h as int))
                by (nonlinear_arith)
                requires
                    x < self.w,
                    y < self.h,
            ;
            assert((y as int) * (self.w as int) <= (y as int) * (self.w as int) + (x as int));
        }
        self.rgba[y * self.w + x]
    }

    /// Overwrite the `iw` x `ih` region at `(px, py)` with `src` (row-major),
    /// clipped to the texture: what a partial texture update does.
    pub fn patch(&mut self, px: usize, py: usize, iw: usize, ih: usize, src: &[[u8; 4]])
        requires
            old(self).rgba@.len() == old(self).w * old(self).h,
            src@.len() == iw * ih,
        ensures
            final(self).w == old(self).w,
            final(self).h == old(self).h,
            final(self).rgba@.len() == old(self).rgba@.len(),
            forall|x: int, y: int|
                0 <= x < old(self).w && 0 <= y < old(self).h ==> #[trigger] final(self).rgba@[at(
                    old(self).w as int,
                    x,
                    y,
                )] == if in_patch(x, y, px as int, py as int, iw as int, ih as int) {
                    src@[at(iw as int, x - px, y - py)]
                } else {
                    old(self).rgba@[at(old(self).w as int, x, y)]
                },
    {
        let ghost w = self.w as int;
        let ghost h = self.h as int;
        let ghost orig = self.rgba@;
        if px >= self.w {
            proof {
                assert forall|x: int, y: int| 0 <= x < w && 0 <= y < h implies #[trigger] self.rgba@[at(w, x, y)]
                    == orig[at(w, x, y)] && !in_patch(x, y, px as int, py as int, iw as int, ih as int) by {}
            }
            return;
        }
        let n: usize = if iw < self.w - px { iw } else { self.w - px };
        // Both lengths are `usize`s, so every index below fits.
        let (_texels, _sources) = (self.rgba.len(), src.len());
        let mut row: usize = 0;
        while row < ih
            invariant
                self.w == w,
                self.h == h,
                px < w,
                n as int == if iw < w - px { iw as int } else { w - px },
                self.rgba@.len() == w * h,
                src@.len() == iw * ih,
                w * h <= usize::MAX,
                iw * ih <= usize::MAX,
                row <= ih,
                forall|x: int, y: int|
                    0 <= x < w && 0 <= y < h ==> #[trigger] self.rgba@[at(w, x, y)] == if in_patch(
                        x,
                        y,
                        px as int,
                        py as int,
                        iw as int,
                        row as int,
                    ) {
                        src@[at(iw as int, x - px, y - py)]
                    } else {
                        orig[at(w, x, y)]
                    },
            ensures
                self.rgba@.len() == w * h,
                forall|x: int, y: int|
                    0 <= x < w && 0 <= y < h ==> #[trigger] self.rgba@[at(w, x, y)] == if in_patch(
                        x,
                        y,
                        px as int,
                        py as int,
                        iw as int,
                        ih as int,
                    ) {
                        src@[at(iw as int, x - px, y - py)]
                    } else {
                        orig[at(w, x, y)]
                    },
            decreases ih - row,
        {
            if py >= self.h || row >= self.h - py {
                proof {
                    assert forall|x: int, y: int| 0 <= x < w && 0 <= y < h implies in_patch(
                        x,
                        y,
                        px as int,
                        py as int,
                        iw as int,
                        row as int,
                    ) == in_patch(x, y, px as int, py as int, iw as int, ih as int) by {}
                }
                break;
            }
            let ty = py + row;
            let mut j: usize = 0;
            while j < n
                invariant
                    self.w == w,
                    self.h == h,
                    px < w,
                    n as int == if iw < w - px { iw as int } else { w - px },
                    self.rgba@.len() == w * h,
                    src@.len() == iw * ih,
                    w * h <= usize::MAX,
                    iw * ih <= usize::MAX,
                    row < ih,
                    ty == py + row,
                    ty < h,
                    j <= n,
                    forall|x: int, y: int|
                        0 <= x < w && 0 <= y < h ==> #[trigger] self.rgba@[at(w, x, y)] == if in_patch(
                            x,
                            y,
                            px as int,
                            py as int,
                            iw as int,
                            row as int,
                        ) || (y == ty && px <= x < px + j) {
                            src@[at(iw as int, x - px, y - py)]
                        } else {
                            orig[at(w, x, y)]
                        },
                decreases n - j,
            {
                proof {
                    assert(px + j < w);
                    assert(j < iw);
                    lemma_at_bounds(w, h, px + j, ty as int);
                    lemma_at_bounds(iw as int, ih as int, j as int, row as int);
                    assert(ty * w <= ty * w + px + j);
                    assert(row * iw <= row * iw + j);
                }

                let k = ty * self.w + px + j;
                let v = src[row * iw + j];
                let ghost before = self.rgba@;
                self.rgba.set(k, v);
                proof {
                    assert forall|x: int, y: int| 0 <= x < w && 0 <= y < h implies #[trigger] self.rgba@[at(w, x, y)]
                        == if in_patch(x, y, px as int, py as int, iw as int, row as int) || (y == ty && px <= x < px
                        + j + 1) {
                        src@[at(iw as int, x - px, y - py)]
                    } else {
                        orig[at(w, x, y)]
                    } by {
                        lemma_at_bounds(w, h, x, y);
                        if at(w, x, y) == k as int {
                            lemma_at_injective(w, x, y, px + j, ty as int);
                        } else {
                            assert(self.rgba@[at(w, x, y)] == before[at(w, x, y)]);
                        }
                    }
                }
                j = j + 1;
            }
            proof {
                assert forall|x: int, y: int| 0 <= x < w && 0 <= y < h implies #[trigger] self.rgba@[at(w, x, y)]
                    == if in_patch(x, y, px as int, py as int, iw as int, row + 1) {
                    src@[at(iw as int, x - px, y - py)]
                } else {
                    orig[at(w, x, y)]
                } by {
                    if y == ty && px <= x < px + iw {
                        assert(x < px + n);
                    }
                }
            }
            row = row + 1;
        }
    }
}

/// The index of texel `(x, y)` in a row-major image `w` wide.
pub open spec fn at(w: int, x: int, y: int) -> int {
    y * w + x
}

/// `(x, y)` lies in the `iw` x `ih` region whose corner is `(px, py)`.
pub open spec fn in_patch(x: int, y: int, px: int, py: int, iw: int, ih: int) -> bool {
    px <= x < px + iw && py <= y < py + ih
}

proof fn lemma_at_bounds(w: int, h: int, x: int, y: int)
    requires
        0 <= x < w,
        0 <= y < h,
    ensures
        0 <= at(w, x, y) < w * h,
{
    assert(0 <= y * w) by (nonlinear_arith)
        requires
            0 <= y,
            0 < w,
    ;
    assert(y * w + x < w * h) by (nonlinear_arith)
        requires
            0 <= x < w,
            0 <= y < h,
    ;
}

proof fn lemma_at_injective(w: int, x: int, y: int, x2: int, y2: int)
    requires
        0 <= x < w,
        0 <= x2 < w,
        0 <= y,
        0 <= y2,
        at(w, x, y) == at(w, x2, y2),
    ensures
        x == x2,
        y == y2,
{
    if y < y2 {
        assert(y * w + x < y2 * w) by (nonlinear_arith)
            requires
                0 <= x < w,
                y < y2,
        ;
    } else if y2 < y {
        assert(y2 * w + x2 < y * w) by (nonlinear_arith)
            requires
                0 <= x2 < w,
                y2 < y,
        ;
    }
}

/// Where the rasterizer writes. `rgba` is `w * h * 4` bytes, row-major.
pub struct Target<'a> {
    pub w: usize,
    pub h: usize,
    pub rgba: &'a mut [u8],
}

/// One channel of `src` over `dst`, premultiplied: `src + dst * (255 -
/// src_a) / 255`, rounded, at most 255.
pub open spec fn over(s: u8, d: u8, sa: u8) -> u8 {
    let v = s + (d * (255 - sa) + 127) / 255;
    if v > 255 { 255 } else { v as u8 }
}

/// `src` over `dst`: an opaque source replaces the pixel, a fully
/// transparent one leaves it alone.
pub open spec fn blended(d: Seq<u8>, src: [u8; 4]) -> Seq<u8> {
    if src[3] == 255 {
        d.update(0, src[0]).update(1, src[1]).update(2, src[2]).update(3, 255)
    } else if src[3] == 0 {
        d
    } else {
        d.update(0, over(src[0], d[0], src[3])).update(1, over(src[1], d[1], src[3])).update(
            2,
            over(src[2], d[2], src[3]),
        ).update(3, over(src[3], d[3], src[3]))
    }
}

/// Blend the premultiplied `src` over the first pixel of `dst`.
pub fn blend(dst: &mut [u8], src: [u8; 4])
    requires
        old(dst)@.len() >= 4,
    ensures
        final(dst)@ == blended(old(dst)@, src),
{
    let sa = src[3] as u32;
    if sa == 255 {
        dst[0] = src[0];
        dst[1] = src[1];
        dst[2] = src[2];
        dst[3] = 255;
    } else if sa != 0 {
        let inv = 255 - sa;
        let mut c: usize = 0;
        while c < 4
            invariant
                c <= 4,
                inv == 255 - src[3],
                0 < src[3] < 255,
                dst@.len() == old(dst)@.len(),
                old(dst)@.len() >= 4,
                forall|j: int| 0 <= j < c ==> dst@[j] == over(src[j], old(dst)@[j], src[3]),
                forall|j: int| c <= j < dst@.len() ==> dst@[j] == old(dst)@[j],
            decreases 4 - c,
        {
            let d = dst[c] as u32;
            assert(d * inv <= 255 * 255) by (nonlinear_arith)
                requires
                    d <= 255,
                    inv <= 255,
            ;
            let v = src[c] as u32 + (d * inv + 127) / 255;
            dst[c] = if v > 255 {
                255
            } else {
                v as u8
            };
            c = c + 1;
        }
        assert(dst@ =~= blended(old(dst)@, src));
    }
}

/// One channel of a texel times a vertex color, both in 0..=255.
pub open spec fn mul_channel(t: u8, c: u8) -> u8 {
    ((t * c + 127) / 255) as u8
}

/// The texel tinted by the vertex color; white leaves it as it is.
pub open spec fn tinted(tex: [u8; 4], col: [u8; 4]) -> [u8; 4] {
    if col == [255u8, 255u8, 255u8, 255u8] {
        tex
    } else {
        [
            mul_channel(tex[0], col[0]),
            mul_channel(tex[1], col[1]),
            mul_channel(tex[2], col[2]),
            mul_channel(tex[3], col[3]),
        ]
    }
}

fn mul_one(t: u8, c: u8) -> (r: u8)
    ensures
        r == mul_channel(t, c),
{
    let tt = t as u32;
    let cc = c as u32;
    assert(tt * cc <= 255 * 255) by (nonlinear_arith)
        requires
            tt <= 255,
            cc <= 255,
    ;
    let p = tt * cc;
    assert((p + 127) / 255 <= 255) by (nonlinear_arith)
        requires
            p <= 255 * 255,
    ;
    ((p + 127) / 255) as u8
}

/// Multiply a texel by a vertex color, channel by channel.
pub fn mul_color(tex: [u8; 4], col: [u8; 4]) -> (r: [u8; 4])
    ensures
        r == tinted(tex, col),
{
    if col[0] == 255 && col[1] == 255 && col[2] == 255 && col[3] == 255 {
        assert(col =~= [255u8, 255u8, 255u8, 255u8]);
        return tex;
    }
    let r = [mul_one(tex[0], col[0]), mul_one(tex[1], col[1]), mul_one(tex[2], col[2]), mul_one(tex[3], col[3])];
    assert(col != [255u8, 255u8, 255u8, 255u8]) by {
        if col == [255u8, 255u8, 255u8, 255u8] {
            assert(col[0] == 255 && col[1] == 255 && col[2] == 255 && col[3] == 255);
        }
    }
    r
}

/// White is the neutral tint.
pub proof fn lemma_white_tint_is_identity(tex: [u8; 4])
    ensures
        tinted(tex, [255u8, 255u8, 255u8, 255u8]) == tex,
{
}

} // verus!
