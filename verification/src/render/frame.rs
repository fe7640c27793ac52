//! RGBA framebuffer with dirty detection against the last frame sent to the
//! terminal, plus PNG encoding for headless runs.
use vstd::prelude::*;
use crate::seqs::bytes_eq;

verus! {

/// The PNG file (RGBA, 8 bits per channel) that the `png` crate writes for
/// a `w` x `h` image with the given rows of pixels.
pub uninterp spec fn png_rgba8(w: u32, h: u32, data: Seq<u8>) -> Seq<u8>;

/// `png::Encoder` writing into memory: the header for a `w` x `h` RGBA
/// image of 8-bit channels, the pixel data, then the end chunk. The crate's
/// source refuses a zero width or height and data of another length than
/// `w * h * 4`; writing into a `Vec` cannot fail otherwise. The bytes are
/// named by `png_rgba8`.
#[verifier::external_body]
fn encode_png_rgba8(w: u32, h: u32, data: &[u8]) -> (r: Option<Vec<u8>>)
    requires
        w as int * h as int * 4 <= usize::MAX,
    ensures
        r is Some <==> (w > 0 && h > 0 && data@.len() == w as int * h as int * 4),
        r matches Some(b) ==> b@ == png_rgba8(w, h, data@),
{
    let mut buf: Vec<u8> = Vec::new();
    {
        let mut enc = png::Encoder::new(&mut buf, w, h);
        enc.set_color(png::ColorType::Rgba);
        enc.set_depth(png::BitDepth::Eight);
        let mut writer = enc.write_header().ok()?;
        writer.write_image_data(data).ok()?;
        writer.finish().ok()?;
    }
    Some(buf)
}

pub struct Framebuffer {
    w: u32,
    h: u32,
    pixels: Vec<u8>,
    last_sent: Vec<u8>,
}

/// The mathematical value of a [`Framebuffer`].
pub ghost struct FbView {
    pub w: u32,
    pub h: u32,
    pub pixels: Seq<u8>,
    pub last_sent: Seq<u8>,
}

impl View for Framebuffer {
    type V = FbView;

    closed spec fn view(&self) -> FbView {
        FbView { w: self.w, h: self.h, pixels: self.pixels@, last_sent: self.last_sent@ }
    }
}

/// `rgba` repeated over `n` pixels.
pub open spec fn filled(n: int, rgba: [u8; 4]) -> Seq<u8> {
    Seq::new((n * 4) as nat, |i: int| rgba[i % 4])
}

/// A fresh `w` x `h` frame: all zero, nothing sent yet.
pub open spec fn fresh(w: u32, h: u32) -> FbView {
    FbView { w, h, pixels: Seq::new((w * h * 4) as nat, |i: int| 0u8), last_sent: Seq::empty() }
}

impl FbView {
    /// Four bytes per pixel, row after row.
    pub open spec fn wf(self) -> bool {
        self.pixels.len() == self.w * self.h * 4
    }

    pub open spec fn dirty(self) -> bool {
        self.pixels != self.last_sent
    }

    /// The pixel at `(x, y)`.
    pub open spec fn pixel_at(self, x: int, y: int) -> [u8; 4] {
        let i = (y * self.w + x) * 4;
        [self.pixels[i], self.pixels[i + 1], self.pixels[i + 2], self.pixels[i + 3]]
    }
}

impl Framebuffer {
    pub fn new(w: u32, h: u32) -> (f: Self)
        requires
            w as int * h as int * 4 <= usize::MAX,
        ensures
            f@ == fresh(w, h),
            f@.wf(),
    {
        let n = (w as usize) * (h as usize) * 4;
        let pixels: Vec<u8> = vec![0; n];
        assert(pixels@ =~= fresh(w, h).pixels);
        Framebuffer { w, h, pixels, last_sent: Vec::new() }
    }

    pub fn width(&self) -> (r: u32)
        ensures
            r == self@.w,
    {
        self.w
    }

    pub fn height(&self) -> (r: u32)
        ensures
            r == self@.h,
    {
        self.h
    }

    /// Reallocate for a new size and forget the last sent frame.
    pub fn resize(&mut self, w: u32, h: u32)
        requires
            w as int * h as int * 4 <= usize::MAX,
        ensures
            (w, h) == (old(self)@.w, old(self)@.h) ==> final(self)@ == old(self)@,
            (w, h) != (old(self)@.w, old(self)@.h) ==> final(self)@ == fresh(w, h),
    {
        if w != self.w || h != self.h {
            *self = Self::new(w, h);
        }
    }

    /// Paint every pixel `rgba`.
    pub fn clear(&mut self, rgba: [u8; 4])
        requires
            old(self)@.wf(),
        ensures
            final(self)@ == (FbView { pixels: filled(old(self)@.w * old(self)@.h, rgba), ..old(self)@ }),
            final(self)@.wf(),
    {
        let n = self.pixels.len();
        let mut i: usize = 0;
        while i < n
            invariant
                n == self.pixels@.len(),
                n == self.w * self.h * 4,
                i <= n,
                self.w == old(self).w,
                self.h == old(self).h,
                self.last_sent@ == old(self).last_sent@,
                forall|j: int| 0 <= j < i ==> self.pixels@[j] == rgba[j % 4],
            decreases n - i,
        {
            self.pixels.set(i, rgba[i % 4]);
            i = i + 1;
        }
        assert(self.pixels@ =~= filled(self.w * self.h, rgba));
    }

    pub fn pixels(&self) -> (r: &[u8])
        ensures
            r@ == self@.pixels,
    {
        self.pixels.as_slice()
    }

    /// The pixels to paint in place; the size stays.
    pub fn pixels_mut(&mut self) -> (r: &mut [u8])
        ensures
            r@ == old(self)@.pixels,
            final(r)@.len() == r@.len() ==> final(self)@ == (FbView { pixels: final(r)@, ..old(self)@ }),
    {
        self.pixels.as_mut_slice()
    }

    /// True when the current pixels differ from the last frame marked sent.
    pub fn is_dirty(&self) -> (r: bool)
        ensures
            r == self@.dirty(),
    {
        !bytes_eq(self.pixels.as_slice(), self.last_sent.as_slice())
    }

    /// Remember the current pixels as the frame the terminal shows.
    pub fn mark_sent(&mut self)
        ensures
            final(self)@ == (FbView { last_sent: old(self)@.pixels, ..old(self)@ }),
    {
        self.last_sent = vstd::slice::slice_to_vec(self.pixels.as_slice());
    }

    /// The pixel at `(x, y)`.
    pub fn pixel(&self, x: u32, y: u32) -> (r: [u8; 4])
        requires
            self@.wf(),
            x < self@.w,
            y < self@.h,
        ensures
            r == self@.pixel_at(x as int, y as int),
    {
        let n = self.pixels.len();
        proof {
            assert(((y as int) * (self.w as int) + (x as int)) * 4 + 4 <= (self.w as int) * (self.h as int) * 4)
                by (nonlinear_arith)
                requires
                    x < self.w,
                    y < self.h,
            ;
            assert((y as int) * (self.w as int) <= (y as int) * (self.w as int) + (x as int));
        }
        let i = ((y as usize) * (self.w as usize) + (x as usize)) * 4;
        [self.pixels[i], self.pixels[i + 1], self.pixels[i + 2], self.pixels[i + 3]]
    }

    /// The frame as a PNG file (RGBA, 8 bits per channel); `None` for an
    /// empty frame, which PNG cannot hold.
    pub fn encode_png(&self) -> (r: Option<Vec<u8>>)
        requires
            self@.wf(),
        ensures
            r is Some <==> (self@.w > 0 && self@.h > 0),
            r matches Some(b) ==> b@ == png_rgba8(self@.w, self@.h, self@.pixels),
    {
        let n = self.pixels.len();
        encode_png_rgba8(self.w, self.h, self.pixels.as_slice())
    }
}

/// A frame just marked sent is clean, and it stays clean when repainted
/// with the same color it was sent with.
pub proof fn lemma_repaint_same_color_is_clean(f: FbView, rgba: [u8; 4])
    requires
        f.wf(),
        f.pixels == filled(f.w * f.h, rgba),
    ensures
        !(FbView { last_sent: f.pixels, ..f }).dirty(),
        !(FbView { pixels: filled(f.w * f.h, rgba), last_sent: f.pixels, ..f }).dirty(),
{
}

/// After a clear every pixel has the clear color.
pub proof fn lemma_clear_sets_every_pixel(f: FbView, rgba: [u8; 4], x: int, y: int)
    requires
        f.wf(),
        0 <= x < f.w,
        0 <= y < f.h,
    ensures
        (FbView { pixels: filled(f.w * f.h, rgba), ..f }).pixel_at(x, y) == rgba,
{
    let i = (y * f.w + x) * 4;
    assert(y * f.w + x < f.w * f.h) by (nonlinear_arith)
        requires
            0 <= x < f.w,
            0 <= y < f.h,
    ;
    assert(i % 4 == 0 && (i + 1) % 4 == 1 && (i + 2) % 4 == 2 && (i + 3) % 4 == 3);
    let p = filled(f.w * f.h, rgba);
    assert(p[i] == rgba[0] && p[i + 1] == rgba[1] && p[i + 2] == rgba[2] && p[i + 3] == rgba[3]);
    assert((FbView { pixels: p, ..f }).pixel_at(x, y) =~= rgba);
}

} // verus!
