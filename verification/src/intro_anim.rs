//! The intro animation: the logo's frames, composed from a GIF, and their
//! rendering as half-block character cells.

use vstd::prelude::*;
use vstd::string::StringExecFns;
use vstd::arithmetic::div_mod::lemma_fundamental_div_mod_converse;

verus! {

/// A colour given by its red, green and blue parts.
#[derive(Clone, Copy, PartialEq, Eq, Structural, Debug)]
pub struct Rgb {
    pub r: u8,
    pub g: u8,
    pub b: u8,
}

/// One character cell drawn as an upper half block: its foreground colour
/// is the upper pixel, its background colour the lower one.
#[derive(Clone, Copy, PartialEq, Eq, Structural, Debug)]
pub struct HalfBlock {
    pub fg: Rgb,
    pub bg: Rgb,
}

/// The screen's background colour, shown where a pixel is transparent.
pub open spec fn background() -> Rgb {
    Rgb { r: 13, g: 17, b: 23 }
}

/// The colour of pixel `(x, y)` of an RGBA image `width` pixels wide: its own
/// colour if it is mostly opaque (alpha above 128), the background otherwise.
pub open spec fn pixel_colour(pixels: Seq<u8>, width: int, y: int, x: int) -> Rgb {
    let base = (y * width + x) * 4;
    if pixels[base + 3] > 128 {
        Rgb { r: pixels[base], g: pixels[base + 1], b: pixels[base + 2] }
    } else {
        background()
    }
}

/// The cell in column `x` of the cell row that shows pixel rows `y` and `y + 1`.
pub open spec fn half_block(pixels: Seq<u8>, width: int, height: int, y: int, x: int) -> HalfBlock {
    HalfBlock {
        fg: pixel_colour(pixels, width, y, x),
        bg: if y + 1 < height {
            pixel_colour(pixels, width, y + 1, x)
        } else {
            background()
        },
    }
}

/// The cell rows of an image: one row for each two pixel rows (the last one
/// alone if the height is odd), one cell per pixel column.
pub open spec fn half_block_rows(pixels: Seq<u8>, width: int, height: int) -> Seq<Seq<HalfBlock>> {
    Seq::new(
        ((height + 1) / 2) as nat,
        |r: int| Seq::new(width as nat, |x: int| half_block(pixels, width, height, 2 * r, x)),
    )
}

/// The last pixel row at which a cell row starts.
pub open spec fn last_top_row(height: int) -> int {
    if height % 2 == 0 {
        height - 2
    } else {
        height - 1
    }
}

/// The pixel indices that `frame_to_text` computes, counted in `u16` as it
/// does, stay within `u16`.
pub open spec fn indices_fit_u16(width: u16, height: u16) -> bool {
    width == 0 || height == 0 || (last_top_row(height as int) + 1) * width + width - 1
        <= u16::MAX
}

/// The image rendered as rows of half-block cells.
pub fn frame_to_text(pixels: &[u8], width: u16, height: u16) -> (rows: Vec<Vec<HalfBlock>>)
    requires
        pixels@.len() >= height * width * 4,
        indices_fit_u16(width, height),
    ensures
        rows@.map_values(|row: Vec<HalfBlock>| row@) == half_block_rows(
            pixels@,
            width as int,
            height as int,
        ),
{
    let ghost spec_rows = half_block_rows(pixels@, width as int, height as int);
    let out_h = height / 2 + height % 2;
    let mut lines: Vec<Vec<HalfBlock>> = Vec::new();
    let mut r: u16 = 0;
    while r < out_h
        invariant
            r <= out_h,
            out_h == (height + 1) / 2,
            pixels@.len() >= height * width * 4,
            indices_fit_u16(width, height),
            lines@.len() == r,
            forall|i: int| 0 <= i < r ==> #[trigger] lines@[i]@ == spec_rows[i],
            spec_rows == half_block_rows(pixels@, width as int, height as int),
        decreases out_h - r,
    {
        let y: u16 = 2 * r;
        assert(y < height);
        assert(y <= last_top_row(height as int));
        let mut spans: Vec<HalfBlock> = Vec::new();
        let mut x: u16 = 0;
        while x < width
            invariant
                y < height,
                y as int == 2 * r,
                y <= last_top_row(height as int),
                r < out_h,
                out_h == (height + 1) / 2,
                x <= width,
                pixels@.len() >= height * width * 4,
                indices_fit_u16(width, height),
                spans@.len() == x,
                forall|j: int| 0 <= j < x ==> #[trigger] spans@[j] == spec_rows[r as int][j],
                spec_rows == half_block_rows(pixels@, width as int, height as int),
            decreases width - x,
        {
            let bg = Rgb { r: 13, g: 17, b: 23 };
            proof {
                let ltr = last_top_row(height as int);
                assert((y + 1) * width + x <= (ltr + 1) * width + width - 1) by (nonlinear_arith)
                    requires
                        y <= ltr,
                        x < width,
                        0 <= y,
                ;
                assert(y * width <= (y + 1) * width) by (nonlinear_arith)
                    requires
                        0 <= y,
                        0 <= width,
                ;
            }
            let top_index: u16 = y * width + x;
            let bot_index: u16 = (y + 1) * width + x;
            let top_base = top_index as usize * 4;
            assert(top_base + 4 <= height * width * 4) by (nonlinear_arith)
                requires
                    top_base == (y * width + x) * 4,
                    y < height,
                    x < width,
            ;
            let fg = if pixels[top_base + 3] > 128 {
                Rgb { r: pixels[top_base], g: pixels[top_base + 1], b: pixels[top_base + 2] }
            } else {
                bg
            };
            let below = if y + 1 < height {
                let bot_base = bot_index as usize * 4;
                assert(bot_base + 4 <= height * width * 4) by (nonlinear_arith)
                    requires
                        bot_base == ((y + 1) * width + x) * 4,
                        y + 1 < height,
                        x < width,
                ;
                if pixels[bot_base + 3] > 128 {
                    Rgb { r: pixels[bot_base], g: pixels[bot_base + 1], b: pixels[bot_base + 2] }
                } else {
                    bg
                }
            } else {
                bg
            };
            let cell = HalfBlock { fg, bg: below };
            let ghost yy = y as int;
            assert(top_base as int == (yy * width + x) * 4);
            assert(fg == pixel_colour(pixels@, width as int, yy, x as int));
            assert(y + 1 < height ==> bot_index as int * 4 == ((yy + 1) * width + x) * 4);
            assert(cell == half_block(pixels@, width as int, height as int, 2 * r, x as int));
            spans.push(cell);
            x += 1;
        }
        assert(spans@ =~= spec_rows[r as int]);
        lines.push(spans);
        r += 1;
    }
    assert(lines@.map_values(|row: Vec<HalfBlock>| row@) =~= spec_rows);
    lines
}

/// What to do with a frame's area once it was shown.
#[derive(Clone, Copy, PartialEq, Eq, Structural, Debug)]
pub enum Disposal {
    /// Nothing in particular; the frame stays.
    Any,
    /// The frame stays.
    Keep,
    /// The frame's area is cleared to transparent.
    Background,
    /// The canvas is restored to what it was before the frame.
    Previous,
}

/// One decoded GIF frame: where it lies on the canvas, how long it shows
/// (in hundredths of a second), how it is disposed of, and its RGBA pixels,
/// row by row.
pub struct RawFrame {
    pub width: u16,
    pub height: u16,
    pub left: u16,
    pub top: u16,
    pub delay: u16,
    pub dispose: Disposal,
    pub buffer: Vec<u8>,
}

/// A decoded GIF frame as values.
pub struct RawFrameView {
    pub width: u16,
    pub height: u16,
    pub left: u16,
    pub top: u16,
    pub delay: u16,
    pub dispose: Disposal,
    pub buffer: Seq<u8>,
}

impl View for RawFrame {
    type V = RawFrameView;

    open spec fn view(&self) -> RawFrameView {
        RawFrameView {
            width: self.width,
            height: self.height,
            left: self.left,
            top: self.top,
            delay: self.delay,
            dispose: self.dispose,
            buffer: self.buffer@,
        }
    }
}

/// The frames as values.
pub open spec fn raw_views(raw: Seq<RawFrame>) -> Seq<RawFrameView> {
    raw.map_values(|f: RawFrame| f@)
}

/// Whether canvas pixel `p` (of a canvas `w` pixels wide) lies in the frame.
pub open spec fn in_frame(f: RawFrame, w: int, p: int) -> bool {
    let x = p % w - f.left;
    let y = p / w - f.top;
    0 <= x < f.width && 0 <= y < f.height
}

/// The frame pixel that lies on canvas pixel `p`.
pub open spec fn src_pixel(f: RawFrame, w: int, p: int) -> int {
    (p / w - f.top) * f.width + (p % w - f.left)
}

/// Whether frame pixel `k` is opaque enough to be drawn (alpha at least 128).
pub open spec fn opaque_at(f: RawFrame, k: int) -> bool {
    f.buffer@[k * 4 + 3] >= 128
}

/// The canvas with the frame's pixels `0..k` (in row order) drawn where they
/// are opaque.
pub open spec fn painted_upto(canvas: Seq<u8>, f: RawFrame, w: int, k: int) -> Seq<u8> {
    Seq::new(
        canvas.len(),
        |i: int|
            {
                let p = i / 4;
                if in_frame(f, w, p) && src_pixel(f, w, p) < k && opaque_at(f, src_pixel(f, w, p)) {
                    f.buffer@[src_pixel(f, w, p) * 4 + i % 4]
                } else {
                    canvas[i]
                }
            },
    )
}

/// The canvas with the frame drawn on it: each canvas pixel under an opaque
/// frame pixel takes that pixel's RGBA value.
pub open spec fn painted(canvas: Seq<u8>, f: RawFrame, w: int) -> Seq<u8> {
    painted_upto(canvas, f, w, f.width * f.height)
}

/// The canvas with the alpha of the frame's pixels `0..k` set to 0.
pub open spec fn cleared_upto(canvas: Seq<u8>, f: RawFrame, w: int, k: int) -> Seq<u8> {
    Seq::new(
        canvas.len(),
        |i: int|
            if i % 4 == 3 && in_frame(f, w, i / 4) && src_pixel(f, w, i / 4) < k {
                0u8
            } else {
                canvas[i]
            },
    )
}

/// The canvas with the frame's area made transparent.
pub open spec fn cleared(canvas: Seq<u8>, f: RawFrame, w: int) -> Seq<u8> {
    cleared_upto(canvas, f, w, f.width * f.height)
}

/// The canvas once frame `f` was drawn on `before` (giving `shown`) and then
/// disposed of.
pub open spec fn disposed(before: Seq<u8>, shown: Seq<u8>, f: RawFrame, w: int) -> Seq<u8> {
    match f.dispose {
        Disposal::Background => cleared(shown, f, w),
        Disposal::Previous => before,
        _ => shown,
    }
}

/// The images shown, one per frame, starting from `canvas`.
pub open spec fn composite(canvas: Seq<u8>, frames: Seq<RawFrame>, w: int) -> Seq<Seq<u8>>
    decreases frames.len(),
{
    if frames.len() == 0 {
        Seq::empty()
    } else {
        let shown = painted(canvas, frames[0], w);
        seq![shown] + composite(disposed(canvas, shown, frames[0], w), frames.drop_first(), w)
    }
}

/// How long a frame shows, in milliseconds: its delay, at least one
/// hundredth of a second.
pub open spec fn frame_ms(f: RawFrame) -> int {
    (if f.delay >= 1 {
        f.delay as int
    } else {
        1
    }) * 10
}

/// How long the frames show in all, in milliseconds.
pub open spec fn total_ms(frames: Seq<RawFrame>) -> int
    decreases frames.len(),
{
    if frames.len() == 0 {
        0
    } else {
        total_ms(frames.drop_last()) + frame_ms(frames.last())
    }
}

/// A frame's pixel buffer holds all of its RGBA pixels.
pub open spec fn frame_complete(f: RawFrame) -> bool {
    f.buffer@.len() >= f.width * f.height * 4
}

/// The quotient and remainder of `v` by `d` are the only `q`, `r` with
/// `v == q * d + r` and `0 <= r < d`.
proof fn lemma_div_mod_unique(v: int, d: int, q: int, r: int)
    requires
        d > 0,
        0 <= r < d,
        v == q * d + r,
    ensures
        q == v / d,
        r == v % d,
{
    lemma_fundamental_div_mod_converse(v, d, q, r);
}

/// A canvas pixel whose frame pixel is `y * fw + x` is the pixel at
/// `(left + x, top + y)`.
proof fn lemma_pixel_of_src(f: RawFrame, w: int, h: int, p: int, x: int, y: int)
    requires
        w > 0,
        0 <= p < w * h,
        0 <= x < f.width,
        0 <= y,
        in_frame(f, w, p),
        src_pixel(f, w, p) == y * f.width + x,
    ensures
        p == (f.top + y) * w + (f.left + x),
        f.left + x < w,
        f.top + y < h,
{
    let px = p % w - f.left;
    let py = p / w - f.top;
    lemma_div_mod_unique(y * f.width + x, f.width as int, py, px);
    lemma_div_mod_unique(y * f.width + x, f.width as int, y, x);
    vstd::arithmetic::div_mod::lemma_fundamental_div_mod(p, w);
    vstd::arithmetic::div_mod::lemma_mod_pos_bound(p, w);
    let q = p / w;
    let r = p % w;
    assert(p == q * w + r) by (nonlinear_arith)
        requires
            p == w * q + r,
    ;
    assert(p / w < h) by {
        vstd::arithmetic::div_mod::lemma_div_is_ordered(p, w * h - 1, w);
        vstd::arithmetic::div_mod::lemma_div_multiples_vanish_fancy(h - 1, w - 1, w);
        assert(w * h - 1 == (h - 1) * w + (w - 1)) by (nonlinear_arith);
    }
}

/// The canvas pixel at `(left + x, top + y)`, inside the canvas, lies in the
/// frame and its frame pixel is `y * fw + x`.
proof fn lemma_src_of_pixel(f: RawFrame, w: int, h: int, x: int, y: int)
    requires
        w > 0,
        0 <= x < f.width,
        0 <= y < f.height,
        f.left + x < w,
        f.top + y < h,
    ensures
        ({
            let p = (f.top + y) * w + (f.left + x);
            &&& 0 <= p < w * h
            &&& p / w == f.top + y
            &&& p % w == f.left + x
            &&& in_frame(f, w, p)
            &&& src_pixel(f, w, p) == y * f.width + x
        }),
{
    let p = (f.top + y) * w + (f.left + x);
    lemma_div_mod_unique(p, w, f.top + y, f.left + x);
    assert(0 <= p < w * h) by (nonlinear_arith)
        requires
            p == (f.top + y) * w + (f.left + x),
            0 <= f.top + y < h,
            0 <= f.left + x < w,
    ;
}

/// Byte `i` of an RGBA buffer belongs to pixel `i / 4`, channel `i % 4`.
proof fn lemma_byte_of_pixel(p: int, i: int)
    requires
        0 <= p,
        4 * p <= i < 4 * p + 4,
    ensures
        i / 4 == p,
        i % 4 == i - 4 * p,
{
    lemma_div_mod_unique(i, 4, p, i - 4 * p);
}

/// Pixel `(x, y)` of a frame, and its four bytes, lie within the frame's
/// `width * height` pixels.
proof fn lemma_frame_index_bound(f: RawFrame, x: int, y: int)
    requires
        0 <= x < f.width,
        0 <= y < f.height,
    ensures
        0 <= y * f.width + x < f.width * f.height,
        (y * f.width + x) * 4 + 4 <= f.width * f.height * 4,
{
    assert(y * f.width + x < f.width * f.height) by (nonlinear_arith)
        requires
            0 <= x < f.width,
            0 <= y < f.height,
    ;
    assert(0 <= y * f.width) by (nonlinear_arith)
        requires
            0 <= y,
            0 <= f.width,
    ;
}

/// Draws the frame on the canvas.
pub fn paint_frame(canvas: &mut Vec<u8>, w: usize, h: usize, f: &RawFrame)
    requires
        old(canvas)@.len() == w * h * 4,
        frame_complete(*f),
    ensures
        final(canvas)@ == painted(old(canvas)@, *f, w as int),
{
    let ghost c0 = canvas@;
    let fw = f.width as usize;
    let fh = f.height as usize;
    let fl = f.left as usize;
    let ft = f.top as usize;
    let blen = f.buffer.len();
    let clen = canvas.len();
    let mut y: usize = 0;
    assert(canvas@ =~= painted_upto(c0, *f, w as int, 0));
    while y < fh
        invariant
            blen == f.buffer@.len(),
            clen == c0.len(),
            c0.len() == w * h * 4,
            fw == f.width,
            fh == f.height,
            fl == f.left,
            ft == f.top,
            frame_complete(*f),
            y <= fh,
            canvas@ == painted_upto(c0, *f, w as int, y * fw),
        decreases fh - y,
    {
        let mut x: usize = 0;
        while x < fw
            invariant
                blen == f.buffer@.len(),
                clen == c0.len(),
                c0.len() == w * h * 4,
                fw == f.width,
                fh == f.height,
                fl == f.left,
                ft == f.top,
                frame_complete(*f),
                y < fh,
                x <= fw,
                canvas@ == painted_upto(c0, *f, w as int, y * fw + x),
            decreases fw - x,
        {
            proof {
                lemma_frame_index_bound(*f, x as int, y as int);
                assert(y * fw + x == y * f.width + x);
            }
            let ghost k: int = y * fw + x;
            let ghost before = canvas@;
            let src = (y * fw + x) * 4;
            let a = f.buffer[src + 3];
            if a >= 128 {
                let dx = fl + x;
                let dy = ft + y;
                if dx < w && dy < h {
                    proof {
                        lemma_src_of_pixel(*f, w as int, h as int, x as int, y as int);
                        let p = (dy * w + dx) as int;
                        assert((dy * w + dx) * 4 + 4 <= w * h * 4) by (nonlinear_arith)
                            requires
                                0 <= p < w * h,
                                p == dy * w + dx,
                        ;
                    }
                    let dst = (dy * w + dx) * 4;
                    canvas.set(dst, f.buffer[src]);
                    canvas.set(dst + 1, f.buffer[src + 1]);
                    canvas.set(dst + 2, f.buffer[src + 2]);
                    canvas.set(dst + 3, f.buffer[src + 3]);
                    proof {
                        let pp = dy * w + dx;
                        assert forall|i: int| 0 <= i < c0.len() implies #[trigger] canvas@[i]
                            == painted_upto(c0, *f, w as int, k + 1)[i] by {
                            let p = i / 4;
                            assert(0 <= p);
                            if dst <= i < dst + 4 {
                                lemma_byte_of_pixel(pp as int, i);
                            } else {
                                if in_frame(*f, w as int, p) && src_pixel(*f, w as int, p) == k {
                                    assert(p < w * h) by {
                                        vstd::arithmetic::div_mod::lemma_div_is_ordered(i, (w * h * 4 - 1) as int, 4);
                                    }
                                    lemma_pixel_of_src(*f, w as int, h as int, p, x as int, y as int);
                                    vstd::arithmetic::div_mod::lemma_fundamental_div_mod(i, 4);
                                    assert(false);
                                }
                            }
                        }
                        assert(canvas@ =~= painted_upto(c0, *f, w as int, k + 1));
                    }
                } else {
                    proof {
                        assert forall|i: int| 0 <= i < c0.len() implies #[trigger] canvas@[i]
                            == painted_upto(c0, *f, w as int, k + 1)[i] by {
                            let p = i / 4;
                            assert(w > 0) by (nonlinear_arith)
                                requires
                                    0 <= i < w * h * 4,
                                    0 <= h,
                            ;
                            if in_frame(*f, w as int, p) && src_pixel(*f, w as int, p) == k {
                                assert(0 <= p < w * h) by {
                                    vstd::arithmetic::div_mod::lemma_div_is_ordered(i, (w * h * 4 - 1) as int, 4);
                                    vstd::arithmetic::div_mod::lemma_div_is_ordered(0, i, 4);
                                }
                                lemma_pixel_of_src(*f, w as int, h as int, p, x as int, y as int);
                            }
                        }
                        assert(canvas@ =~= painted_upto(c0, *f, w as int, k + 1));
                    }
                }
            } else {
                assert(canvas@ =~= painted_upto(c0, *f, w as int, k + 1));
            }
            x += 1;
        }
        assert(y * fw + fw == (y + 1) * fw) by (nonlinear_arith);
        y += 1;
    }
    proof {
        assert(fh * fw == f.width * f.height) by (nonlinear_arith)
            requires
                fw == f.width,
                fh == f.height,
        ;
    }
}

/// Makes the frame's area of the canvas transparent.
pub fn clear_frame(canvas: &mut Vec<u8>, w: usize, h: usize, f: &RawFrame)
    requires
        old(canvas)@.len() == w * h * 4,
    ensures
        final(canvas)@ == cleared(old(canvas)@, *f, w as int),
{
    let ghost c0 = canvas@;
    let fw = f.width as usize;
    let fh = f.height as usize;
    let fl = f.left as usize;
    let ft = f.top as usize;
    let clen = canvas.len();
    let mut y: usize = 0;
    assert(canvas@ =~= cleared_upto(c0, *f, w as int, 0));
    while y < fh
        invariant
            clen == c0.len(),
            c0.len() == w * h * 4,
            fw == f.width,
            fh == f.height,
            fl == f.left,
            ft == f.top,
            y <= fh,
            canvas@ == cleared_upto(c0, *f, w as int, y * fw),
        decreases fh - y,
    {
        let mut x: usize = 0;
        while x < fw
            invariant
                clen == c0.len(),
                c0.len() == w * h * 4,
                fw == f.width,
                fh == f.height,
                fl == f.left,
                ft == f.top,
                y < fh,
                x <= fw,
                canvas@ == cleared_upto(c0, *f, w as int, y * fw + x),
            decreases fw - x,
        {
            proof {
                lemma_frame_index_bound(*f, x as int, y as int);
                assert(y * fw + x == y * f.width + x);
            }
            let ghost k: int = y * fw + x;
            let dx = fl + x;
            let dy = ft + y;
            if dx < w && dy < h {
                proof {
                    lemma_src_of_pixel(*f, w as int, h as int, x as int, y as int);
                    let p = (dy * w + dx) as int;
                    assert((dy * w + dx) * 4 + 4 <= w * h * 4) by (nonlinear_arith)
                        requires
                            0 <= p < w * h,
                            p == dy * w + dx,
                    ;
                }
                let dst = (dy * w + dx) * 4;
                canvas.set(dst + 3, 0);
                proof {
                    let pp = dy * w + dx;
                    assert forall|i: int| 0 <= i < c0.len() implies #[trigger] canvas@[i]
                        == cleared_upto(c0, *f, w as int, k + 1)[i] by {
                        let p = i / 4;
                        assert(0 <= p);
                        assert(w > 0) by (nonlinear_arith)
                            requires
                                0 <= i < w * h * 4,
                                0 <= h,
                        ;
                        vstd::arithmetic::div_mod::lemma_fundamental_div_mod(i, 4);
                        if dst <= i < dst + 4 {
                            lemma_byte_of_pixel(pp as int, i);
                        } else {
                            if in_frame(*f, w as int, p) && src_pixel(*f, w as int, p) == k {
                                assert(p < w * h) by {
                                    vstd::arithmetic::div_mod::lemma_div_is_ordered(i, (w * h * 4 - 1) as int, 4);
                                }
                                lemma_pixel_of_src(*f, w as int, h as int, p, x as int, y as int);
                                assert(false);
                            }
                        }
                    }
                    assert(canvas@ =~= cleared_upto(c0, *f, w as int, k + 1));
                }
            } else {
                proof {
                    assert forall|i: int| 0 <= i < c0.len() implies #[trigger] canvas@[i]
                        == cleared_upto(c0, *f, w as int, k + 1)[i] by {
                        let p = i / 4;
                        assert(w > 0) by (nonlinear_arith)
                            requires
                                0 <= i < w * h * 4,
                                0 <= h,
                        ;
                        if in_frame(*f, w as int, p) && src_pixel(*f, w as int, p) == k {
                            assert(0 <= p < w * h) by {
                                vstd::arithmetic::div_mod::lemma_div_is_ordered(i, (w * h * 4 - 1) as int, 4);
                                vstd::arithmetic::div_mod::lemma_div_is_ordered(0, i, 4);
                            }
                            lemma_pixel_of_src(*f, w as int, h as int, p, x as int, y as int);
                        }
                    }
                    assert(canvas@ =~= cleared_upto(c0, *f, w as int, k + 1));
                }
            }
            x += 1;
        }
        assert(y * fw + fw == (y + 1) * fw) by (nonlinear_arith);
        y += 1;
    }
    proof {
        assert(fh * fw == f.width * f.height) by (nonlinear_arith)
            requires
                fw == f.width,
                fh == f.height,
        ;
    }
}

/// A copy of a byte buffer.
fn copy_bytes(v: &Vec<u8>) -> (c: Vec<u8>)
    ensures
        c@ == v@,
{
    let mut c: Vec<u8> = Vec::new();
    let mut i: usize = 0;
    while i < v.len()
        invariant
            i <= v.len(),
            c@ == v@.take(i as int),
        decreases v.len() - i,
    {
        c.push(v[i]);
        i += 1;
        assert(c@ =~= v@.take(i as int));
    }
    assert(v@.take(v.len() as int) =~= v@);
    c
}

/// The logo animation: its frames (RGBA images of `width` by `height`
/// pixels) and how long they show in all, in milliseconds.
pub struct LogoAnim {
    pub frames: Vec<Vec<u8>>,
    pub width: u16,
    pub height: u16,
    pub total_ms: u64,
}

/// The bytes of each frame.
pub open spec fn frame_views(frames: Seq<Vec<u8>>) -> Seq<Seq<u8>> {
    frames.map_values(|f: Vec<u8>| f@)
}

/// The animation composed from GIF frames on a `width` by `height` canvas.
pub open spec fn composed_from(anim: LogoAnim, width: u16, height: u16, raw: Seq<RawFrame>) -> bool {
    &&& anim.width == width
    &&& anim.height == height
    &&& frame_views(anim.frames@) == composite(
        Seq::new((width * height * 4) as nat, |i: int| 0u8),
        raw,
        width as int,
    )
    &&& anim.total_ms == total_ms(raw)
}

/// The delays of the first frames add up to no more than all of them.
proof fn lemma_total_ms_prefix(frames: Seq<RawFrame>, j: int)
    requires
        0 <= j <= frames.len(),
    ensures
        0 <= total_ms(frames.take(j)) <= total_ms(frames),
    decreases frames.len(),
{
    if j == frames.len() {
        assert(frames.take(j) =~= frames);
        lemma_total_ms_nonneg(frames);
    } else {
        lemma_total_ms_prefix(frames.drop_last(), j);
        assert(frames.drop_last().take(j) =~= frames.take(j));
    }
}

/// Delays never add up to less than 0.
proof fn lemma_total_ms_nonneg(frames: Seq<RawFrame>)
    ensures
        total_ms(frames) >= 0,
    decreases frames.len(),
{
    if frames.len() > 0 {
        lemma_total_ms_nonneg(frames.drop_last());
    }
}

impl LogoAnim {
    /// Composes the animation from decoded GIF frames on a `width` by
    /// `height` canvas that starts transparent: each frame is drawn where its
    /// pixels are opaque, the canvas is kept as one image of the animation,
    /// and the frame is disposed of as it asks.
    pub fn from_frames(width: u16, height: u16, raw: &Vec<RawFrame>) -> (anim: LogoAnim)
        requires
            width * height * 4 <= usize::MAX,
            forall|j: int| 0 <= j < raw@.len() ==> frame_complete(#[trigger] raw@[j]),
            total_ms(raw@) <= u64::MAX,
        ensures
            composed_from(anim, width, height, raw@),
    {
        let w = width as usize;
        let h = height as usize;
        let n = w * h * 4;
        let ghost zeros = Seq::new((width * height * 4) as nat, |i: int| 0u8);
        let mut canvas: Vec<u8> = vec![0u8; n];
        assert(canvas@ =~= zeros);
        let mut previous = copy_bytes(&canvas);
        let mut frames: Vec<Vec<u8>> = Vec::new();
        let mut total: u64 = 0;
        let mut j: usize = 0;
        assert(raw@.skip(0) =~= raw@);
        assert(raw@.take(0) =~= Seq::<RawFrame>::empty());
        while j < raw.len()
            invariant
                w == width,
                h == height,
                n == w * h * 4,
                j <= raw@.len(),
                forall|jj: int| 0 <= jj < raw@.len() ==> frame_complete(#[trigger] raw@[jj]),
                total_ms(raw@) <= u64::MAX,
                canvas@.len() == n,
                previous@ == canvas@,
                frame_views(frames@) + composite(canvas@, raw@.skip(j as int), w as int)
                    == composite(zeros, raw@, w as int),
                total == total_ms(raw@.take(j as int)),
            decreases raw.len() - j,
        {
            let f = &raw[j];
            let ghost before = canvas@;
            paint_frame(&mut canvas, w, h, f);
            let ghost shown = canvas@;
            let snapshot = copy_bytes(&canvas);
            let ghost prev_frames = frame_views(frames@);
            frames.push(snapshot);
            assert(frame_views(frames@) =~= prev_frames.push(shown));
            let delay: u64 = if f.delay >= 1 {
                f.delay as u64
            } else {
                1
            };
            proof {
                assert(raw@.take(j + 1).drop_last() =~= raw@.take(j as int));
                assert(raw@.take(j + 1).last() == raw@[j as int]);
                lemma_total_ms_prefix(raw@, j + 1);
            }
            total = total + delay * 10;
            match f.dispose {
                Disposal::Any | Disposal::Keep => {},
                Disposal::Background => {
                    clear_frame(&mut canvas, w, h, f);
                },
                Disposal::Previous => {
                    canvas = copy_bytes(&previous);
                },
            }
            previous = copy_bytes(&canvas);
            proof {
                let rest = raw@.skip(j as int);
                assert(rest[0] == raw@[j as int]);
                assert(rest.drop_first() =~= raw@.skip(j + 1));
                assert(canvas@ == disposed(before, shown, raw@[j as int], w as int));
                assert(composite(before, rest, w as int) == seq![shown] + composite(
                    canvas@,
                    raw@.skip(j + 1),
                    w as int,
                ));
                assert(frame_views(frames@) + composite(canvas@, raw@.skip(j + 1), w as int)
                    =~= prev_frames + composite(before, rest, w as int));
            }
            j += 1;
        }
        assert(raw@.skip(j as int) =~= Seq::<RawFrame>::empty());
        assert(raw@.take(j as int) =~= raw@);
        assert(frame_views(frames@) + composite(canvas@, raw@.skip(j as int), w as int)
            =~= frame_views(frames@));
        LogoAnim { frames, width, height, total_ms: total }
    }

    /// The canvas width, its height in pixels, and its height in terminal
    /// rows (two pixel rows per row).
    pub fn dim(&self) -> (d: (u16, u16, u16))
        ensures
            d.0 == self.width,
            d.1 == self.height,
            d.2 == self.height / 2 + self.height % 2,
    {
        let w = self.width;
        let h = self.height;
        let term_h = h / 2 + h % 2;
        (w, h, term_h)
    }

    /// How long the frames show in all, in milliseconds.
    pub fn total_duration(&self) -> (ms: u64)
        ensures
            ms == self.total_ms,
    {
        self.total_ms
    }

    /// The last frame, or no pixels if there is no frame.
    pub fn last_frame(&self) -> (px: &[u8])
        ensures
            self.frames@.len() > 0 ==> px@ == self.frames@.last()@,
            self.frames@.len() == 0 ==> px@.len() == 0,
    {
        if self.frames.len() > 0 {
            self.frames[self.frames.len() - 1].as_slice()
        } else {
            &[]
        }
    }

    /// The frame shown `elapsed_ms` milliseconds in: none if there is no
    /// frame; the last one once the animation is over; before that, the frame
    /// whose share of the total time holds the elapsed time.
    pub fn frame_at(&self, elapsed_ms: u128) -> (px: Option<&[u8]>)
        requires
            elapsed_ms >= self.total_ms || elapsed_ms * self.frames@.len() <= u64::MAX,
        ensures
            px is None <==> self.frames@.len() == 0,
            px matches Some(s) ==> s@ == self.frames@[frame_index(
                elapsed_ms as int,
                self.total_ms as int,
                self.frames@.len() as int,
            )]@,
    {
        if self.frames.len() == 0 {
            return None;
        }
        let n = self.frames.len();
        if elapsed_ms >= self.total_ms as u128 {
            return Some(self.frames[n - 1].as_slice());
        }
        let ms = elapsed_ms as u64;
        let total = self.total_ms;
        let q = ms * (n as u64) / total;
        assert(q < n) by {
            assert((ms as int) * (n as int) / (total as int) < n as int) by (nonlinear_arith)
                requires
                    0 <= ms < total,
                    n > 0,
            ;
        }
        let idx = q as usize;
        let idx = if idx <= n - 1 {
            idx
        } else {
            n - 1
        };
        Some(self.frames[idx].as_slice())
    }
}

/// Which of `n` frames shows `elapsed` milliseconds into an animation of
/// `total` milliseconds.
pub open spec fn frame_index(elapsed: int, total: int, n: int) -> int {
    if elapsed >= total {
        n - 1
    } else {
        let idx = elapsed * n / total;
        if idx <= n - 1 {
            idx
        } else {
            n - 1
        }
    }
}

/// A GIF being decoded from a byte slice, with RGBA output.
///
/// It holds a `gif::Decoder` in a private field, hidden from Verus: Verus
/// refuses a declaration of `gif::Decoder<R: std::io::Read>` itself, as it
/// cannot resolve the `Read` bound. What Verus knows of it is the frames it
/// has yet to yield, `gif_pending_frames`.
#[verifier::external_body]
pub struct GifReader<'a> {
    decoder: gif::Decoder<&'a [u8]>,
}

/// The little-endian `u16` at bytes `i` and `i + 1` of `data`.
pub open spec fn le_u16(data: Seq<u8>, i: int) -> u16 {
    (data[i] as int + 256 * data[i + 1] as int) as u16
}

/// The canvas width and height of the GIF `data`, as its logical screen
/// descriptor gives them: little-endian `u16`s at bytes 6 and 8, after the
/// 6-byte signature.
pub open spec fn gif_canvas(data: Seq<u8>) -> (u16, u16) {
    (le_u16(data, 6), le_u16(data, 8))
}

/// The frames, as RGBA pixels, that decoding the GIF `data` yields, in order,
/// before it ends or fails.
pub uninterp spec fn gif_rgba_frames(data: Seq<u8>) -> Seq<RawFrameView>;

/// The frames, as RGBA pixels, that a reader has yet to yield before its GIF
/// ends or fails.
pub uninterp spec fn gif_pending_frames(reader: GifReader<'_>) -> Seq<RawFrameView>;

/// Reads the header of the GIF `data`, for frames as RGBA pixels; gives the
/// reader and the canvas width and height, or the decoding error as text.
///
/// Trusted: calls `gif::DecodeOptions::new`, `set_color_output` with
/// `gif::ColorOutput::RGBA` and `read_info` on `data`, then the decoder's
/// `width` and `height`. Claimed, where it succeeds: `data` holds at least the
/// signature and the screen descriptor (13 bytes), the width and height are
/// the descriptor's first two little-endian `u16`s (`gif_canvas`), and the
/// reader has all of `gif_rgba_frames(data)` to
/// yield (the decoder is a deterministic function of the bytes and the
/// options). Nothing is claimed of a failure, which may also come from an
/// allocation that the machine refused.
#[verifier::external_body]
fn gif_open<'a>(data: &'a [u8]) -> (r: Result<(GifReader<'a>, u16, u16), String>)
    ensures
        r matches Ok((reader, w, h)) ==> {
            &&& data@.len() >= 13
            &&& (w, h) == gif_canvas(data@)
            &&& gif_pending_frames(reader) == gif_rgba_frames(data@)
        },
{
    let mut options = gif::DecodeOptions::new();
    options.set_color_output(gif::ColorOutput::RGBA);
    match options.read_info(data) {
        Ok(decoder) => {
            let (w, h) = (decoder.width(), decoder.height());
            Ok((GifReader { decoder }, w, h))
        },
        Err(e) => Err(e.to_string()),
    }
}

/// The next frame of a GIF, `None` after the last one, or the decoding error
/// as text.
///
/// Trusted: calls `gif::Decoder::read_next_frame` and copies the frame's
/// geometry, delay, disposal method and pixel buffer into a `RawFrame`.
/// Claimed: a frame is the first of those the reader had yet to yield, and
/// the reader then has the others to yield; `None` comes only once no frame
/// is left. Nothing is claimed of a failure.
#[verifier::external_body]
fn gif_next_frame(reader: &mut GifReader) -> (r: Result<Option<RawFrame>, String>)
    ensures
        r matches Ok(Some(f)) ==> {
            &&& gif_pending_frames(*old(reader)).len() > 0
            &&& f@ == gif_pending_frames(*old(reader))[0]
            &&& gif_pending_frames(*final(reader)) == gif_pending_frames(*old(reader)).drop_first()
        },
        r matches Ok(None) ==> gif_pending_frames(*old(reader)).len() == 0,
{
    let frame = match reader.decoder.read_next_frame() {
        Ok(Some(frame)) => frame,
        Ok(None) => return Ok(None),
        Err(e) => return Err(e.to_string()),
    };
    let dispose = match frame.dispose {
        gif::DisposalMethod::Any => Disposal::Any,
        gif::DisposalMethod::Keep => Disposal::Keep,
        gif::DisposalMethod::Background => Disposal::Background,
        gif::DisposalMethod::Previous => Disposal::Previous,
    };
    let (width, height, left, top, delay) = (frame.width, frame.height, frame.left, frame.top, frame.delay);
    Ok(Some(RawFrame { width, height, left, top, delay, dispose, buffer: frame.buffer.to_vec() }))
}

/// Whether frames decoded for a `width` by `height` canvas can be composed on
/// this machine: each frame's pixel buffer holds all of its pixels, their
/// total time fits in a `u64` and the canvas's bytes fit in a `usize`.
pub open spec fn frames_fit(width: u16, height: u16, raw: Seq<RawFrame>) -> bool {
    &&& forall|j: int| 0 <= j < raw.len() ==> frame_complete(#[trigger] raw[j])
    &&& total_ms(raw) <= u64::MAX
    &&& width * height * 4 <= usize::MAX
}

/// The animation is composed from the frames of the GIF `data` on its
/// canvas: it is what `from_frames` makes of them, frames that fit the
/// machine.
pub open spec fn composed_from_gif(anim: LogoAnim, data: Seq<u8>) -> bool {
    exists|raw: Seq<RawFrame>|
        #[trigger] raw_views(raw) == gif_rgba_frames(data) && frames_fit(
            gif_canvas(data).0,
            gif_canvas(data).1,
            raw,
        ) && composed_from(anim, gif_canvas(data).0, gif_canvas(data).1, raw)
}

impl LogoAnim {
    /// Composes the animation from decoded frames (see `from_frames`), or
    /// refuses them where they do not fit the machine: a frame whose pixel
    /// buffer is short of its size, a total time beyond a `u64`, a canvas
    /// whose bytes exceed a `usize` (checked in that order).
    pub fn from_decoded(width: u16, height: u16, raw: &Vec<RawFrame>) -> (r: Result<LogoAnim, String>)
        ensures
            r is Ok <==> frames_fit(width, height, raw@),
            r matches Ok(anim) ==> composed_from(anim, width, height, raw@),
            r matches Err(e) ==> e@ == (if !(forall|j: int|
                0 <= j < raw@.len() ==> frame_complete(#[trigger] raw@[j])) {
                "frame buffer shorter than the frame"@
            } else if total_ms(raw@) > u64::MAX {
                "animation too long"@
            } else {
                "canvas too large"@
            }),
    {
        let mut i: usize = 0;
        while i < raw.len()
            invariant
                i <= raw@.len(),
                forall|j: int| 0 <= j < i ==> frame_complete(#[trigger] raw@[j]),
            decreases raw.len() - i,
        {
            let f = &raw[i];
            assert((f.width as u64) * (f.height as u64) <= 65535 * 65535) by (nonlinear_arith)
                requires
                    f.width <= 65535,
                    f.height <= 65535,
            ;
            let size: u64 = f.width as u64 * f.height as u64 * 4;
            if (f.buffer.len() as u64) < size {
                assert(!frame_complete(raw@[i as int]));
                return Err(String::from_str("frame buffer shorter than the frame"));
            }
            i += 1;
        }
        let mut total: u64 = 0;
        let mut k: usize = 0;
        assert(raw@.take(0) =~= Seq::<RawFrame>::empty());
        while k < raw.len()
            invariant
                k <= raw@.len(),
                forall|j: int| 0 <= j < raw@.len() ==> frame_complete(#[trigger] raw@[j]),
                total == total_ms(raw@.take(k as int)),
            decreases raw.len() - k,
        {
            let f = &raw[k];
            let delay: u64 = if f.delay >= 1 {
                f.delay as u64
            } else {
                1
            };
            proof {
                assert(raw@.take(k + 1).drop_last() =~= raw@.take(k as int));
                assert(raw@.take(k + 1).last() == raw@[k as int]);
                lemma_total_ms_prefix(raw@, k + 1);
            }
            if total > u64::MAX - delay * 10 {
                return Err(String::from_str("animation too long"));
            }
            total = total + delay * 10;
            k += 1;
        }
        assert(raw@.take(k as int) =~= raw@);
        assert((width as u64) * (height as u64) <= 65535 * 65535) by (nonlinear_arith)
            requires
                width <= 65535,
                height <= 65535,
        ;
        let size: u64 = width as u64 * height as u64 * 4;
        if size > usize::MAX as u64 {
            return Err(String::from_str("canvas too large"));
        }
        Ok(LogoAnim::from_frames(width, height, raw))
    }

    /// Decodes the logo GIF `data` as RGBA frames and composes the animation
    /// from them (see `from_decoded`); a decoding error comes back as text.
    ///
    /// Where the decoder fails, its error comes back; nothing more is owed,
    /// as a decoder may also fail for want of memory.
    pub fn new(data: &[u8]) -> (r: Result<LogoAnim, String>)
        ensures
            r matches Ok(anim) ==> composed_from_gif(anim, data@),
    {
        let (mut decoder, w, h) = match gif_open(data) {
            Ok(opened) => opened,
            Err(e) => return Err(e),
        };
        let ghost all = gif_rgba_frames(data@);
        let mut raw: Vec<RawFrame> = Vec::new();
        assert(all.skip(0) =~= all);
        assert(raw_views(raw@) =~= all.take(0));
        loop
            invariant_except_break
                gif_pending_frames(decoder) == all.skip(raw@.len() as int),
            invariant
                raw@.len() <= all.len(),
                raw_views(raw@) == all.take(raw@.len() as int),
                all == gif_rgba_frames(data@),
            ensures
                raw_views(raw@) == all,
            decreases gif_pending_frames(decoder).len(),
        {
            let ghost count = raw@.len() as int;
            match gif_next_frame(&mut decoder) {
                Err(e) => return Err(e),
                Ok(None) => {
                    assert(all.take(count) =~= all);
                    break;
                },
                Ok(Some(f)) => {
                    let ghost prev = raw@;
                    raw.push(f);
                    proof {
                        assert(raw@.drop_last() =~= prev);
                        assert(all.skip(count)[0] == all[count]);
                        assert(raw_views(raw@) =~= all.take(count + 1));
                        assert(all.skip(count).drop_first() =~= all.skip(count + 1));
                    }
                },
            }
        }
        let r = LogoAnim::from_decoded(w, h, &raw);
        assert(r matches Ok(anim) ==> raw_views(raw@) == gif_rgba_frames(data@) && frames_fit(
            w,
            h,
            raw@,
        ) && composed_from(anim, w, h, raw@));
        r
    }
}

/// The animation has one image per frame, each the size of the canvas.
pub proof fn law_composite_shape(canvas: Seq<u8>, frames: Seq<RawFrame>, w: int)
    ensures
        composite(canvas, frames, w).len() == frames.len(),
        forall|i: int|
            0 <= i < frames.len() ==> (#[trigger] composite(canvas, frames, w)[i]).len()
                == canvas.len(),
    decreases frames.len(),
{
    if frames.len() > 0 {
        let shown = painted(canvas, frames[0], w);
        let next = disposed(canvas, shown, frames[0], w);
        law_composite_shape(next, frames.drop_first(), w);
        assert(next.len() == canvas.len());
        let all = composite(canvas, frames, w);
        assert forall|i: int| 0 <= i < frames.len() implies (#[trigger] all[i]).len()
            == canvas.len() by {
            if i > 0 {
                assert(all[i] == composite(next, frames.drop_first(), w)[i - 1]);
            }
        }
    }
}

/// The frame shown at any time is one of the frames.
pub proof fn law_frame_index_in_range(elapsed: int, total: int, n: int)
    requires
        n > 0,
        0 <= elapsed,
    ensures
        0 <= frame_index(elapsed, total, n) < n,
{
    if elapsed < total {
        assert(elapsed * n / total >= 0) by (nonlinear_arith)
            requires
                elapsed >= 0,
                n > 0,
                total > elapsed,
        ;
    }
}

/// Every frame shows for at least a hundredth of a second: the frames take at
/// least 10 ms each in all.
pub proof fn law_total_ms_at_least_10_per_frame(frames: Seq<RawFrame>)
    ensures
        total_ms(frames) >= 10 * frames.len(),
    decreases frames.len(),
{
    if frames.len() > 0 {
        law_total_ms_at_least_10_per_frame(frames.drop_last());
    }
}

/// The animation never steps backwards: a later time shows the same frame or
/// a later one.
pub proof fn law_frame_index_monotone(e1: int, e2: int, total: int, n: int)
    requires
        n > 0,
        0 <= e1 <= e2,
    ensures
        frame_index(e1, total, n) <= frame_index(e2, total, n),
{
    law_frame_index_in_range(e1, total, n);
    law_frame_index_in_range(e2, total, n);
    if e2 < total {
        assert(e1 * n <= e2 * n) by (nonlinear_arith)
            requires
                e1 <= e2,
                n > 0,
        ;
        vstd::arithmetic::div_mod::lemma_div_is_ordered(e1 * n, e2 * n, total);
    }
}

/// Every alpha byte of the canvas is 0 (cleared) or at least 128 (opaque).
pub open spec fn alpha_cleared_or_opaque(canvas: Seq<u8>) -> bool {
    forall|i: int| 0 <= i < canvas.len() && i % 4 == 3 ==> #[trigger] canvas[i] == 0 || canvas[i] >= 128
}

/// Drawing and disposing of frames keeps every alpha byte 0 or at least 128:
/// a pixel is only ever copied from an opaque frame pixel or cleared. So every
/// image of an animation composed on a transparent canvas has only cleared or
/// opaque pixels.
pub proof fn law_alpha_cleared_or_opaque(canvas: Seq<u8>, frames: Seq<RawFrame>, w: int)
    requires
        alpha_cleared_or_opaque(canvas),
    ensures
        forall|k: int|
            0 <= k < frames.len() ==> alpha_cleared_or_opaque(
                #[trigger] composite(canvas, frames, w)[k],
            ),
    decreases frames.len(),
{
    if frames.len() > 0 {
        let f = frames[0];
        let shown = painted(canvas, f, w);
        assert forall|i: int| 0 <= i < shown.len() && i % 4 == 3 implies #[trigger] shown[i] == 0
            || shown[i] >= 128 by {
            let p = i / 4;
            if in_frame(f, w, p) && src_pixel(f, w, p) < f.width * f.height && opaque_at(
                f,
                src_pixel(f, w, p),
            ) {
                assert(shown[i] == f.buffer@[src_pixel(f, w, p) * 4 + 3]);
            } else {
                assert(shown[i] == canvas[i]);
            }
        }
        let next = disposed(canvas, shown, f, w);
        assert forall|i: int| 0 <= i < next.len() && i % 4 == 3 implies #[trigger] next[i] == 0
            || next[i] >= 128 by {
            if f.dispose == Disposal::Background {
                assert(next[i] == (if in_frame(f, w, i / 4) && src_pixel(f, w, i / 4) < f.width
                    * f.height {
                    0u8
                } else {
                    shown[i]
                }));
            }
        }
        law_alpha_cleared_or_opaque(next, frames.drop_first(), w);
        law_composite_shape(next, frames.drop_first(), w);
        let all = composite(canvas, frames, w);
        assert forall|k: int| 0 <= k < frames.len() implies alpha_cleared_or_opaque(
            #[trigger] all[k],
        ) by {
            if k > 0 {
                assert(all[k] == composite(next, frames.drop_first(), w)[k - 1]);
            } else {
                assert(all[0] == shown);
            }
        }
    }
}

/// Every image of an animation decoded from a GIF has only cleared or opaque
/// pixels: each alpha byte is 0 or at least 128.
pub proof fn law_gif_frames_cleared_or_opaque(anim: LogoAnim, data: Seq<u8>)
    requires
        composed_from_gif(anim, data),
    ensures
        forall|k: int|
            0 <= k < anim.frames@.len() ==> alpha_cleared_or_opaque(#[trigger] anim.frames@[k]@),
{
    let raw = choose|raw: Seq<RawFrame>|
        #[trigger] raw_views(raw) == gif_rgba_frames(data) && frames_fit(
            gif_canvas(data).0,
            gif_canvas(data).1,
            raw,
        ) && composed_from(anim, gif_canvas(data).0, gif_canvas(data).1, raw);
    let w = gif_canvas(data).0;
    let h = gif_canvas(data).1;
    let zeros = Seq::new((w * h * 4) as nat, |i: int| 0u8);
    law_alpha_cleared_or_opaque(zeros, raw, w as int);
    law_composite_shape(zeros, raw, w as int);
    let shown = composite(zeros, raw, w as int);
    assert forall|k: int| 0 <= k < anim.frames@.len() implies alpha_cleared_or_opaque(
        #[trigger] anim.frames@[k]@,
    ) by {
        assert(frame_views(anim.frames@)[k] == anim.frames@[k]@);
        assert(alpha_cleared_or_opaque(shown[k]));
    }
}

/// The frame shown is the one whose share of the total time holds the
/// elapsed time: before the end, frame `i` of `n` shows from `i * total / n`
/// up to `(i + 1) * total / n` milliseconds; from the end on, the last frame.
pub proof fn law_frame_index_share(elapsed: int, total: int, n: int)
    requires
        n > 0,
        0 <= elapsed,
    ensures
        elapsed >= total ==> frame_index(elapsed, total, n) == n - 1,
        elapsed < total ==> frame_index(elapsed, total, n) * total <= elapsed * n < (
        frame_index(elapsed, total, n) + 1) * total,
{
    if elapsed < total {
        let i = elapsed * n / total;
        assert(elapsed * n < total * n) by (nonlinear_arith)
            requires
                0 <= elapsed < total,
                n > 0,
        ;
        vstd::arithmetic::div_mod::lemma_fundamental_div_mod(elapsed * n, total);
        assert(i < n) by (nonlinear_arith)
            requires
                i == elapsed * n / total,
                elapsed * n < total * n,
                total > 0,
        ;
        assert(i * total <= elapsed * n < (i + 1) * total) by (nonlinear_arith)
            requires
                elapsed * n == total * i + (elapsed * n) % total,
                0 <= (elapsed * n) % total < total,
        ;
    }
}

/// Each frame shows its delay in hundredths of a second, at least one: the
/// total time grows by that much with each frame.
pub proof fn law_total_ms_adds_delays(frames: Seq<RawFrame>, f: RawFrame)
    ensures
        total_ms(Seq::<RawFrame>::empty()) == 0,
        total_ms(frames.push(f)) == total_ms(frames) + 10 * (if f.delay == 0 {
            1
        } else {
            f.delay as int
        }),
{
    assert(frames.push(f).drop_last() =~= frames);
}

/// Half blocks show an image two pixel rows to a cell row: a row of cells per
/// two pixel rows (the last alone for an odd height) and a cell per column.
/// The upper half shows the upper pixel and the lower half the pixel below;
/// an opaque pixel (alpha above 128) shows in its own colour, any other, and
/// the missing pixel below the last row of an odd height, in the background
/// colour.
pub proof fn law_half_blocks(pixels: Seq<u8>, width: int, height: int, r: int, x: int)
    requires
        0 <= width,
        0 <= height,
        0 <= r < (height + 1) / 2,
        0 <= x < width,
    ensures
        half_block_rows(pixels, width, height).len() == (height + 1) / 2,
        half_block_rows(pixels, width, height)[r].len() == width,
        ({
            let cell = half_block_rows(pixels, width, height)[r][x];
            let top = ((2 * r) * width + x) * 4;
            let low = ((2 * r + 1) * width + x) * 4;
            &&& pixels[top + 3] > 128 ==> cell.fg == Rgb {
                r: pixels[top],
                g: pixels[top + 1],
                b: pixels[top + 2],
            }
            &&& pixels[top + 3] <= 128 ==> cell.fg == Rgb { r: 13, g: 17, b: 23 }
            &&& 2 * r + 1 < height && pixels[low + 3] > 128 ==> cell.bg == Rgb {
                r: pixels[low],
                g: pixels[low + 1],
                b: pixels[low + 2],
            }
            &&& (2 * r + 1 >= height || pixels[low + 3] <= 128) ==> cell.bg == Rgb {
                r: 13,
                g: 17,
                b: 23,
            }
        }),
{
}

/// Drawing a frame changes only the canvas pixels under its opaque pixels:
/// those take the frame pixel's four bytes, and every other byte stays.
pub proof fn law_painted_only_under_opaque_pixels(canvas: Seq<u8>, f: RawFrame, w: int, i: int)
    requires
        w > 0,
        0 <= i < canvas.len(),
    ensures
        painted(canvas, f, w).len() == canvas.len(),
        ({
            let p = i / 4;
            let x = p % w - f.left;
            let y = p / w - f.top;
            let k = y * f.width + x;
            if 0 <= x < f.width && 0 <= y < f.height && f.buffer@[k * 4 + 3] >= 128 {
                painted(canvas, f, w)[i] == f.buffer@[k * 4 + i % 4]
            } else {
                painted(canvas, f, w)[i] == canvas[i]
            }
        }),
{
    let p = i / 4;
    let x = p % w - f.left;
    let y = p / w - f.top;
    if 0 <= x < f.width && 0 <= y < f.height {
        assert(y * f.width + x < f.width * f.height) by (nonlinear_arith)
            requires
                0 <= x < f.width,
                0 <= y < f.height,
        ;
    }
}

/// After a frame is shown it is disposed of as it asks: kept (the canvas
/// stays as shown), its area made transparent (the alpha of each pixel in it
/// set to 0, all else as shown), or undone (the canvas as before the frame).
pub proof fn law_disposal(before: Seq<u8>, shown: Seq<u8>, f: RawFrame, w: int, i: int)
    requires
        w > 0,
        0 <= i < shown.len(),
    ensures
        f.dispose == Disposal::Keep || f.dispose == Disposal::Any ==> disposed(before, shown, f, w)
            == shown,
        f.dispose == Disposal::Previous ==> disposed(before, shown, f, w) == before,
        f.dispose == Disposal::Background ==> {
            let p = i / 4;
            let x = p % w - f.left;
            let y = p / w - f.top;
            &&& disposed(before, shown, f, w).len() == shown.len()
            &&& (i % 4 == 3 && 0 <= x < f.width && 0 <= y < f.height) ==> disposed(
                before,
                shown,
                f,
                w,
            )[i] == 0
            &&& !(i % 4 == 3 && 0 <= x < f.width && 0 <= y < f.height) ==> disposed(
                before,
                shown,
                f,
                w,
            )[i] == shown[i]
        },
{
    let p = i / 4;
    let x = p % w - f.left;
    let y = p / w - f.top;
    if 0 <= x < f.width && 0 <= y < f.height {
        assert(y * f.width + x < f.width * f.height) by (nonlinear_arith)
            requires
                0 <= x < f.width,
                0 <= y < f.height,
        ;
    }
}

/// The images of an animation, frame by frame: the first frame is drawn on
/// the starting canvas; each later frame is drawn on the canvas that the
/// frame before left once disposed of; no frames, no images.
pub proof fn law_composite_steps(canvas: Seq<u8>, frames: Seq<RawFrame>, w: int)
    ensures
        frames.len() == 0 ==> composite(canvas, frames, w).len() == 0,
        frames.len() > 0 ==> {
            let shown = painted(canvas, frames[0], w);
            &&& composite(canvas, frames, w)[0] == shown
            &&& composite(canvas, frames, w).drop_first() == composite(
                disposed(canvas, shown, frames[0], w),
                frames.drop_first(),
                w,
            )
        },
{
    if frames.len() > 0 {
        let shown = painted(canvas, frames[0], w);
        let rest = composite(disposed(canvas, shown, frames[0], w), frames.drop_first(), w);
        assert((seq![shown] + rest).drop_first() =~= rest);
    }
}

} // verus!
