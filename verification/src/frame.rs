//! Captured frames and the pixel preprocessing that makes their text stand
//! out for recognition.
use vstd::prelude::*;

verus! {

/// An RGBA image, row by row, four bytes per pixel.
pub struct Frame {
    pub width: u32,
    pub height: u32,
    pub pixels: Vec<u8>,
}

impl Frame {
    /// The pixel buffer holds exactly `width * height` RGBA pixels.
    pub open spec fn wf(&self) -> bool {
        self.pixels@.len() == self.width * self.height * 4
    }
}

/// Whether the pixel whose red byte is at `base` is brighter than
/// `threshold` in each of red, green and blue.
pub open spec fn bright_at(px: Seq<u8>, base: int, threshold: u8) -> bool {
    px[base] > threshold && px[base + 1] > threshold && px[base + 2] > threshold
}

/// The race-banner binarisation of RGBA bytes: pixels brighter than 200 in
/// red, green and blue turn black, all others white; alpha stays as it was.
pub open spec fn banner_binarized(px: Seq<u8>) -> Seq<u8> {
    Seq::new(
        px.len(),
        |i: int|
            if i % 4 == 3 {
                px[i]
            } else if bright_at(px, i - i % 4, 200) {
                0u8
            } else {
                255u8
            },
    )
}

/// The first row of the bottom third of an image `height` rows high.
pub open spec fn bottom_third_row(height: u32) -> int {
    (height * 2) / 3
}

/// The crop and binarisation fit the integer types the tracker computes them in.
pub open spec fn bottom_third_fits(frame: &Frame) -> bool {
    &&& frame.height * 2 <= u32::MAX
    &&& bottom_third_row(frame.height) * frame.width * 4 <= u32::MAX
}

/// Crops a frame to its bottom third (where the race banner is shown) and
/// binarises it. Gives the height of the crop and its RGBA bytes; `None`
/// when the crop holds no pixel.
pub fn binarize_bottom_third(frame: &Frame) -> (crop: Option<(u32, Vec<u8>)>)
    requires
        frame.wf(),
        bottom_third_fits(frame),
    ensures
        ({
            let start = bottom_third_row(frame.height) * frame.width * 4;
            match crop {
                None => start >= frame.pixels@.len(),
                Some((h, bytes)) => {
                    &&& start < frame.pixels@.len()
                    &&& h == frame.height - bottom_third_row(frame.height)
                    &&& bytes@ == banner_binarized(frame.pixels@.skip(start))
                },
            }
        }),
{
    let row_start: u32 = (frame.height * 2) / 3;
    let cropped_height: u32 = frame.height - row_start;
    let byte_start: usize = (row_start * frame.width * 4) as usize;
    let n = frame.pixels.len();
    if byte_start >= n {
        return None;
    }
    let ghost src = frame.pixels@.skip(byte_start as int);
    assert(byte_start % 4 == 0);
    assert(n % 4 == 0) by (nonlinear_arith)
        requires
            n == frame.width * frame.height * 4,
    ;
    let mut out: Vec<u8> = Vec::new();
    let mut i: usize = byte_start;
    while i < n
        invariant
            n == frame.pixels@.len(),
            byte_start <= i <= n,
            n % 4 == 0,
            i % 4 == 0,
            byte_start % 4 == 0,
            src == frame.pixels@.skip(byte_start as int),
            out@.len() == i - byte_start,
            forall|k: int| 0 <= k < out@.len() ==> out@[k] == #[trigger] banner_binarized(src)[k],
        decreases n - i,
    {
        let r = frame.pixels[i];
        let g = frame.pixels[i + 1];
        let b = frame.pixels[i + 2];
        let a = frame.pixels[i + 3];
        let v: u8 = if r > 200 && g > 200 && b > 200 { 0 } else { 255 };
        let ghost k0 = i - byte_start;
        assert(k0 % 4 == 0);
        assert(src[k0] == r && src[k0 + 1] == g && src[k0 + 2] == b && src[k0 + 3] == a);
        out.push(v);
        out.push(v);
        out.push(v);
        out.push(a);
        assert forall|k: int| 0 <= k < out@.len() implies out@[k] == #[trigger] banner_binarized(src)[k] by {
            if k >= k0 {
                assert(k - k % 4 == k0);
            }
        }
        i = i + 4;
    }
    assert(out@ =~= banner_binarized(src));
    Some((cropped_height, out))
}

/// A rectangle of pixel columns `x_start..x_end` and rows `y_start..y_end`.
pub struct CropRect {
    pub x_start: usize,
    pub x_end: usize,
    pub y_start: usize,
    pub y_end: usize,
}

/// The scoreboard marking of the pixel at column `x`, row `y` of an image
/// `w` pixels wide: opaque black where it is brighter than 180 in red, green
/// and blue, opaque white elsewhere.
pub open spec fn scoreboard_mark(px: Seq<u8>, w: int, x: int, y: int) -> Seq<u8> {
    if bright_at(px, (y * w + x) * 4, 180) {
        seq![0u8, 0u8, 0u8, 255u8]
    } else {
        seq![255u8, 255u8, 255u8, 255u8]
    }
}

/// The marked pixels of row `y`, columns `x0..x1`.
pub open spec fn scoreboard_row(px: Seq<u8>, w: int, y: int, x0: int, x1: int) -> Seq<u8>
    decreases x1 - x0,
{
    if x1 <= x0 {
        Seq::<u8>::empty()
    } else {
        scoreboard_row(px, w, y, x0, x1 - 1) + scoreboard_mark(px, w, x1 - 1, y)
    }
}

/// The marked pixels of rows `y0..y1`, columns `x0..x1`, row by row.
pub open spec fn scoreboard_rows(px: Seq<u8>, w: int, x0: int, x1: int, y0: int, y1: int) -> Seq<u8>
    decreases y1 - y0,
{
    if y1 <= y0 {
        Seq::<u8>::empty()
    } else {
        scoreboard_rows(px, w, x0, x1, y0, y1 - 1) + scoreboard_row(px, w, y1 - 1, x0, x1)
    }
}

/// The rectangle lies inside the frame, and its byte count fits the `u32`
/// the tracker computes it in.
pub open spec fn crop_fits(frame: &Frame, rect: &CropRect) -> bool {
    &&& rect.x_start <= rect.x_end <= frame.width
    &&& rect.y_start <= rect.y_end <= frame.height
    &&& (rect.x_end - rect.x_start) * (rect.y_end - rect.y_start) * 4 <= u32::MAX
}

proof fn lemma_pixel_in_frame(w: int, h: int, x: int, y: int)
    requires
        0 <= x < w,
        0 <= y < h,
    ensures
        (y * w + x) * 4 + 3 < w * h * 4,
        0 <= (y * w + x) * 4,
{
    assert(y * w + x < w * h) by (nonlinear_arith)
        requires
            0 <= x < w,
            0 <= y < h,
    ;
    assert(0 <= y * w) by (nonlinear_arith)
        requires
            0 <= y,
            0 <= w,
    ;
}

/// Crops a frame to `rect` and marks each pixel black or white for the
/// scoreboard reader. Gives the width and height of the crop and its RGBA bytes.
pub fn binarize_scoreboard(frame: &Frame, rect: &CropRect) -> (crop: (u32, u32, Vec<u8>))
    requires
        frame.wf(),
        crop_fits(frame, rect),
    ensures
        crop.0 == rect.x_end - rect.x_start,
        crop.1 == rect.y_end - rect.y_start,
        crop.2@ == scoreboard_rows(
            frame.pixels@,
            frame.width as int,
            rect.x_start as int,
            rect.x_end as int,
            rect.y_start as int,
            rect.y_end as int,
        ),
{
    let crop_w = (rect.x_end - rect.x_start) as u32;
    let crop_h = (rect.y_end - rect.y_start) as u32;
    let w = frame.width as usize;
    let ghost px = frame.pixels@;
    let ghost x0 = rect.x_start as int;
    let ghost x1 = rect.x_end as int;
    let ghost y0 = rect.y_start as int;
    let n = frame.pixels.len();
    let mut out: Vec<u8> = Vec::new();
    let mut y = rect.y_start;
    while y < rect.y_end
        invariant
            frame.wf(),
            crop_fits(frame, rect),
            px == frame.pixels@,
            n == px.len(),
            w == frame.width,
            x0 == rect.x_start,
            x1 == rect.x_end,
            y0 == rect.y_start,
            rect.y_start <= y <= rect.y_end,
            out@ == scoreboard_rows(px, w as int, x0, x1, y0, y as int),
        decreases rect.y_end - y,
    {
        let ghost before = out@;
        let mut x = rect.x_start;
        while x < rect.x_end
            invariant
                frame.wf(),
                crop_fits(frame, rect),
                px == frame.pixels@,
                n == px.len(),
                w == frame.width,
                x0 == rect.x_start,
                x1 == rect.x_end,
                rect.y_start <= y < rect.y_end,
                rect.x_start <= x <= rect.x_end,
                out@ == before + scoreboard_row(px, w as int, y as int, x0, x as int),
            decreases rect.x_end - x,
        {
            proof {
                lemma_pixel_in_frame(w as int, frame.height as int, x as int, y as int);
                assert((y * w + x) * 4 + 3 < px.len());
                assert(0 <= y * w <= y * w + x);
            }
            let base = (y * w + x) * 4;
            let r = frame.pixels[base];
            let g = frame.pixels[base + 1];
            let b = frame.pixels[base + 2];
            if r > 180 && g > 180 && b > 180 {
                out.push(0);
                out.push(0);
                out.push(0);
                out.push(255);
            } else {
                out.push(255);
                out.push(255);
                out.push(255);
                out.push(255);
            }
            assert(out@ =~= before + scoreboard_row(px, w as int, y as int, x0, x + 1));
            x = x + 1;
        }
        y = y + 1;
        assert(out@ =~= scoreboard_rows(px, w as int, x0, x1, y0, y as int));
    }
    (crop_w, crop_h, out)
}

/// Banner binarisation keeps the size, gives each pixel equal red, green
/// and blue of either 0 (text: bright before) or 255 (background), and keeps
/// its alpha.
pub proof fn lemma_banner_binarized_shape(px: Seq<u8>)
    requires
        px.len() % 4 == 0,
    ensures
        banner_binarized(px).len() == px.len(),
        forall|p: int|
            #![trigger banner_binarized(px)[4 * p + 3]]
            0 <= p < px.len() / 4 ==> {
                &&& banner_binarized(px)[4 * p] == banner_binarized(px)[4 * p + 1]
                &&& banner_binarized(px)[4 * p + 1] == banner_binarized(px)[4 * p + 2]
                &&& (banner_binarized(px)[4 * p] == 0u8 <==> bright_at(px, 4 * p, 200))
                &&& (banner_binarized(px)[4 * p] == 0u8 <==> (px[4 * p] > 200 && px[4 * p + 1] > 200
                    && px[4 * p + 2] > 200))
                &&& (banner_binarized(px)[4 * p] == 0u8 || banner_binarized(px)[4 * p] == 255u8)
                &&& banner_binarized(px)[4 * p + 3] == px[4 * p + 3]
            },
{
    let out = banner_binarized(px);
    assert forall|p: int| #![trigger out[4 * p + 3]] 0 <= p < px.len() / 4 implies {
        &&& out[4 * p] == out[4 * p + 1]
        &&& out[4 * p + 1] == out[4 * p + 2]
        &&& (out[4 * p] == 0u8 <==> bright_at(px, 4 * p, 200))
        &&& (out[4 * p] == 0u8 || out[4 * p] == 255u8)
        &&& out[4 * p + 3] == px[4 * p + 3]
    } by {
        assert((4 * p) % 4 == 0);
        assert((4 * p + 1) % 4 == 1);
        assert((4 * p + 2) % 4 == 2);
        assert((4 * p + 3) % 4 == 3);
    }
}

/// RGBA bytes where every byte is 0 or 255 and every pixel is opaque.
pub open spec fn black_and_white(s: Seq<u8>) -> bool {
    &&& s.len() % 4 == 0
    &&& forall|i: int| 0 <= i < s.len() ==> (#[trigger] s[i] == 0u8 || s[i] == 255u8)
    &&& forall|p: int| 0 <= p < s.len() / 4 ==> #[trigger] s[4 * p + 3] == 255u8
}

proof fn lemma_black_and_white_concat(a: Seq<u8>, b: Seq<u8>)
    requires
        black_and_white(a),
        black_and_white(b),
    ensures
        black_and_white(a + b),
{
    let c = a + b;
    assert forall|i: int| 0 <= i < c.len() implies (#[trigger] c[i] == 0u8 || c[i] == 255u8) by {
        if i >= a.len() {
            assert(c[i] == b[i - a.len()]);
        }
    }
    assert forall|p: int| 0 <= p < c.len() / 4 implies #[trigger] c[4 * p + 3] == 255u8 by {
        let q = p - a.len() / 4;
        if 4 * p + 3 >= a.len() {
            assert(4 * p + 3 - a.len() == 4 * q + 3);
            assert(b[4 * q + 3] == 255u8);
        }
    }
}

proof fn lemma_scoreboard_row_shape(px: Seq<u8>, w: int, y: int, x0: int, x1: int)
    ensures
        black_and_white(scoreboard_row(px, w, y, x0, x1)),
        scoreboard_row(px, w, y, x0, x1).len() == if x1 <= x0 { 0 } else { (x1 - x0) * 4 },
    decreases x1 - x0,
{
    if x1 > x0 {
        lemma_scoreboard_row_shape(px, w, y, x0, x1 - 1);
        let m = scoreboard_mark(px, w, x1 - 1, y);
        assert(black_and_white(m)) by {
            assert forall|p: int| 0 <= p < m.len() / 4 implies #[trigger] m[4 * p + 3] == 255u8 by {
                assert(p == 0);
            }
        }
        lemma_black_and_white_concat(scoreboard_row(px, w, y, x0, x1 - 1), m);
    }
}

/// The scoreboard crop is black and white: `(x1 - x0) * (y1 - y0)` opaque
/// pixels, each black or white.
pub proof fn lemma_scoreboard_rows_shape(px: Seq<u8>, w: int, x0: int, x1: int, y0: int, y1: int)
    requires
        x0 <= x1,
        y0 <= y1,
    ensures
        black_and_white(scoreboard_rows(px, w, x0, x1, y0, y1)),
        scoreboard_rows(px, w, x0, x1, y0, y1).len() == (x1 - x0) * (y1 - y0) * 4,
    decreases y1 - y0,
{
    if y1 > y0 {
        lemma_scoreboard_rows_shape(px, w, x0, x1, y0, y1 - 1);
        lemma_scoreboard_row_shape(px, w, y1 - 1, x0, x1);
        lemma_black_and_white_concat(
            scoreboard_rows(px, w, x0, x1, y0, y1 - 1),
            scoreboard_row(px, w, y1 - 1, x0, x1),
        );
        assert((x1 - x0) * (y1 - 1 - y0) * 4 + (x1 - x0) * 4 == (x1 - x0) * (y1 - y0) * 4)
            by (nonlinear_arith);
    } else {
        assert((x1 - x0) * (y1 - y0) * 4 == 0) by (nonlinear_arith)
            requires
                y1 == y0,
        ;
    }
}

/// The bottom third starts at row floor(2h/3): the crop keeps the last
/// ceil(h/3) rows.
pub proof fn lemma_bottom_third_row(height: u32)
    ensures
        3 * bottom_third_row(height) <= 2 * height < 3 * bottom_third_row(height) + 3,
        0 <= bottom_third_row(height) <= height,
{
}

proof fn lemma_scoreboard_row_index(px: Seq<u8>, w: int, y: int, x0: int, x1: int, x: int)
    requires
        x0 <= x < x1,
    ensures
        scoreboard_row(px, w, y, x0, x1).len() == (x1 - x0) * 4,
        scoreboard_row(px, w, y, x0, x1).subrange((x - x0) * 4, (x - x0) * 4 + 4) == scoreboard_mark(
            px,
            w,
            x,
            y,
        ),
    decreases x1 - x0,
{
    lemma_scoreboard_row_shape(px, w, y, x0, x1);
    lemma_scoreboard_row_shape(px, w, y, x0, x1 - 1);
    let init = scoreboard_row(px, w, y, x0, x1 - 1);
    let m = scoreboard_mark(px, w, x1 - 1, y);
    if x < x1 - 1 {
        lemma_scoreboard_row_index(px, w, y, x0, x1 - 1, x);
        assert((init + m).subrange((x - x0) * 4, (x - x0) * 4 + 4) =~= init.subrange(
            (x - x0) * 4,
            (x - x0) * 4 + 4,
        ));
    } else {
        assert(init.len() == (x - x0) * 4);
        assert((init + m).subrange((x - x0) * 4, (x - x0) * 4 + 4) =~= m);
    }
}

proof fn lemma_scoreboard_rows_index(
    px: Seq<u8>,
    w: int,
    x0: int,
    x1: int,
    y0: int,
    y1: int,
    x: int,
    y: int,
)
    requires
        x0 <= x < x1,
        y0 <= y < y1,
    ensures
        scoreboard_rows(px, w, x0, x1, y0, y1).subrange(
            ((y - y0) * (x1 - x0) + (x - x0)) * 4,
            ((y - y0) * (x1 - x0) + (x - x0)) * 4 + 4,
        ) == scoreboard_mark(px, w, x, y),
    decreases y1 - y0,
{
    let k = (y - y0) * (x1 - x0) + (x - x0);
    lemma_scoreboard_rows_shape(px, w, x0, x1, y0, y1 - 1);
    let init = scoreboard_rows(px, w, x0, x1, y0, y1 - 1);
    let row = scoreboard_row(px, w, y1 - 1, x0, x1);
    lemma_scoreboard_row_index(px, w, y1 - 1, x0, x1, x);
    if y < y1 - 1 {
        lemma_scoreboard_rows_index(px, w, x0, x1, y0, y1 - 1, x, y);
        assert(k * 4 + 4 <= init.len()) by (nonlinear_arith)
            requires
                k == (y - y0) * (x1 - x0) + (x - x0),
                init.len() == (x1 - x0) * (y1 - 1 - y0) * 4,
                x0 <= x < x1,
                y0 <= y < y1 - 1,
        ;
        assert((init + row).subrange(k * 4, k * 4 + 4) =~= init.subrange(k * 4, k * 4 + 4));
    } else {
        assert(init.len() == (y - y0) * (x1 - x0) * 4) by (nonlinear_arith)
            requires
                init.len() == (x1 - x0) * (y1 - 1 - y0) * 4,
                y == y1 - 1,
        ;
        assert(k * 4 == init.len() + (x - x0) * 4) by (nonlinear_arith)
            requires
                k == (y - y0) * (x1 - x0) + (x - x0),
                init.len() == (y - y0) * (x1 - x0) * 4,
        ;
        assert((init + row).subrange(k * 4, k * 4 + 4) =~= row.subrange(
            (x - x0) * 4,
            (x - x0) * 4 + 4,
        ));
    }
}

/// Each pixel of the scoreboard crop, at its row-major place, is opaque
/// black exactly when the frame pixel it comes from is brighter than 180 in
/// red, green and blue, and opaque white otherwise.
pub proof fn lemma_scoreboard_pixel(
    px: Seq<u8>,
    w: int,
    x0: int,
    x1: int,
    y0: int,
    y1: int,
    x: int,
    y: int,
)
    requires
        x0 <= x < x1,
        y0 <= y < y1,
    ensures
        ({
            let k = (y - y0) * (x1 - x0) + (x - x0);
            let b = (y * w + x) * 4;
            scoreboard_rows(px, w, x0, x1, y0, y1).subrange(k * 4, k * 4 + 4) == if px[b] > 180
                && px[b + 1] > 180 && px[b + 2] > 180 {
                seq![0u8, 0u8, 0u8, 255u8]
            } else {
                seq![255u8, 255u8, 255u8, 255u8]
            }
        }),
{
    lemma_scoreboard_rows_index(px, w, x0, x1, y0, y1, x, y);
}

/// Whole RGBA pixels of a non-empty image are accepted as an image source.
pub proof fn lemma_rgba_image_accepted(len: nat, width: u32, height: u32)
    requires
        width * height > 0,
        len == width * height * 4,
    ensures
        crate::ocr::image_source_accepts(len, width, height),
{
    let area: int = width * height;
    assert(len as int == area * 4);
    assert((area * 4) % area == 0 && (area * 4) / area == 4) by (nonlinear_arith)
        requires
            area > 0,
    ;
}

/// The scoreboard crop is a whole image of its size: a non-empty crop is
/// accepted as an image source, as `x1 - x0` by `y1 - y0` RGBA pixels.
pub proof fn lemma_scoreboard_crop_accepted(
    px: Seq<u8>,
    w: int,
    x0: int,
    x1: int,
    y0: int,
    y1: int,
    crop_w: u32,
    crop_h: u32,
)
    requires
        crop_w == x1 - x0,
        crop_h == y1 - y0,
        crop_w * crop_h > 0,
    ensures
        scoreboard_rows(px, w, x0, x1, y0, y1).len() == crop_w * crop_h * 4,
        crate::ocr::image_source_accepts(scoreboard_rows(px, w, x0, x1, y0, y1).len(), crop_w, crop_h),
{
    lemma_scoreboard_rows_shape(px, w, x0, x1, y0, y1);
    assert((x1 - x0) * (y1 - y0) * 4 == crop_w * crop_h * 4);
    lemma_rgba_image_accepted(scoreboard_rows(px, w, x0, x1, y0, y1).len(), crop_w, crop_h);
}

/// The bottom-third crop of a frame is a whole image of its size: where it
/// is non-empty it is accepted as an image source, as `width` by the number
/// of rows it keeps, in RGBA pixels.
pub proof fn lemma_bottom_third_crop_accepted(frame: &Frame)
    requires
        frame.wf(),
        bottom_third_row(frame.height) * frame.width * 4 < frame.pixels@.len(),
        frame.width * (frame.height - bottom_third_row(frame.height)) <= u32::MAX,
    ensures
        ({
            let row = bottom_third_row(frame.height);
            let crop = banner_binarized(frame.pixels@.skip(row * frame.width * 4));
            &&& crop.len() == frame.width * (frame.height - row) * 4
            &&& crate::ocr::image_source_accepts(crop.len(), frame.width, (frame.height - row) as u32)
        }),
{
    let w = frame.width as int;
    let h = frame.height as int;
    let row = bottom_third_row(frame.height);
    let start = row * w * 4;
    let crop = banner_binarized(frame.pixels@.skip(start));
    assert(crop.len() == w * (h - row) * 4 && w * (h - row) > 0) by (nonlinear_arith)
        requires
            crop.len() == frame.pixels@.len() - start,
            frame.pixels@.len() == w * h * 4,
            start == row * w * 4,
            start < frame.pixels@.len(),
            0 <= row,
            0 <= w,
    ;
    let ch = (h - row) as u32;
    assert(ch == h - row);
    lemma_rgba_image_accepted(crop.len(), frame.width, ch);
}

} // verus!
