//! Decoded images held as plain pixel data, and the operations on them that
//! need no resampling: cropping to a rectangle and turning by a quarter.

use vstd::prelude::*;
use crate::error::{is_error, AppError, ErrorKind};

verus! {

/// What a picture holds, as a mathematical value: its size in pixels and
/// the channel values of its pixels, row by row from the top.
pub struct Raster {
    pub width: nat,
    pub height: nat,
    pub data: Seq<u8>,
}

impl Raster {
    /// The position in `data` of the first channel of the pixel (x, y).
    pub open spec fn offset(self, x: int, y: int) -> int {
        (y * self.width + x) * 4
    }

    /// The value of channel `c` of the pixel in column `x` of row `y`.
    pub open spec fn sample(self, x: int, y: int, c: int) -> u8 {
        self.data[self.offset(x, y) + c]
    }

    /// Whether (x, y) is a pixel of the picture and `c` one of its channels.
    pub open spec fn has(self, x: int, y: int, c: int) -> bool {
        0 <= x < self.width && 0 <= y < self.height && 0 <= c < 4
    }

    /// Whether `data` holds exactly the pixels of a picture of this size.
    pub open spec fn complete(self) -> bool {
        self.data.len() == self.width * self.height * 4
    }

    /// Whether this is what a picture can hold: it has at least one pixel,
    /// its sides can be counted in 32 bits, and its data is complete.
    pub open spec fn depicts(self) -> bool {
        0 < self.width <= u32::MAX && 0 < self.height <= u32::MAX && self.complete()
    }
}

/// An image in memory: 8-bit RGBA pixels, row by row from the top.
#[derive(Debug)]
pub struct Picture {
    width: u32,
    height: u32,
    pixels: Vec<u8>,
}

impl View for Picture {
    type V = Raster;

    closed spec fn view(&self) -> Raster {
        Raster { width: self.width as nat, height: self.height as nat, data: self.pixels@ }
    }
}

/// Every channel of every pixel has its place in the data of a complete
/// raster, and the places of different channels differ.
pub proof fn lemma_offset_in_bounds(r: Raster, x: int, y: int, c: int)
    requires
        r.complete(),
        r.has(x, y, c),
    ensures
        0 <= r.offset(x, y) + c < r.data.len(),
        r.offset(x, y) + 4 <= r.data.len(),
{
    let w = r.width as int;
    let h = r.height as int;
    assert(y * w + x < h * w) by (nonlinear_arith)
        requires
            0 <= x < w,
            0 <= y < h,
    ;
    assert(0 <= y * w + x) by (nonlinear_arith)
        requires
            0 <= x < w,
            0 <= y < h,
    ;
    assert((h * w) * 4 == w * h * 4) by (nonlinear_arith);
}

/// In a raster `w` pixels wide, the pixels of an earlier row lie before
/// those of a later row.
pub proof fn lemma_rows_in_order(w: int, x: int, y: int, rows: int)
    requires
        0 <= x < w,
        0 <= y < rows,
    ensures
        0 <= (y * w + x) * 4,
        (y * w + x) * 4 + 4 <= rows * w * 4,
{
    assert(y * w + x + 1 <= rows * w) by (nonlinear_arith)
        requires
            0 <= x < w,
            0 <= y < rows,
    ;
    assert(0 <= y * w + x) by (nonlinear_arith)
        requires
            0 <= x < w,
            0 <= y < rows,
    ;
}

/// The description of the error for a crop rectangle without area.
pub open spec fn msg_crop_empty() -> Seq<char> {
    "crop size must be non-zero"@
}

/// The description of the error for a crop rectangle that starts outside
/// the picture.
pub open spec fn msg_crop_outside() -> Seq<char> {
    "crop origin out of bounds"@
}

/// The smaller of two numbers.
pub open spec fn lesser(a: int, b: int) -> int {
    if a <= b {
        a
    } else {
        b
    }
}

/// Whether `out` is the part of `src` that the rectangle of size `w` by `h`
/// at (x, y) covers, the rectangle being cut off at the right and bottom
/// edges of `src`.
pub open spec fn is_crop_of(out: Raster, src: Raster, x: int, y: int, w: int, h: int) -> bool {
    &&& out.complete()
    &&& out.width == lesser(w, src.width - x)
    &&& out.height == lesser(h, src.height - y)
    &&& forall|i: int, j: int, c: int| #[trigger]
        out.has(i, j, c) ==> out.sample(i, j, c) == src.sample(x + i, y + j, c)
}

/// Whether `out` is `src` turned clockwise by a quarter: the left column of
/// `src`, read from the bottom, is the top row of `out`.
pub open spec fn is_quarter_turn_of(out: Raster, src: Raster) -> bool {
    &&& out.complete()
    &&& out.width == src.height
    &&& out.height == src.width
    &&& forall|i: int, j: int, c: int| #[trigger]
        out.has(i, j, c) ==> out.sample(i, j, c) == src.sample(j, src.height - 1 - i, c)
}

/// Whether pixel data of this length can be a picture of this size: the size
/// is not empty and there is one byte for each channel of each pixel.
pub open spec fn well_sized(width: u32, height: u32, data: Seq<u8>) -> bool {
    width > 0 && height > 0 && data.len() == width * height * 4
}

impl Picture {
    /// The picture has at least one pixel, and the pixel data fits the size.
    pub open spec fn wf(&self) -> bool {
        self@.depicts()
    }

    /// A picture of the given size over the given pixel data, if the size
    /// is not empty and the data has one byte for each channel of each pixel.
    pub fn new(width: u32, height: u32, pixels: Vec<u8>) -> (picture: Option<Picture>)
        ensures
            well_sized(width, height, pixels@) ==> (picture matches Some(p) && p.wf() && p@ == (Raster {
                width: width as nat,
                height: height as nat,
                data: pixels@,
            })),
            !well_sized(width, height, pixels@) ==> picture is None,
    {
        if width == 0 || height == 0 {
            return None;
        }
        assert(0 <= width * height <= 0xffff_ffff * 0xffff_ffff) by (nonlinear_arith)
            requires
                0 <= width <= 0xffff_ffff,
                0 <= height <= 0xffff_ffff,
        ;
        let cells: u64 = (width as u64) * (height as u64);
        let bytes: u128 = (cells as u128) * 4;
        if pixels.len() as u128 == bytes {
            Some(Picture { width, height, pixels })
        } else {
            None
        }
    }

    /// The picture of the given size over pixel data that is known to fit.
    pub(crate) fn assemble(width: u32, height: u32, pixels: Vec<u8>) -> (picture: Picture)
        requires
            well_sized(width, height, pixels@),
        ensures
            picture.wf(),
            picture@ == (Raster { width: width as nat, height: height as nat, data: pixels@ }),
    {
        Picture { width, height, pixels }
    }

    /// The number of pixels in a row.
    pub fn width(&self) -> (w: u32)
        ensures
            w == self@.width,
    {
        self.width
    }

    /// The number of rows.
    pub fn height(&self) -> (h: u32)
        ensures
            h == self@.height,
    {
        self.height
    }

    /// The channel values of all pixels, row by row from the top.
    pub fn pixels(&self) -> (data: &Vec<u8>)
        ensures
            data@ == self@.data,
    {
        &self.pixels
    }

    /// A second picture with the same pixels.
    pub fn duplicate(&self) -> (copy: Picture)
        ensures
            copy@ == self@,
    {
        Picture {
            width: self.width,
            height: self.height,
            pixels: vstd::slice::slice_to_vec(self.pixels.as_slice()),
        }
    }

    /// Gives up the picture for its pixel data.
    pub fn into_pixels(self) -> (data: Vec<u8>)
        ensures
            data@ == self@.data,
    {
        self.pixels
    }

    /// The position in the pixel data of the first channel of the pixel
    /// (x, y).
    fn offset_of(&self, x: u32, y: u32) -> (at: usize)
        requires
            self.wf(),
            x < self@.width,
            y < self@.height,
        ensures
            at == self@.offset(x as int, y as int),
            at + 4 <= self@.data.len(),
    {
        let len = self.pixels.len();
        proof {
            let w = self.width as int;
            lemma_offset_in_bounds(self@, x as int, y as int, 0);
            assert(self@.offset(x as int, y as int) == (y * w + x) * 4);
            assert(0 <= y * w) by (nonlinear_arith)
                requires
                    0 <= y,
                    0 <= w,
            ;
            assert(len == self@.data.len());
        }
        ((y as usize) * (self.width as usize) + (x as usize)) * 4
    }

    /// Appends the channel values of the pixel (x, y) to `out`.
    fn push_pixel(&self, out: &mut Vec<u8>, x: u32, y: u32)
        requires
            self.wf(),
            x < self@.width,
            y < self@.height,
        ensures
            final(out)@.len() == old(out)@.len() + 4,
            forall|k: int| 0 <= k < old(out)@.len() ==> final(out)@[k] == old(out)@[k],
            forall|c: int|
                0 <= c < 4 ==> final(out)@[old(out)@.len() + c] == self@.sample(x as int, y as int, c),
    {
        let at = self.offset_of(x, y);
        out.push(self.pixels[at]);
        out.push(self.pixels[at + 1]);
        out.push(self.pixels[at + 2]);
        out.push(self.pixels[at + 3]);
    }

    /// Extracts the rectangle of `w` by `h` pixels whose top left corner is
    /// the pixel (x, y). A rectangle that reaches beyond the right or the
    /// bottom edge is cut off there, not refused. A rectangle without area is
    /// refused, and so is one whose corner is not a pixel of the picture.
    pub fn crop(&self, x: u32, y: u32, w: u32, h: u32) -> (r: Result<Picture, AppError>)
        requires
            self.wf(),
        ensures
            (w == 0 || h == 0) ==> (r matches Err(e) && is_error(e, ErrorKind::InvalidInput, msg_crop_empty())),
            w > 0 && h > 0 && (x >= self@.width || y >= self@.height) ==> (r matches Err(e) && is_error(
                e,
                ErrorKind::InvalidInput,
                msg_crop_outside(),
            )),
            w > 0 && h > 0 && x < self@.width && y < self@.height ==> (r matches Ok(out) && out.wf()
                && is_crop_of(out@, self@, x as int, y as int, w as int, h as int)),
    {
        if w == 0 || h == 0 {
            return Err(AppError::bad_request("crop size must be non-zero"));
        }
        if x >= self.width || y >= self.height {
            return Err(AppError::bad_request("crop origin out of bounds"));
        }
        let cw: u32 = if w <= self.width - x {
            w
        } else {
            self.width - x
        };
        let ch: u32 = if h <= self.height - y {
            h
        } else {
            self.height - y
        };
        let mut out: Vec<u8> = Vec::new();
        let mut j: u32 = 0;
        while j < ch
            invariant
                self.wf(),
                j <= ch,
                x + cw <= self@.width,
                y + ch <= self@.height,
                out@.len() == j * cw * 4,
                forall|ii: int, jj: int, c: int|
                    0 <= ii < cw && 0 <= jj < j && 0 <= c < 4 ==> #[trigger] out@[(jj * cw + ii) * 4 + c]
                        == self@.sample(x + ii, y + jj, c),
            decreases ch - j,
        {
            let mut i: u32 = 0;
            while i < cw
                invariant
                    self.wf(),
                    j < ch,
                    i <= cw,
                    x + cw <= self@.width,
                    y + ch <= self@.height,
                    out@.len() == (j * cw + i) * 4,
                    forall|ii: int, jj: int, c: int|
                        0 <= ii < cw && 0 <= jj < j && 0 <= c < 4 ==> #[trigger] out@[(jj * cw + ii) * 4 + c]
                            == self@.sample(x + ii, y + jj, c),
                    forall|ii: int, c: int|
                        0 <= ii < i && 0 <= c < 4 ==> #[trigger] out@[(j * cw + ii) * 4 + c] == self@.sample(
                            x + ii,
                            y + j,
                            c,
                        ),
                decreases cw - i,
            {
                let ghost before = out@;
                self.push_pixel(&mut out, x + i, y + j);
                proof {
                    assert forall|ii: int, jj: int, c: int|
                        0 <= ii < cw && 0 <= jj < j && 0 <= c < 4 implies #[trigger] out@[(jj * cw + ii) * 4
                        + c] == self@.sample(x + ii, y + jj, c) by {
                        lemma_rows_in_order(cw as int, ii, jj, j as int);
                        assert(out@[(jj * cw + ii) * 4 + c] == before[(jj * cw + ii) * 4 + c]);
                    }
                    assert forall|ii: int, c: int| 0 <= ii < i + 1 && 0 <= c < 4 implies #[trigger] out@[(j
                        * cw + ii) * 4 + c] == self@.sample(x + ii, y + j, c) by {
                        if ii < i {
                            assert(out@[(j * cw + ii) * 4 + c] == before[(j * cw + ii) * 4 + c]);
                        } else {
                            assert((j * cw + ii) * 4 + c == before.len() + c);
                        }
                    }
                }
                i = i + 1;
            }
            proof {
                assert((j * cw + cw) * 4 == (j + 1) * cw * 4) by (nonlinear_arith);
            }
            j = j + 1;
        }
        let cropped = Picture { width: cw, height: ch, pixels: out };
        proof {
            assert(cropped@.data.len() == cropped@.width * cropped@.height * 4) by (nonlinear_arith)
                requires
                    cropped@.data.len() == ch * cw * 4,
                    cropped@.width == cw,
                    cropped@.height == ch,
            ;
        }
        Ok(cropped)
    }

    /// Turns the picture clockwise by a quarter.
    pub fn rotate90(&self) -> (out: Picture)
        requires
            self.wf(),
        ensures
            out.wf(),
            is_quarter_turn_of(out@, self@),
    {
        let ow: u32 = self.height;
        let oh: u32 = self.width;
        let mut out: Vec<u8> = Vec::new();
        let mut j: u32 = 0;
        while j < oh
            invariant
                self.wf(),
                ow == self@.height,
                oh == self@.width,
                j <= oh,
                out@.len() == j * ow * 4,
                forall|ii: int, jj: int, c: int|
                    0 <= ii < ow && 0 <= jj < j && 0 <= c < 4 ==> #[trigger] out@[(jj * ow + ii) * 4 + c]
                        == self@.sample(jj, ow - 1 - ii, c),
            decreases oh - j,
        {
            let mut i: u32 = 0;
            while i < ow
                invariant
                    self.wf(),
                    ow == self@.height,
                    oh == self@.width,
                    j < oh,
                    i <= ow,
                    out@.len() == (j * ow + i) * 4,
                    forall|ii: int, jj: int, c: int|
                        0 <= ii < ow && 0 <= jj < j && 0 <= c < 4 ==> #[trigger] out@[(jj * ow + ii) * 4 + c]
                            == self@.sample(jj, ow - 1 - ii, c),
                    forall|ii: int, c: int|
                        0 <= ii < i && 0 <= c < 4 ==> #[trigger] out@[(j * ow + ii) * 4 + c] == self@.sample(
                            j as int,
                            ow - 1 - ii,
                            c,
                        ),
                decreases ow - i,
            {
                let ghost before = out@;
                self.push_pixel(&mut out, j, ow - 1 - i);
                proof {
                    assert forall|ii: int, jj: int, c: int|
                        0 <= ii < ow && 0 <= jj < j && 0 <= c < 4 implies #[trigger] out@[(jj * ow + ii) * 4
                        + c] == self@.sample(jj, ow - 1 - ii, c) by {
                        lemma_rows_in_order(ow as int, ii, jj, j as int);
                        assert(out@[(jj * ow + ii) * 4 + c] == before[(jj * ow + ii) * 4 + c]);
                    }
                    assert forall|ii: int, c: int| 0 <= ii < i + 1 && 0 <= c < 4 implies #[trigger] out@[(j
                        * ow + ii) * 4 + c] == self@.sample(j as int, ow - 1 - ii, c) by {
                        if ii < i {
                            assert(out@[(j * ow + ii) * 4 + c] == before[(j * ow + ii) * 4 + c]);
                        } else {
                            assert((j * ow + ii) * 4 + c == before.len() + c);
                        }
                    }
                }
                i = i + 1;
            }
            proof {
                assert((j * ow + ow) * 4 == (j + 1) * ow * 4) by (nonlinear_arith);
            }
            j = j + 1;
        }
        let turned = Picture { width: ow, height: oh, pixels: out };
        proof {
            assert(turned@.data.len() == turned@.width * turned@.height * 4) by (nonlinear_arith)
                requires
                    turned@.data.len() == oh * ow * 4,
                    turned@.width == ow,
                    turned@.height == oh,
            ;
        }
        turned
    }
}

} // verus!
