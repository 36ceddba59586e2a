//! The rule by which a picture is scaled down to fit a bound, and the guard
//! on the size of an upload.

use vstd::prelude::*;
use vstd::arithmetic::div_mod::{lemma_div_pos_is_pos, lemma_fundamental_div_mod, lemma_mod_bound, lemma_multiply_divide_lt};
use crate::error::{is_error, AppError, ErrorKind};

verus! {

/// The largest upload that is accepted, in bytes: 10 MiB.
pub const MAX_UPLOAD_BYTES: u64 = 10_485_760;

/// The bound, in pixels, on the width and on the height of a stored image.
pub const FULL_BOUND: u32 = 512;

/// The bound, in pixels, on the width and on the height of a thumbnail.
pub const THUMBNAIL_BOUND: u32 = 128;

/// The description of the error for a declared length above the limit.
pub open spec fn msg_declared_too_large() -> Seq<char> {
    "declared upload size exceeds the limit"@
}

/// The description of the error for a body longer than the limit.
pub open spec fn msg_body_too_large() -> Seq<char> {
    "upload exceeds the limit"@
}

/// Whether a request that declares the given length is over the limit. A
/// request that declares no length passes this check.
pub open spec fn declared_over(declared: Option<u64>, limit: u64) -> bool {
    declared matches Some(n) && n > limit
}

/// Rejects a request by the length it declares, before its body is read.
pub fn check_declared_length(declared: Option<u64>, limit: u64) -> (r: Result<(), AppError>)
    ensures
        declared_over(declared, limit) ==> (r matches Err(e) && is_error(
            e,
            ErrorKind::PayloadTooLarge,
            msg_declared_too_large(),
        )),
        !declared_over(declared, limit) ==> r is Ok,
{
    match declared {
        Some(n) => {
            if n > limit {
                Err(AppError::payload_too_large("declared upload size exceeds the limit"))
            } else {
                Ok(())
            }
        },
        None => Ok(()),
    }
}

/// Rejects a body by the number of bytes that were actually read, whatever
/// length the request declared.
pub fn check_actual_length(actual: usize, limit: u64) -> (r: Result<(), AppError>)
    ensures
        actual > limit ==> (r matches Err(e) && is_error(e, ErrorKind::PayloadTooLarge, msg_body_too_large())),
        actual <= limit ==> r is Ok,
{
    if actual as u64 > limit {
        Err(AppError::payload_too_large("upload exceeds the limit"))
    } else {
        Ok(())
    }
}

/// Whether a picture of `width` by `height` pixels is within the bound.
pub open spec fn fits(width: int, height: int, max_width: int, max_height: int) -> bool {
    width <= max_width && height <= max_height
}

/// The quotient of `a` by `b`, rounded to the nearest whole number, halves
/// upwards.
pub open spec fn rounded_div(a: int, b: int) -> int {
    (2 * a + b) / (2 * b)
}

/// `v`, or 1 where `v` is less.
pub open spec fn at_least_one(v: int) -> int {
    if v < 1 {
        1
    } else {
        v
    }
}

/// The size to which a picture of `width` by `height` pixels is brought so
/// that it fits the bound. A picture within the bound keeps its size: none is
/// ever enlarged. Otherwise the side that exceeds its bound by the larger
/// factor is set to the bound, and the other side is scaled by the same
/// factor, rounded to whole pixels and never to less than one.
pub open spec fn fitted_size(width: int, height: int, max_width: int, max_height: int) -> (int, int) {
    if fits(width, height, max_width, max_height) {
        (width, height)
    } else if width * max_height >= height * max_width {
        (max_width, at_least_one(rounded_div(height * max_width, width)))
    } else {
        (at_least_one(rounded_div(width * max_height, height)), max_height)
    }
}

/// Whether a size and a bound are ones for which scaling is defined: no
/// side is zero.
pub open spec fn scalable(width: int, height: int, max_width: int, max_height: int) -> bool {
    width >= 1 && height >= 1 && max_width >= 1 && max_height >= 1
}

/// A quotient rounded to the nearest whole number is at most `n` if the
/// exact quotient is, and at most the dividend's cofactor.
pub proof fn lemma_rounded_div_bound(a: int, b: int, n: int)
    requires
        0 < b,
        0 <= a <= n * b,
    ensures
        0 <= rounded_div(a, b) <= n,
{
    assert(2 * a + b < (2 * b) * (n + 1)) by (nonlinear_arith)
        requires
            0 < b,
            a <= n * b,
    ;
    lemma_multiply_divide_lt(2 * a + b, 2 * b, n + 1);
    lemma_div_pos_is_pos(2 * a + b, 2 * b);
}

/// The fitted size is within the bound, has no empty side, and is on
/// neither side larger than the picture was.
pub proof fn lemma_fitted_size_within(width: int, height: int, max_width: int, max_height: int)
    requires
        scalable(width, height, max_width, max_height),
    ensures
        ({
            let (w, h) = fitted_size(width, height, max_width, max_height);
            &&& 1 <= w <= max_width
            &&& 1 <= h <= max_height
            &&& w <= width
            &&& h <= height
        }),
{
    if fits(width, height, max_width, max_height) {
    } else if width * max_height >= height * max_width {
        assert(width > max_width) by (nonlinear_arith)
            requires
                scalable(width, height, max_width, max_height),
                !fits(width, height, max_width, max_height),
                width * max_height >= height * max_width,
        ;
        assert(height * max_width <= max_height * width) by (nonlinear_arith)
            requires
                width * max_height >= height * max_width,
        ;
        assert(0 <= height * max_width <= height * width) by (nonlinear_arith)
            requires
                height >= 1,
                1 <= max_width < width,
        ;
        lemma_rounded_div_bound(height * max_width, width, max_height);
        lemma_rounded_div_bound(height * max_width, width, height);
    } else {
        assert(height > max_height) by (nonlinear_arith)
            requires
                scalable(width, height, max_width, max_height),
                !fits(width, height, max_width, max_height),
                width * max_height < height * max_width,
        ;
        assert(width * max_height <= max_width * height) by (nonlinear_arith)
            requires
                width * max_height < height * max_width,
        ;
        assert(0 <= width * max_height <= width * height) by (nonlinear_arith)
            requires
                width >= 1,
                1 <= max_height < height,
        ;
        lemma_rounded_div_bound(width * max_height, height, max_width);
        lemma_rounded_div_bound(width * max_height, height, width);
    }
}

/// The distance between two numbers.
pub open spec fn distance(a: int, b: int) -> int {
    if a <= b {
        b - a
    } else {
        a - b
    }
}

/// Whether a side scaled to `side` keeps the proportion `part` to `whole`
/// of a side set to `bound`, as nearly as whole pixels allow: it is off by
/// half a pixel at most, unless it had to be raised to one pixel.
pub open spec fn in_proportion(side: int, bound: int, part: int, whole: int) -> bool {
    side == 1 || 2 * distance(side * whole, part * bound) <= whole
}

/// A rounded quotient is off the exact quotient by a half at most.
pub proof fn lemma_rounded_div_near(a: int, b: int)
    requires
        0 < b,
        0 <= a,
    ensures
        2 * distance(rounded_div(a, b) * b, a) <= b,
{
    let q = rounded_div(a, b);
    lemma_fundamental_div_mod(2 * a + b, 2 * b);
    lemma_mod_bound(2 * a + b, 2 * b);
    assert(2 * a + b == (2 * b) * q + (2 * a + b) % (2 * b));
    assert((2 * b) * q == 2 * (q * b)) by (nonlinear_arith);
}

/// Scaling keeps the proportion of the sides: the side that decides is set
/// to its bound, and the other is in proportion to it.
pub proof fn lemma_fitted_size_proportional(width: int, height: int, max_width: int, max_height: int)
    requires
        scalable(width, height, max_width, max_height),
        !fits(width, height, max_width, max_height),
    ensures
        ({
            let (w, h) = fitted_size(width, height, max_width, max_height);
            if width * max_height >= height * max_width {
                w == max_width && in_proportion(h, max_width, height, width)
            } else {
                h == max_height && in_proportion(w, max_height, width, height)
            }
        }),
{
    if width * max_height >= height * max_width {
        assert(0 <= height * max_width) by (nonlinear_arith)
            requires
                height >= 1,
                max_width >= 1,
        ;
        lemma_rounded_div_near(height * max_width, width);
    } else {
        assert(0 <= width * max_height) by (nonlinear_arith)
            requires
                width >= 1,
                max_height >= 1,
        ;
        lemma_rounded_div_near(width * max_height, height);
    }
}

/// The quotient of `a` by `b`, rounded to the nearest whole number and
/// raised to 1 where it is less.
fn scaled_side(a: u64, b: u32, cap: u32) -> (side: u32)
    requires
        b >= 1,
        a <= cap * b,
    ensures
        side == at_least_one(rounded_div(a as int, b as int)),
{
    proof {
        lemma_rounded_div_bound(a as int, b as int, cap as int);
    }
    let twice: u128 = 2 * (a as u128) + (b as u128);
    let q: u128 = twice / (2 * (b as u128));
    if q < 1 {
        1
    } else {
        q as u32
    }
}

/// The size to which a picture of `width` by `height` pixels is brought to
/// fit the bound.
pub(crate) fn fitted(width: u32, height: u32, max_width: u32, max_height: u32) -> (size: (u32, u32))
    requires
        scalable(width as int, height as int, max_width as int, max_height as int),
    ensures
        (size.0 as int, size.1 as int) == fitted_size(
            width as int,
            height as int,
            max_width as int,
            max_height as int,
        ),
{
    if width <= max_width && height <= max_height {
        return (width, height);
    }
    proof {
        assert(0 <= width * max_height <= 0xffff_ffff * 0xffff_ffff) by (nonlinear_arith)
            requires
                0 <= width <= 0xffff_ffff,
                0 <= max_height <= 0xffff_ffff,
        ;
        assert(0 <= height * max_width <= 0xffff_ffff * 0xffff_ffff) by (nonlinear_arith)
            requires
                0 <= height <= 0xffff_ffff,
                0 <= max_width <= 0xffff_ffff,
        ;
    }
    let by_width: u64 = (width as u64) * (max_height as u64);
    let by_height: u64 = (height as u64) * (max_width as u64);
    if by_width >= by_height {
        proof {
            assert(by_height <= max_height * width) by (nonlinear_arith)
                requires
                    by_width >= by_height,
                    by_width == width * max_height,
            ;
        }
        (max_width, scaled_side(by_height, width, max_height))
    } else {
        proof {
            assert(by_width <= max_width * height) by (nonlinear_arith)
                requires
                    by_width < by_height,
                    by_height == height * max_width,
            ;
        }
        (scaled_side(by_width, height, max_width), max_height)
    }
}

/// The size to which a picture of `width` by `height` pixels is brought to
/// fit the bound, or `None` where a side of the picture or of the bound is
/// zero.
pub fn fit_within(width: u32, height: u32, max_width: u32, max_height: u32) -> (size: Option<(u32, u32)>)
    ensures
        scalable(width as int, height as int, max_width as int, max_height as int) ==> (size matches Some(s)
            && (s.0 as int, s.1 as int) == fitted_size(
            width as int,
            height as int,
            max_width as int,
            max_height as int,
        )),
        !scalable(width as int, height as int, max_width as int, max_height as int) ==> size is None,
{
    if width == 0 || height == 0 || max_width == 0 || max_height == 0 {
        None
    } else {
        Some(fitted(width, height, max_width, max_height))
    }
}

} // verus!
