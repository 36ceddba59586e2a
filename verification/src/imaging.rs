//! The image derivation pipeline: an upload is checked for size, decoded,
//! turned upright where the device is known to need it, scaled down to the
//! stored size and to a thumbnail, and encoded as PNG.
//!
//! Decoding, resampling and encoding are the work of the `image` crate. This
//! module decides what is handed to it and what is made of its answers.

use vstd::prelude::*;
use crate::error::{is_error, AppError, ErrorKind};
use crate::picture::{is_crop_of, is_quarter_turn_of, msg_crop_empty, msg_crop_outside, well_sized, Picture, Raster};
use crate::sizing::{
    check_actual_length, check_declared_length, declared_over, fits, fitted, fitted_size,
    lemma_fitted_size_within, msg_body_too_large, msg_declared_too_large, FULL_BOUND,
    MAX_UPLOAD_BYTES, THUMBNAIL_BOUND,
};
use crate::text::{contains, contains_text};

verus! {

/// The PNG file that the `image` crate writes for an 8-bit RGBA picture of
/// the given size and pixel data, or `None` where it reports an error.
pub uninterp spec fn png_bytes(width: u32, height: u32, pixels: Seq<u8>) -> Option<Seq<u8>>;

/// What the `image` crate makes of the bytes of a file: the width, the
/// height and the 8-bit RGBA pixel data of the image that it decodes, its
/// format being guessed from the bytes, or `None` where it reports an error.
pub uninterp spec fn decoded_image(raw: Seq<u8>) -> Option<(u32, u32, Seq<u8>)>;

/// The picture that the bytes of a file hold: what the decoder makes of
/// them, if that is a picture with at least one pixel whose data fits its
/// size.
pub open spec fn picture_in(raw: Seq<u8>) -> Option<Raster> {
    match decoded_image(raw) {
        Some((width, height, data)) => if well_sized(width, height, data) {
            Some(Raster { width: width as nat, height: height as nat, data })
        } else {
            None
        },
        None => None,
    }
}

/// Calls `image::ImageReader::with_guessed_format` and `decode` on the
/// bytes, and `into_rgba8` on the image that comes back, of which it hands
/// back the size and the pixel data.
///
/// Trusted: what comes back is a function of the bytes alone, named
/// `decoded_image`. Whether the bytes decode, and to what, is left open; the
/// caller checks the size of what it is handed.
#[verifier::external_body]
fn image_decode(raw: &[u8]) -> (decoded: Option<(u32, u32, Vec<u8>)>)
    ensures
        match decoded {
            Some((width, height, pixels)) => decoded_image(raw@) == Some((width, height, pixels@)),
            None => decoded_image(raw@) is None,
        },
{
    let reader = image::ImageReader::new(std::io::Cursor::new(raw)).with_guessed_format().ok()?;
    let rgba = reader.decode().ok()?.into_rgba8();
    Some((rgba.width(), rgba.height(), rgba.into_raw()))
}

/// Calls `image::DynamicImage::resize_exact` with the Gaussian filter on an
/// 8-bit RGBA picture made by `image::RgbaImage::from_raw`, and hands back
/// the pixel data of the result.
///
/// Trusted: the picture that comes back has exactly the size asked for.
/// Nothing is said about its pixels: they are computed in floating point.
#[verifier::external_body]
fn image_resample(width: u32, height: u32, pixels: &[u8], new_width: u32, new_height: u32) -> (out: Vec<u8>)
    requires
        well_sized(width, height, pixels@),
        1 <= new_width <= width,
        1 <= new_height <= height,
    ensures
        well_sized(new_width, new_height, out@),
{
    let source = image::RgbaImage::from_raw(width, height, pixels.to_vec()).unwrap();
    image::DynamicImage::ImageRgba8(source)
        .resize_exact(new_width, new_height, image::imageops::FilterType::Gaussian)
        .into_rgba8()
        .into_raw()
}

/// Calls `image::ImageBuffer::write_to` with `image::ImageFormat::Png` on
/// an 8-bit RGBA picture made by `image::RgbaImage::from_raw`.
///
/// Trusted: the bytes written are a function of the size and the pixels
/// alone, named `png_bytes`.
#[verifier::external_body]
fn image_encode_png(width: u32, height: u32, pixels: &[u8]) -> (encoded: Option<Vec<u8>>)
    ensures
        match encoded {
            Some(bytes) => png_bytes(width, height, pixels@) == Some(bytes@),
            None => png_bytes(width, height, pixels@) is None,
        },
{
    let picture = image::RgbaImage::from_raw(width, height, pixels.to_vec())?;
    let mut bytes = Vec::new();
    picture.write_to(&mut std::io::Cursor::new(&mut bytes), image::ImageFormat::Png).ok()?;
    Some(bytes)
}

/// The description of the error for bytes that are no image.
pub open spec fn msg_not_an_image() -> Seq<char> {
    "unrecognized or corrupt image"@
}

/// The description of the error for a bound without area.
pub open spec fn msg_bound_empty() -> Seq<char> {
    "bound must be non-zero"@
}

/// The description of the error for a picture that could not be encoded.
pub open spec fn msg_not_encoded() -> Seq<char> {
    "image encoding failed"@
}

/// The text in a client's agent string that marks a device whose photos
/// arrive lying on their side.
pub open spec fn problem_device_mark() -> Seq<char> {
    "iPhone"@
}

/// What is made of a decoder's answer: the picture it describes, or an
/// invalid-input error where it gave none or one whose data does not fit its
/// size.
pub fn decoded_picture(decoded: Option<(u32, u32, Vec<u8>)>) -> (r: Result<Picture, AppError>)
    ensures
        match decoded {
            Some((width, height, pixels)) if well_sized(width, height, pixels@) => r matches Ok(p) && p.wf()
                && p@ == (Raster { width: width as nat, height: height as nat, data: pixels@ }),
            _ => r matches Err(e) && is_error(e, ErrorKind::InvalidInput, msg_not_an_image()),
        },
{
    match decoded {
        Some((width, height, pixels)) => {
            match Picture::new(width, height, pixels) {
                Some(p) => Ok(p),
                None => Err(AppError::bad_request("unrecognized or corrupt image")),
            }
        },
        None => Err(AppError::bad_request("unrecognized or corrupt image")),
    }
}

/// Decodes an image. The format is found from the bytes themselves, never
/// from a name or a declared type. Bytes that hold no picture are invalid
/// input.
pub fn decode(raw: &[u8]) -> (r: Result<Picture, AppError>)
    ensures
        match picture_in(raw@) {
            Some(picture) => r matches Ok(p) && p.wf() && p@ == picture,
            None => r matches Err(e) && is_error(e, ErrorKind::InvalidInput, msg_not_an_image()),
        },
{
    decoded_picture(image_decode(raw))
}

/// Whether the client's agent string names a device whose photos arrive
/// lying on their side.
pub fn is_problem_device(device_hint: &str) -> (problem: bool)
    ensures
        problem == contains_text(device_hint@, problem_device_mark()),
{
    contains(device_hint, "iPhone")
}

/// Turns the picture upright: by a quarter clockwise where the device is
/// known to need it, and not at all otherwise.
pub fn normalize(image: Picture, device_hint: &str) -> (out: Picture)
    requires
        image.wf(),
    ensures
        out.wf(),
        contains_text(device_hint@, problem_device_mark()) ==> is_quarter_turn_of(out@, image@),
        !contains_text(device_hint@, problem_device_mark()) ==> out@ == image@,
{
    if is_problem_device(device_hint) {
        image.rotate90()
    } else {
        image
    }
}

/// What scaling a picture to a bound gives: an error for a bound without
/// area; the same pixels for a picture within the bound; otherwise a
/// picture of the fitted size.
pub open spec fn scaled_to(image: Raster, max_width: u32, max_height: u32, r: Result<Picture, AppError>) -> bool {
    if max_width == 0 || max_height == 0 {
        r matches Err(e) && is_error(e, ErrorKind::InvalidInput, msg_bound_empty())
    } else {
        &&& r matches Ok(out)
        &&& out.wf()
        &&& (out@.width as int, out@.height as int) == fitted_size(
            image.width as int,
            image.height as int,
            max_width as int,
            max_height as int,
        )
        &&& fits(image.width as int, image.height as int, max_width as int, max_height as int) ==> out@
            == image
    }
}

/// The picture brought within a bound that has no empty side.
fn scaled(image: &Picture, max_width: u32, max_height: u32) -> (out: Picture)
    requires
        image.wf(),
        max_width > 0,
        max_height > 0,
    ensures
        scaled_to(image@, max_width, max_height, Ok(out)),
{
    if image.width() <= max_width && image.height() <= max_height {
        return image.duplicate();
    }
    let (width, height) = fitted(image.width(), image.height(), max_width, max_height);
    proof {
        lemma_fitted_size_within(
            image@.width as int,
            image@.height as int,
            max_width as int,
            max_height as int,
        );
    }
    let pixels = image_resample(image.width(), image.height(), image.pixels().as_slice(), width, height);
    Picture::assemble(width, height, pixels)
}

/// Scales the picture down so that neither side exceeds its bound, keeping
/// the proportion of the sides. A picture within the bound is returned as it
/// is: nothing is ever enlarged.
pub fn resize_to_bound(image: &Picture, max_width: u32, max_height: u32) -> (r: Result<Picture, AppError>)
    requires
        image.wf(),
    ensures
        scaled_to(image@, max_width, max_height, r),
{
    if max_width == 0 || max_height == 0 {
        Err(AppError::bad_request("bound must be non-zero"))
    } else {
        Ok(scaled(image, max_width, max_height))
    }
}

/// Derives a thumbnail: the picture scaled down to a smaller bound. It is
/// made from the picture handed in, which is meant to be the upright upload
/// and not an image already scaled down for storage.
pub fn thumbnail(image: &Picture, max_width: u32, max_height: u32) -> (r: Result<Picture, AppError>)
    requires
        image.wf(),
    ensures
        scaled_to(image@, max_width, max_height, r),
{
    resize_to_bound(image, max_width, max_height)
}

/// What is made of an encoder's answer: the bytes, or an internal error
/// where it gave none.
pub fn encoded_bytes(encoded: Option<Vec<u8>>) -> (r: Result<Vec<u8>, AppError>)
    ensures
        match encoded {
            Some(bytes) => r == Ok::<Vec<u8>, AppError>(bytes),
            None => r matches Err(e) && is_error(e, ErrorKind::Internal, msg_not_encoded()),
        },
{
    match encoded {
        Some(bytes) => Ok(bytes),
        None => Err(AppError::internal("image encoding failed")),
    }
}

/// Whether `r` is the PNG encoding of the picture, or the error that
/// reports that there is none.
pub open spec fn is_png_of(image: Raster, r: Result<Vec<u8>, AppError>) -> bool {
    match png_bytes(image.width as u32, image.height as u32, image.data) {
        Some(bytes) => r matches Ok(b) && b@ == bytes,
        None => r matches Err(e) && is_error(e, ErrorKind::Internal, msg_not_encoded()),
    }
}

/// Encodes the picture as PNG, the one format in which images are stored.
pub fn encode_png(image: &Picture) -> (r: Result<Vec<u8>, AppError>)
    requires
        image.wf(),
    ensures
        is_png_of(image@, r),
{
    encoded_bytes(image_encode_png(image.width(), image.height(), image.pixels().as_slice()))
}

/// The two encoded images that are stored for a wine.
#[derive(Debug)]
pub struct StoredImages {
    /// The image at its stored size, as PNG.
    pub full: Vec<u8>,
    /// The thumbnail, as PNG.
    pub thumbnail: Vec<u8>,
}

/// Whether `out` is `source` brought within a square bound of `bound`
/// pixels: of the fitted size, and the very same picture where `source`
/// was within the bound already.
pub open spec fn is_scaled(out: Raster, source: Raster, bound: u32) -> bool {
    &&& out.complete()
    &&& (out.width as int, out.height as int) == fitted_size(
        source.width as int,
        source.height as int,
        bound as int,
        bound as int,
    )
    &&& fits(source.width as int, source.height as int, bound as int, bound as int) ==> out == source
}

/// What the pair of a stored image and a thumbnail encodes to: both files,
/// or the error that reports that one of them could not be written.
pub open spec fn encoded_pair(full: Raster, small: Raster, r: Result<StoredImages, AppError>) -> bool {
    match (
        png_bytes(full.width as u32, full.height as u32, full.data),
        png_bytes(small.width as u32, small.height as u32, small.data),
    ) {
        (Some(a), Some(b)) => r matches Ok(images) && images.full@ == a && images.thumbnail@ == b,
        _ => r matches Err(e) && is_error(e, ErrorKind::Internal, msg_not_encoded()),
    }
}

/// What is stored for an upright picture: the encodings of the picture
/// brought within the stored bound and of the picture brought within the
/// thumbnail bound, both made from `source` itself.
pub open spec fn derived_from(source: Raster, r: Result<StoredImages, AppError>) -> bool {
    exists|full: Raster, small: Raster|
        is_scaled(full, source, FULL_BOUND) && is_scaled(small, source, THUMBNAIL_BOUND) && #[trigger] encoded_pair(
            full,
            small,
            r,
        )
}

/// Derives what is stored for an upright picture: the picture at its stored
/// size and a thumbnail, each scaled down from the picture handed in and
/// encoded as PNG.
pub fn derive_images(source: &Picture) -> (r: Result<StoredImages, AppError>)
    requires
        source.wf(),
    ensures
        derived_from(source@, r),
{
    let full = scaled(source, FULL_BOUND, FULL_BOUND);
    let small = scaled(source, THUMBNAIL_BOUND, THUMBNAIL_BOUND);
    let full_bytes = encode_png(&full);
    let small_bytes = encode_png(&small);
    let r = match (full_bytes, small_bytes) {
        (Ok(a), Ok(b)) => Ok(StoredImages { full: a, thumbnail: b }),
        (Err(e), _) => Err(e),
        (_, Err(e)) => Err(e),
    };
    proof {
        assert(encoded_pair(full@, small@, r));
    }
    r
}

/// What is stored for a decoded upload from the given device: what is
/// derived from the picture turned upright.
pub open spec fn stored_for(decoded: Raster, device_hint: Seq<char>, r: Result<StoredImages, AppError>) -> bool {
    if contains_text(device_hint, problem_device_mark()) {
        exists|upright: Raster| is_quarter_turn_of(upright, decoded) && #[trigger] derived_from(upright, r)
    } else {
        derived_from(decoded, r)
    }
}

/// The pipeline after decoding: the picture is turned upright for the
/// device it comes from, scaled to the stored size and to a thumbnail, and
/// encoded.
pub fn store_decoded(decoded: Picture, device_hint: &str) -> (r: Result<StoredImages, AppError>)
    requires
        decoded.wf(),
    ensures
        stored_for(decoded@, device_hint@, r),
{
    let ghost first = decoded@;
    let upright = normalize(decoded, device_hint);
    let r = derive_images(&upright);
    proof {
        if contains_text(device_hint@, problem_device_mark()) {
            assert(is_quarter_turn_of(upright@, first) && derived_from(upright@, r));
        }
    }
    r
}

/// Whether `upright` is `decoded` turned by a quarter, if `turn` is set,
/// and `decoded` itself otherwise.
pub open spec fn is_upright_of(upright: Raster, decoded: Raster, turn: bool) -> bool {
    if turn {
        is_quarter_turn_of(upright, decoded)
    } else {
        upright == decoded
    }
}

/// Whether `full` is `decoded` turned upright and brought within the stored
/// bound.
pub open spec fn is_conversion_of(full: Raster, decoded: Raster, turn: bool) -> bool {
    exists|upright: Raster| #[trigger] is_upright_of(upright, decoded, turn) && is_scaled(full, upright, FULL_BOUND)
}

/// What converting an upload gives: an invalid-input error for bytes that
/// hold no picture; otherwise the PNG encoding of the picture that the bytes
/// hold, turned upright and brought within the stored bound.
pub open spec fn converted(image_data: Seq<u8>, turn: bool, r: Result<Vec<u8>, AppError>) -> bool {
    match picture_in(image_data) {
        Some(decoded) => exists|full: Raster| #[trigger] is_conversion_of(full, decoded, turn) && is_png_of(full, r),
        None => r matches Err(e) && is_error(e, ErrorKind::InvalidInput, msg_not_an_image()),
    }
}

/// Converts an uploaded image into the form in which it is stored: the
/// bytes are decoded, the picture is turned by a quarter if `turn` is set,
/// scaled down to the stored bound and encoded as PNG.
pub fn convert_image(image_data: &[u8], turn: bool) -> (r: Result<Vec<u8>, AppError>)
    ensures
        converted(image_data@, turn, r),
{
    let decoded = match decode(image_data) {
        Ok(p) => p,
        Err(e) => {
            return Err(e);
        },
    };
    let ghost first = decoded@;
    let upright = if turn {
        decoded.rotate90()
    } else {
        decoded
    };
    let full = scaled(&upright, FULL_BOUND, FULL_BOUND);
    let r = encode_png(&full);
    proof {
        assert(is_upright_of(upright@, first, turn) && is_scaled(full@, upright@, FULL_BOUND));
        assert(is_conversion_of(full@, first, turn) && is_png_of(full@, r));
    }
    r
}

/// Whether an upload is refused for its size, by the length it declares or
/// by the length of its body.
pub open spec fn too_large(declared: Option<u64>, actual: nat) -> bool {
    declared_over(declared, MAX_UPLOAD_BYTES) || actual > MAX_UPLOAD_BYTES
}

/// The error that reports an upload refused for its size: the declared
/// length is looked at first.
pub open spec fn is_size_error(declared: Option<u64>, e: AppError) -> bool {
    if declared_over(declared, MAX_UPLOAD_BYTES) {
        is_error(e, ErrorKind::PayloadTooLarge, msg_declared_too_large())
    } else {
        is_error(e, ErrorKind::PayloadTooLarge, msg_body_too_large())
    }
}

/// The guard on the size of an upload: it is refused by the length it
/// declares or, whatever it declared, by the length of the body that was
/// read.
pub fn check_upload_size(declared: Option<u64>, actual: usize) -> (r: Result<(), AppError>)
    ensures
        too_large(declared, actual as nat) ==> (r matches Err(e) && is_size_error(declared, e)),
        !too_large(declared, actual as nat) ==> r is Ok,
{
    match check_declared_length(declared, MAX_UPLOAD_BYTES) {
        Err(e) => Err(e),
        Ok(()) => check_actual_length(actual, MAX_UPLOAD_BYTES),
    }
}

/// What the pipeline makes of an upload that passed the size guard: an
/// invalid-input error for bytes that hold no picture, and otherwise what is
/// stored for the picture that the bytes hold.
pub open spec fn processed(raw: Seq<u8>, device_hint: Seq<char>, r: Result<StoredImages, AppError>) -> bool {
    match picture_in(raw) {
        Some(decoded) => stored_for(decoded, device_hint, r),
        None => is_rejected_image(r),
    }
}

/// The pipeline behind the size guard: decode, turn upright, scale,
/// encode.
pub fn process_accepted(raw: &[u8], device_hint: &str) -> (r: Result<StoredImages, AppError>)
    ensures
        processed(raw@, device_hint@, r),
{
    match decode(raw) {
        Err(e) => Err(e),
        Ok(decoded) => store_decoded(decoded, device_hint),
    }
}

/// The whole pipeline for an upload. An upload over the size limit is
/// refused whatever it holds, before any of it is decoded. Bytes that are no
/// image are invalid input. An accepted upload yields what is derived from
/// the decoded picture.
pub fn process_upload(raw: &[u8], declared: Option<u64>, device_hint: &str) -> (r: Result<StoredImages, AppError>)
    ensures
        too_large(declared, raw@.len()) ==> (r matches Err(e) && is_size_error(declared, e)),
        !too_large(declared, raw@.len()) ==> processed(raw@, device_hint@, r),
{
    match check_upload_size(declared, raw.len()) {
        Err(e) => Err(e),
        Ok(()) => process_accepted(raw, device_hint),
    }
}

/// Whether `r` reports bytes that are no image.
pub open spec fn is_rejected_image(r: Result<StoredImages, AppError>) -> bool {
    r matches Err(e) && is_error(e, ErrorKind::InvalidInput, msg_not_an_image())
}

/// What cropping a decoded picture and deriving the stored images anew
/// gives: the errors of the crop, or what is derived from the rectangle.
pub open spec fn cropped_from(
    source: Raster,
    x: u32,
    y: u32,
    w: u32,
    h: u32,
    r: Result<StoredImages, AppError>,
) -> bool {
    if w == 0 || h == 0 {
        r matches Err(e) && is_error(e, ErrorKind::InvalidInput, msg_crop_empty())
    } else if x >= source.width || y >= source.height {
        r matches Err(e) && is_error(e, ErrorKind::InvalidInput, msg_crop_outside())
    } else {
        exists|part: Raster|
            is_crop_of(part, source, x as int, y as int, w as int, h as int) && #[trigger] derived_from(part, r)
    }
}

/// Crops a decoded picture to a rectangle and derives the stored images
/// from the rectangle.
pub fn crop_decoded(source: &Picture, x: u32, y: u32, w: u32, h: u32) -> (r: Result<StoredImages, AppError>)
    requires
        source.wf(),
    ensures
        cropped_from(source@, x, y, w, h, r),
{
    match source.crop(x, y, w, h) {
        Err(e) => Err(e),
        Ok(part) => {
            let r = derive_images(&part);
            proof {
                assert(is_crop_of(part@, source@, x as int, y as int, w as int, h as int) && derived_from(
                    part@,
                    r,
                ));
            }
            r
        },
    }
}

/// What cropping a stored image makes of it, for a rectangle that has an
/// area: an invalid-input error for stored bytes that hold no picture, and
/// otherwise what cropping the picture that they hold gives.
pub open spec fn recropped(
    stored: Seq<u8>,
    x: u32,
    y: u32,
    w: u32,
    h: u32,
    r: Result<StoredImages, AppError>,
) -> bool {
    match picture_in(stored) {
        Some(source) => cropped_from(source, x, y, w, h, r),
        None => is_rejected_image(r),
    }
}

/// Crops a stored image to a rectangle and derives the images that
/// replace it. A rectangle without area is refused before the stored bytes
/// are looked at.
pub fn process_crop(stored: &[u8], x: u32, y: u32, w: u32, h: u32) -> (r: Result<StoredImages, AppError>)
    ensures
        (w == 0 || h == 0) ==> (r matches Err(e) && is_error(e, ErrorKind::InvalidInput, msg_crop_empty())),
        w > 0 && h > 0 ==> recropped(stored@, x, y, w, h, r),
{
    if w == 0 || h == 0 {
        return Err(AppError::bad_request("crop size must be non-zero"));
    }
    match decode(stored) {
        Err(e) => Err(e),
        Ok(source) => crop_decoded(&source, x, y, w, h),
    }
}

} // verus!
