use wine_cellar::error::ErrorKind;
use wine_cellar::imaging::{
    check_upload_size, convert_image, crop_decoded, decode, decoded_picture, derive_images, encode_png, encoded_bytes,
    is_problem_device, normalize, process_accepted, process_crop, process_upload, resize_to_bound,
    store_decoded, thumbnail,
};
use wine_cellar::picture::Picture;

fn gradient(width: u32, height: u32) -> Picture {
    let mut pixels = Vec::new();
    for y in 0..height {
        for x in 0..width {
            pixels.extend_from_slice(&[(x % 256) as u8, (y % 256) as u8, ((x + y) % 256) as u8, 255]);
        }
    }
    Picture::new(width, height, pixels).unwrap()
}

fn png_of(p: &Picture) -> Vec<u8> {
    encode_png(p).unwrap()
}

const PNG_SIGNATURE: [u8; 8] = [0x89, b'P', b'N', b'G', 0x0d, 0x0a, 0x1a, 0x0a];

#[test]
fn encoding_writes_a_png_that_decodes_to_the_same_pixels() {
    let p = gradient(7, 5);
    let bytes = encode_png(&p).unwrap();
    assert_eq!(&bytes[..8], &PNG_SIGNATURE);
    assert_ne!(&bytes, p.pixels());
    let back = decode(&bytes).unwrap();
    assert_eq!((back.width(), back.height()), (7, 5));
    assert_eq!(back.pixels(), p.pixels());
    assert_eq!(encode_png(&p).unwrap(), bytes);
}

#[test]
fn decoding_detects_the_format_from_the_content() {
    let p = gradient(4, 4);
    let mut jpeg = Vec::new();
    let rgb: Vec<u8> = p.pixels().chunks(4).flat_map(|c| [c[0], c[1], c[2]]).collect();
    image::RgbImage::from_raw(4, 4, rgb)
        .unwrap()
        .write_to(&mut std::io::Cursor::new(&mut jpeg), image::ImageFormat::Jpeg)
        .unwrap();
    let back = decode(&jpeg).unwrap();
    assert_eq!((back.width(), back.height()), (4, 4));
    assert_eq!(back.pixels().len(), 64);
}

#[test]
fn bytes_that_are_no_image_are_invalid_input() {
    for raw in [&b""[..], &b"not an image"[..], &PNG_SIGNATURE[..]] {
        let e = decode(raw).unwrap_err();
        assert_eq!(e.kind, ErrorKind::InvalidInput);
        assert_eq!(e.message, "unrecognized or corrupt image");
    }
    let mut truncated = png_of(&gradient(20, 20));
    truncated.truncate(40);
    assert_eq!(decode(&truncated).unwrap_err().kind, ErrorKind::InvalidInput);
}

#[test]
fn what_a_decoder_hands_over_is_checked() {
    let p = decoded_picture(Some((2, 1, vec![1, 2, 3, 4, 5, 6, 7, 8]))).unwrap();
    assert_eq!((p.width(), p.height()), (2, 1));
    assert_eq!(p.pixels(), &vec![1, 2, 3, 4, 5, 6, 7, 8]);
    for bad in [None, Some((2, 1, vec![0; 7])), Some((0, 0, vec![])), Some((1, 1, vec![0; 5]))] {
        let e = decoded_picture(bad).unwrap_err();
        assert_eq!(e.kind, ErrorKind::InvalidInput);
        assert_eq!(e.message, "unrecognized or corrupt image");
    }
}

#[test]
fn what_an_encoder_hands_over_is_passed_on() {
    assert_eq!(encoded_bytes(Some(vec![1, 2, 3])).unwrap(), vec![1, 2, 3]);
    let e = encoded_bytes(None).unwrap_err();
    assert_eq!(e.kind, ErrorKind::Internal);
    assert_eq!(e.message, "image encoding failed");
    assert_eq!(e.public_message(), "Internal Error");
}

#[test]
fn only_the_known_device_is_a_problem_device() {
    assert!(is_problem_device("Mozilla/5.0 (iPhone; CPU iPhone OS 17_0 like Mac OS X)"));
    assert!(!is_problem_device("Mozilla/5.0 (Macintosh; Intel Mac OS X 10_15_7)"));
    assert!(!is_problem_device("Mozilla/5.0 (Linux; Android 14)"));
    assert!(!is_problem_device(""));
}

#[test]
fn normalizing_turns_pictures_of_the_known_device_only() {
    let p = gradient(3, 2);
    let same = normalize(p.duplicate(), "Mozilla/5.0 (X11; Linux x86_64)");
    assert_eq!((same.width(), same.height()), (3, 2));
    assert_eq!(same.pixels(), p.pixels());
    let turned = normalize(p.duplicate(), "Mozilla/5.0 (iPhone; CPU iPhone OS 17_0)");
    assert_eq!((turned.width(), turned.height()), (2, 3));
    assert_eq!(turned.pixels(), p.rotate90().pixels());
}

#[test]
fn resizing_brings_a_large_picture_within_the_bound() {
    let p = gradient(40, 20);
    let r = resize_to_bound(&p, 10, 10).unwrap();
    assert_eq!((r.width(), r.height()), (10, 5));
    assert_eq!(r.pixels().len(), 10 * 5 * 4);
    let r = resize_to_bound(&p, 39, 1000).unwrap();
    assert_eq!((r.width(), r.height()), (39, 20));
    let r = resize_to_bound(&gradient(20, 40), 10, 10).unwrap();
    assert_eq!((r.width(), r.height()), (5, 10));
    // a smooth picture stays smooth: the corner is still dark, the far side bright
    let r = resize_to_bound(&gradient(200, 100), 50, 50).unwrap();
    assert_eq!((r.width(), r.height()), (50, 25));
    assert!(r.pixels()[0] < 20);
    assert!(r.pixels()[(49 * 4) as usize] > 150);
    assert_eq!(r.pixels()[3], 255);
}

#[test]
fn resizing_never_enlarges() {
    let p = gradient(8, 6);
    for (w, h) in [(8, 6), (512, 512), (8, 1000), (1000, 6)] {
        let r = resize_to_bound(&p, w, h).unwrap();
        assert_eq!((r.width(), r.height()), (8, 6));
        assert_eq!(r.pixels(), p.pixels());
    }
}

#[test]
fn a_bound_without_area_is_invalid_input() {
    let p = gradient(8, 6);
    for (w, h) in [(0, 10), (10, 0), (0, 0)] {
        let e = resize_to_bound(&p, w, h).unwrap_err();
        assert_eq!(e.kind, ErrorKind::InvalidInput);
        assert_eq!(e.message, "bound must be non-zero");
        let e = thumbnail(&p, w, h).unwrap_err();
        assert_eq!(e.kind, ErrorKind::InvalidInput);
    }
}

#[test]
fn a_thumbnail_is_scaled_like_any_picture() {
    let p = gradient(300, 100);
    let t = thumbnail(&p, 128, 128).unwrap();
    assert_eq!((t.width(), t.height()), (128, 43));
    let t = thumbnail(&gradient(64, 64), 128, 128).unwrap();
    assert_eq!((t.width(), t.height()), (64, 64));
}

#[test]
fn both_stored_images_are_derived_from_the_same_source() {
    let p = gradient(1024, 600);
    let images = derive_images(&p).unwrap();
    let full = decode(&images.full).unwrap();
    let small = decode(&images.thumbnail).unwrap();
    assert_eq!((full.width(), full.height()), (512, 300));
    assert_eq!((small.width(), small.height()), (128, 75));
    let direct = thumbnail(&p, 128, 128).unwrap();
    assert_eq!(small.pixels(), direct.pixels());

    let little = gradient(100, 50);
    let images = derive_images(&little).unwrap();
    assert_eq!(decode(&images.full).unwrap().pixels(), little.pixels());
    let small = decode(&images.thumbnail).unwrap();
    assert_eq!((small.width(), small.height()), (100, 50));
}

#[test]
fn a_decoded_upload_is_turned_before_it_is_scaled() {
    let p = gradient(600, 200);
    let images = store_decoded(p.duplicate(), "iPhone").unwrap();
    let full = decode(&images.full).unwrap();
    assert_eq!((full.width(), full.height()), (171, 512));
    let images = store_decoded(p, "Firefox").unwrap();
    let full = decode(&images.full).unwrap();
    assert_eq!((full.width(), full.height()), (512, 171));
}

#[test]
fn the_size_guard_checks_declared_and_actual_length() {
    let limit = 10 * 1024 * 1024;
    assert!(check_upload_size(None, limit).is_ok());
    assert!(check_upload_size(Some(limit as u64), limit).is_ok());
    let e = check_upload_size(Some(limit as u64 + 1), 3).unwrap_err();
    assert_eq!(e.kind, ErrorKind::PayloadTooLarge);
    assert_eq!(e.message, "declared upload size exceeds the limit");
    let e = check_upload_size(Some(3), limit + 1).unwrap_err();
    assert_eq!(e.kind, ErrorKind::PayloadTooLarge);
    assert_eq!(e.message, "upload exceeds the limit");
    let e = check_upload_size(None, limit + 1).unwrap_err();
    assert_eq!(e.message, "upload exceeds the limit");
    let e = check_upload_size(Some(u64::MAX), limit + 1).unwrap_err();
    assert_eq!(e.message, "declared upload size exceeds the limit");
}

#[test]
fn an_upload_over_the_limit_is_rejected_before_decoding() {
    // the header of a PNG of 3000 by 3000 pixels, in a payload of 11 MiB
    let mut payload = PNG_SIGNATURE.to_vec();
    payload.extend_from_slice(&[0, 0, 0, 13, b'I', b'H', b'D', b'R']);
    payload.extend_from_slice(&3000u32.to_be_bytes());
    payload.extend_from_slice(&3000u32.to_be_bytes());
    payload.extend_from_slice(&[8, 6, 0, 0, 0]);
    payload.resize(11 * 1024 * 1024, 0);
    let e = process_upload(&payload, None, "Firefox").unwrap_err();
    assert_eq!(e.kind, ErrorKind::PayloadTooLarge);
    assert_eq!(e.status_code(), 413);
    assert_eq!(e.message, "upload exceeds the limit");
    // a valid image does not get past the guard either
    let mut valid = png_of(&gradient(30, 30));
    valid.resize(11 * 1024 * 1024, 0);
    let e = process_upload(&valid, Some(100), "Firefox").unwrap_err();
    assert_eq!(e.kind, ErrorKind::PayloadTooLarge);
    // and the declared length alone rejects a small body
    let e = process_upload(&png_of(&gradient(3, 3)), Some(11 * 1024 * 1024), "Firefox").unwrap_err();
    assert_eq!(e.kind, ErrorKind::PayloadTooLarge);
    assert_eq!(e.message, "declared upload size exceeds the limit");
}

#[test]
fn an_upload_is_decoded_scaled_and_encoded() {
    let raw = png_of(&gradient(700, 350));
    let images = process_upload(&raw, Some(raw.len() as u64), "Firefox").unwrap();
    assert_eq!(&images.full[..8], &PNG_SIGNATURE);
    assert_eq!(&images.thumbnail[..8], &PNG_SIGNATURE);
    let full = decode(&images.full).unwrap();
    assert_eq!((full.width(), full.height()), (512, 256));
    let small = decode(&images.thumbnail).unwrap();
    assert_eq!((small.width(), small.height()), (128, 64));
    let images = process_accepted(&raw, "iPhone").unwrap();
    let full = decode(&images.full).unwrap();
    assert_eq!((full.width(), full.height()), (256, 512));
    let e = process_upload(b"junk", None, "Firefox").unwrap_err();
    assert_eq!(e.kind, ErrorKind::InvalidInput);
    assert_eq!(e.message, "unrecognized or corrupt image");
}

#[test]
fn a_stored_image_is_cropped_and_derived_anew() {
    let p = gradient(60, 40);
    let stored = png_of(&p);
    let images = process_crop(&stored, 10, 5, 20, 10).unwrap();
    let full = decode(&images.full).unwrap();
    assert_eq!((full.width(), full.height()), (20, 10));
    assert_eq!(full.pixels(), p.crop(10, 5, 20, 10).unwrap().pixels());
    let images = process_crop(&stored, 50, 30, 100, 100).unwrap();
    let full = decode(&images.full).unwrap();
    assert_eq!((full.width(), full.height()), (60 - 50, 40 - 30));
    let images = crop_decoded(&p, 0, 0, 1, 1).unwrap();
    assert_eq!(decode(&images.thumbnail).unwrap().pixels(), &vec![0, 0, 0, 255]);
}

#[test]
fn a_crop_that_cannot_be_made_is_invalid_input() {
    let stored = png_of(&gradient(60, 40));
    let e = process_crop(&stored, 0, 0, 0, 10).unwrap_err();
    assert_eq!((e.kind, e.message.as_str()), (ErrorKind::InvalidInput, "crop size must be non-zero"));
    let e = process_crop(b"junk", 0, 0, 10, 0).unwrap_err();
    assert_eq!(e.message, "crop size must be non-zero");
    let e = process_crop(&stored, 60, 0, 1, 1).unwrap_err();
    assert_eq!((e.kind, e.message.as_str()), (ErrorKind::InvalidInput, "crop origin out of bounds"));
    let e = process_crop(b"junk", 0, 0, 1, 1).unwrap_err();
    assert_eq!((e.kind, e.message.as_str()), (ErrorKind::InvalidInput, "unrecognized or corrupt image"));
    let e = crop_decoded(&gradient(6, 4), 0, 4, 1, 1).unwrap_err();
    assert_eq!(e.message, "crop origin out of bounds");
}

#[test]
fn converting_decodes_turns_scales_and_encodes() {
    let raw = png_of(&gradient(1024, 256));
    let stored = convert_image(&raw, false).unwrap();
    assert_eq!(&stored[..8], &PNG_SIGNATURE);
    let full = decode(&stored).unwrap();
    assert_eq!((full.width(), full.height()), (512, 128));
    let full = decode(&convert_image(&raw, true).unwrap()).unwrap();
    assert_eq!((full.width(), full.height()), (128, 512));
    let small = gradient(5, 3);
    let back = decode(&convert_image(&png_of(&small), false).unwrap()).unwrap();
    assert_eq!(back.pixels(), small.pixels());
    let e = convert_image(b"junk", true).unwrap_err();
    assert_eq!((e.kind, e.message.as_str()), (ErrorKind::InvalidInput, "unrecognized or corrupt image"));
}

#[test]
fn equal_uploads_are_converted_to_equal_images() {
    let raw = png_of(&gradient(40, 30));
    assert_eq!(convert_image(&raw, false).unwrap(), convert_image(&raw, false).unwrap());
    assert_eq!(convert_image(&raw, true).unwrap(), convert_image(&raw, true).unwrap());
    assert_ne!(convert_image(&raw, true).unwrap(), convert_image(&raw, false).unwrap());
    let a = process_accepted(&raw, "Firefox").unwrap();
    let b = process_accepted(&raw, "Firefox").unwrap();
    assert_eq!((a.full, a.thumbnail), (b.full, b.thumbnail));
    let first = decode(&raw).unwrap();
    let second = decode(&raw).unwrap();
    assert_eq!((first.width(), first.height()), (40, 30));
    assert_eq!(first.pixels(), second.pixels());
    assert_eq!(first.pixels(), gradient(40, 30).pixels());
    assert_eq!(convert_image(b"", false).unwrap_err().kind, ErrorKind::InvalidInput);
}
