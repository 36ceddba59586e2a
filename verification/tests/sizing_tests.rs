use wine_cellar::error::ErrorKind;
use wine_cellar::sizing::{
    check_actual_length, check_declared_length, fit_within, FULL_BOUND, MAX_UPLOAD_BYTES, THUMBNAIL_BOUND,
};

#[test]
fn the_limits_have_their_values() {
    assert_eq!(MAX_UPLOAD_BYTES, 10 * 1024 * 1024);
    assert_eq!(FULL_BOUND, 512);
    assert_eq!(THUMBNAIL_BOUND, 128);
}

#[test]
fn a_declared_length_over_the_limit_is_refused() {
    let e = check_declared_length(Some(MAX_UPLOAD_BYTES + 1), MAX_UPLOAD_BYTES).unwrap_err();
    assert_eq!(e.kind, ErrorKind::PayloadTooLarge);
    assert_eq!(e.message, "declared upload size exceeds the limit");
    assert_eq!(e.status_code(), 413);
    assert!(check_declared_length(Some(MAX_UPLOAD_BYTES), MAX_UPLOAD_BYTES).is_ok());
    assert!(check_declared_length(Some(0), MAX_UPLOAD_BYTES).is_ok());
    assert!(check_declared_length(None, MAX_UPLOAD_BYTES).is_ok());
    assert!(check_declared_length(None, 0).is_ok());
    assert!(check_declared_length(Some(u64::MAX), u64::MAX).is_ok());
}

#[test]
fn an_actual_length_over_the_limit_is_refused() {
    let e = check_actual_length(11 * 1024 * 1024, MAX_UPLOAD_BYTES).unwrap_err();
    assert_eq!(e.kind, ErrorKind::PayloadTooLarge);
    assert_eq!(e.message, "upload exceeds the limit");
    assert!(check_actual_length(10 * 1024 * 1024, MAX_UPLOAD_BYTES).is_ok());
    assert!(check_actual_length(10 * 1024 * 1024 + 1, MAX_UPLOAD_BYTES).is_err());
    assert!(check_actual_length(0, 0).is_ok());
    assert!(check_actual_length(1, 0).is_err());
}

#[test]
fn a_picture_within_the_bound_keeps_its_size() {
    assert_eq!(fit_within(100, 100, 512, 512), Some((100, 100)));
    assert_eq!(fit_within(512, 512, 512, 512), Some((512, 512)));
    assert_eq!(fit_within(1, 1, 512, 512), Some((1, 1)));
    assert_eq!(fit_within(512, 3, 512, 512), Some((512, 3)));
}

#[test]
fn a_larger_picture_is_scaled_down_in_proportion() {
    assert_eq!(fit_within(3000, 3000, 512, 512), Some((512, 512)));
    assert_eq!(fit_within(1024, 512, 512, 512), Some((512, 256)));
    assert_eq!(fit_within(512, 1024, 512, 512), Some((256, 512)));
    assert_eq!(fit_within(4000, 3000, 512, 512), Some((512, 384)));
    assert_eq!(fit_within(3000, 4000, 128, 128), Some((96, 128)));
    assert_eq!(fit_within(513, 512, 512, 512), Some((512, 511)));
    assert_eq!(fit_within(600, 100, 512, 512), Some((512, 85)));
    assert_eq!(fit_within(1000, 300, 200, 100), Some((200, 60)));
    assert_eq!(fit_within(300, 1000, 200, 100), Some((30, 100)));
}

#[test]
fn halves_are_rounded_upwards_and_no_side_vanishes() {
    // 3 * 2 / 4 = 1.5
    assert_eq!(fit_within(4, 3, 2, 2), Some((2, 2)));
    // 1 * 10 / 1000 = 0.01
    assert_eq!(fit_within(1000, 1, 10, 10), Some((10, 1)));
    assert_eq!(fit_within(1, 1000, 10, 10), Some((1, 10)));
    assert_eq!(fit_within(u32::MAX, u32::MAX, 512, 512), Some((512, 512)));
    assert_eq!(fit_within(u32::MAX, 1, 1, 1), Some((1, 1)));
    assert_eq!(fit_within(u32::MAX, u32::MAX, u32::MAX - 1, u32::MAX), Some((u32::MAX - 1, u32::MAX - 1)));
}

#[test]
fn an_empty_side_has_no_fitted_size() {
    assert_eq!(fit_within(0, 10, 512, 512), None);
    assert_eq!(fit_within(10, 0, 512, 512), None);
    assert_eq!(fit_within(10, 10, 0, 512), None);
    assert_eq!(fit_within(10, 10, 512, 0), None);
}
