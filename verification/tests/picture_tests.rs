use wine_cellar::error::ErrorKind;
use wine_cellar::picture::Picture;

/// A picture whose pixel (x, y) has the channels (x, y, x + y, 255).
fn gradient(width: u32, height: u32) -> Picture {
    let mut pixels = Vec::new();
    for y in 0..height {
        for x in 0..width {
            pixels.extend_from_slice(&[x as u8, y as u8, (x + y) as u8, 255]);
        }
    }
    Picture::new(width, height, pixels).unwrap()
}

fn pixel(p: &Picture, x: u32, y: u32) -> [u8; 4] {
    let at = ((y * p.width() + x) * 4) as usize;
    let d = p.pixels();
    [d[at], d[at + 1], d[at + 2], d[at + 3]]
}

#[test]
fn a_picture_needs_data_that_fits_its_size() {
    assert!(Picture::new(2, 3, vec![0; 24]).is_some());
    assert!(Picture::new(2, 3, vec![0; 23]).is_none());
    assert!(Picture::new(2, 3, vec![0; 25]).is_none());
    assert!(Picture::new(0, 3, vec![]).is_none());
    assert!(Picture::new(3, 0, vec![]).is_none());
    let p = Picture::new(1, 1, vec![1, 2, 3, 4]).unwrap();
    assert_eq!((p.width(), p.height()), (1, 1));
    assert_eq!(p.pixels(), &vec![1, 2, 3, 4]);
    assert_eq!(p.duplicate().into_pixels(), vec![1, 2, 3, 4]);
}

#[test]
fn crop_extracts_the_rectangle() {
    let p = gradient(10, 8);
    let c = p.crop(2, 3, 4, 5).unwrap();
    assert_eq!((c.width(), c.height()), (4, 5));
    for j in 0..5 {
        for i in 0..4 {
            assert_eq!(pixel(&c, i, j), pixel(&p, 2 + i, 3 + j));
        }
    }
    assert_eq!(pixel(&c, 0, 0), [2, 3, 5, 255]);
    assert_eq!(pixel(&c, 3, 4), [5, 7, 12, 255]);
}

#[test]
fn crop_of_zero_size_is_invalid_input() {
    let p = gradient(10, 8);
    for (w, h) in [(0, 5), (5, 0), (0, 0)] {
        let e = p.crop(1, 1, w, h).unwrap_err();
        assert_eq!(e.kind, ErrorKind::InvalidInput);
        assert_eq!(e.message, "crop size must be non-zero");
    }
    let e = p.crop(100, 100, 0, 1).unwrap_err();
    assert_eq!(e.message, "crop size must be non-zero");
}

#[test]
fn crop_with_origin_outside_is_invalid_input() {
    let p = gradient(10, 8);
    for (x, y) in [(10, 0), (0, 8), (10, 8), (u32::MAX, 0), (0, u32::MAX)] {
        let e = p.crop(x, y, 1, 1).unwrap_err();
        assert_eq!(e.kind, ErrorKind::InvalidInput);
        assert_eq!(e.message, "crop origin out of bounds");
    }
}

#[test]
fn crop_beyond_the_edge_is_clamped_not_rejected() {
    let p = gradient(10, 8);
    let c = p.crop(7, 6, 100, 100).unwrap();
    assert_eq!(c.width(), 10 - 7);
    assert_eq!(c.height(), 8 - 6);
    assert_eq!(pixel(&c, 0, 0), [7, 6, 13, 255]);
    assert_eq!(pixel(&c, 2, 1), [9, 7, 16, 255]);
    let c = p.crop(9, 0, u32::MAX, 1).unwrap();
    assert_eq!((c.width(), c.height()), (1, 1));
    let c = p.crop(0, 0, 10, 8).unwrap();
    assert_eq!(c.pixels(), p.pixels());
    let c = p.crop(4, 0, 6, 8).unwrap();
    assert_eq!(c.width(), 6);
    let c = p.crop(4, 0, 7, 8).unwrap();
    assert_eq!(c.width(), 6);
}

#[test]
fn a_quarter_turn_swaps_the_sides() {
    let p = gradient(3, 2);
    let r = p.rotate90();
    assert_eq!((r.width(), r.height()), (2, 3));
    // the left column, read from the bottom, becomes the top row
    assert_eq!(pixel(&r, 0, 0), pixel(&p, 0, 1));
    assert_eq!(pixel(&r, 1, 0), pixel(&p, 0, 0));
    assert_eq!(pixel(&r, 0, 1), pixel(&p, 1, 1));
    assert_eq!(pixel(&r, 1, 1), pixel(&p, 1, 0));
    assert_eq!(pixel(&r, 0, 2), pixel(&p, 2, 1));
    assert_eq!(pixel(&r, 1, 2), pixel(&p, 2, 0));
}

#[test]
fn four_quarter_turns_give_the_picture_back() {
    let p = gradient(5, 7);
    let r = p.rotate90().rotate90().rotate90().rotate90();
    assert_eq!((r.width(), r.height()), (5, 7));
    assert_eq!(r.pixels(), p.pixels());
    let half = p.rotate90().rotate90();
    assert_eq!(pixel(&half, 0, 0), pixel(&p, 4, 6));
}
