use bmpgen::color::{channel_byte, Pixel};
use bmpgen::image::{encode_image, row_padding, write_header, write_row};

fn u32_at(b: &[u8], i: usize) -> u32 {
    u32::from_le_bytes([b[i], b[i + 1], b[i + 2], b[i + 3]])
}

fn i32_at(b: &[u8], i: usize) -> i32 {
    i32::from_le_bytes([b[i], b[i + 1], b[i + 2], b[i + 3]])
}

fn scaled(ratio: f64) -> i64 {
    (256.0 * ratio).floor() as i64
}

fn uniform_grid(width: usize, height: usize, p: Pixel) -> Vec<Vec<Pixel>> {
    vec![vec![p; width]; height]
}

#[test]
fn header_signature_size_and_offset() {
    for &(w, h) in &[(1u32, 1u32), (2, 3), (256, 256), (501, 7)] {
        let b = write_header(w, h);
        assert_eq!(b.len(), 54);
        assert_eq!(&b[0..2], b"BM");
        assert_eq!(u32_at(&b, 2), 54 + w * h * 3);
        assert_eq!(&b[6..10], &[0, 0, 0, 0]);
        assert_eq!(u32_at(&b, 10), 54);
    }
}

#[test]
fn header_fixed_dib_fields() {
    let b = write_header(3, 5);
    assert_eq!(u32_at(&b, 14), 40);
    assert_eq!(u16::from_le_bytes([b[26], b[27]]), 1);
    assert_eq!(u16::from_le_bytes([b[28], b[29]]), 24);
    for off in [30usize, 34, 38, 42, 46, 50] {
        assert_eq!(u32_at(&b, off), 0);
    }
}

#[test]
fn header_exact_bytes_for_two_by_three() {
    let b = write_header(2, 3);
    let expected: Vec<u8> = vec![
        66, 77, 72, 0, 0, 0, 0, 0, 0, 0, 54, 0, 0, 0, 40, 0, 0, 0, 2, 0, 0, 0, 3, 0, 0, 0, 1, 0,
        24, 0, 0, 0, 0, 0, 0, 0, 0, 0, 0, 0, 0, 0, 0, 0, 0, 0, 0, 0, 0, 0, 0, 0, 0, 0,
    ];
    assert_eq!(b, expected);
}

#[test]
fn dib_width_and_height_fields() {
    for &(w, h) in &[(1u32, 1u32), (256, 128), (501, 3), (70000, 2)] {
        let b = write_header(w, h);
        assert_eq!(i32_at(&b, 18), w as i32);
        assert_eq!(i32_at(&b, 22), h as i32);
    }
}

#[test]
fn dib_fields_at_largest_signed_width() {
    let b = write_header(0x7fff_ffff, 0);
    assert_eq!(i32_at(&b, 18), i32::MAX);
    assert_eq!(i32_at(&b, 22), 0);
    assert_eq!(u32_at(&b, 2), 54);
}

#[test]
fn padding_for_each_remainder() {
    assert_eq!(row_padding(256), 0);
    assert_eq!(row_padding(501), 1);
    assert_eq!(row_padding(1), 1);
    assert_eq!(row_padding(2), 2);
    assert_eq!(row_padding(3), 3);
    assert_eq!(row_padding(4), 0);
    assert_eq!(row_padding(u32::MAX), 3);
}

#[test]
fn rows_of_width_256_are_not_padded() {
    let grid = uniform_grid(256, 2, Pixel::new(1, 2, 3));
    let b = encode_image(256, 2, &grid);
    assert_eq!(b.len(), 54 + 2 * 768);
}

#[test]
fn rows_of_width_501_get_one_padding_byte() {
    let grid = uniform_grid(501, 2, Pixel::new(9, 9, 9));
    let b = encode_image(501, 2, &grid);
    assert_eq!(b.len(), 54 + 2 * 1504);
    assert_eq!(b[54 + 1503], 0);
    assert_eq!(b[54 + 1504 + 1503], 0);
    assert_eq!(b[54 + 1502], 9);
    assert_eq!(b[54 + 1504], 9);
}

#[test]
fn bottom_row_is_stored_first() {
    let grid = vec![
        vec![Pixel::new(10, 11, 12), Pixel::new(20, 21, 22)],
        vec![Pixel::new(30, 31, 32), Pixel::new(40, 41, 42)],
    ];
    let b = encode_image(2, 2, &grid);
    // two pixels (6 bytes) and two padding bytes per row
    assert_eq!(b.len(), 54 + 2 * 8);
    assert_eq!(&b[54..62], &[32, 31, 30, 42, 41, 40, 0, 0]);
    assert_eq!(&b[62..70], &[12, 11, 10, 22, 21, 20, 0, 0]);
}

#[test]
fn pixel_encodes_blue_green_red() {
    assert_eq!(Pixel::new(1, 2, 3).encode(), vec![3, 2, 1]);
}

#[test]
fn channel_bytes_truncate_and_wrap() {
    assert_eq!(channel_byte(scaled(0.0)), 0);
    assert_eq!(channel_byte(scaled(0.5)), 128);
    assert_eq!(channel_byte(scaled(0.999)), 255);
    assert_eq!(channel_byte(scaled(1.0)), 0);
    assert_eq!(channel_byte(scaled(0.25)), 64);
}

#[test]
fn channel_bytes_of_out_of_range_values() {
    assert_eq!(channel_byte(-1), 255);
    assert_eq!(channel_byte(-256), 0);
    assert_eq!(channel_byte(-257), 255);
    assert_eq!(channel_byte(300), 44);
    assert_eq!(channel_byte(i64::MIN), 0);
    assert_eq!(channel_byte(i64::MAX), 255);
}

#[test]
fn pixel_from_scaled_wraps_each_channel() {
    let p = Pixel::from_scaled(256, 255, -1);
    assert_eq!(p, Pixel::new(0, 255, 255));
}

#[test]
fn equal_inputs_encode_identically() {
    let make = || -> Vec<Vec<Pixel>> {
        (0..3u8)
            .map(|r| (0..5u8).map(|c| Pixel::new(r, c, r ^ c)).collect())
            .collect()
    };
    let a = encode_image(5, 3, &make());
    let b = encode_image(5, 3, &make());
    assert_eq!(a, b);
}

#[test]
fn gradient_of_256_by_256() {
    let (w, h) = (256usize, 256usize);
    let grid: Vec<Vec<Pixel>> = (0..h)
        .map(|row| {
            (0..w)
                .map(|col| {
                    let green = row as f64 / (h - 1) as f64;
                    let blue = col as f64 / (w - 1) as f64;
                    Pixel::from_scaled(scaled(0.0), scaled(green), scaled(blue))
                })
                .collect()
        })
        .collect();
    let b = encode_image(256, 256, &grid);
    assert_eq!(b.len(), 54 + 256 * 256 * 3);
    assert_eq!(u32_at(&b, 2), 54 + 256 * 256 * 3);
    // source row 255 is stored first; col 254 has blue 254/255
    let at = 54 + 254 * 3;
    assert_eq!(&b[at..at + 3], &[254, 0, 0]);
    // source row 0 is stored last; a full channel of 1.0 wraps to 0
    let last_row = 54 + 255 * 768;
    assert_eq!(&b[last_row + 255 * 3..last_row + 256 * 3], &[0, 0, 0]);
    assert_eq!(&b[last_row + 254 * 3..last_row + 255 * 3], &[254, 0, 0]);
    // source row 254 sits in the second stored row
    assert_eq!(&b[54 + 768 + 3..54 + 768 + 6], &[1, 254, 0]);
}

#[test]
fn row_is_appended_with_its_padding() {
    let mut out: Vec<u8> = vec![7];
    write_row(&mut out, &vec![Pixel::new(1, 2, 3)], 1);
    assert_eq!(out, vec![7, 3, 2, 1, 0]);
}
