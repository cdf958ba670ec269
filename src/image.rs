use vstd::prelude::*;

use crate::color::{pixel_bytes, write_pixel, Pixel};

verus! {

/// Size in bytes of the file header plus the DIB header.
pub const HEADER_LEN: u32 = 54;

/// The largest value a signed 32-bit header field can hold.
pub const MAX_DIMENSION: u32 = 0x7fff_ffff;

/// Two bytes of `v`, least significant first.
pub open spec fn le_u16(v: u16) -> Seq<u8> {
    seq![(v % 256) as u8, (v / 256) as u8]
}

/// Four bytes of `v`, least significant first.
pub open spec fn le_u32(v: u32) -> Seq<u8> {
    seq![
        (v % 256) as u8,
        ((v / 256) % 256) as u8,
        ((v / 65536) % 256) as u8,
        (v / 16777216) as u8,
    ]
}

/// The unsigned little-endian 32-bit value stored at `s[i..i + 4]`.
pub open spec fn u32_at(s: Seq<u8>, i: int) -> int {
    s[i] + 256 * s[i + 1] + 65536 * s[i + 2] + 16777216 * s[i + 3]
}

/// The signed (two's complement) little-endian 32-bit value stored at `s[i..i + 4]`.
pub open spec fn i32_at(s: Seq<u8>, i: int) -> int {
    let u = u32_at(s, i);
    if u < 0x8000_0000 {
        u
    } else {
        u - 0x1_0000_0000
    }
}

/// Dimensions that the header can describe: each fits a signed 32-bit
/// field, and the declared file size fits an unsigned 32-bit field.
pub open spec fn valid_dimensions(width: u32, height: u32) -> bool {
    &&& width <= MAX_DIMENSION
    &&& height <= MAX_DIMENSION
    &&& HEADER_LEN + width * height * 3 <= u32::MAX
}

/// The file size the header declares: the headers and the unpadded pixel bytes.
pub open spec fn declared_size(width: u32, height: u32) -> int {
    HEADER_LEN + width * height * 3
}

/// The 14-byte file header followed by the 40-byte `BITMAPINFOHEADER`.
pub open spec fn header_bytes(width: u32, height: u32) -> Seq<u8> {
    seq![66u8, 77u8]
        + le_u32(declared_size(width, height) as u32)
        + le_u32(0)
        + le_u32(54)
        + le_u32(40)
        + le_u32(width)
        + le_u32(height)
        + le_u16(1)
        + le_u16(24)
        + le_u32(0)
        + le_u32(0)
        + le_u32(0)
        + le_u32(0)
        + le_u32(0)
        + le_u32(0)
}

/// Appends the four little-endian bytes of `v` to `out`.
fn push_u32_le(out: &mut Vec<u8>, v: u32)
    ensures
        final(out)@ == old(out)@ + le_u32(v),
{
    out.push((v % 256) as u8);
    out.push(((v / 256) % 256) as u8);
    out.push(((v / 65536) % 256) as u8);
    out.push((v / 16777216) as u8);
    assert(out@ =~= old(out)@ + le_u32(v));
}

/// Appends the two little-endian bytes of `v` to `out`.
fn push_u16_le(out: &mut Vec<u8>, v: u16)
    ensures
        final(out)@ == old(out)@ + le_u16(v),
{
    out.push((v % 256) as u8);
    out.push((v / 256) as u8);
    assert(out@ =~= old(out)@ + le_u16(v));
}

/// The 54 header bytes of a bitmap of the given dimensions.
pub fn write_header(width: u32, height: u32) -> (r: Vec<u8>)
    requires
        valid_dimensions(width, height),
    ensures
        r@ == header_bytes(width, height),
{
    let mut out: Vec<u8> = Vec::new();
    // File header
    out.push(66u8);
    out.push(77u8);
    assert(width * height * 3 <= u32::MAX - HEADER_LEN);
    let size: u32 = HEADER_LEN + width * height * 3;
    push_u32_le(&mut out, size);
    push_u32_le(&mut out, 0);
    push_u32_le(&mut out, HEADER_LEN);
    // DIB header
    push_u32_le(&mut out, 40);
    push_u32_le(&mut out, width);
    push_u32_le(&mut out, height);
    push_u16_le(&mut out, 1);
    push_u16_le(&mut out, 24);
    push_u32_le(&mut out, 0);
    push_u32_le(&mut out, 0);
    push_u32_le(&mut out, 0);
    push_u32_le(&mut out, 0);
    push_u32_le(&mut out, 0);
    push_u32_le(&mut out, 0);
    assert(out@ =~= header_bytes(width, height));
    out
}

/// Number of zero bytes that follow each row so that its length is a
/// multiple of four.
pub open spec fn padding_len(width: int) -> int {
    (4 - (width * 3) % 4) % 4
}

/// Length in bytes of one stored row, padding included.
pub open spec fn stride(width: int) -> int {
    width * 3 + padding_len(width)
}

/// The bytes of a row's pixels, three per pixel, without padding.
pub open spec fn row_bytes(row: Seq<Pixel>) -> Seq<u8> {
    Seq::new(3 * row.len(), |i: int| pixel_bytes(row[i / 3])[i % 3])
}

/// A row as stored: its pixel bytes followed by the padding for `width`.
pub open spec fn padded_row(row: Seq<Pixel>, width: int) -> Seq<u8> {
    row_bytes(row) + Seq::new(padding_len(width) as nat, |i: int| 0u8)
}

/// The pixel data of `rows` (in top-to-bottom source order) as stored:
/// the last row first, up to the first row.
pub open spec fn pixel_data(rows: Seq<Seq<Pixel>>, width: int) -> Seq<u8>
    decreases rows.len(),
{
    if rows.len() == 0 {
        Seq::empty()
    } else {
        pixel_data(rows.drop_first(), width) + padded_row(rows[0], width)
    }
}

/// The rows of a pixel grid as sequences.
pub open spec fn grid_view(pixels: Seq<Vec<Pixel>>) -> Seq<Seq<Pixel>> {
    pixels.map_values(|row: Vec<Pixel>| row@)
}

/// Every row of `rows` holds `width` pixels.
pub open spec fn rows_of_width(rows: Seq<Seq<Pixel>>, width: int) -> bool {
    forall|r: int| 0 <= r < rows.len() ==> (#[trigger] rows[r]).len() == width
}

/// A grid of `height` rows of `width` pixels each.
pub open spec fn grid_shaped(rows: Seq<Seq<Pixel>>, width: u32, height: u32) -> bool {
    &&& rows.len() == height
    &&& rows_of_width(rows, width as int)
}

/// A whole bitmap file: the header, then the pixel data.
pub open spec fn bmp_bytes(width: u32, height: u32, rows: Seq<Seq<Pixel>>) -> Seq<u8> {
    header_bytes(width, height) + pixel_data(rows, width as int)
}

/// Number of padding bytes after each row of a bitmap `width` pixels wide.
pub fn row_padding(width: u32) -> (r: u32)
    ensures
        r == padding_len(width as int),
        r < 4,
        (width * 3 + r) % 4 == 0,
{
    let rem: u32 = (width % 4) * 3 % 4;
    assert((width * 3) % 4 == rem) by (nonlinear_arith)
        requires
            rem == (width % 4) * 3 % 4,
    ;
    (4 - rem) % 4
}

/// Appends a row as stored, its pixels in order and then its padding.
pub fn write_row(out: &mut Vec<u8>, row: &Vec<Pixel>, width: u32)
    requires
        row@.len() == width,
    ensures
        final(out)@ == old(out)@ + padded_row(row@, width as int),
{
    let mut i: usize = 0;
    while i < row.len()
        invariant
            0 <= i <= row@.len(),
            out@ == old(out)@ + row_bytes(row@.subrange(0, i as int)),
        decreases row@.len() - i,
    {
        write_pixel(out, &row[i]);
        assert(row_bytes(row@.subrange(0, i + 1)) =~= row_bytes(row@.subrange(0, i as int))
            + pixel_bytes(row@[i as int]));
        i = i + 1;
    }
    assert(row@.subrange(0, i as int) =~= row@);
    let pad: u32 = row_padding(width);
    let ghost unpadded = out@;
    let mut k: u32 = 0;
    while k < pad
        invariant
            0 <= k <= pad,
            pad == padding_len(width as int),
            unpadded == old(out)@ + row_bytes(row@),
            out@ == unpadded + Seq::new(k as nat, |j: int| 0u8),
        decreases pad - k,
    {
        out.push(0u8);
        assert(Seq::new((k + 1) as nat, |j: int| 0u8) =~= Seq::new(k as nat, |j: int| 0u8).push(0u8));
        k = k + 1;
    }
    assert(out@ =~= old(out)@ + padded_row(row@, width as int));
}

/// The complete bitmap file for a grid of pixels given in top-to-bottom
/// source order: `pixels[row][col]`. Rows are stored bottom row first.
pub fn encode_image(width: u32, height: u32, pixels: &Vec<Vec<Pixel>>) -> (r: Vec<u8>)
    requires
        valid_dimensions(width, height),
        grid_shaped(grid_view(pixels@), width, height),
    ensures
        r@ == bmp_bytes(width, height, grid_view(pixels@)),
{
    let ghost rows = grid_view(pixels@);
    let mut out = write_header(width, height);
    let mut k: usize = pixels.len();
    while k > 0
        invariant
            0 <= k <= pixels@.len(),
            rows == grid_view(pixels@),
            grid_shaped(rows, width, height),
            out@ == header_bytes(width, height) + pixel_data(rows.subrange(k as int, rows.len() as int), width as int),
        decreases k,
    {
        k = k - 1;
        assert(rows[k as int] == pixels@[k as int]@);
        write_row(&mut out, &pixels[k], width);
        assert(rows.subrange(k as int, rows.len() as int).drop_first()
            =~= rows.subrange(k + 1, rows.len() as int));
    }
    assert(rows.subrange(0, rows.len() as int) =~= rows);
    out
}

/// Reading back four little-endian bytes of `v` gives `v`.
proof fn lemma_u32_at(s: Seq<u8>, i: int, v: u32)
    requires
        0 <= i,
        i + 4 <= s.len(),
        s.subrange(i, i + 4) == le_u32(v),
    ensures
        u32_at(s, i) == v,
{
    assert(s[i] == le_u32(v)[0]);
    assert(s[i + 1] == le_u32(v)[1]);
    assert(s[i + 2] == le_u32(v)[2]);
    assert(s[i + 3] == le_u32(v)[3]);
    let a = v % 256;
    let b = (v / 256) % 256;
    let c = (v / 65536) % 256;
    let d = v / 16777216;
    assert(v == a + 256 * b + 65536 * c + 16777216 * d) by (nonlinear_arith)
        requires
            a == v % 256,
            b == (v / 256) % 256,
            c == (v / 65536) % 256,
            d == v / 16777216,
            0 <= v,
    ;
}

/// The header is 54 bytes long, and so a bitmap starts with its header.
proof fn lemma_header_prefix(width: u32, height: u32, rows: Seq<Seq<Pixel>>)
    ensures
        header_bytes(width, height).len() == HEADER_LEN,
        bmp_bytes(width, height, rows).subrange(0, HEADER_LEN as int) == header_bytes(width, height),
{
    assert(bmp_bytes(width, height, rows).subrange(0, HEADER_LEN as int)
        =~= header_bytes(width, height));
}

/// The file header of every bitmap the encoder describes starts with the
/// signature "BM", declares the file size as 54 plus three bytes per pixel,
/// and places the pixel data at offset 54.
pub proof fn lemma_file_header(width: u32, height: u32, rows: Seq<Seq<Pixel>>)
    requires
        valid_dimensions(width, height),
        grid_shaped(rows, width, height),
    ensures
        bmp_bytes(width, height, rows).len() >= HEADER_LEN,
        bmp_bytes(width, height, rows)[0] == 66,
        bmp_bytes(width, height, rows)[1] == 77,
        u32_at(bmp_bytes(width, height, rows), 2) == HEADER_LEN + width * height * 3,
        u32_at(bmp_bytes(width, height, rows), 10) == HEADER_LEN,
{
    let b = bmp_bytes(width, height, rows);
    let h = header_bytes(width, height);
    lemma_header_prefix(width, height, rows);
    assert(b[0] == h[0] && b[1] == h[1]);
    assert(b.subrange(2, 6) =~= le_u32(declared_size(width, height) as u32)) by {
        assert(b.subrange(2, 6) =~= h.subrange(2, 6));
    }
    lemma_u32_at(b, 2, declared_size(width, height) as u32);
    assert(b.subrange(10, 14) =~= le_u32(54)) by {
        assert(b.subrange(10, 14) =~= h.subrange(10, 14));
    }
    lemma_u32_at(b, 10, 54);
}

/// The header holds the width at offset 18 and the height at offset 22.
proof fn lemma_field_at(width: u32, height: u32, i: int, v: u32)
    requires
        (i == 18 && v == width) || (i == 22 && v == height),
    ensures
        header_bytes(width, height).subrange(i, i + 4) == le_u32(v),
{
    let h = header_bytes(width, height);
    let f = le_u32(v);
    assert(h[i] == f[0]);
    assert(h[i + 1] == f[1]);
    assert(h[i + 2] == f[2]);
    assert(h[i + 3] == f[3]);
    assert(h.subrange(i, i + 4) =~= f);
}

/// The width and height fields of the DIB header, read as signed
/// little-endian 32-bit integers, are exactly the image's dimensions.
pub proof fn lemma_dib_dimensions(width: u32, height: u32, rows: Seq<Seq<Pixel>>)
    requires
        valid_dimensions(width, height),
        grid_shaped(rows, width, height),
    ensures
        i32_at(bmp_bytes(width, height, rows), 18) == width,
        i32_at(bmp_bytes(width, height, rows), 22) == height,
{
    let b = bmp_bytes(width, height, rows);
    let h = header_bytes(width, height);
    lemma_header_prefix(width, height, rows);
    lemma_field_at(width, height, 18, width);
    assert(b.subrange(18, 22) =~= h.subrange(18, 22));
    lemma_u32_at(b, 18, width);
    lemma_field_at(width, height, 22, height);
    assert(b.subrange(22, 26) =~= h.subrange(22, 26));
    lemma_u32_at(b, 22, height);
}

/// Each stored row takes `stride(width)` bytes.
proof fn lemma_pixel_data_len(rows: Seq<Seq<Pixel>>, width: int)
    requires
        width >= 0,
        rows_of_width(rows, width),
    ensures
        pixel_data(rows, width).len() == rows.len() * stride(width),
    decreases rows.len(),
{
    if rows.len() > 0 {
        assert(rows_of_width(rows.drop_first(), width)) by {
            assert forall|r: int| 0 <= r < rows.drop_first().len() implies
                (#[trigger] rows.drop_first()[r]).len() == width by {
                assert(rows.drop_first()[r] == rows[r + 1]);
            }
        }
        lemma_pixel_data_len(rows.drop_first(), width);
        assert(rows[0].len() == width);
        assert((rows.len() - 1) * stride(width) + stride(width) == rows.len() * stride(width))
            by (nonlinear_arith);
    }
}

/// Row `r` of `rows` is stored `rows.len() - 1 - r` strides into the pixel data.
proof fn lemma_pixel_data_row(rows: Seq<Seq<Pixel>>, width: int, r: int, j: int)
    requires
        width >= 0,
        rows_of_width(rows, width),
        0 <= r < rows.len(),
        0 <= j < stride(width),
    ensures
        (rows.len() - 1 - r) * stride(width) + j < pixel_data(rows, width).len(),
        pixel_data(rows, width)[(rows.len() - 1 - r) * stride(width) + j]
            == padded_row(rows[r], width)[j],
    decreases rows.len(),
{
    let rest = rows.drop_first();
    let n = rows.len();
    let st = stride(width);
    assert(rows_of_width(rest, width)) by {
        assert forall|q: int| 0 <= q < rest.len() implies (#[trigger] rest[q]).len() == width by {
            assert(rest[q] == rows[q + 1]);
        }
    }
    lemma_pixel_data_len(rest, width);
    lemma_pixel_data_len(rows, width);
    assert(rows[r].len() == width);
    assert(padded_row(rows[r], width).len() == st);
    if r == 0 {
        assert(pixel_data(rest, width).len() == (n - 1) * st);
    } else {
        lemma_pixel_data_row(rest, width, r - 1, j);
        assert(rest[r - 1] == rows[r]);
        assert((n - 1 - r) * st + j < (n - 1) * st) by (nonlinear_arith)
            requires
                1 <= r,
                r < n,
                0 <= j < st,
        ;
        assert((rest.len() - 1 - (r - 1)) == n - 1 - r);
    }
    assert(n * st == (n - 1) * st + st) by (nonlinear_arith);
    assert((n - 1 - r) * st + j < n * st) by (nonlinear_arith)
        requires
            0 <= r < n,
            0 <= j < st,
    ;
}

/// A bitmap is 54 header bytes followed by one padded row per image row.
pub proof fn lemma_file_length(width: u32, height: u32, rows: Seq<Seq<Pixel>>)
    requires
        grid_shaped(rows, width, height),
    ensures
        bmp_bytes(width, height, rows).len() == HEADER_LEN + height * stride(width as int),
        stride(width as int) % 4 == 0,
{
    lemma_pixel_data_len(rows, width as int);
    lemma_header_prefix(width, height, rows);
}

/// Pixel `(col, row)` of the source grid, rows counted from the top, is
/// stored in blue-green-red order `height - 1 - row` strides after the
/// header: the bottom row comes first and each row runs left to right.
pub proof fn lemma_pixel_position(
    width: u32,
    height: u32,
    rows: Seq<Seq<Pixel>>,
    row: int,
    col: int,
)
    requires
        grid_shaped(rows, width, height),
        0 <= row < height,
        0 <= col < width,
    ensures
        ({
            let b = bmp_bytes(width, height, rows);
            let at = HEADER_LEN + (height - 1 - row) * stride(width as int) + 3 * col;
            &&& at + 2 < b.len()
            &&& b[at] == rows[row][col].blue
            &&& b[at + 1] == rows[row][col].green
            &&& b[at + 2] == rows[row][col].red
        }),
{
    let w = width as int;
    let start = (height - 1 - row) * stride(w);
    let p = rows[row];
    assert(p.len() == w);
    lemma_header_prefix(width, height, rows);
    lemma_file_length(width, height, rows);
    let d = pixel_data(rows, w);
    let b = bmp_bytes(width, height, rows);
    assert forall|k: int| 0 <= k < 3 implies {
        &&& HEADER_LEN + start + 3 * col + k < b.len()
        &&& #[trigger] b[HEADER_LEN + start + 3 * col + k] == pixel_bytes(p[col])[k]
    } by {
        lemma_pixel_data_row(rows, w, row, 3 * col + k);
        assert(padded_row(p, w)[3 * col + k] == row_bytes(p)[3 * col + k]);
        assert((3 * col + k) / 3 == col && (3 * col + k) % 3 == k);
        assert(b[HEADER_LEN + start + 3 * col + k] == d[start + 3 * col + k]);
    }
    assert(b[HEADER_LEN + start + 3 * col + 0] == pixel_bytes(p[col])[0]);
    assert(b[HEADER_LEN + start + 3 * col + 1] == pixel_bytes(p[col])[1]);
    assert(b[HEADER_LEN + start + 3 * col + 2] == pixel_bytes(p[col])[2]);
}

/// Two grids of the same shape holding the same pixel at every position
/// encode to the same bytes.
pub proof fn lemma_encoding_deterministic(
    width: u32,
    height: u32,
    first: Seq<Seq<Pixel>>,
    second: Seq<Seq<Pixel>>,
)
    requires
        grid_shaped(first, width, height),
        grid_shaped(second, width, height),
        forall|r: int, c: int|
            0 <= r < height && 0 <= c < width ==> #[trigger] first[r][c] == second[r][c],
    ensures
        bmp_bytes(width, height, first) == bmp_bytes(width, height, second),
{
    assert forall|r: int| 0 <= r < height implies #[trigger] first[r] == second[r] by {
        assert(first[r] =~= second[r]);
    }
    assert(first =~= second);
}

} // verus!
