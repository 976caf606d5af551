//! ANSI truecolor half-block thumbnails of stored images.
//!
//! Each terminal row encodes two rows of the resized image with the upper-half-block character
//! `U+2580`: its foreground colour is the upper pixel, its background the lower one. The thumbnail is
//! [`TARGET_COLUMNS`] cells wide; how many rows it has follows from the image's aspect ratio, which the
//! caller works out.

use vstd::prelude::*;
use crate::text::string_push;

verus! {

/// Terminal columns the thumbnail is resized to fit.
pub const TARGET_COLUMNS: u32 = 48;

#[verifier::external_type_specification]
#[verifier::external_body]
pub struct ExDynamicImage(image::DynamicImage);

/// A decoded image, the bytes it was decoded from, and its size. Only decoding makes one, so the image
/// is always the decoding of its source bytes.
pub struct DecodedImage {
    image: image::DynamicImage,
    source: Vec<u8>,
    width: u32,
    height: u32,
}

impl DecodedImage {
    /// The bytes the image was decoded from.
    pub closed spec fn source(&self) -> Seq<u8> {
        self.source@
    }

    /// The image's width and height.
    pub closed spec fn dimensions(&self) -> (u32, u32) {
        (self.width, self.height)
    }

    pub fn width(&self) -> (r: u32)
        ensures
            r == self.dimensions().0,
    {
        self.width
    }

    pub fn height(&self) -> (r: u32)
        ensures
            r == self.dimensions().1,
    {
        self.height
    }
}

/// Why an image could not be decoded (the variants of `image::ImageError`).
#[derive(Clone, Copy, Debug, PartialEq, Eq, Structural)]
pub enum ImageFailure {
    Decoding,
    Encoding,
    Parameter,
    Limits,
    Unsupported,
    Io,
}

/// Whether the `image` crate decodes `bytes` (format guessed from the content).
pub uninterp spec fn image_decodes(bytes: Seq<u8>) -> bool;

/// The width and height of the image the `image` crate decodes from `bytes`.
pub uninterp spec fn image_dimensions(bytes: Seq<u8>) -> (u32, u32);

/// The RGBA pixels, row by row, of the image the `image` crate decodes from `bytes`, resized to
/// `width` by `height` with the triangle filter.
pub uninterp spec fn resized_rgba(bytes: Seq<u8>, width: u32, height: u32) -> Seq<u8>;

/// Calls `image::load_from_memory`, then reads the image's width and height and keeps a copy of the
/// source bytes; the error is converted variant by variant. Success and the dimensions are named by
/// `image_decodes` and `image_dimensions`.
#[verifier::external_body]
fn decode_image(bytes: &[u8]) -> (r: Result<DecodedImage, ImageFailure>)
    ensures
        r is Ok <==> image_decodes(bytes@),
        r matches Ok(d) ==> d.dimensions() == image_dimensions(bytes@) && d.source() == bytes@,
{
    match image::load_from_memory(bytes) {
        Ok(img) => {
            let (width, height) = (img.width(), img.height());
            Ok(DecodedImage { image: img, source: bytes.to_vec(), width, height })
        },
        Err(image::ImageError::Decoding(_)) => Err(ImageFailure::Decoding),
        Err(image::ImageError::Encoding(_)) => Err(ImageFailure::Encoding),
        Err(image::ImageError::Parameter(_)) => Err(ImageFailure::Parameter),
        Err(image::ImageError::Limits(_)) => Err(ImageFailure::Limits),
        Err(image::ImageError::Unsupported(_)) => Err(ImageFailure::Unsupported),
        Err(image::ImageError::IoError(_)) => Err(ImageFailure::Io),
    }
}

/// Calls `DynamicImage::resize_exact` with the triangle filter on the decoded image, then `to_rgba8`
/// and `into_raw`: the pixels of the resized image, row by row, four bytes (RGBA) each, named by
/// `resized_rgba` of the image's source bytes. The source shows the result has exactly the requested
/// size (an empty image gives a blank buffer of that size). Not stated: that the resampling buffers
/// fit in memory (a failed allocation aborts).
#[verifier::external_body]
fn resize_rgba(image: &DecodedImage, width: u32, height: u32) -> (r: Vec<u8>)
    requires
        width * height * 4 <= usize::MAX,
    ensures
        r@ == resized_rgba(image.source(), width, height),
        r@.len() == width * height * 4,
{
    image.image.resize_exact(width, height, image::imageops::FilterType::Triangle).to_rgba8().into_raw()
}

/// The decimal digits of `n`, as `{}` formats it.
pub open spec fn dec(n: u8) -> Seq<char> {
    if n < 10 {
        seq![digit(n)]
    } else if n < 100 {
        seq![digit(n / 10), digit(n % 10)]
    } else {
        seq![digit(n / 100), digit((n / 10) % 10), digit(n % 10)]
    }
}

pub open spec fn digit(d: u8) -> char {
    ((48 + d) as u8) as char
}

/// The channel `c` of the pixel at `(x, y)` of an RGBA image [`TARGET_COLUMNS`] wide.
pub open spec fn channel(px: Seq<u8>, x: int, y: int, c: int) -> u8 {
    px[(y * 48 + x) * 4 + c]
}

/// `ESC [`.
pub open spec fn csi() -> Seq<char> {
    seq!['\x1b', '[']
}

/// The SGR colour code for the pixel at `(x, y)`: `ESC[<ground>;2;<r>;<g>;<b>m`, where `ground` is
/// `38` (foreground) or `48` (background).
pub open spec fn colour(px: Seq<u8>, x: int, y: int, ground: char) -> Seq<char> {
    csi() + seq![ground, '8', ';', '2', ';'] + dec(channel(px, x, y, 0)) + seq![';'] + dec(channel(px, x, y, 1))
        + seq![';'] + dec(channel(px, x, y, 2)) + seq!['m']
}

/// One cell: the upper pixel as foreground, the lower as background, then the half block.
pub open spec fn cell(px: Seq<u8>, col: int, row: int) -> Seq<char> {
    colour(px, col, 2 * row, '3') + colour(px, col, 2 * row + 1, '4') + seq!['\u{2580}']
}

/// The first `n` cells of terminal row `row`.
pub open spec fn cells(px: Seq<u8>, row: int, n: nat) -> Seq<char>
    decreases n,
{
    if n == 0 {
        Seq::empty()
    } else {
        cells(px, row, (n - 1) as nat) + cell(px, n - 1, row)
    }
}

/// A whole terminal row: its cells, then a colour reset and a newline.
pub open spec fn line(px: Seq<u8>, row: int) -> Seq<char> {
    cells(px, row, 48) + csi() + seq!['0', 'm', '\n']
}

/// The first `n` terminal rows.
pub open spec fn lines(px: Seq<u8>, n: nat) -> Seq<char>
    decreases n,
{
    if n == 0 {
        Seq::empty()
    } else {
        lines(px, (n - 1) as nat) + line(px, n - 1)
    }
}

/// Append the decimal digits of `n`.
fn push_dec(out: &mut String, n: u8)
    ensures
        final(out)@ == old(out)@ + dec(n),
{
    if n >= 100 {
        string_push(out, ((48 + n / 100) as u8) as char);
    }
    if n >= 10 {
        string_push(out, ((48 + (n / 10) % 10) as u8) as char);
    }
    string_push(out, ((48 + n % 10) as u8) as char);
    assert(out@ =~= old(out)@ + dec(n));
}

/// Append the SGR colour code of one pixel.
fn push_colour(out: &mut String, px: &Vec<u8>, x: usize, y: usize, ground: char)
    requires
        x < 48,
        (y * 48 + x) * 4 + 3 < px.len(),
    ensures
        final(out)@ == old(out)@ + colour(px@, x as int, y as int, ground),
{
    let base = (y * 48 + x) * 4;
    string_push(out, '\x1b');
    string_push(out, '[');
    string_push(out, ground);
    string_push(out, '8');
    string_push(out, ';');
    string_push(out, '2');
    string_push(out, ';');
    push_dec(out, px[base]);
    string_push(out, ';');
    push_dec(out, px[base + 1]);
    string_push(out, ';');
    push_dec(out, px[base + 2]);
    string_push(out, 'm');
    assert(out@ =~= old(out)@ + colour(px@, x as int, y as int, ground));
}

/// Rows the pixel buffer must hold for `rows` terminal rows: two per terminal row, at least two.
pub open spec fn spec_sample_height(rows: u32) -> u32 {
    if rows * 2 > u32::MAX {
        u32::MAX
    } else if rows * 2 < 2 {
        2
    } else {
        (rows * 2) as u32
    }
}

/// The height the image is resized to for `rows` terminal rows.
pub fn sample_height(rows: u32) -> (r: u32)
    ensures
        r == spec_sample_height(rows),
{
    let h: u32 = if rows > u32::MAX / 2 { u32::MAX } else { rows * 2 };
    if h < 2 {
        2
    } else {
        h
    }
}

/// The thumbnail text of an RGBA pixel buffer [`TARGET_COLUMNS`] wide with `2 * rows` rows.
pub fn render_ansi(px: &Vec<u8>, rows: u32) -> (r: String)
    requires
        rows as int * 2 * 48 * 4 <= px.len(),
    ensures
        r@ == lines(px@, rows as nat),
{
    let mut out = String::new();
    let mut row: u32 = 0;
    while row < rows
        invariant
            row <= rows,
            rows as int * 2 * 48 * 4 <= px.len(),
            out@ == lines(px@, row as nat),
        decreases rows - row,
    {
        let ghost start = out@;
        let mut col: usize = 0;
        while col < 48
            invariant
                row < rows,
                rows as int * 2 * 48 * 4 <= px.len(),
                col <= 48,
                out@ == start + cells(px@, row as int, col as nat),
            decreases 48 - col,
        {
            let top = (row as usize) * 2;
            assert((top + 1) * 48 + col < rows as int * 2 * 48) by (nonlinear_arith)
                requires
                    top == row * 2,
                    row < rows,
                    col < 48,
            ;
            let ghost before = out@;
            push_colour(&mut out, px, col, top, '3');
            push_colour(&mut out, px, col, top + 1, '4');
            string_push(&mut out, '\u{2580}');
            assert(out@ =~= before + cell(px@, col as int, row as int));
            col = col + 1;
        }
        string_push(&mut out, '\x1b');
        string_push(&mut out, '[');
        string_push(&mut out, '0');
        string_push(&mut out, 'm');
        string_push(&mut out, '\n');
        assert(out@ =~= start + line(px@, row as int));
        row = row + 1;
    }
    out
}

/// Decode stored bytes for a preview: the image, or `None` for an empty (zero-sized) one.
pub fn decode_for_preview(bytes: &[u8]) -> (r: Result<Option<DecodedImage>, ImageFailure>)
    ensures
        r is Ok <==> image_decodes(bytes@),
        r matches Ok(Some(d)) ==> d.dimensions() == image_dimensions(bytes@) && d.source() == bytes@
            && d.dimensions().0 > 0 && d.dimensions().1 > 0,
        r matches Ok(None) ==> image_dimensions(bytes@).0 == 0 || image_dimensions(bytes@).1 == 0,
{
    let d = decode_image(bytes)?;
    if d.width == 0 || d.height == 0 {
        Ok(None)
    } else {
        Ok(Some(d))
    }
}

/// The thumbnail of a decoded image with `rows` terminal rows: the image resized to
/// [`TARGET_COLUMNS`] by twice `rows` pixels, rendered as half blocks.
pub fn thumbnail(image: &DecodedImage, rows: u32) -> (r: String)
    requires
        1 <= rows <= u32::MAX / 2,
        rows as int * 2 * 48 * 4 <= usize::MAX,
    ensures
        r@ == lines(resized_rgba(image.source(), TARGET_COLUMNS, (2 * rows) as u32), rows as nat),
{
    let height = sample_height(rows);
    assert(height == 2 * rows);
    let px = resize_rgba(image, TARGET_COLUMNS, height);
    let r = render_ansi(&px, rows);
    assert(px@.len() == 48 * (2 * rows) * 4);
    r
}

} // verus!

verus! {

/// The number a string of decimal digits denotes.
pub open spec fn decimal_value(s: Seq<char>) -> int
    decreases s.len(),
{
    if s.len() == 0 {
        0
    } else {
        decimal_value(s.drop_last()) * 10 + (s.last() as int - '0' as int)
    }
}

/// A colour channel is written as the plain decimal text of its value: digits only, no leading zero,
/// denoting exactly the value.
pub proof fn channel_values_are_written_in_decimal(n: u8)
    ensures
        1 <= dec(n).len() <= 3,
        forall|k: int| 0 <= k < dec(n).len() ==> '0' <= #[trigger] dec(n)[k] <= '9',
        dec(n).len() > 1 ==> dec(n)[0] != '0',
        decimal_value(dec(n)) == n,
{
    let s = dec(n);
    reveal_with_fuel(decimal_value, 4);
    lemma_digit_value((n % 10) as u8);
    if n < 10 {
        assert(s.drop_last() =~= Seq::<char>::empty());
    } else if n < 100 {
        lemma_digit_value((n / 10) as u8);
        assert(s.drop_last() =~= seq![digit(n / 10)]);
        assert(seq![digit(n / 10)].drop_last() =~= Seq::<char>::empty());
    } else {
        lemma_digit_value((n / 100) as u8);
        lemma_digit_value(((n / 10) % 10) as u8);
        assert(s.drop_last() =~= seq![digit(n / 100), digit((n / 10) % 10)]);
        assert(seq![digit(n / 100), digit((n / 10) % 10)].drop_last() =~= seq![digit(n / 100)]);
        assert(seq![digit(n / 100)].drop_last() =~= Seq::<char>::empty());
        assert(decimal_value(seq![digit(n / 100)]) == n / 100);
        assert(decimal_value(seq![digit(n / 100), digit((n / 10) % 10)]) == n / 10);
    }
}

proof fn lemma_digit_value(d: u8)
    requires
        d < 10,
    ensures
        digit(d) as int == '0' as int + d,
        '0' <= digit(d) <= '9',
{
    assert(((48 + d) as u8) == 48 + d);
    assert(((48 + d) as u8) as char as int == 48 + d);
}

/// The thumbnail is printed top to bottom: rendering one more terminal row appends that row's line
/// after the lines already rendered.
pub proof fn rows_are_rendered_top_to_bottom(px: Seq<u8>, n: nat)
    ensures
        lines(px, n + 1) == lines(px, n) + line(px, n as int),
        lines(px, n).len() <= lines(px, n + 1).len(),
        lines(px, n + 1).subrange(0, lines(px, n).len() as int) == lines(px, n),
{
    assert(lines(px, n + 1) == lines(px, n) + line(px, n as int));
    assert(lines(px, n + 1).subrange(0, lines(px, n).len() as int) =~= lines(px, n));
}

/// A terminal row is its 48 cells, left to right, then a colour reset and a newline.
pub proof fn a_line_is_its_cells_left_to_right(px: Seq<u8>, row: int, n: nat)
    ensures
        line(px, row) == cells(px, row, 48) + seq!['\x1b', '[', '0', 'm', '\n'],
        cells(px, row, n + 1) == cells(px, row, n) + cell(px, n as int, row),
{
    assert(line(px, row) =~= cells(px, row, 48) + seq!['\x1b', '[', '0', 'm', '\n']);
}

/// The cell in column `col` of terminal row `row` shows pixel `(col, 2 * row)` as the foreground and
/// pixel `(col, 2 * row + 1)` as the background of an upper half block, each as its red, green and
/// blue bytes of the RGBA buffer, 48 pixels to a row.
pub proof fn a_cell_pairs_the_upper_and_lower_pixel(px: Seq<u8>, col: int, row: int)
    ensures
        ({
            let up = ((2 * row) * 48 + col) * 4;
            let down = ((2 * row + 1) * 48 + col) * 4;
            cell(px, col, row) == seq!['\x1b', '[', '3', '8', ';', '2', ';'] + dec(px[up]) + seq![';'] + dec(px[up + 1])
                + seq![';'] + dec(px[up + 2]) + seq!['m'] + seq!['\x1b', '[', '4', '8', ';', '2', ';'] + dec(px[down])
                + seq![';'] + dec(px[down + 1]) + seq![';'] + dec(px[down + 2]) + seq!['m'] + seq!['\u{2580}']
        }),
{
    let up = ((2 * row) * 48 + col) * 4;
    let down = ((2 * row + 1) * 48 + col) * 4;
    assert(channel(px, col, 2 * row, 0) == px[up]);
    assert(channel(px, col, 2 * row, 1) == px[up + 1]);
    assert(channel(px, col, 2 * row, 2) == px[up + 2]);
    assert(channel(px, col, 2 * row + 1, 0) == px[down]);
    assert(channel(px, col, 2 * row + 1, 1) == px[down + 1]);
    assert(channel(px, col, 2 * row + 1, 2) == px[down + 2]);
    assert(cell(px, col, row) =~= seq!['\x1b', '[', '3', '8', ';', '2', ';'] + dec(px[up]) + seq![';'] + dec(
        px[up + 1],
    ) + seq![';'] + dec(px[up + 2]) + seq!['m'] + seq!['\x1b', '[', '4', '8', ';', '2', ';'] + dec(px[down]) + seq![
        ';',
    ] + dec(px[down + 1]) + seq![';'] + dec(px[down + 2]) + seq!['m'] + seq!['\u{2580}']);
}

} // verus!
