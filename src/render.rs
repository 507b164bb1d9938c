use vstd::arithmetic::div_mod::{
    lemma_fundamental_div_mod_converse_div, lemma_fundamental_div_mod_converse_mod,
};
use vstd::prelude::*;

verus! {

/// Why a render call refused to run.
#[derive(Clone, Copy, Debug, PartialEq, Eq, Structural)]
pub enum RenderError {
    /// The pixel buffer does not fit the image: it is not exactly width × height
    /// bytes for a whole image, or not a whole number of rows inside the image
    /// for a band.
    BufferSizeMismatch,
}

/// The gray level of a pixel, from the outcome of the escape-time test: 255 for a
/// point that did not escape, and `255 - count` (saturated at 0) for one that
/// escaped after `count` iterations.
pub open spec fn intensity_spec(escape: Option<u32>) -> u8 {
    match escape {
        None => 255,
        Some(count) => if count >= 255 {
            0
        } else {
            (255 - count) as u8
        },
    }
}

/// Computes [`intensity_spec`].
pub fn intensity(escape: Option<u32>) -> (b: u8)
    ensures
        b == intensity_spec(escape),
{
    match escape {
        None => 255,
        Some(count) => if count >= 255 {
            0
        } else {
            (255 - count) as u8
        },
    }
}

/// In a row-major band of rows `width` wide whose first row is image row `top`,
/// the byte of pixel (`col`, `row`) of the band holds the intensity of a result
/// that `escape_at` may give for image pixel (`col`, `top + row`).
pub open spec fn pixel_shows<F: Fn(usize, usize) -> Option<u32>>(
    escape_at: F,
    pixels: Seq<u8>,
    width: int,
    top: int,
    col: int,
    row: int,
) -> bool {
    exists|e: Option<u32>|
        #[trigger] call_ensures(escape_at, (col as usize, (top + row) as usize), e)
            && pixels[row * width + col] == intensity_spec(e)
}

/// Byte `p` of a band of rows `width` wide whose first row is image row `top`
/// holds the intensity of a result that `escape_at` may give for column
/// `p % width` and image row `top + p / width`.
spec fn shows_escape<F: Fn(usize, usize) -> Option<u32>>(
    escape_at: F,
    pixels: Seq<u8>,
    width: int,
    top: int,
    p: int,
) -> bool {
    exists|e: Option<u32>|
        #[trigger] call_ensures(escape_at, ((p % width) as usize, (top + p / width) as usize), e)
            && pixels[p] == intensity_spec(e)
}

/// A buffer of `len` bytes is a whole number of rows of an image of `bounds`
/// (columns, rows), and those rows, counted from row `top`, lie inside the image.
pub open spec fn band_fits(len: int, bounds: (usize, usize), top: int) -> bool {
    &&& bounds.0 > 0
    &&& len % (bounds.0 as int) == 0
    &&& top + len / (bounds.0 as int) <= bounds.1
}

/// Writes the intensity of every pixel of `rows` rows of `width` columns, the
/// first of which is image row `top`.
fn fill_rows<F: Fn(usize, usize) -> Option<u32>>(
    pixels: &mut [u8],
    width: usize,
    top: usize,
    rows: usize,
    escape_at: F,
)
    requires
        old(pixels)@.len() == width * rows,
        top + rows <= usize::MAX,
        forall|col: usize, row: usize|
            col < width && top <= row < top + rows ==> call_requires(escape_at, (col, row)),
    ensures
        final(pixels)@.len() == old(pixels)@.len(),
        forall|col: int, row: int|
            0 <= col < width && 0 <= row < rows ==> #[trigger] pixel_shows(
                escape_at,
                final(pixels)@,
                width as int,
                top as int,
                col,
                row,
            ),
{
    let len = pixels.len();
    let mut row: usize = 0;
    while row < rows
        invariant
            forall|col: usize, row: usize|
                col < width && top <= row < top + rows ==> call_requires(escape_at, (col, row)),
            top + rows <= usize::MAX,
            pixels@.len() == width * rows,
            len == width * rows,
            row <= rows,
            forall|p: int|
                0 <= p < row * width ==> #[trigger] shows_escape(
                    escape_at,
                    pixels@,
                    width as int,
                    top as int,
                    p,
                ),
        decreases rows - row,
    {
        let mut col: usize = 0;
        while col < width
            invariant
                forall|col: usize, row: usize|
                    col < width && top <= row < top + rows ==> call_requires(escape_at, (col, row)),
                top + rows <= usize::MAX,
                pixels@.len() == width * rows,
                len == width * rows,
                row < rows,
                col <= width,
                forall|p: int|
                    0 <= p < row * width + col ==> #[trigger] shows_escape(
                        escape_at,
                        pixels@,
                        width as int,
                        top as int,
                        p,
                    ),
            decreases width - col,
        {
            proof {
                assert(row * width + col < width * rows) by (nonlinear_arith)
                    requires
                        row < rows,
                        col < width,
                ;
            }
            let p: usize = row * width + col;
            let e = escape_at(col, top + row);
            let ghost before = pixels@;
            pixels[p] = intensity(e);
            proof {
                lemma_fundamental_div_mod_converse_div(p as int, width as int, row as int, col as int);
                lemma_fundamental_div_mod_converse_mod(p as int, width as int, row as int, col as int);
                assert(call_ensures(
                    escape_at,
                    ((p as int % width as int) as usize, (top + p as int / width as int) as usize),
                    e,
                ));
                assert(shows_escape(escape_at, pixels@, width as int, top as int, p as int));
                assert forall|q: int| 0 <= q < row * width + col + 1 implies #[trigger] shows_escape(
                    escape_at,
                    pixels@,
                    width as int,
                    top as int,
                    q,
                ) by {
                    if q < p {
                        assert(shows_escape(escape_at, before, width as int, top as int, q));
                        let e0 = choose|e0: Option<u32>|
                            #[trigger] call_ensures(
                                escape_at,
                                ((q % width as int) as usize, (top + q / width as int) as usize),
                                e0,
                            ) && before[q] == intensity_spec(e0);
                        assert(pixels@[q] == before[q]);
                    }
                }
            }
            col = col + 1;
        }
        proof {
            assert(row * width + width == (row + 1) * width) by (nonlinear_arith);
        }
        row = row + 1;
    }
    assert forall|col: int, row: int|
        0 <= col < width && 0 <= row < rows implies #[trigger] pixel_shows(
            escape_at,
            pixels@,
            width as int,
            top as int,
            col,
            row,
        ) by {
        let p = row * width + col;
        assert(p < rows * width) by (nonlinear_arith)
            requires
                p == row * width + col,
                row < rows,
                col < width,
        ;
        assert(shows_escape(escape_at, pixels@, width as int, top as int, p));
        lemma_fundamental_div_mod_converse_div(p, width as int, row, col);
        lemma_fundamental_div_mod_converse_mod(p, width as int, row, col);
        let e = choose|e: Option<u32>|
            #[trigger] call_ensures(
                escape_at,
                ((p % width as int) as usize, (top + p / width as int) as usize),
                e,
            ) && pixels@[p] == intensity_spec(e);
        assert(call_ensures(escape_at, (col as usize, (top + row) as usize), e));
    }
}

/// Fills a row-major pixel buffer of `bounds.0` columns and `bounds.1` rows: the
/// byte at `row * bounds.0 + col` becomes the intensity of `escape_at(col, row)`,
/// the escape-time outcome of the point that the pixel stands for. Fails, and
/// writes nothing, when the buffer does not hold exactly `bounds.0 * bounds.1`
/// bytes.
pub fn render<F: Fn(usize, usize) -> Option<u32>>(
    pixels: &mut [u8],
    bounds: (usize, usize),
    escape_at: F,
) -> (r: Result<(), RenderError>)
    requires
        forall|col: usize, row: usize|
            col < bounds.0 && row < bounds.1 ==> call_requires(escape_at, (col, row)),
    ensures
        r is Err <==> old(pixels)@.len() != bounds.0 * bounds.1,
        r is Err ==> final(pixels)@ == old(pixels)@,
        final(pixels)@.len() == old(pixels)@.len(),
        r is Ok ==> forall|col: int, row: int|
            0 <= col < bounds.0 && 0 <= row < bounds.1 ==> #[trigger] pixel_shows(
                escape_at,
                final(pixels)@,
                bounds.0 as int,
                0,
                col,
                row,
            ),
{
    let (width, height) = bounds;
    let len = pixels.len();
    match width.checked_mul(height) {
        None => {
            return Err(RenderError::BufferSizeMismatch);
        },
        Some(total) => {
            if len != total {
                return Err(RenderError::BufferSizeMismatch);
            }
        },
    }
    fill_rows(pixels, width, 0, height, escape_at);
    Ok(())
}

/// Fills one band of an image of `bounds.0` columns and `bounds.1` rows: `band`
/// holds whole rows, row-major, the first of which is image row `top`. Bands that
/// do not overlap can be filled independently, in any order or at the same time.
/// Fails, and writes nothing, when `band` is not a whole number of rows that lie
/// inside the image.
pub fn render_band<F: Fn(usize, usize) -> Option<u32>>(
    band: &mut [u8],
    bounds: (usize, usize),
    top: usize,
    escape_at: F,
) -> (r: Result<(), RenderError>)
    requires
        forall|col: usize, row: usize|
            col < bounds.0 && row < bounds.1 ==> call_requires(escape_at, (col, row)),
    ensures
        r is Err <==> !band_fits(old(band)@.len() as int, bounds, top as int),
        r is Err ==> final(band)@ == old(band)@,
        final(band)@.len() == old(band)@.len(),
        r is Ok ==> forall|col: int, row: int|
            0 <= col < bounds.0 && 0 <= row < old(band)@.len() as int / (bounds.0 as int)
                ==> #[trigger] pixel_shows(
                escape_at,
                final(band)@,
                bounds.0 as int,
                top as int,
                col,
                row,
            ),
{
    let (width, height) = bounds;
    let len = band.len();
    if width == 0 {
        return Err(RenderError::BufferSizeMismatch);
    }
    if len % width != 0 {
        return Err(RenderError::BufferSizeMismatch);
    }
    let rows = len / width;
    if rows > height || top > height - rows {
        return Err(RenderError::BufferSizeMismatch);
    }
    proof {
        vstd::arithmetic::div_mod::lemma_fundamental_div_mod(len as int, width as int);
        assert(width * rows == len) by (nonlinear_arith)
            requires
                len == width * (len / width) + len % width,
                len % width == 0,
                rows == len / width,
        ;
    }
    fill_rows(band, width, top, rows, escape_at);
    Ok(())
}

} // verus!
