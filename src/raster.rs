//! The image as rows of pixels: how its rows are divided into bands that are
//! rendered independently, and the byte order of a band's pixels.
//!
//! Rows are numbered from 0 at the bottom of the image to `ny - 1` at the
//! top. A band `(start_y, end_y)` holds rows `end_y .. start_y`, and its pixels
//! are laid out from the top row down, each row from left to right, three
//! bytes (red, green, blue) per pixel. Bands listed from the top of the image
//! down, each starting where the previous one ended, concatenate into the
//! whole image in the same order.
use vstd::prelude::*;
use crate::trusted::thread_count;

verus! {

/// The height of the bands that `row_bands` cuts first: the rows shared
/// equally among the threads (taken as one when there are none).
pub open spec fn band_height(ny: int, threads: int) -> int {
    if threads <= 1 {
        ny
    } else {
        ny / threads
    }
}

/// How many full bands of height `s` fit into `ny` rows.
pub open spec fn full_bands(ny: int, s: int) -> int {
    if s > 0 {
        ny / s
    } else {
        0
    }
}

/// The rows left below the full bands, each of which becomes a band of its
/// own.
pub open spec fn leftover_rows(ny: int, s: int) -> int {
    if s > 0 {
        ny % s
    } else {
        ny
    }
}

/// The bands follow each other down the image without gap or overlap, from
/// row `ny - 1` to row 0, and none is empty.
pub open spec fn tiles_rows(bands: Seq<(i32, i32)>, ny: int) -> bool {
    &&& forall|k: int| 0 <= k < bands.len() ==> (#[trigger] bands[k]).1 < bands[k].0
    &&& forall|k: int| 0 <= k < bands.len() - 1 ==> (#[trigger] bands[k]).1 == bands[k + 1].0
    &&& bands.len() == 0 <==> ny == 0
    &&& bands.len() > 0 ==> bands[0].0 == ny && bands[bands.len() - 1].1 == 0
}

/// `bands` are the bands that `threads` threads get for `ny` rows: full
/// bands of `band_height` rows from the top down, then each leftover row as a
/// band of its own.
pub open spec fn bands_for(bands: Seq<(i32, i32)>, ny: int, threads: int) -> bool {
    let s = band_height(ny, threads);
    let q = full_bands(ny, s);
    let rem = leftover_rows(ny, s);
    &&& bands.len() == q + rem
    &&& forall|k: int| 0 <= k < q ==> #[trigger] bands[k] == ((ny - k * s) as i32, (ny - (k + 1) * s) as i32)
    &&& forall|m: int| 0 <= m < rem ==> #[trigger] bands[q + m] == ((rem - m) as i32, (rem - m - 1) as i32)
}

/// Position of the first byte of the pixel in column `i` of the `row`-th row
/// of a band (rows counted from the top of the band), for rows `nx` pixels
/// wide.
pub open spec fn pixel_index(nx: int, row: int, i: int) -> int {
    3 * (row * nx + i)
}

/// `bytes` holds the band of rows `end_y .. start_y` of an image `nx` pixels
/// wide, top row first, each row from left to right: the three bytes of the
/// pixel in column `i` of row `j` are a result of `shade(i, j)`.
pub open spec fn band_pixels<F: Fn(i32, i32) -> (u8, u8, u8)>(
    bytes: Seq<u8>,
    nx: int,
    start_y: int,
    end_y: int,
    shade: F,
) -> bool {
    &&& bytes.len() == 3 * nx * (start_y - end_y)
    &&& forall|row: int, i: int|
        0 <= row < start_y - end_y && 0 <= i < nx ==> {
            let k = #[trigger] pixel_index(nx, row, i);
            shade.ensures((i as i32, (start_y - 1 - row) as i32), (bytes[k], bytes[k + 1], bytes[k + 2]))
        }
}

/// Splits rows `0 .. ny` into bands of `section_size` rows, from the top of
/// the image down, as `(start_y, end_y)` pairs; rows left below the last full
/// band are not covered.
pub fn generate_y_sections(ny: i32, section_size: i32) -> (r: Vec<(i32, i32)>)
    requires
        ny >= 0,
        section_size >= 1,
    ensures
        r@.len() == ny / section_size,
        forall|k: int|
            0 <= k < r@.len() ==> #[trigger] r@[k] == (
                (ny - k * section_size) as i32,
                (ny - (k + 1) * section_size) as i32,
            ),
{
    let s = section_size;
    let mut start_y = ny;
    let mut end_y = start_y - s;
    let mut vec: Vec<(i32, i32)> = Vec::new();
    assert(vec@.len() * s == 0);
    while end_y >= 0
        invariant
            ny >= 0,
            s >= 1,
            start_y == ny - vec@.len() * s,
            end_y == start_y - s,
            start_y >= 0,
            forall|k: int|
                0 <= k < vec@.len() ==> #[trigger] vec@[k] == ((ny - k * s) as i32, (ny - (k + 1) * s) as i32),
        decreases start_y,
    {
        proof {
            let k = vec@.len() as int;
            assert(ny - (k + 1) * s == end_y && ny - (k + 2) * s == end_y - s) by (nonlinear_arith)
                requires
                    start_y == ny - k * s,
                    end_y == start_y - s,
            ;
        }
        vec.push((start_y, end_y));
        start_y = end_y;
        end_y = end_y - s;
    }
    proof {
        let k = vec@.len() as int;
        assert(ny == k * s + start_y);
        vstd::arithmetic::div_mod::lemma_fundamental_div_mod_converse(ny as int, s as int, k, start_y as int);
    }
    vec
}

/// Divides the `ny` rows of an image among `threads` threads: full bands of
/// `band_height` rows from the top down, then each leftover row at the bottom
/// as a band of its own. With more threads than rows every row is its own
/// band.
pub fn row_bands(ny: i32, threads: usize) -> (r: Vec<(i32, i32)>)
    requires
        ny >= 0,
    ensures
        bands_for(r@, ny as int, threads as int),
        tiles_rows(r@, ny as int),
{
    let t: usize = if threads == 0 {
        1
    } else {
        threads
    };
    let s: i32 = if t > ny as usize {
        0
    } else {
        ny / (t as i32)
    };
    proof {
        if t > ny as usize && threads >= 2 {
            assert(ny as int / threads as int == 0) by (nonlinear_arith)
                requires
                    0 <= ny < threads,
            ;
        }
        if t <= ny as usize && threads >= 2 {
            assert(s == ny as int / threads as int);
        }
        if threads <= 1 && t <= ny as usize {
            assert(t == 1);
            assert(ny as int / 1 == ny as int);
        }
    }
    assert(s == band_height(ny as int, threads as int));
    let sections: Vec<(i32, i32)> = if s > 0 {
        generate_y_sections(ny, s)
    } else {
        Vec::new()
    };
    let remaining: i32 = if s > 0 {
        ny % s
    } else {
        ny
    };
    let ghost q = full_bands(ny as int, s as int);
    proof {
        if s > 0 {
            vstd::arithmetic::div_mod::lemma_fundamental_div_mod(ny as int, s as int);
            assert(q * s == s * q) by (nonlinear_arith);
        }
    }
    let ghost secs = sections@;
    let qn = sections.len();
    let mut bands = sections;
    let mut column = remaining;
    while column > 0
        invariant
            0 <= column <= remaining,
            bands@.len() == qn + (remaining - column),
            bands@.subrange(0, qn as int) == secs,
            forall|m: int|
                0 <= m < remaining - column ==> #[trigger] bands@[qn + m] == (
                    (remaining - m) as i32,
                    (remaining - m - 1) as i32,
                ),
        decreases column,
    {
        let ghost before = bands@;
        bands.push((column, column - 1));
        proof {
            assert(bands@.subrange(0, qn as int) =~= before.subrange(0, qn as int));
            assert forall|m: int| 0 <= m < remaining - (column - 1) implies #[trigger] bands@[qn + m] == (
                (remaining - m) as i32,
                (remaining - m - 1) as i32,
            ) by {
                if m < remaining - column {
                    assert(bands@[qn + m] == before[qn + m]);
                }
            }
        }
        column = column - 1;
    }
    proof {
        assert forall|k: int| 0 <= k < q implies #[trigger] bands@[k] == (
            (ny - k * s) as i32,
            (ny - (k + 1) * s) as i32,
        ) by {
            assert(bands@[k] == bands@.subrange(0, qn as int)[k]);
        }
        lemma_bands_tile(bands@, ny as int, s as int, q, remaining as int);
    }
    bands
}

/// The `k`-th full band lies within the image.
proof fn lemma_full_band_in_range(ny: int, s: int, q: int, rem: int, k: int)
    requires
        s > 0,
        0 <= k < q,
        ny == q * s + rem,
        rem >= 0,
    ensures
        0 <= ny - (k + 1) * s < ny - k * s <= ny,
        k + 1 == q ==> ny - (k + 1) * s == rem,
{
    assert(0 <= ny - (k + 1) * s < ny - k * s <= ny) by (nonlinear_arith)
        requires
            s > 0,
            0 <= k < q,
            ny == q * s + rem,
            rem >= 0,
    ;
}

/// Full bands of height `s` followed by single leftover rows tile the image.
#[verifier::rlimit(60)]
proof fn lemma_bands_tile(bands: Seq<(i32, i32)>, ny: int, s: int, q: int, rem: int)
    requires
        0 <= ny <= i32::MAX,
        s >= 0,
        q >= 0,
        rem >= 0,
        s > 0 ==> ny == q * s + rem && rem < s,
        s == 0 ==> q == 0 && rem == ny,
        bands.len() == q + rem,
        forall|k: int| 0 <= k < q ==> #[trigger] bands[k] == ((ny - k * s) as i32, (ny - (k + 1) * s) as i32),
        forall|m: int| 0 <= m < rem ==> #[trigger] bands[q + m] == ((rem - m) as i32, (rem - m - 1) as i32),
    ensures
        tiles_rows(bands, ny),
{
    let n = bands.len() as int;
    assert forall|k: int| 0 <= k < n implies (#[trigger] bands[k]).1 < bands[k].0 by {
        if k < q {
            lemma_full_band_in_range(ny, s, q, rem, k);
        } else {
            assert(bands[q + (k - q)] == bands[k]);
        }
    }
    assert forall|k: int| 0 <= k < n - 1 implies (#[trigger] bands[k]).1 == bands[k + 1].0 by {
        if k + 1 < q {
            lemma_full_band_in_range(ny, s, q, rem, k);
            lemma_full_band_in_range(ny, s, q, rem, k + 1);
        } else if k + 1 == q {
            lemma_full_band_in_range(ny, s, q, rem, k);
            assert(bands[q + 0] == bands[k + 1]);
            assert(ny - (k + 1) * s == rem);
        } else {
            assert(bands[q + (k - q)] == bands[k]);
            assert(bands[q + (k + 1 - q)] == bands[k + 1]);
        }
    }
    if n > 0 {
        if q > 0 {
            lemma_full_band_in_range(ny, s, q, rem, 0);
            assert(bands[0] == ((ny - 0 * s) as i32, (ny - (0 + 1) * s) as i32));
        } else {
            assert(bands[q + 0] == bands[0]);
        }
        if rem > 0 {
            assert(bands[q + (rem - 1)] == bands[n - 1]);
        } else {
            lemma_full_band_in_range(ny, s, q, rem, q - 1);
            assert(bands[q - 1] == ((ny - (q - 1) * s) as i32, (ny - (q - 1 + 1) * s) as i32));
            assert(ny - (q - 1 + 1) * s == 0);
        }
    }
    if ny > 0 && n == 0 {
        assert(ny == q * s + rem);
    }
}

/// Renders the band of rows `end_y .. start_y` of an image `nx` pixels wide:
/// `shade(i, j)` gives the bytes of the pixel in column `i` of row `j`, and the
/// result holds them from the top row of the band down, each row from left to
/// right.
pub fn render_section<F: Fn(i32, i32) -> (u8, u8, u8)>(nx: i32, start_y: i32, end_y: i32, shade: F) -> (r: Vec<u8>)
    requires
        nx >= 0,
        0 <= end_y <= start_y,
        forall|i: i32, j: i32| 0 <= i < nx && end_y <= j < start_y ==> shade.requires((i, j)),
    ensures
        band_pixels(r@, nx as int, start_y as int, end_y as int, shade),
{
    let mut file: Vec<u8> = Vec::new();
    let mut j = start_y;
    assert(pixel_index(nx as int, 0, 0) == 0);
    while j > end_y
        invariant
            nx >= 0,
            end_y <= j <= start_y,
            forall|i: i32, j: i32| 0 <= i < nx && end_y <= j < start_y ==> shade.requires((i, j)),
            file@.len() == pixel_index(nx as int, start_y - j, 0),
            forall|row: int, i: int|
                0 <= row < start_y - j && 0 <= i < nx ==> {
                    let k = #[trigger] pixel_index(nx as int, row, i);
                    shade.ensures(
                        (i as i32, (start_y - 1 - row) as i32),
                        (file@[k], file@[k + 1], file@[k + 2]),
                    )
                },
        decreases j - end_y,
    {
        j = j - 1;
        let ghost row = start_y - 1 - j;
        let mut i: i32 = 0;
        while i < nx
            invariant
                nx >= 0,
                end_y <= j < start_y,
                row == start_y - 1 - j,
                0 <= i <= nx,
                forall|i: i32, j: i32| 0 <= i < nx && end_y <= j < start_y ==> shade.requires((i, j)),
                file@.len() == pixel_index(nx as int, row, i as int),
                forall|rw: int, c: int|
                    0 <= rw < row && 0 <= c < nx || rw == row && 0 <= c < i ==> {
                        let k = #[trigger] pixel_index(nx as int, rw, c);
                        shade.ensures(
                            (c as i32, (start_y - 1 - rw) as i32),
                            (file@[k], file@[k + 1], file@[k + 2]),
                        )
                    },
            decreases nx - i,
        {
            let (red, green, blue) = shade(i, j);
            let ghost before = file@;
            file.push(red);
            file.push(green);
            file.push(blue);
            proof {
                assert forall|rw: int, c: int|
                    0 <= rw < row && 0 <= c < nx || rw == row && 0 <= c < i + 1 implies {
                        let k = #[trigger] pixel_index(nx as int, rw, c);
                        shade.ensures(
                            (c as i32, (start_y - 1 - rw) as i32),
                            (file@[k], file@[k + 1], file@[k + 2]),
                        )
                    } by {
                    let k = pixel_index(nx as int, rw, c);
                    lemma_pixel_before(nx as int, rw, c, row, i as int);
                    if rw < row || c < i {
                        assert(file@[k] == before[k] && file@[k + 1] == before[k + 1] && file@[k + 2]
                            == before[k + 2]);
                    }
                }
            }
            i = i + 1;
        }
        proof {
            assert(pixel_index(nx as int, row, nx as int) == pixel_index(nx as int, row + 1, 0))
                by (nonlinear_arith);
        }
    }
    assert(pixel_index(nx as int, start_y - end_y, 0) == 3 * nx * (start_y - end_y)) by (nonlinear_arith);
    file
}

/// A band followed by the band just below it is the band covering both: the
/// outputs of adjacent bands, concatenated from the top of the image down,
/// assemble into the image.
pub proof fn lemma_bands_concatenate<F: Fn(i32, i32) -> (u8, u8, u8)>(
    upper: Seq<u8>,
    lower: Seq<u8>,
    nx: int,
    start_y: int,
    mid_y: int,
    end_y: int,
    shade: F,
)
    requires
        nx >= 0,
        end_y <= mid_y <= start_y,
        band_pixels(upper, nx, start_y, mid_y, shade),
        band_pixels(lower, nx, mid_y, end_y, shade),
    ensures
        band_pixels(upper + lower, nx, start_y, end_y, shade),
{
    let whole = upper + lower;
    let h = start_y - mid_y;
    assert(3 * nx * (start_y - end_y) == 3 * nx * h + 3 * nx * (mid_y - end_y)) by (nonlinear_arith)
        requires
            h == start_y - mid_y,
    ;
    assert forall|row: int, i: int| 0 <= row < start_y - end_y && 0 <= i < nx implies {
        let k = #[trigger] pixel_index(nx, row, i);
        shade.ensures((i as i32, (start_y - 1 - row) as i32), (whole[k], whole[k + 1], whole[k + 2]))
    } by {
        let k = pixel_index(nx, row, i);
        if row < h {
            assert(k + 2 < 3 * nx * h) by (nonlinear_arith)
                requires
                    k == 3 * (row * nx + i),
                    0 <= row < h,
                    0 <= i < nx,
            ;
            assert(whole[k] == upper[k] && whole[k + 1] == upper[k + 1] && whole[k + 2] == upper[k + 2]);
        } else {
            let r2 = row - h;
            let k2 = pixel_index(nx, r2, i);
            assert(k == 3 * nx * h + k2) by (nonlinear_arith)
                requires
                    k == 3 * (row * nx + i),
                    k2 == 3 * (r2 * nx + i),
                    r2 == row - h,
            ;
            assert(0 <= k2 && k2 + 2 < 3 * nx * (mid_y - end_y)) by (nonlinear_arith)
                requires
                    k2 == 3 * (r2 * nx + i),
                    0 <= r2 < mid_y - end_y,
                    0 <= i < nx,
            ;
            assert(whole[k] == lower[k2] && whole[k + 1] == lower[k2 + 1] && whole[k + 2] == lower[k2 + 2]);
            assert(mid_y - 1 - r2 == start_y - 1 - row);
        }
    }
}

/// A pixel before column `i` of row `row` (or in an earlier row) lies wholly
/// before that pixel's bytes.
proof fn lemma_pixel_before(nx: int, rw: int, c: int, row: int, i: int)
    requires
        0 <= i < nx,
        0 <= c < nx,
        0 <= rw <= row,
        rw < row || c <= i,
    ensures
        pixel_index(nx, rw, c) >= 0,
        rw < row || c < i ==> pixel_index(nx, rw, c) + 3 <= pixel_index(nx, row, i),
        rw == row && c == i ==> pixel_index(nx, rw, c) == pixel_index(nx, row, i),
{
    assert(pixel_index(nx, rw, c) >= 0) by (nonlinear_arith)
        requires
            0 <= c,
            0 <= rw,
            0 <= nx,
    ;
    if rw < row {
        assert(rw * nx + c + 1 <= row * nx + i) by (nonlinear_arith)
            requires
                0 <= c < nx,
                0 <= i,
                0 <= rw < row,
        ;
    }
}

/// The bands for an image of `ny` rows on this machine: those of `row_bands`
/// for the number of threads that the platform reports.
pub fn render_bands(ny: i32) -> (r: Vec<(i32, i32)>)
    requires
        ny >= 0,
    ensures
        exists|threads: usize| bands_for(r@, ny as int, threads as int),
        tiles_rows(r@, ny as int),
{
    let threads = thread_count();
    let r = row_bands(ny, threads);
    assert(bands_for(r@, ny as int, threads as int));
    r
}

} // verus!
