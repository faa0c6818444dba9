use vstd::prelude::*;
use vstd::arithmetic::div_mod::{lemma_fundamental_div_mod, lemma_fundamental_div_mod_converse};

verus! {

/// How many bands the renderer aims at: one for each worker.
pub const THREADS: usize = 8;

/// A run of whole rows of the image: `height` rows from row `top` on.
#[derive(Clone, Copy, Debug, PartialEq, Eq, Structural)]
pub struct Band {
    pub top: usize,
    pub height: usize,
}

/// The rows of a full band: the rows shared out evenly, rounded down, and one
/// more, so that `threads` bands always reach the last row.
pub open spec fn band_rows(height: int, threads: int) -> int {
    height / threads + 1
}

/// How many bands an image of `height` rows is cut into.
pub open spec fn band_count(height: int, threads: int) -> int {
    (height + band_rows(height, threads) - 1) / band_rows(height, threads)
}

/// The first row of band `i`.
pub open spec fn band_top(height: int, threads: int, i: int) -> int {
    i * band_rows(height, threads)
}

/// The rows of band `i`: a full band, or what is left of the image.
pub open spec fn band_height(height: int, threads: int, i: int) -> int {
    if height - band_top(height, threads, i) < band_rows(height, threads) {
        height - band_top(height, threads, i)
    } else {
        band_rows(height, threads)
    }
}

/// Band `i` of an image of `height` rows.
pub open spec fn nth_band(height: int, threads: int, i: int) -> Band {
    Band {
        top: band_top(height, threads, i) as usize,
        height: band_height(height, threads, i) as usize,
    }
}

/// Whether `band` is band `i` of an image of `height` rows.
pub open spec fn is_band(band: Band, height: int, threads: int, i: int) -> bool {
    &&& band.top == band_top(height, threads, i)
    &&& band.height == band_height(height, threads, i)
}

/// Whether `plan` holds the bands of an image of `height` rows, from the top
/// down.
pub open spec fn is_plan(plan: Seq<Band>, height: int, threads: int) -> bool {
    &&& plan.len() == band_count(height, threads)
    &&& forall|i: int| 0 <= i < plan.len() ==> is_band(#[trigger] plan[i], height, threads, i)
}

/// The rows of the first `n` bands together.
pub open spec fn rows_of_first(height: int, threads: int, n: int) -> int
    decreases n,
{
    if n <= 0 {
        0
    } else {
        rows_of_first(height, threads, n - 1) + band_height(height, threads, n - 1)
    }
}

/// Band `i` starts within the image, holds at least one row and ends within
/// the image; the band after it, if there is one, starts where it ends, and
/// the last band ends with the image.
pub proof fn bands_follow_each_other(height: int, threads: int, i: int)
    requires
        0 <= height,
        0 < threads,
        0 <= i < band_count(height, threads),
    ensures
        0 <= band_top(height, threads, i) < height,
        1 <= band_height(height, threads, i) <= band_rows(height, threads),
        band_top(height, threads, i) + band_height(height, threads, i) <= height,
        i + 1 < band_count(height, threads) ==> band_top(height, threads, i + 1) == band_top(
            height,
            threads,
            i,
        ) + band_height(height, threads, i),
        i + 1 == band_count(height, threads) ==> band_top(height, threads, i) + band_height(
            height,
            threads,
            i,
        ) == height,
{
    let rows = band_rows(height, threads);
    let count = band_count(height, threads);
    assert(0 <= height / threads) by (nonlinear_arith)
        requires
            0 <= height,
            0 < threads,
    ;
    lemma_fundamental_div_mod(height + rows - 1, rows);
    let rest = (height + rows - 1) % rows;
    assert(height + rows - 1 == rows * count + rest);
    assert(0 <= rest < rows);
    assert(rows * (i + 1) <= rows * count) by (nonlinear_arith)
        requires
            i + 1 <= count,
            0 < rows,
    ;
    assert(rows * (i + 1) == i * rows + rows) by (nonlinear_arith);
    assert(0 <= i * rows) by (nonlinear_arith)
        requires
            0 <= i,
            0 < rows,
    ;
    if i + 1 < count {
        assert(rows * (i + 2) <= rows * count) by (nonlinear_arith)
            requires
                i + 2 <= count,
                0 < rows,
        ;
        assert(rows * (i + 2) == i * rows + 2 * rows) by (nonlinear_arith);
        assert((i + 1) * rows == i * rows + rows) by (nonlinear_arith);
    } else {
        assert(rows * count == i * rows + rows);
    }
}

/// The image's rows are shared out among at most `threads` bands.
pub proof fn bands_are_at_most_threads(height: int, threads: int)
    requires
        0 <= height,
        0 < threads,
    ensures
        0 <= band_count(height, threads) <= threads,
        height == 0 <==> band_count(height, threads) == 0,
{
    let rows = band_rows(height, threads);
    let count = band_count(height, threads);
    assert(0 <= height / threads) by (nonlinear_arith)
        requires
            0 <= height,
            0 < threads,
    ;
    lemma_fundamental_div_mod(height, threads);
    assert(height < threads * rows) by (nonlinear_arith)
        requires
            height == threads * (height / threads) + height % threads,
            0 <= height % threads < threads,
            rows == height / threads + 1,
    ;
    lemma_fundamental_div_mod(height + rows - 1, rows);
    let rest = (height + rows - 1) % rows;
    assert(count <= threads) by (nonlinear_arith)
        requires
            height + rows - 1 == rows * count + rest,
            0 <= rest < rows,
            height < threads * rows,
            0 < rows,
    ;
    assert(0 <= count) by (nonlinear_arith)
        requires
            height + rows - 1 == rows * count + rest,
            0 <= rest < rows,
            0 <= height,
            0 < rows,
    ;
    if height == 0 {
        lemma_fundamental_div_mod_converse(rows - 1, rows, 0, rows - 1);
    } else {
        assert(count != 0) by (nonlinear_arith)
            requires
                height + rows - 1 == rows * count + rest,
                rest < rows,
                0 < height,
        ;
    }
}

/// Every row of the image lies in one band and in no other: no row is left
/// out and none is rendered twice.
pub proof fn each_row_lies_in_one_band(height: int, threads: int, row: int)
    requires
        0 < threads,
        0 <= row < height,
    ensures
        ({
            let i = row / band_rows(height, threads);
            &&& 0 <= i < band_count(height, threads)
            &&& band_top(height, threads, i) <= row < band_top(height, threads, i) + band_height(
                height,
                threads,
                i,
            )
        }),
        forall|j: int|
            0 <= j < band_count(height, threads) && band_top(height, threads, j) <= row
                < band_top(height, threads, j) + #[trigger] band_height(height, threads, j) ==> j
                == row / band_rows(height, threads),
{
    let rows = band_rows(height, threads);
    let count = band_count(height, threads);
    assert(0 <= height / threads) by (nonlinear_arith)
        requires
            0 <= height,
            0 < threads,
    ;
    let i = row / rows;
    lemma_fundamental_div_mod(row, rows);
    assert(rows * i == i * rows) by (nonlinear_arith);
    assert(0 <= i) by (nonlinear_arith)
        requires
            row == rows * i + row % rows,
            0 <= row,
            0 <= row % rows < rows,
    ;
    lemma_fundamental_div_mod(height + rows - 1, rows);
    let rest = (height + rows - 1) % rows;
    assert(i < count) by (nonlinear_arith)
        requires
            height + rows - 1 == rows * count + rest,
            0 <= rest < rows,
            row == rows * i + row % rows,
            0 <= row % rows,
            row < height,
    ;
    assert forall|j: int|
        0 <= j < count && band_top(height, threads, j) <= row < band_top(height, threads, j)
            + #[trigger] band_height(height, threads, j) implies j == i by {
        assert(j * rows <= row < j * rows + rows);
        lemma_fundamental_div_mod_converse(row, rows, j, row - j * rows);
    }
}

/// The rows of all the bands together are the rows of the image.
pub proof fn band_heights_sum_to_height(height: int, threads: int)
    requires
        0 <= height,
        0 < threads,
    ensures
        rows_of_first(height, threads, band_count(height, threads)) == height,
{
    bands_are_at_most_threads(height, threads);
    let count = band_count(height, threads);
    if count > 0 {
        rows_before_band(height, threads, count - 1);
        bands_follow_each_other(height, threads, count - 1);
    }
}

/// The rows of the bands before band `i` are the rows above it.
pub proof fn rows_before_band(height: int, threads: int, i: int)
    requires
        0 <= height,
        0 < threads,
        0 <= i < band_count(height, threads),
    ensures
        rows_of_first(height, threads, i) == band_top(height, threads, i),
    decreases i,
{
    if i > 0 {
        rows_before_band(height, threads, i - 1);
        bands_follow_each_other(height, threads, i - 1);
    }
}

/// The bytes of a full band in a buffer of rows `width` wide.
pub open spec fn chunk_size(width: int, height: int, threads: int) -> int {
    band_rows(height, threads) * width
}

/// The bands are the buffer cut into consecutive chunks of the bytes of a
/// full band, the last one of what is left: there are as many bands as
/// chunks, band `i` starts where chunk `i` starts and is as long, and its
/// rows are the bytes of the chunk divided by the width.
pub proof fn a_band_is_a_chunk(width: int, height: int, threads: int, i: int)
    requires
        0 < width,
        0 <= height,
        0 < threads,
        0 <= i < band_count(height, threads),
    ensures
        0 < chunk_size(width, height, threads),
        band_count(height, threads) == (width * height + chunk_size(width, height, threads) - 1)
            / chunk_size(width, height, threads),
        band_top(height, threads, i) * width == i * chunk_size(width, height, threads),
        band_height(height, threads, i) * width == if width * height - i * chunk_size(
            width,
            height,
            threads,
        ) < chunk_size(width, height, threads) {
            width * height - i * chunk_size(width, height, threads)
        } else {
            chunk_size(width, height, threads)
        },
        (band_height(height, threads, i) * width) / width == band_height(height, threads, i),
{
    let rows = band_rows(height, threads);
    let count = band_count(height, threads);
    let size = chunk_size(width, height, threads);
    let top = band_top(height, threads, i);
    let band = band_height(height, threads, i);
    bands_follow_each_other(height, threads, i);
    assert(0 < size) by (nonlinear_arith)
        requires
            size == rows * width,
            0 < rows,
            0 < width,
    ;
    assert(top * width == i * size) by (nonlinear_arith)
        requires
            top == i * rows,
            size == rows * width,
    ;
    assert((height - top) * width == width * height - i * size) by (nonlinear_arith)
        requires
            top * width == i * size,
    ;
    if height - top < rows {
        assert((height - top) * width < rows * width) by (nonlinear_arith)
            requires
                height - top < rows,
                0 < width,
        ;
    } else {
        assert((height - top) * width >= rows * width) by (nonlinear_arith)
            requires
                height - top >= rows,
                0 < width,
        ;
    }
    lemma_fundamental_div_mod_converse(band * width, width, band, 0);
    // as many chunks as bands
    lemma_fundamental_div_mod(height + rows - 1, rows);
    let rest = (height + rows - 1) % rows;
    assert(width * height + size - 1 == size * count + (rest * width + width - 1))
        by (nonlinear_arith)
        requires
            height + rows - 1 == rows * count + rest,
            size == rows * width,
    ;
    assert(0 <= rest * width + width - 1 < size) by (nonlinear_arith)
        requires
            0 <= rest < rows,
            size == rows * width,
            0 < width,
    ;
    lemma_fundamental_div_mod_converse(
        width * height + size - 1,
        size,
        count,
        rest * width + width - 1,
    );
}

/// The rows of a full band.
pub fn rows_per_band(height: usize, threads: usize) -> (rows: usize)
    requires
        0 < threads,
        band_rows(height as int, threads as int) <= usize::MAX,
    ensures
        rows == band_rows(height as int, threads as int),
{
    height / threads + 1
}

/// Cuts an image of `height` rows into bands for `threads` workers, from the
/// top down: full bands, and a last one of what is left.
pub fn bands(height: usize, threads: usize) -> (plan: Vec<Band>)
    requires
        0 < threads,
        band_rows(height as int, threads as int) <= usize::MAX,
    ensures
        is_plan(plan@, height as int, threads as int),
{
    let rows = rows_per_band(height, threads);
    let mut plan: Vec<Band> = Vec::new();
    let mut top: usize = 0;
    proof {
        bands_are_at_most_threads(height as int, threads as int);
    }
    while top < height
        invariant
            0 < threads,
            rows == band_rows(height as int, threads as int),
            0 <= plan@.len() <= band_count(height as int, threads as int),
            top <= height,
            top < height ==> top == band_top(height as int, threads as int, plan@.len() as int),
            top == height ==> plan@.len() == band_count(height as int, threads as int),
            forall|i: int|
                0 <= i < plan@.len() ==> is_band(
                    #[trigger] plan@[i],
                    height as int,
                    threads as int,
                    i,
                ),
        decreases height - top,
    {
        let ghost i = plan@.len() as int;
        proof {
            each_row_lies_in_one_band(height as int, threads as int, top as int);
            lemma_fundamental_div_mod_converse(top as int, rows as int, i, 0);
            bands_follow_each_other(height as int, threads as int, i);
            if i + 1 < band_count(height as int, threads as int) {
                bands_follow_each_other(height as int, threads as int, i + 1);
            }
        }
        let left = height - top;
        let band = Band { top, height: if left < rows { left } else { rows } };
        plan.push(band);
        top = top + band.height;
    }
    plan
}

} // verus!
