use vstd::prelude::*;
use crate::bands::{
    Band, band_count, band_height, band_rows, band_top, bands, bands_are_at_most_threads,
    bands_follow_each_other, each_row_lies_in_one_band, is_band, is_plan, nth_band,
};
use crate::render::{
    can_render, is_rendering, pixel_index, pixel_index_is_exact, render, renders_to,
    ITERATION_LIMIT,
};
use crate::shade::shade_of;
use vstd::arithmetic::div_mod::lemma_fundamental_div_mod;

verus! {

/// Whether `corners` are points that `to_point` may give for the corners of
/// `band`: for the first pixel of its first row, and for the pixel one past
/// the end of its last row.
pub open spec fn are_corners<P, M>(
    to_point: &M,
    bounds: (usize, usize),
    band: Band,
    upper_left: P,
    lower_right: P,
    corners: (P, P),
) -> bool where M: Fn((usize, usize), (usize, usize), P, P) -> P {
    &&& call_ensures(*to_point, (bounds, (0usize, band.top), upper_left, lower_right), corners.0)
    &&& call_ensures(
        *to_point,
        (bounds, (bounds.0, (band.top + band.height) as usize), upper_left, lower_right),
        corners.1,
    )
}

/// Whether `to_point` may be asked for the corners of `band`.
pub open spec fn can_map_corners<P, M>(
    to_point: &M,
    bounds: (usize, usize),
    band: Band,
    upper_left: P,
    lower_right: P,
) -> bool where M: Fn((usize, usize), (usize, usize), P, P) -> P {
    &&& call_requires(*to_point, (bounds, (0usize, band.top), upper_left, lower_right))
    &&& call_requires(
        *to_point,
        (bounds, (bounds.0, (band.top + band.height) as usize), upper_left, lower_right),
    )
}

/// Whether `band` can be rendered: its corners can be asked for, and with
/// any corners that come back every pixel of the band can be rendered.
pub open spec fn can_render_band<P, M, E>(
    to_point: &M,
    escape: &E,
    bounds: (usize, usize),
    band: Band,
    upper_left: P,
    lower_right: P,
) -> bool where
    M: Fn((usize, usize), (usize, usize), P, P) -> P,
    E: Fn(P, usize) -> Option<usize>,
 {
    &&& can_map_corners(to_point, bounds, band, upper_left, lower_right)
    &&& forall|corners: (P, P)| #[trigger]
        are_corners(to_point, bounds, band, upper_left, lower_right, corners) ==> can_render(
            to_point,
            escape,
            (bounds.0, band.height),
            corners.0,
            corners.1,
        )
}

/// Whether every band of an image of `bounds` pixels, cut for `threads`
/// workers, can be rendered.
pub open spec fn can_render_bands<P, M, E>(
    to_point: &M,
    escape: &E,
    bounds: (usize, usize),
    threads: usize,
    upper_left: P,
    lower_right: P,
) -> bool where
    M: Fn((usize, usize), (usize, usize), P, P) -> P,
    E: Fn(P, usize) -> Option<usize>,
 {
    forall|i: int|
        0 <= i < band_count(bounds.1 as int, threads as int) ==> can_render_band(
            to_point,
            escape,
            bounds,
            #[trigger] nth_band(bounds.1 as int, threads as int, i),
            upper_left,
            lower_right,
        )
}

/// The bytes of `band` in the buffer of an image of rows `width` wide.
pub open spec fn band_bytes(pixels: Seq<u8>, width: int, band: Band) -> Seq<u8> {
    pixels.subrange(band.top * width, (band.top + band.height) * width)
}

/// Whether `bytes` is `band` rendered by itself: an image as wide as the
/// whole and as high as the band, over the region between the band's
/// corners.
pub open spec fn is_band_rendering<P, M, E>(
    to_point: &M,
    escape: &E,
    bounds: (usize, usize),
    band: Band,
    upper_left: P,
    lower_right: P,
    bytes: Seq<u8>,
) -> bool where
    M: Fn((usize, usize), (usize, usize), P, P) -> P,
    E: Fn(P, usize) -> Option<usize>,
 {
    exists|corners: (P, P)|
        {
            &&& #[trigger] are_corners(to_point, bounds, band, upper_left, lower_right, corners)
            &&& is_rendering(
                to_point,
                escape,
                (bounds.0, band.height),
                corners.0,
                corners.1,
                bytes,
            )
        }
}

/// Whether `pixels` is an image of `bounds` pixels rendered band by band:
/// every band of it is that band rendered by itself.
pub open spec fn is_banded_rendering<P, M, E>(
    to_point: &M,
    escape: &E,
    bounds: (usize, usize),
    threads: usize,
    upper_left: P,
    lower_right: P,
    pixels: Seq<u8>,
) -> bool where
    M: Fn((usize, usize), (usize, usize), P, P) -> P,
    E: Fn(P, usize) -> Option<usize>,
 {
    &&& pixels.len() == bounds.0 * bounds.1
    &&& forall|i: int|
        0 <= i < band_count(bounds.1 as int, threads as int) ==> is_band_rendering(
            to_point,
            escape,
            bounds,
            #[trigger] nth_band(bounds.1 as int, threads as int, i),
            upper_left,
            lower_right,
            band_bytes(pixels, bounds.0 as int, nth_band(bounds.1 as int, threads as int, i)),
        )
}

/// The region of the plane that a band covers, by its corners.
pub fn band_corners<P: Copy, M>(
    bounds: (usize, usize),
    band: Band,
    upper_left: P,
    lower_right: P,
    to_point: &M,
) -> (corners: (P, P)) where M: Fn((usize, usize), (usize, usize), P, P) -> P
    requires
        band.top + band.height <= usize::MAX,
        can_map_corners(to_point, bounds, band, upper_left, lower_right),
    ensures
        are_corners(to_point, bounds, band, upper_left, lower_right, corners),
{
    let top_left = to_point(bounds, (0, band.top), upper_left, lower_right);
    let bottom_right = to_point(
        bounds,
        (bounds.0, band.top + band.height),
        upper_left,
        lower_right,
    );
    (top_left, bottom_right)
}

/// Renders one band of the image into `chunk`, the band's own bytes: the
/// unit of work of one worker.
pub fn render_band<P: Copy, M, E>(
    chunk: &mut [u8],
    bounds: (usize, usize),
    band: Band,
    upper_left: P,
    lower_right: P,
    to_point: &M,
    escape: &E,
) where M: Fn((usize, usize), (usize, usize), P, P) -> P, E: Fn(P, usize) -> Option<usize>
    requires
        old(chunk)@.len() == bounds.0 * band.height,
        band.top + band.height <= usize::MAX,
        can_render_band(to_point, escape, bounds, band, upper_left, lower_right),
    ensures
        is_band_rendering(
            to_point,
            escape,
            bounds,
            band,
            upper_left,
            lower_right,
            final(chunk)@,
        ),
{
    let corners = band_corners(bounds, band, upper_left, lower_right, to_point);
    render(chunk, (bounds.0, band.height), corners.0, corners.1, to_point, escape);
}

/// Renders the whole image band by band, one band after the other.
pub fn render_bands<P: Copy, M, E>(
    pixels: &mut [u8],
    bounds: (usize, usize),
    threads: usize,
    upper_left: P,
    lower_right: P,
    to_point: &M,
    escape: &E,
) where M: Fn((usize, usize), (usize, usize), P, P) -> P, E: Fn(P, usize) -> Option<usize>
    requires
        old(pixels)@.len() == bounds.0 * bounds.1,
        0 < threads,
        band_rows(bounds.1 as int, threads as int) <= usize::MAX,
        can_render_bands(to_point, escape, bounds, threads, upper_left, lower_right),
    ensures
        is_banded_rendering(
            to_point,
            escape,
            bounds,
            threads,
            upper_left,
            lower_right,
            final(pixels)@,
        ),
{
    let (width, height) = bounds;
    let plan = bands(height, threads);
    let length = pixels.len();
    let ghost end: Seq<u8> = final(pixels)@;
    let ghost mut done: Seq<u8> = Seq::empty();
    let mut rest: &mut [u8] = pixels;
    let mut i: usize = 0;
    proof {
        bands_are_at_most_threads(height as int, threads as int);
        assert(width * 0 == 0) by (nonlinear_arith);
        assert(0 * band_rows(height as int, threads as int) * width == 0) by (nonlinear_arith);
    }
    while i < plan.len()
        invariant
            bounds == (width, height),
            length == width * height,
            0 < threads,
            is_plan(plan@, height as int, threads as int),
            can_render_bands(to_point, escape, bounds, threads, upper_left, lower_right),
            i <= plan@.len(),
            end == done + final(rest)@,
            done.len() + rest@.len() == width * height,
            i < plan@.len() ==> done.len() == band_top(height as int, threads as int, i as int)
                * width,
            i == plan@.len() ==> done.len() == width * height,
            forall|k: int|
                0 <= k < i ==> is_band_rendering(
                    to_point,
                    escape,
                    bounds,
                    #[trigger] nth_band(height as int, threads as int, k),
                    upper_left,
                    lower_right,
                    band_bytes(done, width as int, nth_band(height as int, threads as int, k)),
                ),
        decreases plan@.len() - i,
    {
        let band = plan[i];
        proof {
            bands_follow_each_other(height as int, threads as int, i as int);
            assert(is_band(plan@[i as int], height as int, threads as int, i as int));
            assert(band == nth_band(height as int, threads as int, i as int));
            assert(can_render_band(
                to_point,
                escape,
                bounds,
                nth_band(bounds.1 as int, threads as int, i as int),
                upper_left,
                lower_right,
            ));
            assert(band.height * width <= (height - band.top) * width) by (nonlinear_arith)
                requires
                    band.top + band.height <= height,
                    0 <= width,
            ;
            assert((height - band.top) * width == width * height - band.top * width)
                by (nonlinear_arith);
            assert(0 <= band.height * width) by (nonlinear_arith);
            assert(0 <= band.top * width) by (nonlinear_arith);
            assert(width * band.height == band.height * width) by (nonlinear_arith);
            assert((band.top + band.height) * width == band.top * width + band.height * width)
                by (nonlinear_arith);
            if i + 1 == plan@.len() {
                assert((band.top + band.height) * width == width * height) by (nonlinear_arith)
                    requires
                        band.top + band.height == height,
                ;
            }
        }
        let (chunk, tail) = rest.split_at_mut(band.height * width);
        render_band(chunk, bounds, band, upper_left, lower_right, to_point, escape);
        proof {
            let before = done;
            done = done + chunk@;
            assert(band_bytes(done, width as int, band) =~= chunk@);
            assert forall|k: int| 0 <= k < i + 1 implies is_band_rendering(
                to_point,
                escape,
                bounds,
                #[trigger] nth_band(height as int, threads as int, k),
                upper_left,
                lower_right,
                band_bytes(done, width as int, nth_band(height as int, threads as int, k)),
            ) by {
                if k < i {
                    let earlier = nth_band(height as int, threads as int, k);
                    bands_follow_each_other(height as int, threads as int, k);
                    rows_up_to(height as int, threads as int, k, i as int);
                    assert((earlier.top + earlier.height) * width <= band.top * width)
                        by (nonlinear_arith)
                        requires
                            earlier.top + earlier.height <= band.top,
                            0 <= width,
                    ;
                    assert(0 <= earlier.top * width <= (earlier.top + earlier.height) * width)
                        by (nonlinear_arith)
                        requires
                            0 <= earlier.top,
                            0 <= earlier.height,
                            0 <= width,
                    ;
                    assert(band_bytes(done, width as int, earlier) =~= band_bytes(
                        before,
                        width as int,
                        earlier,
                    ));
                }
            }
        }
        rest = tail;
        i = i + 1;
    }
    proof {
        assert(final(rest)@.len() == rest@.len());
        assert(end =~= done);
    }
}

/// Band `k` ends at or above the top of every later band `i`.
proof fn rows_up_to(height: int, threads: int, k: int, i: int)
    requires
        0 <= height,
        0 < threads,
        0 <= k < i < band_count(height, threads),
    ensures
        band_top(height, threads, k) + band_height(height, threads, k) <= band_top(
            height,
            threads,
            i,
        ),
{
    bands_follow_each_other(height, threads, k);
    let rows = band_rows(height, threads);
    assert((k + 1) * rows <= i * rows) by (nonlinear_arith)
        requires
            k + 1 <= i,
            0 < rows,
    ;
}

/// Whether `to_point` gives every pixel one point only.
pub open spec fn maps_to_one_point<P, M>(to_point: &M) -> bool where
    M: Fn((usize, usize), (usize, usize), P, P) -> P,
 {
    forall|bounds: (usize, usize), pixel: (usize, usize), upper_left: P, lower_right: P, a: P, b: P|
        #![trigger
            call_ensures(*to_point, (bounds, pixel, upper_left, lower_right), a),
            call_ensures(*to_point, (bounds, pixel, upper_left, lower_right), b),
        ]
        call_ensures(*to_point, (bounds, pixel, upper_left, lower_right), a) && call_ensures(
            *to_point,
            (bounds, pixel, upper_left, lower_right),
            b,
        ) ==> a == b
}

/// Whether `escape` gives every point one answer only.
pub open spec fn counts_one_escape<P, E>(escape: &E) -> bool where
    E: Fn(P, usize) -> Option<usize>,
 {
    forall|point: P, a: Option<usize>, b: Option<usize>|
        #![trigger
            call_ensures(*escape, (point, ITERATION_LIMIT), a),
            call_ensures(*escape, (point, ITERATION_LIMIT), b),
        ]
        call_ensures(*escape, (point, ITERATION_LIMIT), a) && call_ensures(
            *escape,
            (point, ITERATION_LIMIT),
            b,
        ) ==> a == b
}

/// Whether `to_point` gives a pixel of a band, taken between the band's
/// corners, the point that it gives the same pixel of the whole image.
pub open spec fn maps_bands_as_the_whole<P, M>(
    to_point: &M,
    bounds: (usize, usize),
    threads: usize,
    upper_left: P,
    lower_right: P,
) -> bool where M: Fn((usize, usize), (usize, usize), P, P) -> P {
    forall|i: int, top_left: P, bottom_right: P, column: usize, row: usize, point: P|
        {
            let band = nth_band(bounds.1 as int, threads as int, i);
            0 <= i < band_count(bounds.1 as int, threads as int) && are_corners(
                to_point,
                bounds,
                band,
                upper_left,
                lower_right,
                (top_left, bottom_right),
            ) && column < bounds.0 && row < band.height && #[trigger] call_ensures(
                *to_point,
                (
                    (bounds.0, nth_band(bounds.1 as int, threads as int, i).height),
                    (column, row),
                    top_left,
                    bottom_right,
                ),
                point,
            ) ==> call_ensures(
                *to_point,
                (bounds, (column, (band.top + row) as usize), upper_left, lower_right),
                point,
            )
        }
}

/// Cutting the image into bands does not change it: where `to_point` and
/// `escape` give one answer only, and `to_point` gives a pixel of a band the
/// point that it gives the same pixel of the whole image, the image rendered
/// band by band is, byte for byte, the image rendered as a single band.
pub proof fn banding_keeps_the_image<P, M, E>(
    to_point: &M,
    escape: &E,
    bounds: (usize, usize),
    threads: usize,
    upper_left: P,
    lower_right: P,
    banded: Seq<u8>,
    whole: Seq<u8>,
) where M: Fn((usize, usize), (usize, usize), P, P) -> P, E: Fn(P, usize) -> Option<usize>
    requires
        0 < threads,
        maps_to_one_point(to_point),
        counts_one_escape(escape),
        maps_bands_as_the_whole(to_point, bounds, threads, upper_left, lower_right),
        is_banded_rendering(to_point, escape, bounds, threads, upper_left, lower_right, banded),
        is_rendering(to_point, escape, bounds, upper_left, lower_right, whole),
    ensures
        banded == whole,
{
    let width = bounds.0 as int;
    let height = bounds.1 as int;
    assert forall|k: int| 0 <= k < banded.len() implies banded[k] == whole[k] by {
        assert(0 < width) by (nonlinear_arith)
            requires
                0 <= k < width * height,
                0 <= width,
        ;
        let row = k / width;
        let column = k % width;
        lemma_fundamental_div_mod(k, width);
        assert(0 <= row < height) by (nonlinear_arith)
            requires
                k == width * row + column,
                0 <= column < width,
                0 <= k < width * height,
        ;
        assert(k == pixel_index(width, column, row)) by (nonlinear_arith)
            requires
                k == width * row + column,
        ;
        // the pixel in the image rendered as a whole
        assert(renders_to(
            to_point,
            escape,
            bounds,
            (column as usize, row as usize),
            upper_left,
            lower_right,
            whole[pixel_index(width, column, row)],
        ));
        let (whole_point, whole_count): (P, Option<usize>) = choose|
            point: P,
            count: Option<usize>,
        |
            {
                &&& call_ensures(
                    *to_point,
                    (bounds, (column as usize, row as usize), upper_left, lower_right),
                    point,
                )
                &&& #[trigger] call_ensures(*escape, (point, ITERATION_LIMIT), count)
                &&& whole[k] as int == shade_of(count)
            };
        // the band of the pixel, and the pixel in it
        each_row_lies_in_one_band(height, threads as int, row);
        let i = row / band_rows(height, threads as int);
        bands_follow_each_other(height, threads as int, i);
        let band = nth_band(height, threads as int, i);
        let bytes = band_bytes(banded, width, band);
        let local = row - band.top;
        assert(is_band_rendering(to_point, escape, bounds, band, upper_left, lower_right, bytes));
        let corners: (P, P) = choose|corners: (P, P)|
            {
                &&& #[trigger] are_corners(
                    to_point,
                    bounds,
                    band,
                    upper_left,
                    lower_right,
                    corners,
                )
                &&& is_rendering(
                    to_point,
                    escape,
                    (bounds.0, band.height),
                    corners.0,
                    corners.1,
                    bytes,
                )
            };
        pixel_index_is_exact(width, band.height as int, column, local);
        assert(band.top * width + pixel_index(width, column, local) == k) by (nonlinear_arith)
            requires
                k == row * width + column,
                local == row - band.top,
                pixel_index(width, column, local) == local * width + column,
        ;
        assert((band.top + band.height) * width <= width * height) by (nonlinear_arith)
            requires
                band.top + band.height <= height,
                0 <= width,
        ;
        assert((band.top + band.height) * width == band.top * width + width * band.height)
            by (nonlinear_arith);
        assert(0 <= band.top * width) by (nonlinear_arith)
            requires
                0 <= band.top,
                0 <= width,
        ;
        assert(bytes[pixel_index(width, column, local)] == banded[k]);
        assert(renders_to(
            to_point,
            escape,
            (bounds.0, band.height),
            (column as usize, local as usize),
            corners.0,
            corners.1,
            bytes[pixel_index(bounds.0 as int, column as usize as int, local as usize as int)],
        ));
        let (band_point, band_count): (P, Option<usize>) = choose|
            point: P,
            count: Option<usize>,
        |
            {
                &&& call_ensures(
                    *to_point,
                    ((bounds.0, band.height), (column as usize, local as usize), corners.0, corners.1),
                    point,
                )
                &&& #[trigger] call_ensures(*escape, (point, ITERATION_LIMIT), count)
                &&& banded[k] as int == shade_of(count)
            };
        assert(are_corners(
            to_point,
            bounds,
            band,
            upper_left,
            lower_right,
            (corners.0, corners.1),
        ));
        assert(call_ensures(
            *to_point,
            (bounds, (column as usize, (band.top + local as usize) as usize), upper_left, lower_right),
            band_point,
        ));
        assert(band_point == whole_point);
        assert(band_count == whole_count);
    }
    assert(banded =~= whole);
}

} // verus!
