use vstd::prelude::*;
use crate::shade::{shade, shade_of};

verus! {

/// How many iterations a point is given to escape. An escape count below it
/// fits in one byte.
pub const ITERATION_LIMIT: usize = 255;

/// Where the pixel at `column` and `row` lies in a row-major buffer of rows
/// `width` wide.
pub open spec fn pixel_index(width: int, column: int, row: int) -> int {
    row * width + column
}

/// Whether `level` is a grey level that rendering may give the pixel `pixel`
/// of an image of `bounds` pixels laid over the region of the plane between
/// `upper_left` and `lower_right`: the shade of what `escape` answered, within
/// the iteration limit, for the point that `to_point` gave for the pixel.
pub open spec fn renders_to<P, M, E>(
    to_point: &M,
    escape: &E,
    bounds: (usize, usize),
    pixel: (usize, usize),
    upper_left: P,
    lower_right: P,
    level: u8,
) -> bool where
    M: Fn((usize, usize), (usize, usize), P, P) -> P,
    E: Fn(P, usize) -> Option<usize>,
 {
    exists|point: P, count: Option<usize>|
        {
            &&& call_ensures(*to_point, (bounds, pixel, upper_left, lower_right), point)
            &&& #[trigger] call_ensures(*escape, (point, ITERATION_LIMIT), count)
            &&& level as int == shade_of(count)
        }
}

/// Whether `to_point` may be asked for every pixel of an image of `bounds`
/// pixels over the region between `upper_left` and `lower_right`, and `escape`
/// for every point within the iteration limit.
pub open spec fn can_render<P, M, E>(
    to_point: &M,
    escape: &E,
    bounds: (usize, usize),
    upper_left: P,
    lower_right: P,
) -> bool where
    M: Fn((usize, usize), (usize, usize), P, P) -> P,
    E: Fn(P, usize) -> Option<usize>,
 {
    &&& forall|column: usize, row: usize|
        column < bounds.0 && row < bounds.1 ==> #[trigger] call_requires(
            *to_point,
            (bounds, (column, row), upper_left, lower_right),
        )
    &&& forall|point: P| #[trigger] call_requires(*escape, (point, ITERATION_LIMIT))
}

/// Whether `pixels` is an image of `bounds` pixels, row by row, each pixel
/// rendered from its own column and row.
pub open spec fn is_rendering<P, M, E>(
    to_point: &M,
    escape: &E,
    bounds: (usize, usize),
    upper_left: P,
    lower_right: P,
    pixels: Seq<u8>,
) -> bool where
    M: Fn((usize, usize), (usize, usize), P, P) -> P,
    E: Fn(P, usize) -> Option<usize>,
 {
    &&& pixels.len() == bounds.0 * bounds.1
    &&& forall|column: usize, row: usize|
        column < bounds.0 && row < bounds.1 ==> renders_to(
            to_point,
            escape,
            bounds,
            (column, row),
            upper_left,
            lower_right,
            #[trigger] pixels[pixel_index(bounds.0 as int, column as int, row as int)],
        )
}

/// A pixel of the image lies inside the buffer, and two pixels lie at the
/// same place only if they are the same pixel.
pub proof fn pixel_index_is_exact(width: int, height: int, column: int, row: int)
    requires
        0 <= column < width,
        0 <= row < height,
    ensures
        0 <= pixel_index(width, column, row) < width * height,
        pixel_index(width, column, row) / width == row,
        pixel_index(width, column, row) % width == column,
{
    assert(row * width + column < width * height) by (nonlinear_arith)
        requires
            0 <= column < width,
            0 <= row < height,
    ;
    assert(0 <= row * width + column) by (nonlinear_arith)
        requires
            0 <= column < width,
            0 <= row,
    ;
    vstd::arithmetic::div_mod::lemma_fundamental_div_mod_converse(
        row * width + column,
        width,
        row,
        column,
    );
}

/// An image of one pixel is the shade of its one point, the point of the
/// pixel in column 0 and row 0; where `to_point` gives that pixel the upper
/// left corner and nothing else, it is the shade of what `escape` answers
/// for the upper left corner.
pub proof fn single_pixel_is_the_upper_left_corner<P, M, E>(
    to_point: &M,
    escape: &E,
    upper_left: P,
    lower_right: P,
    pixels: Seq<u8>,
) where M: Fn((usize, usize), (usize, usize), P, P) -> P, E: Fn(P, usize) -> Option<usize>
    requires
        is_rendering(to_point, escape, (1usize, 1usize), upper_left, lower_right, pixels),
    ensures
        pixels.len() == 1,
        renders_to(
            to_point,
            escape,
            (1usize, 1usize),
            (0usize, 0usize),
            upper_left,
            lower_right,
            pixels[0],
        ),
        (forall|point: P| #[trigger]
            call_ensures(
                *to_point,
                ((1usize, 1usize), (0usize, 0usize), upper_left, lower_right),
                point,
            ) ==> point == upper_left) ==> exists|count: Option<usize>| #[trigger]
            call_ensures(*escape, (upper_left, ITERATION_LIMIT), count) && pixels[0] as int
                == shade_of(count),
{
    assert(pixel_index(1, 0, 0) == 0);
    assert(renders_to(
        to_point,
        escape,
        (1usize, 1usize),
        (0usize, 0usize),
        upper_left,
        lower_right,
        pixels[pixel_index(1, 0, 0)],
    ));
}

/// The grey level of one pixel: the shade of the escape count of its point.
pub fn render_pixel<P: Copy, M, E>(
    bounds: (usize, usize),
    pixel: (usize, usize),
    upper_left: P,
    lower_right: P,
    to_point: &M,
    escape: &E,
) -> (level: u8) where
    M: Fn((usize, usize), (usize, usize), P, P) -> P,
    E: Fn(P, usize) -> Option<usize>,

    requires
        call_requires(*to_point, (bounds, pixel, upper_left, lower_right)),
        forall|point: P| #[trigger] call_requires(*escape, (point, ITERATION_LIMIT)),
    ensures
        renders_to(to_point, escape, bounds, pixel, upper_left, lower_right, level),
{
    let point = to_point(bounds, pixel, upper_left, lower_right);
    let count = escape(point, ITERATION_LIMIT);
    shade(count)
}

/// Renders a rectangle of the plane into a buffer of pixels, one byte each,
/// row by row.
///
/// `bounds` is the width and height of the buffer in pixels; `upper_left` and
/// `lower_right` are the points of the plane at the buffer's corners.
/// `to_point` maps a pixel to its point, `escape` counts the iterations a
/// point takes to escape. Every byte of the buffer is written.
pub fn render<P: Copy, M, E>(
    pixels: &mut [u8],
    bounds: (usize, usize),
    upper_left: P,
    lower_right: P,
    to_point: &M,
    escape: &E,
) where M: Fn((usize, usize), (usize, usize), P, P) -> P, E: Fn(P, usize) -> Option<usize>
    requires
        old(pixels)@.len() == bounds.0 * bounds.1,
        can_render(to_point, escape, bounds, upper_left, lower_right),
    ensures
        is_rendering(to_point, escape, bounds, upper_left, lower_right, final(pixels)@),
{
    let (width, height) = bounds;
    let length = pixels.len();
    let mut row: usize = 0;
    while row < height
        invariant
            bounds == (width, height),
            length == width * height,
            row <= height,
            pixels@.len() == width * height,
            can_render(to_point, escape, bounds, upper_left, lower_right),
            forall|c: usize, r: usize|
                c < width && r < row ==> renders_to(
                    to_point,
                    escape,
                    bounds,
                    (c, r),
                    upper_left,
                    lower_right,
                    #[trigger] pixels@[pixel_index(width as int, c as int, r as int)],
                ),
        decreases height - row,
    {
        let mut column: usize = 0;
        while column < width
            invariant
                bounds == (width, height),
                length == width * height,
                row < height,
                column <= width,
                pixels@.len() == width * height,
                can_render(to_point, escape, bounds, upper_left, lower_right),
                forall|c: usize, r: usize|
                    c < width && (r < row || (r == row && c < column)) ==> renders_to(
                        to_point,
                        escape,
                        bounds,
                        (c, r),
                        upper_left,
                        lower_right,
                        #[trigger] pixels@[pixel_index(width as int, c as int, r as int)],
                    ),
            decreases width - column,
        {
            let level = render_pixel(
                bounds,
                (column, row),
                upper_left,
                lower_right,
                to_point,
                escape,
            );
            proof {
                pixel_index_is_exact(width as int, height as int, column as int, row as int);
                assert(0 <= row * width) by (nonlinear_arith);
            }
            let ghost before = pixels@;
            let at = row * width + column;
            pixels[at] = level;
            proof {
                assert forall|c: usize, r: usize|
                    c < width && (r < row || (r == row && c < column + 1)) implies renders_to(
                    to_point,
                    escape,
                    bounds,
                    (c, r),
                    upper_left,
                    lower_right,
                    #[trigger] pixels@[pixel_index(width as int, c as int, r as int)],
                ) by {
                    pixel_index_is_exact(width as int, height as int, c as int, r as int);
                    if r == row && c == column {
                    } else {
                        assert(pixel_index(width as int, c as int, r as int) != at);
                        assert(pixels@[pixel_index(width as int, c as int, r as int)]
                            == before[pixel_index(width as int, c as int, r as int)]);
                    }
                }
            }
            column = column + 1;
        }
        row = row + 1;
    }
}

} // verus!
