//! The per-pixel rendering loop, used to render the world from a
//! certain view.
//!
//! The camera's ray construction and the color a ray produces are scalar
//! work and stay with the caller; it hands in a pixel function.  What is
//! verified here is the drive: every pixel of the canvas, in row-major
//! order, holds a color the pixel function could have produced for
//! exactly those coordinates — no pixel is skipped, duplicated or
//! written from another pixel's state, which is what makes the parallel
//! variant's row fan-out sound.

use vstd::prelude::*;
use crate::canvas::Canvas;
use rayon::iter::IntoParallelIterator;
use rayon::iter::ParallelIterator;

verus! {

/// Relies on rayon: `into_par_iter` over a range, `map` and `collect`
/// into a `Vec` are order-preserving for an indexed parallel iterator,
/// so the result holds exactly one element per index, in index order,
/// each produced by one call of the closure on its own index.
#[verifier::external_body]
fn par_rows<P: Send, F: Fn(usize) -> Vec<P> + Send + Sync>(vsize: usize, row_of: F) -> (rows: Vec<
    Vec<P>,
>)
    requires
        forall|y: usize| y < vsize ==> row_of.requires((y,)),
    ensures
        rows@.len() == vsize,
        forall|y: int| 0 <= y < vsize ==> call_ensures(row_of, (y as usize,), #[trigger] rows@[y]),
{
    (0..vsize).into_par_iter().map(|y| row_of(y)).collect()
}

/// One row of pixels, `y` fixed and `x` running over the width.
fn render_row<P: Copy, F: Fn(usize, usize) -> P>(
    hsize: usize,
    y: usize,
    pixel_color: &F,
) -> (row: Vec<P>)
    requires
        forall|x: usize| x < hsize ==> pixel_color.requires((x, y)),
    ensures
        row@.len() == hsize,
        forall|x: int|
            0 <= x < hsize ==> call_ensures(*pixel_color, (x as usize, y), #[trigger] row@[x]),
{
    let mut row: Vec<P> = Vec::with_capacity(hsize);
    for x in 0..hsize
        invariant
            row@.len() == x,
            forall|k: usize| k < hsize ==> pixel_color.requires((k, y)),
            forall|k: int|
                0 <= k < x ==> call_ensures(*pixel_color, (k as usize, y), #[trigger] row@[k]),
    {
        row.push(pixel_color(x, y));
    }
    row
}

/// Renders an `hsize` by `vsize` canvas, asking the pixel function for
/// the color of each pixel in turn.
pub fn render<P: Copy, F: Fn(usize, usize) -> P>(
    hsize: usize,
    vsize: usize,
    pixel_color: F,
) -> (r: Canvas<P>)
    requires
        forall|x: usize, y: usize| x < hsize && y < vsize ==> pixel_color.requires((x, y)),
    ensures
        r.wf(),
        r.spec_width() == hsize,
        r.spec_height() == vsize,
        forall|x: int, y: int|
            0 <= x < hsize && 0 <= y < vsize ==> call_ensures(
                pixel_color,
                (x as usize, y as usize),
                #[trigger] r@[y][x],
            ),
{
    let mut rows: Vec<Vec<P>> = Vec::with_capacity(vsize);
    for y in 0..vsize
        invariant
            rows@.len() == y,
            forall|k: int| 0 <= k < y ==> (#[trigger] rows@[k])@.len() == hsize,
            forall|k: int, x: int|
                0 <= k < y && 0 <= x < hsize ==> call_ensures(
                    pixel_color,
                    (x as usize, k as usize),
                    #[trigger] rows@[k]@[x],
                ),
            forall|x: usize, yy: usize| x < hsize && yy < vsize ==> pixel_color.requires((x, yy)),
    {
        let row = render_row(hsize, y, &pixel_color);
        rows.push(row);
    }
    let ghost rows_view = rows@;
    let r = Canvas::from_rows(rows, hsize);
    assert forall|x: int, y: int| 0 <= x < hsize && 0 <= y < vsize implies call_ensures(
        pixel_color,
        (x as usize, y as usize),
        #[trigger] r@[y][x],
    ) by {
        assert(r@[y][x] == rows_view[y]@[x]);
    }
    r
}

/// Renders an `hsize` by `vsize` canvas like [`render`], but utilizes
/// all cores, splitting the workload at rendering each row separately.
/// The contract is the same: each pixel holds a color the pixel
/// function could have produced for exactly those coordinates, so the
/// fan-out cannot change the image.
pub fn par_render<P: Copy + Send, F: Fn(usize, usize) -> P + Send + Sync>(
    hsize: usize,
    vsize: usize,
    pixel_color: F,
) -> (r: Canvas<P>)
    requires
        forall|x: usize, y: usize| x < hsize && y < vsize ==> pixel_color.requires((x, y)),
    ensures
        r.wf(),
        r.spec_width() == hsize,
        r.spec_height() == vsize,
        forall|x: int, y: int|
            0 <= x < hsize && 0 <= y < vsize ==> call_ensures(
                pixel_color,
                (x as usize, y as usize),
                #[trigger] r@[y][x],
            ),
{
    let pc = &pixel_color;
    let row_of = |y: usize| -> (row: Vec<P>)
        requires
            y < vsize,
            forall|x: usize, yy: usize| x < hsize && yy < vsize ==> pc.requires((x, yy)),
        ensures
            row@.len() == hsize,
            forall|x: int|
                0 <= x < hsize ==> call_ensures(*pc, (x as usize, y), #[trigger] row@[x]),
        { render_row(hsize, y, pc) };
    let rows = par_rows(vsize, row_of);
    let ghost rows_view = rows@;
    let r = Canvas::from_rows(rows, hsize);
    assert forall|x: int, y: int| 0 <= x < hsize && 0 <= y < vsize implies call_ensures(
        pixel_color,
        (x as usize, y as usize),
        #[trigger] r@[y][x],
    ) by {
        assert(r@[y][x] == rows_view[y]@[x]);
    }
    r
}

} // verus!
