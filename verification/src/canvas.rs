//! A canvas to render the world to: a rectangular grid of pixels in
//! row-major order.  The pixel type is left generic; the renderer that
//! owns the scalar arithmetic instantiates it with its color type.

use vstd::prelude::*;

verus! {

/// Errors a canvas may throw.
#[derive(Copy, Clone, Debug, PartialEq, Eq, Structural)]
pub enum CanvasError {
    /// The provided coordinates are not inside the dimensions of the canvas.
    InvalidCoordinates,
}

/// The canvas this renderer draws its results on.
#[derive(Clone, Debug)]
pub struct Canvas<P> {
    canvas: Vec<Vec<P>>,
    width: usize,
    height: usize,
}

impl<P> View for Canvas<P> {
    type V = Seq<Seq<P>>;

    closed spec fn view(&self) -> Seq<Seq<P>> {
        self.canvas@.map_values(|row: Vec<P>| row@)
    }
}

impl<P> Canvas<P> {
    /// Horizontal pixel count, at the specification level.
    pub closed spec fn spec_width(&self) -> usize {
        self.width
    }

    /// Vertical pixel count, at the specification level.
    pub closed spec fn spec_height(&self) -> usize {
        self.height
    }

    /// The grid really is a `height` by `width` rectangle.
    pub open spec fn wf(&self) -> bool {
        &&& self@.len() == self.spec_height()
        &&& forall|y: int|
            0 <= y < self@.len() ==> (#[trigger] self@[y]).len() == self.spec_width()
    }

    /// Whether the coordinates lie inside the canvas, at the
    /// specification level.
    pub open spec fn contains_coordinates(&self, x: usize, y: usize) -> bool {
        x < self.spec_width() && y < self.spec_height()
    }

    /// Checks if the coordinates provided are valid (inside of the
    /// canvas's dimensions).
    pub fn check_coordinates(&self, x: usize, y: usize) -> (r: bool)
        ensures
            r == self.contains_coordinates(x, y),
    {
        !(x >= self.width || y >= self.height)
    }

    /// Vertical size of the canvas.
    pub fn height(&self) -> (r: usize)
        ensures
            r == self.spec_height(),
    {
        self.height
    }

    /// Horizontal size of the canvas.
    pub fn width(&self) -> (r: usize)
        ensures
            r == self.spec_width(),
    {
        self.width
    }

    /// Returns the backing [`Vec`] of this canvas.
    pub fn get_canvas(&self) -> (r: &Vec<Vec<P>>)
        ensures
            r@.map_values(|row: Vec<P>| row@) == self@,
    {
        &self.canvas
    }
}

impl<P> Canvas<P> {
    /// Assembles a canvas from ready rows of equal width.
    pub(crate) fn from_rows(rows: Vec<Vec<P>>, width: usize) -> (r: Self)
        requires
            forall|y: int| 0 <= y < rows@.len() ==> (#[trigger] rows@[y])@.len() == width,
        ensures
            r.wf(),
            r.spec_width() == width,
            r.spec_height() == rows@.len(),
            r@ == rows@.map_values(|row: Vec<P>| row@),
    {
        let height = rows.len();
        let r = Canvas { canvas: rows, width, height };
        assert forall|y: int| 0 <= y < r@.len() implies (#[trigger] r@[y]).len()
            == r.spec_width() by {
            assert(r@[y] == r.canvas@[y]@);
        }
        r
    }
}

impl<P: Copy> Canvas<P> {
    /// A new canvas, every pixel filled with the provided color.
    pub fn new_with_color(width: usize, height: usize, color: P) -> (r: Self)
        ensures
            r.wf(),
            r.spec_width() == width,
            r.spec_height() == height,
            forall|y: int, x: int|
                0 <= y < height && 0 <= x < width ==> #[trigger] r@[y][x] == color,
    {
        let mut vec: Vec<Vec<P>> = Vec::with_capacity(height);
        for _i in 0..height
            invariant
                vec@.len() == _i,
                forall|y: int|
                    0 <= y < _i ==> (#[trigger] vec@[y])@.len() == width,
                forall|y: int, x: int|
                    0 <= y < _i && 0 <= x < width ==> #[trigger] vec@[y]@[x] == color,
        {
            let mut inner_vec: Vec<P> = Vec::with_capacity(width);
            for _j in 0..width
                invariant
                    inner_vec@.len() == _j,
                    forall|x: int| 0 <= x < _j ==> #[trigger] inner_vec@[x] == color,
            {
                inner_vec.push(color);
            }
            vec.push(inner_vec);
        }
        let r = Canvas { canvas: vec, height, width };
        assert forall|y: int| 0 <= y < r@.len() implies (#[trigger] r@[y]).len()
            == r.spec_width() by {
            assert(r@[y] == r.canvas@[y]@);
        }
        assert forall|y: int, x: int|
            0 <= y < height && 0 <= x < width implies #[trigger] r@[y][x] == color by {
            assert(r@[y] == r.canvas@[y]@);
        }
        r
    }

    /// Returns the pixel at the provided coordinates.
    /// Returns a [`CanvasError::InvalidCoordinates`] if the provided
    /// coordinates are not inside of the canvas dimensions.
    pub fn pixel_at(&self, x: usize, y: usize) -> (r: Result<P, CanvasError>)
        requires
            self.wf(),
        ensures
            self.contains_coordinates(x, y) ==> r == Ok::<P, CanvasError>(self@[y as int][x as int]),
            !self.contains_coordinates(x, y) ==> r == Err::<P, CanvasError>(
                CanvasError::InvalidCoordinates,
            ),
    {
        if !self.check_coordinates(x, y) {
            return Err(CanvasError::InvalidCoordinates);
        }
        assert(self@[y as int] == self.canvas@[y as int]@);
        Ok(self.canvas[y][x])
    }

    /// Sets the pixel at the provided coordinates.
    /// Returns a [`CanvasError::InvalidCoordinates`] if the provided
    /// coordinates are not inside of the canvas dimensions.
    pub fn write_pixel(&mut self, x: usize, y: usize, color: P) -> (r: Result<(), CanvasError>)
        requires
            old(self).wf(),
        ensures
            final(self).wf(),
            final(self).spec_width() == old(self).spec_width(),
            final(self).spec_height() == old(self).spec_height(),
            old(self).contains_coordinates(x, y) ==> {
                &&& r == Ok::<(), CanvasError>(())
                &&& final(self)@ == old(self)@.update(
                    y as int,
                    old(self)@[y as int].update(x as int, color),
                )
            },
            !old(self).contains_coordinates(x, y) ==> {
                &&& r == Err::<(), CanvasError>(CanvasError::InvalidCoordinates)
                &&& final(self)@ == old(self)@
            },
    {
        if !self.check_coordinates(x, y) {
            return Err(CanvasError::InvalidCoordinates);
        }
        assert(self@[y as int] == self.canvas@[y as int]@);
        let row = &mut self.canvas[y];
        row.set(x, color);
        assert(self@ =~= old(self)@.update(y as int, old(self)@[y as int].update(x as int, color)));
        Ok(())
    }
}

} // verus!
