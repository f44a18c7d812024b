use vstd::prelude::*;

use crate::color::{fits_i32, RGBColor};
use crate::texture::pixel_index;

verus! {

/// What an accumulation plane holds: its size and one working color per
/// position, row-major.
pub struct PlaneView {
    pub width: u32,
    pub height: u32,
    pub cells: Seq<RGBColor>,
}

impl PlaneView {
    pub open spec fn wf(self) -> bool {
        self.cells.len() == self.width * self.height
    }
}

/// The channel-wise sum of two working colors.
pub open spec fn sum_of(a: RGBColor, b: RGBColor) -> RGBColor {
    RGBColor { r: (a.r + b.r) as i32, g: (a.g + b.g) as i32, b: (a.b + b.b) as i32 }
}

/// A grid of working colors; during error diffusion it carries the error
/// that is still to be added to each pixel.
pub struct RGBPlane {
    data: Vec<RGBColor>,
    width: u32,
    height: u32,
}

impl View for RGBPlane {
    type V = PlaneView;

    closed spec fn view(&self) -> PlaneView {
        PlaneView { width: self.width, height: self.height, cells: self.data@ }
    }
}

impl RGBPlane {
    /// A plane of the given size with every cell zero.
    pub fn new(width: u32, height: u32) -> (p: RGBPlane)
        requires
            width * height <= usize::MAX,
        ensures
            p@.wf(),
            p@.width == width,
            p@.height == height,
            forall|i: int|
                0 <= i < p@.cells.len() ==> #[trigger] p@.cells[i] == (RGBColor { r: 0, g: 0, b: 0 }),
    {
        let n = width as usize * height as usize;
        let mut data: Vec<RGBColor> = Vec::with_capacity(n);
        let mut i: usize = 0;
        while i < n
            invariant
                i <= n,
                data@.len() == i,
                forall|j: int| 0 <= j < i ==> #[trigger] data@[j] == (RGBColor { r: 0, g: 0, b: 0 }),
            decreases n - i,
        {
            data.push(RGBColor { r: 0, g: 0, b: 0 });
            i += 1;
        }
        RGBPlane { data, width, height }
    }

    pub fn width(&self) -> (w: u32)
        ensures
            w == self@.width,
    {
        self.width
    }

    pub fn height(&self) -> (h: u32)
        ensures
            h == self@.height,
    {
        self.height
    }

    fn index_of(&self, x: u32, y: u32) -> (i: usize)
        requires
            self@.wf(),
            x < self@.width,
            y < self@.height,
        ensures
            i == pixel_index(x as int, y as int, self@.width as int),
            i < self@.cells.len(),
    {
        let n = self.data.len();
        proof {
            crate::texture::lemma_index_in_bounds(
                x as int,
                y as int,
                self.width as int,
                self.height as int,
            );
        }
        x as usize + y as usize * self.width as usize
    }

    /// Writes the cell at column `x`, row `y`.
    pub fn set(&mut self, x: u32, y: u32, value: RGBColor)
        requires
            old(self)@.wf(),
            x < old(self)@.width,
            y < old(self)@.height,
        ensures
            final(self)@ == (PlaneView {
                cells: old(self)@.cells.update(
                    pixel_index(x as int, y as int, old(self)@.width as int),
                    value,
                ),
                ..old(self)@
            }),
    {
        let i = self.index_of(x, y);
        self.data.set(i, value);
    }

    /// Adds `value` to the cell at column `x`, row `y`.
    pub fn add(&mut self, x: u32, y: u32, value: RGBColor)
        requires
            old(self)@.wf(),
            x < old(self)@.width,
            y < old(self)@.height,
            fits_i32(
                old(self)@.cells[pixel_index(x as int, y as int, old(self)@.width as int)].r
                    + value.r,
            ),
            fits_i32(
                old(self)@.cells[pixel_index(x as int, y as int, old(self)@.width as int)].g
                    + value.g,
            ),
            fits_i32(
                old(self)@.cells[pixel_index(x as int, y as int, old(self)@.width as int)].b
                    + value.b,
            ),
        ensures
            final(self)@ == (PlaneView {
                cells: old(self)@.cells.update(
                    pixel_index(x as int, y as int, old(self)@.width as int),
                    sum_of(
                        old(self)@.cells[pixel_index(x as int, y as int, old(self)@.width as int)],
                        value,
                    ),
                ),
                ..old(self)@
            }),
    {
        let i = self.index_of(x, y);
        let c = self.data[i].plus(value);
        self.data.set(i, c);
    }

    /// The cell at column `x`, row `y`.
    pub fn get(&self, x: u32, y: u32) -> (c: RGBColor)
        requires
            self@.wf(),
            x < self@.width,
            y < self@.height,
        ensures
            c == self@.cells[pixel_index(x as int, y as int, self@.width as int)],
    {
        self.data[self.index_of(x, y)]
    }
}

} // verus!
