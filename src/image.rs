use vstd::prelude::*;

use crate::color::RGBColor;

verus! {

/// Alpha at or above this value makes a pixel opaque.
pub const ALPHA_THRESHOLD: u8 = 128;

/// What a decoded image holds: its size and, in row-major order, the color
/// of each pixel and whether it is opaque.
pub struct ImageView {
    pub width: u32,
    pub height: u32,
    pub colors: Seq<RGBColor>,
    pub opaque: Seq<bool>,
}

impl ImageView {
    pub open spec fn wf(self) -> bool {
        &&& self.colors.len() == self.width * self.height
        &&& self.opaque.len() == self.width * self.height
        &&& forall|i: int|
            0 <= i < self.colors.len() ==> 0 <= #[trigger] self.colors[i].r <= 255 && 0
                <= self.colors[i].g <= 255 && 0 <= self.colors[i].b <= 255
    }
}

/// The working color of 8-bit channels.
pub open spec fn rgb_of(r: u8, g: u8, b: u8) -> RGBColor {
    RGBColor { r: r as i32, g: g as i32, b: b as i32 }
}

/// The pixels of `data`, `stride` bytes each, red first.
pub open spec fn colors_of(data: Seq<u8>, stride: int, n: int) -> Seq<RGBColor> {
    Seq::new(n as nat, |i: int| rgb_of(data[stride * i], data[stride * i + 1], data[stride * i + 2]))
}

/// The number of pixels of a `width` by `height` image.
pub fn area(width: u32, height: u32) -> (n: u64)
    ensures
        n == width * height,
{
    assert(width as int * height as int <= u64::MAX) by (nonlinear_arith)
        requires
            width <= u32::MAX,
            height <= u32::MAX,
    ;
    width as u64 * height as u64
}

/// The pixels of an image as the converters read them.
pub(crate) struct PixelGrid {
    pub(crate) width: u32,
    pub(crate) height: u32,
    pub(crate) colors: Vec<RGBColor>,
    pub(crate) opaque: Vec<bool>,
}

impl PixelGrid {
    pub(crate) open spec fn view(&self) -> ImageView {
        ImageView { width: self.width, height: self.height, colors: self.colors@, opaque: self.opaque@ }
    }

    /// Reads `n` pixels of `stride` bytes; with four bytes the fourth is alpha.
    fn from_bytes(width: u32, height: u32, data: &Vec<u8>, stride: usize) -> (g: PixelGrid)
        requires
            stride == 3 || stride == 4,
            data@.len() == stride * (width * height),
        ensures
            g.view().wf(),
            g.view().width == width,
            g.view().height == height,
            g.view().colors == colors_of(data@, stride as int, width * height),
            forall|i: int|
                0 <= i < width * height ==> #[trigger] g.view().opaque[i] == (stride == 3 || data@[4
                    * i + 3] >= ALPHA_THRESHOLD),
    {
        let n = data.len() / stride;
        assert(n == width * height) by (nonlinear_arith)
            requires
                data@.len() == stride * (width * height),
                n == data@.len() as int / stride as int,
                stride > 0,
        ;
        let len = data.len();
        let mut colors: Vec<RGBColor> = Vec::with_capacity(n);
        let mut opaque: Vec<bool> = Vec::with_capacity(n);
        let mut i: usize = 0;
        while i < n
            invariant
                i <= n,
                len == data@.len(),
                n == width * height,
                data@.len() == stride * n,
                stride == 3 || stride == 4,
                colors@.len() == i,
                opaque@.len() == i,
                forall|j: int|
                    0 <= j < i ==> #[trigger] colors@[j] == rgb_of(
                        data@[stride * j],
                        data@[stride * j + 1],
                        data@[stride * j + 2],
                    ),
                forall|j: int|
                    0 <= j < i ==> #[trigger] opaque@[j] == (stride == 3 || data@[4 * j + 3]
                        >= ALPHA_THRESHOLD),
            decreases n - i,
        {
            assert(stride * i + stride <= stride * n) by (nonlinear_arith)
                requires
                    i < n,
                    stride > 0,
            ;
            let at = stride * i;
            colors.push(RGBColor { r: data[at] as i32, g: data[at + 1] as i32, b: data[at + 2] as i32 });
            opaque.push(stride == 3 || data[at + 3] >= ALPHA_THRESHOLD);
            i += 1;
        }
        let g = PixelGrid { width, height, colors, opaque };
        assert(g.view().colors =~= colors_of(data@, stride as int, width * height));
        g
    }
}

/// An opaque image of 8-bit red, green and blue channels.
pub struct RgbImage {
    grid: PixelGrid,
}

/// An image of 8-bit red, green, blue and alpha channels.
pub struct RgbaImage {
    grid: PixelGrid,
}

impl View for RgbImage {
    type V = ImageView;

    closed spec fn view(&self) -> ImageView {
        self.grid.view()
    }
}

impl View for RgbaImage {
    type V = ImageView;

    closed spec fn view(&self) -> ImageView {
        self.grid.view()
    }
}

impl RgbImage {
    /// Well formed, and every pixel opaque.
    pub open spec fn wf(&self) -> bool {
        &&& self@.wf()
        &&& forall|i: int| 0 <= i < self@.opaque.len() ==> #[trigger] self@.opaque[i]
    }

    pub(crate) fn grid(&self) -> (g: &PixelGrid)
        ensures
            g.view() == self@,
    {
        &self.grid
    }

    /// The image whose pixels are the byte triples of `data` in row-major
    /// order; `None` unless `data` holds exactly `width * height` of them.
    pub fn from_raw(width: u32, height: u32, data: Vec<u8>) -> (r: Option<RgbImage>)
        ensures
            r is Some <==> data@.len() == 3 * (width * height),
            r matches Some(img) ==> {
                &&& img.wf()
                &&& img@.width == width
                &&& img@.height == height
                &&& img@.colors == colors_of(data@, 3, width * height)
                &&& forall|i: int| 0 <= i < width * height ==> #[trigger] img@.opaque[i]
            },
    {
        let n = area(width, height);
        if (data.len() as u128) != 3 * (n as u128) {
            return None;
        }
        Some(RgbImage { grid: PixelGrid::from_bytes(width, height, &data, 3) })
    }

    pub fn width(&self) -> (w: u32)
        ensures
            w == self@.width,
    {
        self.grid.width
    }

    pub fn height(&self) -> (h: u32)
        ensures
            h == self@.height,
    {
        self.grid.height
    }
}

impl RgbaImage {
    pub open spec fn wf(&self) -> bool {
        self@.wf()
    }

    pub(crate) fn grid(&self) -> (g: &PixelGrid)
        ensures
            g.view() == self@,
    {
        &self.grid
    }

    /// The image whose pixels are the byte quadruples of `data` in row-major
    /// order, alpha last; `None` unless `data` holds exactly
    /// `width * height` of them.
    pub fn from_raw(width: u32, height: u32, data: Vec<u8>) -> (r: Option<RgbaImage>)
        ensures
            r is Some <==> data@.len() == 4 * (width * height),
            r matches Some(img) ==> {
                &&& img.wf()
                &&& img@.width == width
                &&& img@.height == height
                &&& img@.colors == colors_of(data@, 4, width * height)
                &&& forall|i: int|
                    0 <= i < width * height ==> #[trigger] img@.opaque[i] == (data@[4 * i + 3]
                        >= ALPHA_THRESHOLD)
            },
    {
        let n = area(width, height);
        if (data.len() as u128) != 4 * (n as u128) {
            return None;
        }
        Some(RgbaImage { grid: PixelGrid::from_bytes(width, height, &data, 4) })
    }

    pub fn width(&self) -> (w: u32)
        ensures
            w == self@.width,
    {
        self.grid.width
    }

    pub fn height(&self) -> (h: u32)
        ensures
            h == self@.height,
    {
        self.grid.height
    }
}

} // verus!
