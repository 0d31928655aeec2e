//! The pixel-grid geometry of one render: validated image bounds and the
//! row-major layout of the pixel buffer.

use vstd::prelude::*;
use vstd::arithmetic::mul::lemma_mul_inequality;

verus! {

/// The dimensions of the output image, in pixels. Well-formed bounds have
/// strictly positive width and height and a pixel count that fits in
/// memory; they are fixed for the lifetime of one render.
#[derive(Clone, Copy, Debug, PartialEq, Eq, Structural)]
pub struct ImageBounds {
    pub width: usize,
    pub height: usize,
}

/// Rejected geometry: bounds with a zero side would divide by zero in the
/// plane mapping, and a pixel count beyond the address space cannot be
/// allocated.
#[derive(Clone, Copy, Debug, PartialEq, Eq, Structural)]
pub enum GeometryError {
    ZeroWidth,
    ZeroHeight,
    PixelCountOverflow,
}

impl ImageBounds {
    /// Both sides are positive and the pixel count fits in a `usize`.
    pub open spec fn wf(self) -> bool {
        &&& self.width > 0
        &&& self.height > 0
        &&& self.width * self.height <= usize::MAX
    }

    /// The number of pixels, which is the length of the pixel buffer.
    pub open spec fn spec_pixel_count(self) -> int {
        self.width * self.height
    }

    /// Validate requested dimensions: accepted exactly when both sides are
    /// positive and the pixel count fits, with the reason otherwise.
    pub fn new(width: usize, height: usize) -> (r: Result<ImageBounds, GeometryError>)
        ensures
            r matches Ok(b) ==> b.width == width && b.height == height && b.wf(),
            width == 0 ==> r == Result::<ImageBounds, GeometryError>::Err(
                GeometryError::ZeroWidth,
            ),
            width > 0 && height == 0 ==> r == Result::<ImageBounds, GeometryError>::Err(
                GeometryError::ZeroHeight,
            ),
            width > 0 && height > 0 && width * height > usize::MAX ==> r == Result::<
                ImageBounds,
                GeometryError,
            >::Err(GeometryError::PixelCountOverflow),
            width > 0 && height > 0 && width * height <= usize::MAX ==> r is Ok,
    {
        if width == 0 {
            Err(GeometryError::ZeroWidth)
        } else if height == 0 {
            Err(GeometryError::ZeroHeight)
        } else {
            match width.checked_mul(height) {
                Some(_) => Ok(ImageBounds { width, height }),
                None => Err(GeometryError::PixelCountOverflow),
            }
        }
    }

    /// The number of pixels of the image, row-major.
    pub fn pixel_count(&self) -> (n: usize)
        requires
            self.wf(),
        ensures
            n == self.spec_pixel_count(),
    {
        self.width * self.height
    }
}

/// A zero-initialized pixel buffer for the given bounds, one byte per
/// pixel, row-major.
pub fn new_buffer(bounds: &ImageBounds) -> (v: Vec<u8>)
    requires
        bounds.wf(),
    ensures
        v@.len() == bounds.spec_pixel_count(),
        forall|i: int| 0 <= i < v@.len() ==> v@[i] == 0,
{
    let n = bounds.pixel_count();
    let mut v: Vec<u8> = Vec::new();
    while v.len() < n
        invariant
            v@.len() <= n,
            forall|i: int| 0 <= i < v@.len() ==> v@[i] == 0,
        decreases n - v@.len(),
    {
        v.push(0);
    }
    v
}

/// The index of pixel `(col, row)` in the row-major buffer: always within
/// the buffer for in-range coordinates.
pub fn pixel_index(bounds: &ImageBounds, col: usize, row: usize) -> (idx: usize)
    requires
        bounds.wf(),
        col < bounds.width,
        row < bounds.height,
    ensures
        idx == row * bounds.width + col,
        idx < bounds.spec_pixel_count(),
{
    proof {
        lemma_mul_inequality(row as int, bounds.height - 1, bounds.width as int);
        assert((bounds.height - 1) * bounds.width == bounds.height * bounds.width - bounds.width)
            by (nonlinear_arith);
        assert(bounds.height * bounds.width == bounds.width * bounds.height) by (nonlinear_arith);
    }
    row * bounds.width + col
}

} // verus!
