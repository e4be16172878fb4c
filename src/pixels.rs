use vstd::prelude::*;

verus! {

/// Layout of the samples in a raw frame buffer.
#[derive(Clone, Copy, Debug, PartialEq, Eq, Structural)]
pub enum PixelType {
    /// Interleaved luma/chroma: each pixel takes two bytes, luma first.
    YUYV,
    /// One luma byte per pixel.
    Gray,
}

/// Number of buffer entries between two horizontally adjacent luma samples.
pub open spec fn stride_of(t: PixelType) -> int {
    match t {
        PixelType::YUYV => 2,
        PixelType::Gray => 1,
    }
}

/// A read-only view of a raw sample buffer, addressed by (x, y).
pub struct Pixels<'a, T: Copy> {
    width: usize,
    data: &'a [T],
    index_multi: usize,
}

impl<'a, T: Copy> Pixels<'a, T> {
    /// Row width in pixels.
    pub closed spec fn width(&self) -> int {
        self.width as int
    }

    /// Distance in the buffer between two adjacent luma samples.
    pub closed spec fn stride(&self) -> int {
        self.index_multi as int
    }

    /// The backing buffer.
    pub closed spec fn data(&self) -> Seq<T> {
        self.data@
    }

    /// Position in the backing buffer of the luma sample of pixel (x, y).
    pub open spec fn index_of(&self, x: int, y: int) -> int {
        self.stride() * (x + y * self.width())
    }

    /// Pixel (x, y) lies inside the buffer.
    pub open spec fn in_bounds(&self, x: int, y: int) -> bool {
        0 <= x && 0 <= y && self.index_of(x, y) < self.data().len()
    }

    /// Luma sample of pixel (x, y).
    pub open spec fn sample(&self, x: int, y: int) -> T {
        self.data()[self.index_of(x, y)]
    }

    /// The buffer holds a whole frame of `w` by `h` pixels with this view's
    /// row width.
    pub open spec fn covers(&self, w: int, h: int) -> bool {
        &&& self.width() == w
        &&& 0 <= h
        &&& self.stride() * (w * h) <= self.data().len()
    }

    pub open spec fn wf(&self) -> bool {
        self.stride() == 1 || self.stride() == 2
    }

    pub fn new(width: usize, data: &'a [T], pixel_type: PixelType) -> (p: Pixels<'a, T>)
        ensures
            p.wf(),
            p.width() == width,
            p.data() == data@,
            p.stride() == stride_of(pixel_type),
    {
        let index_multi: usize = match pixel_type {
            PixelType::YUYV => 2,
            PixelType::Gray => 1,
        };
        Pixels { width, data, index_multi }
    }

    /// Out-of-range access is a programming error and is ruled out by the
    /// precondition.
    pub fn get(&self, x: usize, y: usize) -> (s: T)
        requires
            self.wf(),
            self.in_bounds(x as int, y as int),
        ensures
            s == self.sample(x as int, y as int),
    {
        let len = self.data.len();
        proof {
            let lin = x + y * self.width();
            assert(0 <= y * self.width()) by (nonlinear_arith)
                requires
                    0 <= y,
                    0 <= self.width(),
            ;
            assert(lin <= self.stride() * lin) by (nonlinear_arith)
                requires
                    0 <= lin,
                    1 <= self.stride(),
            ;
            assert(lin < len);
            assert(y * self.width() < len);
        }
        self.data[self.index_multi * (x + y * self.width)]
    }
}

/// A 3x3 matrix of weights, stored row by row.
pub struct Kernel<T: Copy> {
    data: [T; 9],
}

impl<T: Copy> Kernel<T> {
    /// The weights, row by row.
    pub closed spec fn weights(&self) -> Seq<T> {
        self.data@
    }

    pub fn from_weights(data: [T; 9]) -> (k: Kernel<T>)
        ensures
            k.weights() == data@,
    {
        Kernel { data }
    }

    /// Weight in column `x`, row `y`.
    pub fn get(&self, x: usize, y: usize) -> (w: T)
        requires
            x < 3,
            y < 3,
        ensures
            w == self.weights()[x + y * 3],
    {
        self.data[x + y * 3]
    }
}

} // verus!
