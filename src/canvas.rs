use vstd::prelude::*;

verus! {

/// The position in a row-major pixel buffer of pixel (x, y) of an image
/// `width` pixels wide.
pub open spec fn pixel_index(x: int, y: int, width: int) -> int {
    x + y * width
}

/// The (x, y) coordinates of the pixel at position `index` of a row-major
/// buffer for an image `width` pixels wide.
pub fn pixel_coords(index: usize, width: usize) -> (r: (usize, usize))
    requires
        width > 0,
    ensures
        r.0 == index % width,
        r.1 == index / width,
        r.0 < width,
        pixel_index(r.0 as int, r.1 as int, width as int) == index,
{
    let x = index % width;
    let y = index / width;
    assert(x + y * width == index) by (nonlinear_arith)
        requires
            width > 0,
            x == index % width,
            y == index / width,
    ;
    (x, y)
}

/// Pixel positions and coordinates correspond one to one: every pixel of an
/// image `width` pixels wide is found again from its position in the buffer.
pub proof fn lemma_pixel_coords_round_trip(x: int, y: int, width: int)
    requires
        0 <= x < width,
        0 <= y,
    ensures
        pixel_index(x, y, width) % width == x,
        pixel_index(x, y, width) / width == y,
{
    assert((x + y * width) % width == x && (x + y * width) / width == y) by (nonlinear_arith)
        requires
            0 <= x < width,
            0 <= y,
    ;
}

/// A width × height image held as a row-major buffer of pixels.
pub struct Canvas<P> {
    pub width: usize,
    pub height: usize,
    pub pixels: Vec<P>,
}

impl<P: Copy> Canvas<P> {
    /// The buffer holds exactly one pixel per (x, y).
    pub open spec fn wf(&self) -> bool {
        self.pixels@.len() == self.width * self.height
    }

    /// The pixel at (x, y).
    pub open spec fn at(&self, x: int, y: int) -> P {
        self.pixels@[pixel_index(x, y, self.width as int)]
    }

    /// A canvas over the given row-major pixels.
    pub fn new(width: usize, height: usize, pixels: Vec<P>) -> (r: Self)
        requires
            pixels@.len() == width * height,
        ensures
            r.wf(),
            r.width == width,
            r.height == height,
            r.pixels@ == pixels@,
    {
        Canvas { width, height, pixels }
    }

    /// A canvas whose every pixel is `fill`.
    pub fn filled(width: usize, height: usize, fill: P) -> (r: Self)
        requires
            width * height <= usize::MAX,
        ensures
            r.wf(),
            r.width == width,
            r.height == height,
            forall|i: int| 0 <= i < r.pixels@.len() ==> r.pixels@[i] == fill,
    {
        let n: usize = width * height;
        let mut pixels: Vec<P> = Vec::new();
        let mut i: usize = 0;
        while i < n
            invariant
                i <= n,
                pixels@.len() == i,
                forall|k: int| 0 <= k < i ==> pixels@[k] == fill,
            decreases n - i,
        {
            pixels.push(fill);
            i += 1;
        }
        Canvas { width, height, pixels }
    }

    /// Sets pixel (x, y) to `color`, leaving every other pixel as it was.
    pub fn write_pixel(&mut self, x: usize, y: usize, color: P)
        requires
            old(self).wf(),
            x < old(self).width,
            y < old(self).height,
        ensures
            final(self).wf(),
            final(self).width == old(self).width,
            final(self).height == old(self).height,
            final(self).pixels@ == old(self).pixels@.update(
                pixel_index(x as int, y as int, old(self).width as int),
                color,
            ),
    {
        proof {
            lemma_pixel_in_buffer(x as int, y as int, self.width as int, self.height as int);
        }
        let len = self.pixels.len();
        let i = x + y * self.width;
        assert(i < len);
        self.pixels.set(i, color);
    }

    /// The pixel at (x, y).
    pub fn pixel_at(&self, x: usize, y: usize) -> (r: P)
        requires
            self.wf(),
            x < self.width,
            y < self.height,
        ensures
            r == self.at(x as int, y as int),
    {
        proof {
            lemma_pixel_in_buffer(x as int, y as int, self.width as int, self.height as int);
        }
        let len = self.pixels.len();
        let i = x + y * self.width;
        assert(i < len);
        self.pixels[i]
    }
}

impl<P: Copy + Default> Canvas<P> {
    /// A canvas whose every pixel is the default value of `P` (black, for a
    /// colour).
    pub fn empty(width: usize, height: usize) -> (r: Self)
        requires
            width * height <= usize::MAX,
        ensures
            r.wf(),
            r.width == width,
            r.height == height,
            forall|i: int, j: int|
                0 <= i < r.pixels@.len() && 0 <= j < r.pixels@.len() ==> r.pixels@[i] == r.pixels@[j],
    {
        Self::filled(width, height, P::default())
    }
}

proof fn lemma_pixel_in_buffer(x: int, y: int, width: int, height: int)
    requires
        0 <= x < width,
        0 <= y < height,
    ensures
        0 <= pixel_index(x, y, width) < width * height,
        y * width <= pixel_index(x, y, width),
{
    assert(0 <= x + y * width < width * height) by (nonlinear_arith)
        requires
            0 <= x < width,
            0 <= y < height,
    ;
    assert(0 <= y * width) by (nonlinear_arith)
        requires
            0 <= y,
            0 <= width,
    ;
}

} // verus!
