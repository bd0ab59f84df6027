use vstd::prelude::*;

verus! {

/// Why an image could not be taken in.
#[derive(Debug, PartialEq, Eq, Structural, Clone, Copy)]
pub enum RtwImageError {
    /// The decoded image holds no pixel data.
    Empty,
}

/// `x` limited to at most `hi`.
pub open spec fn clamp_to(x: int, hi: int) -> int {
    if x > hi {
        hi
    } else {
        x
    }
}

/// The position in the channel data of the first channel of pixel `(x, y)` of an
/// image `width` pixels wide and `height` pixels high, stored row by row with three
/// channels per pixel; coordinates beyond the image are moved to its last column
/// or row.
pub open spec fn pixel_offset(x: int, y: int, width: int, height: int) -> int {
    (clamp_to(y, height - 1) * width + clamp_to(x, width - 1)) * 3
}

/// `clamp_to(x, hi)` is the smaller of `x` and `hi`.
pub proof fn lemma_clamp_to_is_min(x: int, hi: int)
    ensures
        clamp_to(x, hi) <= x,
        clamp_to(x, hi) <= hi,
        clamp_to(x, hi) == x || clamp_to(x, hi) == hi,
        x > hi ==> clamp_to(x, hi) == hi,
{
}

/// A coordinate past the last column (row) addresses the last column (row):
/// reading outside the image reads its edge, and inside it the coordinates are
/// used as they are.
pub proof fn lemma_pixel_offset_edges(x: int, y: int, width: int, height: int)
    requires
        0 <= x,
        0 <= y,
        width > 0,
        height > 0,
    ensures
        x >= width ==> pixel_offset(x, y, width, height) == pixel_offset(width - 1, y, width, height),
        y >= height ==> pixel_offset(x, y, width, height) == pixel_offset(x, height - 1, width, height),
        x < width && y < height ==> pixel_offset(x, y, width, height) == (y * width + x) * 3,
        pixel_offset(x, y, width, height) == pixel_offset(
            if x < width { x } else { width - 1 },
            if y < height { y } else { height - 1 },
            width,
            height,
        ),
{
}

/// Inside the image, every pixel has its own three channel positions, all within
/// the channel data: the addressing is one-to-one.
pub proof fn lemma_pixel_offset_one_to_one(x1: int, y1: int, x2: int, y2: int, width: int, height: int)
    requires
        0 <= x1 < width,
        0 <= x2 < width,
        0 <= y1 < height,
        0 <= y2 < height,
    ensures
        0 <= pixel_offset(x1, y1, width, height),
        pixel_offset(x1, y1, width, height) + 3 <= width * height * 3,
        pixel_offset(x1, y1, width, height) == pixel_offset(x2, y2, width, height) <==> (x1 == x2
            && y1 == y2),
{
    assert(0 <= y1 * width + x1 && y1 * width + x1 + 1 <= width * height) by (nonlinear_arith)
        requires
            0 <= x1 < width,
            0 <= y1 < height,
    ;
    if y1 < y2 {
        assert(y1 * width + x1 < y2 * width + x2) by (nonlinear_arith)
            requires
                0 <= x1 < width,
                0 <= x2,
                y1 < y2,
        ;
    } else if y2 < y1 {
        assert(y2 * width + x2 < y1 * width + x1) by (nonlinear_arith)
            requires
                0 <= x2 < width,
                0 <= x1,
                y2 < y1,
        ;
    }
}

/// An image held as rows of pixels with three channels (red, green, blue) each,
/// stored one after the other.
pub struct RTWImage<T> {
    fdata: Vec<T>,
    width: usize,
    height: usize,
}

impl<T> RTWImage<T> {
    /// The width in pixels.
    pub closed spec fn spec_width(&self) -> nat {
        self.width as nat
    }

    /// The height in pixels.
    pub closed spec fn spec_height(&self) -> nat {
        self.height as nat
    }

    /// The channel data, row by row, three channels per pixel.
    pub closed spec fn spec_data(&self) -> Seq<T> {
        self.fdata@
    }

    #[verifier::type_invariant]
    closed spec fn data_matches_size(&self) -> bool {
        self.fdata@.len() == self.width as nat * self.height as nat * 3
    }

    /// An image of the given size holding the given decoded pixel data; an image
    /// without any pixel data is refused.
    pub fn new(width: usize, height: usize, fdata: Vec<T>) -> (res: Result<Self, RtwImageError>)
        requires
            fdata@.len() == width as nat * height as nat * 3,
        ensures
            res is Err <==> fdata@.len() == 0,
            res matches Err(e) ==> e == RtwImageError::Empty,
            res matches Ok(image) ==> {
                &&& image.spec_width() == width
                &&& image.spec_height() == height
                &&& image.spec_data() == fdata@
                &&& width > 0
                &&& height > 0
            },
    {
        let mut image = RTWImage::default();
        let loaded = image.load(width, height, fdata);
        match loaded {
            Ok(()) => {
                proof {
                    if width == 0 || height == 0 {
                        assert(width as nat * height as nat * 3 == 0) by (nonlinear_arith)
                            requires width == 0 || height == 0;
                    }
                }
                Ok(image)
            },
            Err(e) => Err(e),
        }
    }

    /// Takes in decoded pixel data of the given size. The size and the data are
    /// kept whether or not the data is empty; an image without any pixel data is
    /// refused.
    pub fn load(&mut self, width: usize, height: usize, fdata: Vec<T>) -> (res: Result<(), RtwImageError>)
        requires
            fdata@.len() == width as nat * height as nat * 3,
        ensures
            final(self).spec_width() == width,
            final(self).spec_height() == height,
            final(self).spec_data() == fdata@,
            res is Err <==> fdata@.len() == 0,
            res matches Err(e) ==> e == RtwImageError::Empty,
    {
        let empty = fdata.len() == 0;
        *self = RTWImage { fdata, width, height };
        if empty {
            return Err(RtwImageError::Empty);
        }
        Ok(())
    }

    /// The width in pixels.
    pub fn width(&self) -> (w: usize)
        ensures
            w == self.spec_width(),
    {
        self.width
    }

    /// The height in pixels.
    pub fn height(&self) -> (h: usize)
        ensures
            h == self.spec_height(),
    {
        self.height
    }
}

impl<T: Copy> RTWImage<T> {
    /// The three channels of pixel `(x, y)`; a coordinate past the last column or
    /// row reads the last column or row.
    pub fn pixel_data(&self, x: usize, y: usize) -> (rgb: (T, T, T))
        requires
            self.spec_width() > 0,
            self.spec_height() > 0,
        ensures
            ({
                let o = pixel_offset(x as int, y as int, self.spec_width() as int, self.spec_height() as int);
                &&& 0 <= o
                &&& o + 2 < self.spec_data().len()
                &&& rgb == (self.spec_data()[o], self.spec_data()[o + 1], self.spec_data()[o + 2])
            }),
            ({
                let w = self.spec_width() as int;
                let h = self.spec_height() as int;
                let col = if x < w { x as int } else { w - 1 };
                let row = if y < h { y as int } else { h - 1 };
                let d = self.spec_data();
                &&& 0 <= col < w
                &&& 0 <= row < h
                &&& (x < w ==> col == x)
                &&& (x >= w ==> col == w - 1)
                &&& (y < h ==> row == y)
                &&& (y >= h ==> row == h - 1)
                &&& rgb == (d[(row * w + col) * 3], d[(row * w + col) * 3 + 1], d[(row * w + col) * 3 + 2])
            }),
    {
        proof {
            use_type_invariant(self);
        }
        let x = if x > self.width - 1 {
            self.width - 1
        } else {
            x
        };
        let y = if y > self.height - 1 {
            self.height - 1
        } else {
            y
        };
        let total: usize = self.fdata.len();
        proof {
            let w = self.width as int;
            let h = self.height as int;
            assert(y as int * w + x as int + 1 <= w * h) by (nonlinear_arith)
                requires
                    0 <= y <= h - 1,
                    0 <= x <= w - 1,
                    w > 0,
            ;
            assert(w * h * 3 == total);
        }
        let index = (y * self.width + x) * 3;
        (self.fdata[index], self.fdata[index + 1], self.fdata[index + 2])
    }
}

impl<T> Default for RTWImage<T> {
    /// An image of no pixels.
    fn default() -> (image: Self)
        ensures
            image.spec_width() == 0,
            image.spec_height() == 0,
            image.spec_data().len() == 0,
    {
        RTWImage { fdata: Vec::new(), width: 0, height: 0 }
    }
}

} // verus!
