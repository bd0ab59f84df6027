use vstd::prelude::*;
use crate::rtw_image::{pixel_offset, RTWImage, RtwImageError};

verus! {

/// A texture of one color everywhere.
pub struct SolidColor<C> {
    albedo: C,
}

impl<C> SolidColor<C> {
    /// The color of the texture.
    pub closed spec fn spec_albedo(&self) -> C {
        self.albedo
    }

    /// The texture of the given color.
    pub fn from(albedo: C) -> (t: Self)
        ensures
            t.spec_albedo() == albedo,
    {
        SolidColor { albedo }
    }

    /// The color of the texture, the same at every point.
    pub fn value(&self) -> (c: &C)
        ensures
            *c == self.spec_albedo(),
    {
        &self.albedo
    }
}

/// Whether the checker cell with integer coordinates `(x, y, z)` takes the even
/// texture: exactly when the sum of its coordinates is even.
pub open spec fn checker_cell_is_even(x: int, y: int, z: int) -> bool {
    (x + y + z) % 2 == 0
}

/// Moving to a neighbouring cell along any axis flips the checker color.
pub proof fn lemma_checker_alternates(x: int, y: int, z: int)
    ensures
        checker_cell_is_even(x + 1, y, z) != checker_cell_is_even(x, y, z),
        checker_cell_is_even(x, y + 1, z) != checker_cell_is_even(x, y, z),
        checker_cell_is_even(x, y, z + 1) != checker_cell_is_even(x, y, z),
{
    vstd::arithmetic::div_mod::lemma_add_mod_noop(x + y + z, 1, 2);
}

/// The parity bit of `x` is `x` modulo 2.
proof fn lemma_low_bit(x: isize)
    ensures
        (x & 1) as int == x as int % 2,
        0 <= (x & 1) <= 1,
{
    assert(0 <= (x & 1isize) <= 1) by (bit_vector);
    assert((x >> 1isize) * 2 + (x & 1) == x) by (bit_vector);
    vstd::arithmetic::div_mod::lemma_fundamental_div_mod_converse(
        x as int,
        2,
        (x >> 1isize) as int,
        (x & 1) as int,
    );
}

/// Whether the checker cell `(x, y, z)` takes the even texture. The sum of the
/// coordinates is never formed, so no coordinates overflow.
pub fn checker_is_even(x: isize, y: isize, z: isize) -> (even: bool)
    ensures
        even == checker_cell_is_even(x as int, y as int, z as int),
{
    proof {
        lemma_low_bit(x);
        lemma_low_bit(y);
        lemma_low_bit(z);
        vstd::arithmetic::div_mod::lemma_add_mod_noop(x as int, y as int, 2);
        vstd::arithmetic::div_mod::lemma_add_mod_noop(x as int + y as int, z as int, 2);
        vstd::arithmetic::div_mod::lemma_add_mod_noop(x as int % 2, y as int % 2, 2);
    }
    let bits: usize = ((x & 1) + (y & 1) + (z & 1)) as usize;
    bits % 2 == 0
}

/// A texture that reads its colors from an image.
pub struct ImageTexture<T> {
    image: RTWImage<T>,
}

impl<T> ImageTexture<T> {
    /// The image the texture reads.
    pub closed spec fn spec_image(&self) -> RTWImage<T> {
        self.image
    }

    #[verifier::type_invariant]
    closed spec fn image_not_empty(&self) -> bool {
        self.image.spec_width() > 0 && self.image.spec_height() > 0
    }

    /// A texture over the image of the given size and decoded pixel data; an
    /// image without pixel data is refused.
    pub fn new(width: usize, height: usize, fdata: Vec<T>) -> (res: Result<Self, RtwImageError>)
        requires
            fdata@.len() == width as nat * height as nat * 3,
        ensures
            res is Err <==> fdata@.len() == 0,
            res matches Err(e) ==> e == RtwImageError::Empty,
            res matches Ok(t) ==> {
                &&& t.spec_image().spec_width() == width
                &&& t.spec_image().spec_height() == height
                &&& t.spec_image().spec_data() == fdata@
            },
    {
        let image = RTWImage::new(width, height, fdata)?;
        Ok(ImageTexture { image })
    }

    /// The image the texture reads.
    pub fn image(&self) -> (image: &RTWImage<T>)
        ensures
            *image == self.spec_image(),
    {
        &self.image
    }
}

impl<T: Copy> ImageTexture<T> {
    /// The channels of texel `(i, j)` (column, row, clamped to the image), or
    /// `None` when the image has no rows.
    pub fn texel(&self, i: usize, j: usize) -> (rgb: Option<(T, T, T)>)
        ensures
            self.spec_image().spec_height() == 0 ==> rgb is None,
            self.spec_image().spec_height() > 0 ==> (rgb matches Some(c) && {
                let img = self.spec_image();
                let o = pixel_offset(i as int, j as int, img.spec_width() as int, img.spec_height() as int);
                &&& 0 <= o
                &&& o + 2 < img.spec_data().len()
                &&& c == (img.spec_data()[o], img.spec_data()[o + 1], img.spec_data()[o + 2])
            }),
    {
        proof {
            use_type_invariant(self);
        }
        if self.image.height() == 0 {
            return None;
        }
        Some(self.image.pixel_data(i, j))
    }
}

} // verus!
