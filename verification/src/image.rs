use vstd::prelude::*;

use crate::error::ResizeError;

verus! {

/// One pixel: three 8-bit colour channels.
#[derive(Clone, Copy, PartialEq, Eq, Structural, Debug)]
pub struct Pixel {
    pub r: u8,
    pub g: u8,
    pub b: u8,
}

/// Mathematical model of an image: a rectangle of pixels, row by row.
#[verifier::ext_equal]
pub struct ImageView {
    pub width: nat,
    pub height: nat,
    pub rows: Seq<Seq<Pixel>>,
}

impl ImageView {
    /// The rows match the stated dimensions.
    pub open spec fn wf(self) -> bool {
        &&& self.rows.len() == self.height
        &&& forall|y: int| 0 <= y < self.height ==> (#[trigger] self.rows[y]).len() == self.width
    }
}

/// The model an image with the given dimensions presents when its pixels are
/// laid out row-major in a flat sequence.
pub open spec fn image_view_of(width: nat, height: nat, data: Seq<Pixel>) -> ImageView {
    ImageView {
        width,
        height,
        rows: Seq::new(height, |y: int| Seq::new(width as nat, |x: int| data[y * width + x])),
    }
}

/// A flat row-major index stays below the buffer length.
pub proof fn lemma_row_major_index(w: int, h: int, x: int, y: int)
    requires
        0 <= x < w,
        0 <= y < h,
    ensures
        0 <= y * w + x < h * w,
        y * w + x < w * h,
{
    assert(0 <= y * w + x < h * w && y * w + x < w * h) by (nonlinear_arith)
        requires
            0 <= x < w,
            0 <= y < h,
    ;
}

/// Distinct in-range coordinates have distinct flat row-major indices.
pub proof fn lemma_row_major_injective(w: int, x1: int, y1: int, x2: int, y2: int)
    requires
        0 <= x1 < w,
        0 <= x2 < w,
        0 <= y1,
        0 <= y2,
        y1 * w + x1 == y2 * w + x2,
    ensures
        x1 == x2,
        y1 == y2,
{
    assert(x1 == x2 && y1 == y2) by (nonlinear_arith)
        requires
            0 <= x1 < w,
            0 <= x2 < w,
            0 <= y1,
            0 <= y2,
            y1 * w + x1 == y2 * w + x2,
    ;
}

/// A colour image: width, height, and a flat row-major pixel buffer.
#[derive(Debug)]
pub struct Image {
    width: usize,
    height: usize,
    data: Vec<Pixel>,
}

impl View for Image {
    type V = ImageView;

    closed spec fn view(&self) -> ImageView {
        image_view_of(self.width as nat, self.height as nat, self.data@)
    }
}

impl Image {
    /// The buffer length matches the dimensions.
    #[verifier::type_invariant]
    spec fn inv(self) -> bool {
        self.data@.len() == self.width * self.height
    }

    /// Builds an image from dimensions and a flat row-major buffer, rejecting
    /// a buffer whose length does not match.
    pub fn from_pixels(width: usize, height: usize, data: Vec<Pixel>) -> (r: Result<
        Image,
        ResizeError,
    >)
        ensures
            r is Ok <==> data@.len() == width * height,
            r is Ok ==> r->Ok_0@ == image_view_of(width as nat, height as nat, data@),
            r is Err ==> r->Err_0 == ResizeError::InvalidDimensions,
    {
        let len = data.len();
        match width.checked_mul(height) {
            Some(n) => {
                if len == n {
                    Ok(Image { width, height, data })
                } else {
                    Err(ResizeError::InvalidDimensions)
                }
            },
            None => {
                // The product exceeds usize::MAX, so no buffer can match it.
                assert(len < width * height);
                Err(ResizeError::InvalidDimensions)
            },
        }
    }

    /// Builds an image from a buffer already known to match the dimensions.
    pub(crate) fn from_pixels_exact(width: usize, height: usize, data: Vec<Pixel>) -> (r: Image)
        requires
            data@.len() == width * height,
        ensures
            r@ == image_view_of(width as nat, height as nat, data@),
    {
        Image { width, height, data }
    }

    pub fn width(&self) -> (r: usize)
        ensures
            r == self@.width,
            self@.wf(),
    {
        self.width
    }

    pub fn height(&self) -> (r: usize)
        ensures
            r == self@.height,
            self@.wf(),
    {
        self.height
    }

    /// How many pixels the image holds.
    pub fn num_pixels(&self) -> (n: usize)
        ensures
            n == self@.width * self@.height,
    {
        proof {
            use_type_invariant(self);
        }
        self.data.len()
    }

    /// The pixel in column `x` of row `y`.
    pub fn get_pixel(&self, x: usize, y: usize) -> (p: Pixel)
        requires
            x < self@.width,
            y < self@.height,
        ensures
            p == self@.rows[y as int][x as int],
    {
        let n = self.data.len();
        proof {
            use_type_invariant(self);
            lemma_row_major_index(self.width as int, self.height as int, x as int, y as int);
        }
        assert(y * self.width + x < n);
        self.data[y * self.width + x]
    }

    /// A copy of the image with the same model.
    pub fn duplicate(&self) -> (r: Image)
        ensures
            r@ == self@,
    {
        proof {
            use_type_invariant(self);
        }
        let n = self.data.len();
        let mut d: Vec<Pixel> = Vec::new();
        for i in 0..n
            invariant
                n == self.data@.len(),
                d@.len() == i,
                forall|j: int| 0 <= j < i ==> d@[j] == self.data@[j],
        {
            d.push(self.data[i]);
        }
        proof {
            assert(d@ =~= self.data@);
        }
        Image { width: self.width, height: self.height, data: d }
    }
}

} // verus!
