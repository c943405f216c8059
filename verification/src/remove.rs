use vstd::prelude::*;

use crate::error::ResizeError;
use crate::image::{Image, ImageView, Pixel};
use crate::seam::Seam;

verus! {

/// Whether a seam fits an image: exactly one column per row, each within
/// the width, which must be at least one for a seam to exist at all.
pub open spec fn seam_fits(xs: Seq<usize>, v: ImageView) -> bool {
    &&& v.width >= 1
    &&& xs.len() == v.height
    &&& forall|y: int| 0 <= y < xs.len() ==> (xs[y] as int) < v.width
}

/// The image left when the seam's pixel is excised from each row: width one
/// less, height unchanged, row order and within-row order kept.
pub open spec fn remove_model(v: ImageView, xs: Seq<usize>) -> ImageView {
    ImageView {
        width: (v.width - 1) as nat,
        height: v.height,
        rows: Seq::new(v.height, |y: int| v.rows[y].remove(xs[y] as int)),
    }
}

/// Excises a fitting seam from the image, one pixel per row.
#[verifier::loop_isolation(false)]
pub(crate) fn remove_seam_inner(img: &Image, seam: &Seam) -> (r: Image)
    requires
        seam_fits(seam@, img@),
    ensures
        r@ == remove_model(img@, seam@),
{
    let w = img.width();
    let h = img.height();
    let ghost v = img@;
    let ghost out = remove_model(img@, seam@);
    let mut data: Vec<Pixel> = Vec::new();
    for y in 0..h
        invariant
            data@.len() == y * (w - 1),
            forall|yy: int, xx: int|
                0 <= yy < y && 0 <= xx < w - 1 ==> data@[yy * (w - 1) + xx] == out.rows[yy][xx],
    {
        let ghost row_start = data@.len() as int;
        let ghost prefix = data@;
        let sx = seam.column(y);
        proof {
            v.rows[y as int].remove_ensures(sx as int);
        }
        // The pixels to the left of the seam, in order.
        for x in 0..sx
            invariant
                sx < w,
                data@.len() == row_start + x,
                forall|i: int| 0 <= i < row_start ==> data@[i] == prefix[i],
                forall|xx: int| 0 <= xx < x ==> data@[row_start + xx] == v.rows[y as int][xx],
        {
            data.push(img.get_pixel(x, y));
        }
        // The pixels to its right, shifted one position left.
        let mut x = sx + 1;
        while x < w
            invariant
                sx < w,
                x >= sx + 1,
                x <= w,
                data@.len() == row_start + x - 1,
                forall|i: int| 0 <= i < row_start ==> data@[i] == prefix[i],
                forall|xx: int| 0 <= xx < sx ==> data@[row_start + xx] == v.rows[y as int][xx],
                forall|xx: int|
                    sx <= xx < x - 1 ==> #[trigger] data@[row_start + xx] == v.rows[y as int][xx
                        + 1],
            decreases w - x,
        {
            data.push(img.get_pixel(x, y));
            x = x + 1;
        }
        proof {
            assert(data@.len() == row_start + (w - 1));
            assert((y + 1) * (w as int - 1) == y * (w as int - 1) + (w - 1)) by (nonlinear_arith);
            assert forall|yy: int, xx: int|
                0 <= yy < y + 1 && 0 <= xx < w - 1 implies data@[yy * (w - 1) + xx]
                == out.rows[yy][xx] by {
                if yy == y {
                    assert(yy * (w as int - 1) == row_start) by (nonlinear_arith)
                        requires
                            yy == y,
                            row_start == y * (w as int - 1),
                    ;
                    assert(data@[row_start + xx] == out.rows[yy][xx]);
                } else {
                    let i = yy * (w as int - 1) + xx;
                    assert(0 <= i && i < row_start) by (nonlinear_arith)
                        requires
                            0 <= xx < w - 1,
                            0 <= yy < y,
                            i == yy * (w as int - 1) + xx,
                            row_start == y * (w as int - 1),
                    ;
                    assert(data@[i] == prefix[i]);
                    assert(prefix[i] == out.rows[yy][xx]);
                }
            }
        }
    }
    proof {
        assert(data@.len() == h * (w as int - 1));
        assert((w as int - 1) * (h as int) == h as int * (w as int - 1)) by (nonlinear_arith);
    }
    let r = Image::from_pixels_exact(w - 1, h, data);
    proof {
        assert forall|yy: int| 0 <= yy < h implies r@.rows[yy] =~= out.rows[yy] by {
            assert forall|xx: int| 0 <= xx < w - 1 implies r@.rows[yy][xx] == out.rows[yy][xx] by {
                assert(data@[yy * (w as int - 1) + xx] == out.rows[yy][xx]);
            }
        }
        assert(r@.rows =~~= out.rows);
        assert(r@ =~= out);
    }
    r
}

/// A new image with the seam's pixels excised: width exactly one less, the
/// same height, each row losing exactly the seam's one pixel for that row
/// and keeping every other pixel in order. A seam whose row count is not
/// the image height, or with any out-of-bounds coordinate, is rejected.
#[verifier::loop_isolation(false)]
pub fn delete_seam(img: &Image, seam: &Seam) -> (r: Result<Image, ResizeError>)
    ensures
        r is Ok <==> seam_fits(seam@, img@),
        r is Ok ==> r->Ok_0@ == remove_model(img@, seam@),
        r is Ok ==> r->Ok_0@.width == img@.width - 1 && r->Ok_0@.height == img@.height,
        r is Ok ==> forall|y: int|
            0 <= y < img@.height ==> r->Ok_0@.rows[y] == img@.rows[y].remove(seam@[y] as int),
        r is Err ==> r->Err_0 == ResizeError::MalformedSeam,
{
    let w = img.width();
    let h = img.height();
    if w == 0 || seam.len() != h {
        return Err(ResizeError::MalformedSeam);
    }
    let mut y: usize = 0;
    while y < h
        invariant
            y <= h,
            forall|yy: int| 0 <= yy < y ==> (seam@[yy] as int) < img@.width,
        decreases h - y,
    {
        if seam.column(y) >= w {
            return Err(ResizeError::MalformedSeam);
        }
        y = y + 1;
    }
    Ok(remove_seam_inner(img, seam))
}

} // verus!
