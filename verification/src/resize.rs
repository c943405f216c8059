use vstd::prelude::*;

use crate::energy::{energy_map_of, energy_of};
use crate::error::ResizeError;
use crate::image::{Image, ImageView};
use crate::remove::{remove_model, remove_seam_inner, seam_fits};
use crate::seam::{find_low_energy_seam, lemma_seam_col_in_range, seam_of};

verus! {

/// One iteration of the engine: the image with the minimum seam of its
/// energy map excised.
pub open spec fn carve(v: ImageView) -> ImageView {
    remove_model(v, seam_of(energy_of(v)))
}

/// The image left after `k` iterations of carving.
pub open spec fn resize_model(v: ImageView, k: nat) -> ImageView
    decreases k,
{
    if k == 0 {
        v
    } else {
        carve(resize_model(v, (k - 1) as nat))
    }
}

/// The minimum seam of a nondegenerate image fits it.
pub proof fn lemma_min_seam_fits(v: ImageView)
    requires
        v.wf(),
        v.width >= 1,
        v.height >= 1,
    ensures
        seam_fits(seam_of(energy_of(v)), v),
{
    let e = energy_of(v);
    let xs = seam_of(e);
    assert forall|y: int| 0 <= y < xs.len() implies (xs[y] as int) < v.width by {
        lemma_seam_col_in_range(e, y);
    }
}

/// Carving preserves well-formedness, keeps the height, and narrows the
/// image by exactly one column.
pub proof fn lemma_carve_wf(v: ImageView)
    requires
        v.wf(),
        v.width >= 1,
        v.height >= 1,
    ensures
        carve(v).wf(),
        carve(v).width == v.width - 1,
        carve(v).height == v.height,
{
    let e = energy_of(v);
    let xs = seam_of(e);
    lemma_min_seam_fits(v);
    assert forall|y: int| 0 <= y < v.height implies (#[trigger] carve(v).rows[y]).len() == v.width
        - 1 by {
        lemma_seam_col_in_range(e, y);
        v.rows[y].remove_ensures(xs[y] as int);
    }
}

/// Determinism: the carved result is a function of the image and the
/// iteration count alone, with no other input; two runs from equal images
/// yield equal results.
pub proof fn lemma_resize_deterministic(v1: ImageView, v2: ImageView, k: nat)
    requires
        v1 == v2,
    ensures
        resize_model(v1, k) == resize_model(v2, k),
{
}

/// One full iteration: energy map, minimum seam, seam removal. Only a
/// nondegenerate image can be carved.
pub fn carve_one_seam(img: &Image) -> (r: Result<Image, ResizeError>)
    ensures
        r is Ok <==> img@.width > 0 && img@.height > 0,
        r is Ok ==> r->Ok_0@ == carve(img@),
        r is Err ==> r->Err_0 == ResizeError::DegenerateImage,
{
    let w = img.width();
    let h = img.height();
    if w == 0 || h == 0 {
        return Err(ResizeError::DegenerateImage);
    }
    let em = energy_map_of(img);
    let seam = find_low_energy_seam(&em);
    proof {
        lemma_min_seam_fits(img@);
    }
    Ok(remove_seam_inner(img, &seam))
}

/// Content-aware width reduction: carves one lowest-energy vertical seam
/// per unit of width to remove, feeding each result into the next
/// iteration. A target equal to the current width returns the image
/// unchanged; a larger target is rejected, as is carving an image with no
/// rows.
#[verifier::loop_isolation(false)]
pub fn resize_image_width(img: &Image, to_width: usize) -> (r: Result<Image, ResizeError>)
    ensures
        r is Ok <==> to_width == img@.width || (to_width < img@.width && img@.height > 0),
        r is Ok ==> r->Ok_0@ == resize_model(img@, (img@.width - to_width) as nat),
        r is Ok ==> r->Ok_0@.width == to_width && r->Ok_0@.height == img@.height,
        to_width > img@.width ==> r == Err::<Image, ResizeError>(ResizeError::UpsampleRejected),
        to_width < img@.width && img@.height == 0 ==> r == Err::<Image, ResizeError>(
            ResizeError::DegenerateImage,
        ),
{
    let w = img.width();
    let h = img.height();
    if to_width > w {
        return Err(ResizeError::UpsampleRejected);
    }
    if to_width < w && h == 0 {
        return Err(ResizeError::DegenerateImage);
    }
    let n = w - to_width;
    let mut cur = img.duplicate();
    for i in 0..n
        invariant
            cur@ == resize_model(img@, i as nat),
            cur@.wf(),
            cur@.width == w - i,
            cur@.height == h,
            n > 0 ==> h >= 1,
    {
        let em = energy_map_of(&cur);
        let seam = find_low_energy_seam(&em);
        proof {
            lemma_min_seam_fits(cur@);
        }
        cur = remove_seam_inner(&cur, &seam);
        proof {
            lemma_carve_wf(resize_model(img@, i as nat));
        }
    }
    Ok(cur)
}

} // verus!
