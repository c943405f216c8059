use vstd::arithmetic::div_mod::{
    lemma_fundamental_div_mod, lemma_fundamental_div_mod_converse, lemma_mod_pos_bound,
};
use vstd::prelude::*;

use crate::error::ResizeError;
use crate::image::{lemma_row_major_index, Image, ImageView, Pixel};
use rayon::iter::{IntoParallelIterator, ParallelIterator};

verus! {

/// The largest possible per-pixel sum of squared channel differences:
/// two neighbors, three channels, a difference of at most 255 each.
pub open spec fn max_energy_sum() -> int {
    (2 * 3 * 255 * 255) as int
}

/// Floor integer square root, built up one candidate at a time.
pub open spec fn isqrt(n: int) -> int
    decreases n,
{
    if n <= 0 {
        0
    } else {
        let r = isqrt(n - 1);
        if (r + 1) * (r + 1) <= n {
            r + 1
        } else {
            r
        }
    }
}

/// `isqrt(n)` is the floor of the square root: its square is at most `n`,
/// and the next square is beyond `n`.
pub proof fn lemma_isqrt_bounds(n: int)
    requires
        0 <= n,
    ensures
        0 <= isqrt(n),
        isqrt(n) * isqrt(n) <= n,
        n < (isqrt(n) + 1) * (isqrt(n) + 1),
    decreases n,
{
    if n > 0 {
        lemma_isqrt_bounds(n - 1);
        let r = isqrt(n - 1);
        if (r + 1) * (r + 1) <= n {
            assert(n < (r + 2) * (r + 2)) by (nonlinear_arith)
                requires
                    0 <= r,
                    n - 1 < (r + 1) * (r + 1),
            ;
        }
    }
}

/// Any nonnegative `r` whose square brackets `n` is `isqrt(n)`.
pub proof fn lemma_isqrt_unique(n: int, r: int)
    requires
        0 <= r,
        r * r <= n,
        n < (r + 1) * (r + 1),
    ensures
        r == isqrt(n),
{
    lemma_isqrt_bounds(n);
    let s = isqrt(n);
    assert(r < s ==> (r + 1) * (r + 1) <= s * s) by (nonlinear_arith)
        requires
            0 <= r,
            0 <= s,
    ;
    assert(s < r ==> (s + 1) * (s + 1) <= r * r) by (nonlinear_arith)
        requires
            0 <= r,
            0 <= s,
    ;
}

/// The floor square root never exceeds its argument.
pub proof fn lemma_isqrt_le(n: int)
    requires
        0 <= n,
    ensures
        isqrt(n) <= n,
{
    lemma_isqrt_bounds(n);
    let s = isqrt(n);
    assert(s > n ==> n < s * s) by (nonlinear_arith)
        requires
            0 <= n,
            0 <= s,
    ;
}

/// Floor integer square root of a machine word.
fn isqrt_u32(s: u32) -> (r: u32)
    ensures
        r == isqrt(s as int),
{
    let mut r: u32 = 0;
    while (r as u64 + 1) * (r as u64 + 1) <= s as u64
        invariant
            r <= 0xffff,
            r * r <= s,
            (r + 1) * (r + 1) <= 0x1_0000_0000,
        decreases s - r,
    {
        proof {
            assert((r + 1) * (r + 1) <= s ==> r + 1 <= 0xffff && r + 1 <= s && (r + 2) * (r + 2)
                <= 0x1_0000_0000) by (nonlinear_arith)
                requires
                    0 <= r,
                    s <= u32::MAX,
            ;
        }
        r = r + 1;
    }
    proof {
        lemma_isqrt_unique(s as int, r as int);
    }
    r
}

/// The sum over the three channels of squared differences between two pixels.
pub open spec fn channel_diff_sq(p: Pixel, q: Pixel) -> int {
    (p.r - q.r) * (p.r - q.r) + (p.g - q.g) * (p.g - q.g) + (p.b - q.b) * (p.b - q.b)
}

/// The contributions of the present neighbors, summed.
pub open spec fn energy_sum(left: Option<Pixel>, middle: Pixel, right: Option<Pixel>) -> int {
    (match left {
        Some(p) => channel_diff_sq(p, middle),
        None => 0,
    }) + (match right {
        Some(p) => channel_diff_sq(p, middle),
        None => 0,
    })
}

/// The energy of a pixel: the floor square root of its neighbors' summed
/// squared channel differences.
pub open spec fn pixel_energy(left: Option<Pixel>, middle: Pixel, right: Option<Pixel>) -> int {
    isqrt(energy_sum(left, middle, right))
}

/// The square of an absolute difference of channel values is the squared
/// difference, and it is bounded.
proof fn lemma_abs_diff_sq(a: int, b: int, d: int)
    requires
        0 <= a <= 255,
        0 <= b <= 255,
        d == if a >= b {
            a - b
        } else {
            b - a
        },
    ensures
        d * d == (a - b) * (a - b),
        0 <= d * d <= 255 * 255,
{
    assert(d * d == (a - b) * (a - b) && 0 <= d * d <= 255 * 255) by (nonlinear_arith)
        requires
            0 <= a <= 255,
            0 <= b <= 255,
            d == if a >= b {
                a - b
            } else {
                b - a
            },
    ;
}

/// Squared channel differences of one pixel pair, as a machine word.
fn channel_diff_sq_exec(p: Pixel, q: Pixel) -> (r: u32)
    ensures
        r == channel_diff_sq(p, q),
        r <= 3 * 255 * 255,
{
    let dr: u32 = if p.r >= q.r {
        (p.r - q.r) as u32
    } else {
        (q.r - p.r) as u32
    };
    let dg: u32 = if p.g >= q.g {
        (p.g - q.g) as u32
    } else {
        (q.g - p.g) as u32
    };
    let db: u32 = if p.b >= q.b {
        (p.b - q.b) as u32
    } else {
        (q.b - p.b) as u32
    };
    proof {
        lemma_abs_diff_sq(p.r as int, q.r as int, dr as int);
        lemma_abs_diff_sq(p.g as int, q.g as int, dg as int);
        lemma_abs_diff_sq(p.b as int, q.b as int, db as int);
    }
    dr * dr + dg * dg + db * db
}

/// The energy of one pixel given its optional horizontal neighbors.
pub fn get_pixel_energy(left: Option<Pixel>, middle: Pixel, right: Option<Pixel>) -> (r: u32)
    ensures
        r == pixel_energy(left, middle, right),
{
    let l: u32 = match left {
        Some(p) => channel_diff_sq_exec(p, middle),
        None => 0,
    };
    let rt: u32 = match right {
        Some(p) => channel_diff_sq_exec(p, middle),
        None => 0,
    };
    isqrt_u32(l + rt)
}

/// The left neighbor's pixel, when column `x` has one.
pub open spec fn left_neighbor(v: ImageView, x: int, y: int) -> Option<Pixel> {
    if x > 0 {
        Some(v.rows[y][x - 1])
    } else {
        None
    }
}

/// The right neighbor's pixel, when column `x` has one.
pub open spec fn right_neighbor(v: ImageView, x: int, y: int) -> Option<Pixel> {
    if x + 1 < v.width {
        Some(v.rows[y][x + 1])
    } else {
        None
    }
}

/// The energy of the pixel at `(x, y)`.
pub open spec fn energy_at(v: ImageView, x: int, y: int) -> int {
    pixel_energy(left_neighbor(v, x, y), v.rows[y][x], right_neighbor(v, x, y))
}

/// Every pixel's energy is nonnegative and bounded by the largest
/// possible squared-difference sum.
pub proof fn lemma_energy_at_bounds(v: ImageView, x: int, y: int)
    ensures
        0 <= energy_at(v, x, y) <= max_energy_sum(),
{
    let s = energy_sum(left_neighbor(v, x, y), v.rows[y][x], right_neighbor(v, x, y));
    match left_neighbor(v, x, y) {
        Some(p) => lemma_channel_diff_sq_bounds(p, v.rows[y][x]),
        None => (),
    }
    match right_neighbor(v, x, y) {
        Some(p) => lemma_channel_diff_sq_bounds(p, v.rows[y][x]),
        None => (),
    }
    lemma_isqrt_bounds(s);
    lemma_isqrt_le(s);
}

/// The squared channel differences of a pixel pair are nonnegative and
/// bounded.
pub proof fn lemma_channel_diff_sq_bounds(p: Pixel, q: Pixel)
    ensures
        0 <= channel_diff_sq(p, q) <= 3 * 255 * 255,
{
    let dr = if p.r >= q.r {
        p.r - q.r
    } else {
        q.r - p.r
    };
    let dg = if p.g >= q.g {
        p.g - q.g
    } else {
        q.g - p.g
    };
    let db = if p.b >= q.b {
        p.b - q.b
    } else {
        q.b - p.b
    };
    lemma_abs_diff_sq(p.r as int, q.r as int, dr as int);
    lemma_abs_diff_sq(p.g as int, q.g as int, dg as int);
    lemma_abs_diff_sq(p.b as int, q.b as int, db as int);
}

/// An interior pixel whose channel triplet equals both of its neighbors'
/// has energy zero.
pub proof fn lemma_equal_neighbors_zero_energy(v: ImageView, x: int, y: int)
    requires
        0 < x,
        x + 1 < v.width,
        v.rows[y][x - 1] == v.rows[y][x],
        v.rows[y][x + 1] == v.rows[y][x],
    ensures
        energy_at(v, x, y) == 0,
{
}

/// In a single-column image every pixel's energy is zero: neither
/// horizontal neighbor is present.
pub proof fn lemma_single_column_zero_energy(v: ImageView, y: int)
    requires
        v.width == 1,
    ensures
        energy_at(v, 0, y) == 0,
{
}

/// Mathematical model of an energy map: one value per pixel, row by row.
#[verifier::ext_equal]
pub struct EnergyView {
    pub width: nat,
    pub height: nat,
    pub rows: Seq<Seq<u32>>,
}

impl EnergyView {
    /// The rows match the stated dimensions.
    pub open spec fn wf(self) -> bool {
        &&& self.rows.len() == self.height
        &&& forall|y: int| 0 <= y < self.height ==> (#[trigger] self.rows[y]).len() == self.width
    }
}

/// The model an energy map with the given dimensions presents when its
/// values are laid out row-major in a flat sequence.
pub open spec fn energy_view_of(width: nat, height: nat, data: Seq<u32>) -> EnergyView {
    EnergyView {
        width,
        height,
        rows: Seq::new(height, |y: int| Seq::new(width as nat, |x: int| data[y * width + x])),
    }
}

/// The energy map that an image determines: same dimensions, each cell the
/// energy of the pixel at its coordinate.
pub open spec fn energy_of(v: ImageView) -> EnergyView {
    EnergyView {
        width: v.width,
        height: v.height,
        rows: Seq::new(
            v.height,
            |y: int| Seq::new(v.width, |x: int| energy_at(v, x, y) as u32),
        ),
    }
}

/// A per-pixel importance map: width, height, and a flat row-major buffer.
#[derive(Debug)]
pub struct EnergyMap {
    width: usize,
    height: usize,
    data: Vec<u32>,
}

impl View for EnergyMap {
    type V = EnergyView;

    closed spec fn view(&self) -> EnergyView {
        energy_view_of(self.width as nat, self.height as nat, self.data@)
    }
}

impl EnergyMap {
    /// The buffer length matches the dimensions.
    #[verifier::type_invariant]
    spec fn inv(self) -> bool {
        self.data@.len() == self.width * self.height
    }

    /// Builds an energy map from dimensions and a flat row-major buffer,
    /// rejecting a buffer whose length does not match.
    pub fn from_values(width: usize, height: usize, data: Vec<u32>) -> (r: Result<
        EnergyMap,
        ResizeError,
    >)
        ensures
            r is Ok <==> data@.len() == width * height,
            r is Ok ==> r->Ok_0@ == energy_view_of(width as nat, height as nat, data@),
            r is Err ==> r->Err_0 == ResizeError::InvalidDimensions,
    {
        let len = data.len();
        match width.checked_mul(height) {
            Some(n) => {
                if len == n {
                    Ok(EnergyMap { width, height, data })
                } else {
                    Err(ResizeError::InvalidDimensions)
                }
            },
            None => {
                // The product exceeds usize::MAX, so no buffer can match it.
                assert(len < width * height);
                Err(ResizeError::InvalidDimensions)
            },
        }
    }

    pub fn width(&self) -> (r: usize)
        ensures
            r == self@.width,
            self@.wf(),
    {
        self.width
    }

    pub fn height(&self) -> (r: usize)
        ensures
            r == self@.height,
            self@.wf(),
    {
        self.height
    }

    /// How many values the map holds.
    pub(crate) fn num_values(&self) -> (n: usize)
        ensures
            n == self@.width * self@.height,
    {
        proof {
            use_type_invariant(self);
        }
        self.data.len()
    }

    /// The energy value in column `x` of row `y`.
    pub fn get(&self, x: usize, y: usize) -> (r: u32)
        requires
            x < self@.width,
            y < self@.height,
        ensures
            r == self@.rows[y as int][x as int],
    {
        let n = self.data.len();
        proof {
            use_type_invariant(self);
            lemma_row_major_index(self.width as int, self.height as int, x as int, y as int);
        }
        assert(y * self.width + x < n);
        self.data[y * self.width + x]
    }
}

/// The energy of the pixel at `(x, y)` of the image.
pub(crate) fn pixel_energy_at(img: &Image, x: usize, y: usize) -> (r: u32)
    requires
        x < img@.width,
        y < img@.height,
    ensures
        r == energy_at(img@, x as int, y as int),
{
    let w = img.width();
    let middle = img.get_pixel(x, y);
    let left = if x == 0 {
        None
    } else {
        Some(img.get_pixel(x - 1, y))
    };
    let right = if x + 1 < w {
        Some(img.get_pixel(x + 1, y))
    } else {
        None
    };
    get_pixel_energy(left, middle, right)
}

/// The energy of the pixel at flat row-major index `i` of the image.
pub(crate) fn pixel_energy_at_index(img: &Image, i: usize) -> (r: u32)
    requires
        img@.width > 0,
        i < img@.width * img@.height,
    ensures
        r == energy_at(img@, i as int % img@.width as int, i as int / img@.width as int),
{
    let w = img.width();
    let x = i % w;
    let y = i / w;
    proof {
        lemma_fundamental_div_mod(i as int, w as int);
        lemma_mod_pos_bound(i as int, w as int);
        assert(y < img@.height) by (nonlinear_arith)
            requires
                i as int == (w as int) * ((i as int) / (w as int)) + (i as int) % (w as int),
                0 <= (i as int) % (w as int) < w,
                y == (i as int) / (w as int),
                0 <= i < w * img@.height,
                w == img@.width,
                0 <= y,
        ;
    }
    pixel_energy_at(img, x, y)
}

/// Relies on rayon's `ParallelIterator::map` and `collect` over the indexed
/// range `0..n`: the collected `Vec` keeps index order, so slot `i` holds the
/// image of `i` under the mapped function.
#[verifier::external_body]
fn energies_in_parallel(img: &Image, n: usize) -> (r: Vec<u32>)
    requires
        img@.width > 0,
        n == img@.width * img@.height,
    ensures
        r@.len() == n,
        forall|i: int|
            0 <= i < n ==> r@[i] == energy_at(
                img@,
                i % (img@.width as int),
                i / (img@.width as int),
            ),
{
    (0..n).into_par_iter().map(|i| pixel_energy_at_index(img, i)).collect()
}

/// The energy map of a nondegenerate image.
pub(crate) fn energy_map_of(img: &Image) -> (m: EnergyMap)
    requires
        img@.width > 0,
        img@.height > 0,
    ensures
        m@ == energy_of(img@),
{
    let w = img.width();
    let h = img.height();
    let n = img.num_pixels();
    let data = energies_in_parallel(img, n);
    let m = EnergyMap { width: w, height: h, data };
    proof {
        assert forall|y: int, x: int| 0 <= y < h && 0 <= x < w implies m@.rows[y][x] == energy_of(
            img@,
        ).rows[y][x] by {
            lemma_row_major_index(w as int, h as int, x, y);
            lemma_fundamental_div_mod_converse((y * w + x) as int, w as int, y, x);
            lemma_energy_at_bounds(img@, x, y);
        }
        assert(m@.rows =~~= energy_of(img@).rows);
        assert(m@ =~= energy_of(img@));
    }
    m
}

/// The per-pixel importance map of the image: same width and height, the
/// energy of each pixel at its coordinate. A zero width or height is
/// rejected as degenerate.
pub fn calculate_energy_map(img: &Image) -> (r: Result<EnergyMap, ResizeError>)
    ensures
        r is Ok <==> img@.width > 0 && img@.height > 0,
        r is Ok ==> r->Ok_0@ == energy_of(img@),
        r is Err ==> r->Err_0 == ResizeError::DegenerateImage,
{
    let w = img.width();
    let h = img.height();
    if w == 0 || h == 0 {
        Err(ResizeError::DegenerateImage)
    } else {
        Ok(energy_map_of(img))
    }
}

} // verus!
