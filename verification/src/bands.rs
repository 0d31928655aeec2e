//! Partitioning of the output buffer into contiguous row bands, one per
//! worker: the bands are pairwise disjoint and together cover every row,
//! which is what makes lock-free concurrent writes to the shared buffer
//! safe, and what makes the rendered image independent of the worker count.

use vstd::prelude::*;
use vstd::arithmetic::div_mod::lemma_fundamental_div_mod;
use vstd::arithmetic::mul::lemma_mul_inequality;

verus! {

/// A contiguous row range `top .. top + height` of the output buffer,
/// exclusively owned by one worker for the duration of a render.
#[derive(Clone, Copy, Debug, PartialEq, Eq, Structural)]
pub struct Band {
    pub top: usize,
    pub height: usize,
}

/// The row past the last row of the band.
pub open spec fn band_end(b: Band) -> int {
    b.top + b.height
}

/// The band owns this row.
pub open spec fn band_covers(b: Band, row: int) -> bool {
    b.top <= row < band_end(b)
}

/// The bands tile `0 .. total` consecutively: the first starts at row 0,
/// each band starts where the previous one ends, the last ends at `total`,
/// and no band is empty.
pub open spec fn bands_tile(bands: Seq<Band>, total: int) -> bool {
    &&& (bands.len() == 0 ==> total == 0)
    &&& (bands.len() > 0 ==> bands[0].top == 0)
    &&& (bands.len() > 0 ==> band_end(bands.last()) == total)
    &&& (forall|i: int|
        #![trigger bands[i]]
        0 <= i < bands.len() - 1 ==> bands[i + 1].top == band_end(bands[i]))
    &&& (forall|i: int| #![trigger bands[i]] 0 <= i < bands.len() ==> bands[i].height > 0)
}

/// How many rows each band gets: the height divided by the worker count,
/// rounded up, so that the bands never outnumber the workers.
pub open spec fn spec_rows_per_band(height: int, workers: int) -> int
    recommends
        workers >= 1,
{
    if height % workers == 0 {
        height / workers
    } else {
        height / workers + 1
    }
}

/// In a tiling, a band ends no later than a later band begins.
proof fn lemma_tile_ordered(bands: Seq<Band>, total: int, i: int, j: int)
    requires
        bands_tile(bands, total),
        0 <= i < j < bands.len(),
    ensures
        band_end(bands[i]) <= bands[j].top,
    decreases j - i,
{
    if j == i + 1 {
        assert(bands[i + 1].top == band_end(bands[i]));
    } else {
        lemma_tile_ordered(bands, total, i, j - 1);
        assert(bands[j].top == band_end(bands[j - 1]));
    }
}

/// In a tiling of `0 .. total`, every band lies inside `0 .. total`.
proof fn lemma_tile_in_range(bands: Seq<Band>, total: int, i: int)
    requires
        bands_tile(bands, total),
        0 <= i < bands.len(),
    ensures
        0 <= bands[i].top,
        band_end(bands[i]) <= total,
{
    if i > 0 {
        lemma_tile_ordered(bands, total, 0, i);
    }
    if i < bands.len() - 1 {
        lemma_tile_ordered(bands, total, i, bands.len() - 1);
        assert(band_end(bands.last()) == total);
    }
}

/// In a tiling of `0 .. total`, every row of `0 .. total` lies in some band.
proof fn lemma_tile_covers(bands: Seq<Band>, total: int, row: int)
    requires
        bands_tile(bands, total),
        0 <= row < total,
    ensures
        exists|i: int| 0 <= i < bands.len() && band_covers(#[trigger] bands[i], row),
    decreases bands.len(),
{
    let n = bands.len() as int;
    if row >= bands.last().top {
        assert(band_covers(bands[n - 1], row));
    } else {
        let prefix = bands.take(n - 1);
        let total2 = bands.last().top as int;
        assert(bands_tile(prefix, total2)) by {
            assert(forall|i: int| 0 <= i < prefix.len() ==> prefix[i] == bands[i]);
            if n >= 2 {
                assert(bands[(n - 2) + 1].top == band_end(bands[n - 2]));
            }
        }
        lemma_tile_covers(prefix, total2, row);
        let i = choose|i: int| 0 <= i < prefix.len() && band_covers(#[trigger] prefix[i], row);
        assert(band_covers(bands[i], row));
    }
}

/// Some band owns this row.
pub open spec fn some_band_covers(bands: Seq<Band>, row: int) -> bool {
    exists|i: int| 0 <= i < bands.len() && band_covers(#[trigger] bands[i], row)
}

/// A tiling is a partition: the bands' row ranges stay within `0 .. total`,
/// are pairwise disjoint, and together cover all of `0 .. total`.
pub proof fn lemma_bands_partition(bands: Seq<Band>, total: int)
    requires
        bands_tile(bands, total),
    ensures
        forall|i: int, row: int|
            0 <= i < bands.len() && #[trigger] band_covers(bands[i], row) ==> 0 <= row < total,
        forall|row: int| 0 <= row < total ==> #[trigger] some_band_covers(bands, row),
        forall|i: int, j: int, row: int|
            0 <= i < bands.len() && 0 <= j < bands.len() && i != j && #[trigger] band_covers(
                bands[i],
                row,
            ) ==> !(#[trigger] band_covers(bands[j], row)),
{
    assert forall|i: int, row: int|
        0 <= i < bands.len() && #[trigger] band_covers(bands[i], row) implies 0 <= row
        < total by {
        lemma_tile_in_range(bands, total, i);
    }
    assert forall|row: int| 0 <= row < total implies #[trigger] some_band_covers(bands, row) by {
        lemma_tile_covers(bands, total, row);
    }
    assert forall|i: int, j: int, row: int|
        0 <= i < bands.len() && 0 <= j < bands.len() && i != j && #[trigger] band_covers(
            bands[i],
            row,
        ) implies !(#[trigger] band_covers(bands[j], row)) by {
        if i < j {
            lemma_tile_ordered(bands, total, i, j);
        } else {
            lemma_tile_ordered(bands, total, j, i);
        }
    }
}

/// Split `height` rows into consecutive bands of `ceil(height / workers)`
/// rows each, the last band possibly shorter: the bands tile `0 .. height`
/// (hence are pairwise disjoint and cover every row), and there are at
/// most `workers` of them, and none at all only for an empty image.
pub fn band_ranges(height: usize, workers: usize) -> (bands: Vec<Band>)
    requires
        workers >= 1,
    ensures
        bands_tile(bands@, height as int),
        bands@.len() <= workers,
        bands@.len() > 0 <==> height > 0,
        forall|i: int|
            #![trigger bands@[i]]
            0 <= i < bands@.len() ==> bands@[i].top == i * spec_rows_per_band(
                height as int,
                workers as int,
            ),
        forall|i: int|
            #![trigger bands@[i]]
            0 <= i < bands@.len() - 1 ==> bands@[i].height == spec_rows_per_band(
                height as int,
                workers as int,
            ),
        forall|i: int|
            #![trigger bands@[i]]
            0 <= i < bands@.len() ==> bands@[i].height <= spec_rows_per_band(
                height as int,
                workers as int,
            ),
{
    let rpb = rows_per_band(height, workers);
    let ghost rpbi = rpb as int;
    let mut bands: Vec<Band> = Vec::new();
    let mut top: usize = 0;
    while top < height
        invariant
            workers >= 1,
            rpbi == rpb as int,
            rpbi == spec_rows_per_band(height as int, workers as int),
            height > 0 ==> rpbi >= 1,
            height as int <= rpbi * (workers as int),
            top <= height,
            bands@.len() == 0 ==> top == 0,
            bands@.len() > 0 ==> bands@[0].top == 0,
            bands@.len() > 0 ==> band_end(bands@.last()) == top as int,
            forall|i: int|
                #![trigger bands@[i]]
                0 <= i < bands@.len() - 1 ==> bands@[i + 1].top == band_end(bands@[i]),
            forall|i: int| #![trigger bands@[i]] 0 <= i < bands@.len() ==> bands@[i].height > 0,
            forall|i: int|
                #![trigger bands@[i]]
                0 <= i < bands@.len() ==> bands@[i].height <= rpbi,
            forall|i: int|
                #![trigger bands@[i]]
                0 <= i < bands@.len() - 1 ==> bands@[i].height == rpbi,
            bands@.len() > 0 ==> (bands@.last().height < rpbi ==> top == height),
            forall|i: int| #![trigger bands@[i]] 0 <= i < bands@.len() ==> bands@[i].top == i * rpbi,
        decreases height - top,
    {
        let remaining = height - top;
        let h = if remaining < rpb {
            remaining
        } else {
            rpb
        };
        let ghost old_bands = bands@;
        let ghost old_len = bands@.len() as int;
        proof {
            if old_len > 0 {
                // The previous band is full, so the new band starts right at
                // the next multiple of the band size.
                assert(old_bands.last().height == rpbi);
                assert((old_len - 1) * rpbi + rpbi == old_len * rpbi) by (nonlinear_arith);
            }
        }
        bands.push(Band { top, height: h });
        top = top + h;
        proof {
            assert(forall|i: int| #![trigger bands@[i]] 0 <= i < old_len ==> bands@[i]
                == old_bands[i]);
            assert(bands@[old_len] == Band { top: (top - h) as usize, height: h });
            if old_len == 0 {
                assert(0 * rpbi == 0) by (nonlinear_arith);
            }
        }
    }
    proof {
        if bands@.len() > 0 {
            let n = bands@.len() as int;
            // At most `workers` bands: the full bands before the last one
            // already cover `(n - 1) * rpb` rows, and a row remains for the
            // last band, so `(n - 1) * rpb < height <= workers * rpb`.
            assert((n - 1) * rpbi < height as int);
            if n - 1 >= workers as int {
                lemma_mul_inequality(workers as int, n - 1, rpbi);
                assert((workers as int) * rpbi <= (n - 1) * rpbi);
                assert(rpbi * (workers as int) == (workers as int) * rpbi) by (nonlinear_arith);
            }
        }
    }
    bands
}

/// The rows of the ideal image that band `b` owns, as bytes: rows are
/// `width` bytes each, in row-major order.
pub open spec fn band_rows(img: Seq<u8>, width: int, b: Band) -> Seq<u8> {
    img.subrange(b.top * width, band_end(b) * width)
}

/// The buffer that results when each worker writes its own band's rows of
/// the ideal image and the bands are laid out in order.
pub open spec fn assemble(img: Seq<u8>, width: int, bands: Seq<Band>) -> Seq<u8>
    decreases bands.len(),
{
    if bands.len() == 0 {
        Seq::empty()
    } else {
        band_rows(img, width, bands[0]) + assemble(img, width, bands.drop_first())
    }
}

/// The first row owned by the bands from index `k` on.
spec fn tile_start(bands: Seq<Band>, total: int, k: int) -> int {
    if k < bands.len() {
        bands[k].top as int
    } else {
        total
    }
}

/// Assembling the bands from index `k` on yields exactly the bytes of the
/// rows from `tile_start(bands, total, k)` to the end of the image.
proof fn lemma_assemble_from(img: Seq<u8>, width: int, bands: Seq<Band>, total: int, k: int)
    requires
        width >= 0,
        bands_tile(bands, total),
        img.len() == total * width,
        0 <= k <= bands.len(),
    ensures
        assemble(img, width, bands.skip(k)) == img.subrange(
            tile_start(bands, total, k) * width,
            total * width,
        ),
    decreases bands.len() - k,
{
    if k == bands.len() {
        assert(bands.skip(k) =~= Seq::<Band>::empty());
        assert(assemble(img, width, bands.skip(k)) =~= img.subrange(total * width, total * width));
    } else {
        let s = bands.skip(k);
        assert(s[0] == bands[k]);
        assert(s.drop_first() =~= bands.skip(k + 1));
        lemma_assemble_from(img, width, bands, total, k + 1);
        lemma_tile_in_range(bands, total, k);
        let a = bands[k].top as int;
        let e = band_end(bands[k]);
        assert(tile_start(bands, total, k + 1) == e) by {
            if k + 1 < bands.len() {
                assert(bands[k + 1].top == band_end(bands[k]));
            }
        }
        lemma_mul_inequality(0, a, width);
        lemma_mul_inequality(a, e, width);
        lemma_mul_inequality(e, total, width);
        assert(0 * width == 0) by (nonlinear_arith);
        assert(img.subrange(a * width, e * width) + img.subrange(e * width, total * width)
            =~= img.subrange(a * width, total * width));
    }
}

/// The buffer a render produces does not depend on how the rows were
/// split into bands: writing each band's rows of the ideal image and
/// laying the bands out in order reconstructs exactly the ideal image,
/// whatever the tiling.
pub proof fn lemma_assemble_complete(img: Seq<u8>, width: int, bands: Seq<Band>, total: int)
    requires
        width >= 0,
        bands_tile(bands, total),
        img.len() == total * width,
    ensures
        assemble(img, width, bands) == img,
{
    lemma_assemble_from(img, width, bands, total, 0);
    assert(bands.skip(0) =~= bands);
    if bands.len() == 0 {
        assert(total * width == 0) by (nonlinear_arith)
            requires
                total == 0,
        ;
        assert(assemble(img, width, bands) =~= img);
    } else {
        assert(tile_start(bands, total, 0) * width == 0) by (nonlinear_arith)
            requires
                tile_start(bands, total, 0) == 0,
        ;
        assert(img.subrange(0, total * width) =~= img);
    }
}

/// Rendering is deterministic across worker counts: two renders of the
/// same ideal image whose row partitions differ — one band per worker,
/// however many workers each — produce identical buffers.
pub proof fn lemma_render_deterministic(
    img: Seq<u8>,
    width: int,
    total: int,
    bands1: Seq<Band>,
    bands2: Seq<Band>,
)
    requires
        width >= 0,
        bands_tile(bands1, total),
        bands_tile(bands2, total),
        img.len() == total * width,
    ensures
        assemble(img, width, bands1) == assemble(img, width, bands2),
{
    lemma_assemble_complete(img, width, bands1, total);
    lemma_assemble_complete(img, width, bands2, total);
}

/// The length in bytes of one band's slice of the pixel buffer: the
/// band's rows times the row width, which always fits because the whole
/// buffer does.
pub fn band_buffer_len(band: &Band, bounds: &crate::geometry::ImageBounds) -> (n: usize)
    requires
        bounds.wf(),
        band_end(*band) <= bounds.height,
    ensures
        n == band.height * bounds.width,
        n <= bounds.spec_pixel_count(),
{
    proof {
        lemma_mul_inequality(band.height as int, bounds.height as int, bounds.width as int);
        assert(bounds.height * bounds.width == bounds.width * bounds.height) by (nonlinear_arith);
    }
    band.height * bounds.width
}

/// The number of rows per band: the height divided by the worker count,
/// rounded up.
fn rows_per_band(height: usize, workers: usize) -> (r: usize)
    requires
        workers >= 1,
    ensures
        r as int == spec_rows_per_band(height as int, workers as int),
        height > 0 ==> r >= 1,
        height as int <= (r as int) * (workers as int),
{
    let q = height / workers;
    let rem = height % workers;
    proof {
        lemma_fundamental_div_mod(height as int, workers as int);
        let qi = (height as int) / (workers as int);
        let ri = (height as int) % (workers as int);
        assert(height as int == (workers as int) * qi + ri);
        if ri == 0 {
            assert((workers as int) * qi == qi * (workers as int)) by (nonlinear_arith);
            if height > 0 {
                assert(qi > 0) by (nonlinear_arith)
                    requires
                        (workers as int) * qi > 0,
                        workers as int > 0,
                ;
            }
        } else {
            assert((qi + 1) * (workers as int) == (workers as int) * qi + (workers as int))
                by (nonlinear_arith);
            // No overflow in `q + 1`: the remainder is nonzero, so the
            // quotient is strictly below the height.
            assert(qi < height as int) by (nonlinear_arith)
                requires
                    height as int == (workers as int) * qi + ri,
                    workers as int >= 1,
                    qi >= 0,
                    ri > 0,
            ;
        }
    }
    if rem == 0 {
        q
    } else {
        q + 1
    }
}

} // verus!
