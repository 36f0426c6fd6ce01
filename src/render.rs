use vstd::prelude::*;

use crate::color::{color_of, colorize};

verus! {

/// Pixel `px`, at index `i` of a row-major buffer whose rows are `width`
/// pixels wide, holds the colour of an escape outcome that `escape_at` gives
/// for its column and row.
pub open spec fn is_pixel_of<F: Fn(usize, usize) -> Option<usize>>(
    escape_at: F,
    width: nat,
    i: int,
    px: [u8; 3],
) -> bool {
    exists|e: Option<usize>|
        #[trigger] escape_at.ensures(((i % width as int) as usize, (i / width as int) as usize), e)
            && px@ == color_of(e)
}

/// Every pixel of a row-major buffer whose rows are `width` pixels wide
/// holds the colour that `escape_at` gives for its column and row.
pub open spec fn is_rendering<F: Fn(usize, usize) -> Option<usize>>(
    escape_at: F,
    width: nat,
    pixels: Seq<[u8; 3]>,
) -> bool {
    forall|i: int| 0 <= i < pixels.len() ==> #[trigger] is_pixel_of(escape_at, width, i, pixels[i])
}

/// `escape_at` gives at most one outcome for each pixel.
pub open spec fn is_deterministic<F: Fn(usize, usize) -> Option<usize>>(escape_at: F) -> bool {
    forall|c: usize, r: usize, e1: Option<usize>, e2: Option<usize>|
        #[trigger] escape_at.ensures((c, r), e1) && #[trigger] escape_at.ensures((c, r), e2)
            ==> e1 == e2
}

/// Fills a band of `bounds.0` columns and `bounds.1` rows, in row-major order:
/// each pixel gets the colour of what `escape_at` returns for its column and
/// row within the band.
pub fn render_band<F: Fn(usize, usize) -> Option<usize>>(
    pixels: &mut [[u8; 3]],
    bounds: (usize, usize),
    escape_at: F,
)
    requires
        old(pixels)@.len() == bounds.0 * bounds.1,
        forall|c: usize, r: usize| c < bounds.0 && r < bounds.1 ==> #[trigger] escape_at.requires((c, r)),
    ensures
        final(pixels)@.len() == old(pixels)@.len(),
        is_rendering(escape_at, bounds.0 as nat, final(pixels)@),
{
    let n: usize = pixels.len();
    let mut row: usize = 0;
    while row < bounds.1
        invariant
            pixels@.len() == n,
            n == bounds.0 * bounds.1,
            row <= bounds.1,
            forall|c: usize, r: usize| c < bounds.0 && r < bounds.1 ==> #[trigger] escape_at.requires((c, r)),
            forall|i: int|
                0 <= i < row * bounds.0 ==> #[trigger] is_pixel_of(escape_at, bounds.0 as nat, i, pixels@[i]),
        decreases bounds.1 - row,
    {
        let mut column: usize = 0;
        while column < bounds.0
            invariant
                pixels@.len() == n,
                n == bounds.0 * bounds.1,
                row < bounds.1,
                column <= bounds.0,
                forall|c: usize, r: usize| c < bounds.0 && r < bounds.1 ==> #[trigger] escape_at.requires((c, r)),
                forall|i: int|
                    0 <= i < row * bounds.0 + column ==> #[trigger] is_pixel_of(escape_at, bounds.0 as nat, i, pixels@[i]),
            decreases bounds.0 - column,
        {
            proof {
                assert(row * bounds.0 + column < bounds.0 * bounds.1) by (nonlinear_arith)
                    requires
                        row < bounds.1,
                        column < bounds.0,
                ;
            }
            let k: usize = row * bounds.0 + column;
            let escape = escape_at(column, row);
            let rgb = colorize(escape);
            pixels[k] = rgb;
            proof {
                vstd::arithmetic::div_mod::lemma_fundamental_div_mod_converse(
                    k as int,
                    bounds.0 as int,
                    row as int,
                    column as int,
                );
                assert(escape_at.ensures(((k as int % bounds.0 as int) as usize, (k as int / bounds.0 as int) as usize), escape));
                assert(is_pixel_of(escape_at, bounds.0 as nat, k as int, pixels@[k as int]));
            }
            column = column + 1;
        }
        proof {
            assert((row + 1) * bounds.0 == row * bounds.0 + bounds.0) by (nonlinear_arith);
        }
        row = row + 1;
    }
    proof {
        assert(row * bounds.0 == bounds.0 * bounds.1) by (nonlinear_arith)
            requires
                row == bounds.1,
        ;
    }
}

/// One horizontal band of the image: the row `top`, stored at indices
/// `start..end` of the whole buffer, rendered with bounds `bounds` over the
/// part of the plane between the whole image's pixels `upper_left` and
/// `lower_right`.
pub struct Band {
    pub top: usize,
    pub start: usize,
    pub end: usize,
    pub bounds: (usize, usize),
    pub upper_left: (usize, usize),
    pub lower_right: (usize, usize),
}

/// The band that holds row `top` of an image of the given bounds: one full
/// row, whose corners are the row's first pixel and the pixel one past its
/// last column, one row down.
pub open spec fn is_band_of(band: Band, bounds: (usize, usize), top: int) -> bool {
    &&& band.top == top
    &&& band.start == top * bounds.0
    &&& band.end == top * bounds.0 + bounds.0
    &&& band.bounds == (bounds.0, 1usize)
    &&& band.upper_left == (0usize, top as usize)
    &&& band.lower_right == (bounds.0, (top + 1) as usize)
}

/// Splits an image of the given bounds into one band per row, top row first.
pub fn plan_bands(bounds: (usize, usize)) -> (bands: Vec<Band>)
    requires
        bounds.0 * bounds.1 <= usize::MAX,
    ensures
        bands@.len() == bounds.1,
        forall|i: int| 0 <= i < bounds.1 ==> #[trigger] is_band_of(bands@[i], bounds, i),
{
    let mut bands: Vec<Band> = Vec::new();
    let mut top: usize = 0;
    while top < bounds.1
        invariant
            bounds.0 * bounds.1 <= usize::MAX,
            top <= bounds.1,
            bands@.len() == top,
            forall|i: int| 0 <= i < top ==> #[trigger] is_band_of(bands@[i], bounds, i),
        decreases bounds.1 - top,
    {
        proof {
            assert(top * bounds.0 + bounds.0 <= bounds.0 * bounds.1) by (nonlinear_arith)
                requires
                    top < bounds.1,
            ;
        }
        let start: usize = top * bounds.0;
        bands.push(
            Band {
                top,
                start,
                end: start + bounds.0,
                bounds: (bounds.0, 1),
                upper_left: (0, top),
                lower_right: (bounds.0, top + 1),
            },
        );
        top = top + 1;
    }
    bands
}

/// The bands of an image cover its buffer exactly once: index `k` lies in
/// the band of row `k / width` and in no other.
pub proof fn lemma_bands_partition(bounds: (usize, usize), k: int, top: int)
    requires
        0 <= k < bounds.0 * bounds.1,
        0 <= top < bounds.1,
    ensures
        (top * bounds.0 <= k < top * bounds.0 + bounds.0) <==> top == k / bounds.0 as int,
{
    let w = bounds.0 as int;
    if w == 0 {
        assert(w * bounds.1 == 0) by (nonlinear_arith)
            requires
                w == 0,
        ;
    }
    vstd::arithmetic::div_mod::lemma_fundamental_div_mod(k, w);
    let q = k / w;
    let r = k % w;
    if top < q {
        assert(top * w + w <= q * w) by (nonlinear_arith)
            requires
                top < q,
                0 < w,
        ;
    } else if top > q {
        assert(q * w + w <= top * w) by (nonlinear_arith)
            requires
                top > q,
                0 < w,
        ;
    }
}

/// Rendering the same buffer twice gives the same pixels, as long as the
/// escape evaluation gives one outcome per pixel.
pub proof fn lemma_render_deterministic<F: Fn(usize, usize) -> Option<usize>>(
    escape_at: F,
    width: nat,
    first: Seq<[u8; 3]>,
    second: Seq<[u8; 3]>,
)
    requires
        is_deterministic(escape_at),
        first.len() == second.len(),
        is_rendering(escape_at, width, first),
        is_rendering(escape_at, width, second),
    ensures
        first == second,
{
    broadcast use vstd::array::group_array_axioms;

    assert forall|i: int| 0 <= i < first.len() implies first[i] == second[i] by {
        assert(is_pixel_of(escape_at, width, i, first[i]));
        assert(is_pixel_of(escape_at, width, i, second[i]));
        assert(first[i] =~= second[i]);
    }
    assert(first =~= second);
}

/// Rendering an image band by band gives the same pixels as rendering it
/// whole: where the band of row `top` is rendered with an evaluation that
/// gives, for each column of its single row, what the whole image's
/// evaluation gives for that column in row `top`, the band's pixels are the
/// whole buffer's pixels of that row.
pub proof fn lemma_band_matches_whole<
    F: Fn(usize, usize) -> Option<usize>,
    G: Fn(usize, usize) -> Option<usize>,
>(
    escape_at: F,
    band_escape_at: G,
    bounds: (usize, usize),
    top: usize,
    whole: Seq<[u8; 3]>,
    band: Seq<[u8; 3]>,
)
    requires
        top < bounds.1,
        whole.len() == bounds.0 * bounds.1,
        band.len() == bounds.0,
        is_deterministic(escape_at),
        is_rendering(escape_at, bounds.0 as nat, whole),
        is_rendering(band_escape_at, bounds.0 as nat, band),
        forall|c: usize, e: Option<usize>|
            c < bounds.0 && #[trigger] band_escape_at.ensures((c, 0usize), e) ==> escape_at.ensures(
                (c, top),
                e,
            ),
    ensures
        band == whole.subrange(top * bounds.0, top * bounds.0 + bounds.0),
{
    broadcast use vstd::array::group_array_axioms;

    let w = bounds.0 as int;
    assert(top * w + w <= w * bounds.1) by (nonlinear_arith)
        requires
            top < bounds.1,
            0 <= w,
    ;
    let part = whole.subrange(top * w, top * w + w);
    assert forall|j: int| 0 <= j < w implies band[j] == part[j] by {
        let k = top * w + j;
        vstd::arithmetic::div_mod::lemma_fundamental_div_mod_converse(j, w, 0, j);
        vstd::arithmetic::div_mod::lemma_fundamental_div_mod_converse(k, w, top as int, j);
        assert(is_pixel_of(band_escape_at, bounds.0 as nat, j, band[j]));
        let e = choose|e: Option<usize>|
            #[trigger] band_escape_at.ensures(((j % w) as usize, (j / w) as usize), e) && band[j]@
                == color_of(e);
        assert(escape_at.ensures((j as usize, top), e));
        assert(is_pixel_of(escape_at, bounds.0 as nat, k, whole[k]));
        assert(band[j] =~= part[j]);
    }
    assert(band =~= part);
}

/// The bytes of a pixel buffer, three per pixel in red, green, blue order,
/// pixels in buffer order.
pub open spec fn flat_bytes(pixels: Seq<[u8; 3]>) -> Seq<u8> {
    Seq::new(3 * pixels.len(), |k: int| pixels[k / 3][k % 3])
}

/// Lays a pixel buffer out as plain bytes, ready for an encoder.
pub fn flatten(pixels: &[[u8; 3]]) -> (bytes: Vec<u8>)
    requires
        3 * pixels@.len() <= usize::MAX,
    ensures
        bytes@ == flat_bytes(pixels@),
{
    let mut bytes: Vec<u8> = Vec::new();
    let mut i: usize = 0;
    while i < pixels.len()
        invariant
            3 * pixels@.len() <= usize::MAX,
            i <= pixels@.len(),
            bytes@.len() == 3 * i,
            forall|k: int| 0 <= k < 3 * i ==> #[trigger] bytes@[k] == pixels@[k / 3][k % 3],
        decreases pixels@.len() - i,
    {
        let px = pixels[i];
        bytes.push(px[0]);
        bytes.push(px[1]);
        bytes.push(px[2]);
        i = i + 1;
    }
    assert(bytes@ =~= flat_bytes(pixels@));
    bytes
}

} // verus!
