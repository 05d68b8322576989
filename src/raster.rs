use vstd::prelude::*;

use crate::escape::{as_count, escape_time_of, lemma_escape_stable_in_limit, lemma_inside_orbit_is_bounded};

verus! {

/// Number of iterations the renderer allows each point before it is
/// treated as a member of the set.
pub const ITERATION_LIMIT: usize = 255;

/// Position of pixel `(column, row)` in a row-major buffer `width` pixels wide.
pub open spec fn pixel_offset(width: nat, column: nat, row: nat) -> nat {
    row * width + column
}

/// Whether an escape result fits the iteration limit of the renderer.
pub open spec fn within_limit(escape: Option<usize>) -> bool {
    match escape {
        None => true,
        Some(k) => k <= ITERATION_LIMIT,
    }
}

/// Gray level of a point: black for a bounded point, `255 - k` for one that
/// escaped at iteration `k`.
pub open spec fn intensity_of(escape: Option<usize>) -> int {
    match escape {
        None => 0,
        Some(k) => 255 - k,
    }
}

/// Number of bytes of a buffer with the given bounds, or `None` where that
/// number does not fit in a `usize`.
pub fn pixel_count(bounds: (usize, usize)) -> (r: Option<usize>)
    ensures
        bounds.0 * bounds.1 <= usize::MAX ==> r == Some((bounds.0 * bounds.1) as usize),
        bounds.0 * bounds.1 > usize::MAX ==> r is None,
{
    bounds.0.checked_mul(bounds.1)
}

/// Index of pixel `(column, row)` in a row-major buffer of the given bounds.
pub fn pixel_index(bounds: (usize, usize), pixel: (usize, usize)) -> (r: usize)
    requires
        pixel.0 < bounds.0,
        pixel.1 < bounds.1,
        bounds.0 * bounds.1 <= usize::MAX,
    ensures
        r == pixel_offset(bounds.0 as nat, pixel.0 as nat, pixel.1 as nat),
        r < bounds.0 * bounds.1,
{
    proof {
        lemma_offset_in_buffer(bounds.0 as nat, bounds.1 as nat, pixel.0 as nat, pixel.1 as nat);
    }
    pixel.1 * bounds.0 + pixel.0
}

/// A pixel inside the bounds has its offset inside the buffer.
pub proof fn lemma_offset_in_buffer(width: nat, height: nat, column: nat, row: nat)
    requires
        column < width,
        row < height,
    ensures
        pixel_offset(width, column, row) < width * height,
{
    assert(row * width + column < width * height) by (nonlinear_arith)
        requires
            column < width,
            row < height,
    ;
}

/// Intensity byte of an escape result.
pub fn intensity(escape: Option<usize>) -> (r: u8)
    requires
        within_limit(escape),
    ensures
        r == intensity_of(escape),
{
    match escape {
        None => 0,
        Some(count) => 255 - count as u8,
    }
}

/// Whether the byte of pixel `(column, row)` in `pixels` is the intensity of
/// an escape result that `escape` may give for that pixel.
pub open spec fn shows_escape<F: Fn(usize, usize) -> Option<usize>>(
    escape: F,
    pixels: Seq<u8>,
    width: nat,
    column: usize,
    row: usize,
) -> bool {
    exists|e: Option<usize>|
        escape.ensures((column, row), e) && pixels[pixel_offset(
            width,
            column as nat,
            row as nat,
        ) as int] == intensity_of(e)
}

/// Fills `pixels`, a row-major buffer with the given bounds, with the
/// intensity of the escape result that `escape` gives for each
/// `(column, row)`. Every byte is written; none is read.
pub fn render_escapes<F: Fn(usize, usize) -> Option<usize>>(
    pixels: &mut [u8],
    bounds: (usize, usize),
    escape: F,
)
    requires
        old(pixels)@.len() == bounds.0 * bounds.1,
        forall|column: usize, row: usize|
            column < bounds.0 && row < bounds.1 ==> escape.requires((column, row)),
        forall|column: usize, row: usize, e: Option<usize>|
            column < bounds.0 && row < bounds.1 && escape.ensures((column, row), e) ==> within_limit(e),
    ensures
        final(pixels)@.len() == old(pixels)@.len(),
        forall|column: usize, row: usize|
            column < bounds.0 && row < bounds.1 ==> #[trigger] shows_escape(
                escape,
                final(pixels)@,
                bounds.0 as nat,
                column,
                row,
            ),
{
    let (width, height) = bounds;
    let mut row: usize = 0;
    while row < height
        invariant
            pixels@.len() == width * height,
            row <= height,
            bounds == (width, height),
            forall|column: usize, r: usize|
                column < width && r < height ==> escape.requires((column, r)),
            forall|column: usize, r: usize, e: Option<usize>|
                column < width && r < height && escape.ensures((column, r), e) ==> within_limit(e),
            forall|column: usize, r: usize|
                column < width && r < row ==> #[trigger] shows_escape(
                    escape,
                    pixels@,
                    width as nat,
                    column,
                    r,
                ),
        decreases height - row,
    {
        let mut column: usize = 0;
        while column < width
            invariant
                pixels@.len() == width * height,
                row < height,
                column <= width,
                bounds == (width, height),
                forall|c: usize, r: usize|
                    c < width && r < height ==> escape.requires((c, r)),
                forall|c: usize, r: usize, e: Option<usize>|
                    c < width && r < height && escape.ensures((c, r), e) ==> within_limit(e),
                forall|c: usize, r: usize|
                    c < width && (r < row || (r == row && c < column)) ==> #[trigger] shows_escape(
                        escape,
                        pixels@,
                        width as nat,
                        c,
                        r,
                    ),
            decreases width - column,
        {
            let index = pixel_index(bounds, (column, row));
            let e = escape(column, row);
            let value = intensity(e);
            let ghost before = pixels@;
            pixels[index] = value;
            proof {
                assert forall|c: usize, r: usize|
                    c < width && (r < row || (r == row && c < column + 1)) implies #[trigger] shows_escape(
                        escape,
                        pixels@,
                        width as nat,
                        c,
                        r,
                    ) by {
                    let offset = pixel_offset(width as nat, c as nat, r as nat);
                    if c == column && r == row {
                        assert(escape.ensures((c, r), e) && pixels@[offset as int] == intensity_of(e));
                    } else {
                        lemma_offsets_distinct(width as nat, c as nat, r as nat, column as nat, row as nat);
                        lemma_offset_in_buffer(width as nat, height as nat, c as nat, r as nat);
                        assert(pixels@[offset as int] == before[offset as int]);
                        assert(shows_escape(escape, before, width as nat, c, r));
                        let e2 = choose|e2: Option<usize>|
                            escape.ensures((c, r), e2) && before[offset as int] == intensity_of(e2);
                        assert(escape.ensures((c, r), e2) && pixels@[offset as int] == intensity_of(e2));
                    }
                }
            }
            column = column + 1;
        }
        row = row + 1;
    }
}

/// A pixel whose escape result is the escape time of its orbit under the
/// renderer's limit is black when the orbit never leaves the radius; it is
/// `255 - k` when the orbit escapes at `k` below the limit, whatever other
/// limit revealed `k`; and it is black when the orbit escapes only at or past
/// the limit.
pub proof fn lemma_rendered_orbit<F: Fn(usize, usize) -> Option<usize>>(
    escape: F,
    pixels: Seq<u8>,
    width: nat,
    column: usize,
    row: usize,
    diverged: Seq<bool>,
)
    requires
        shows_escape(escape, pixels, width, column, row),
        forall|e: Option<usize>|
            escape.ensures((column, row), e) ==> e == as_count(
                escape_time_of(diverged, ITERATION_LIMIT as nat),
            ),
    ensures
        (forall|j: int| 0 <= j < diverged.len() ==> !diverged[j]) ==> pixels[pixel_offset(
            width,
            column as nat,
            row as nat,
        ) as int] == 0,
        forall|limit: nat, k: nat|
            escape_time_of(diverged, limit) == Some(k) && k < ITERATION_LIMIT ==> pixels[pixel_offset(
                width,
                column as nat,
                row as nat,
            ) as int] == 255 - k,
        forall|limit: nat, k: nat|
            escape_time_of(diverged, limit) == Some(k) && ITERATION_LIMIT <= k ==> pixels[pixel_offset(
                width,
                column as nat,
                row as nat,
            ) as int] == 0,
{
    let offset = pixel_offset(width, column as nat, row as nat);
    let e = choose|e: Option<usize>|
        escape.ensures((column, row), e) && pixels[offset as int] == intensity_of(e);
    if forall|j: int| 0 <= j < diverged.len() ==> !diverged[j] {
        lemma_inside_orbit_is_bounded(diverged, ITERATION_LIMIT as nat);
    }
    assert forall|limit: nat, k: nat|
        escape_time_of(diverged, limit) == Some(k) implies (k < ITERATION_LIMIT ==> pixels[offset as int]
        == 255 - k) && (ITERATION_LIMIT <= k ==> pixels[offset as int] == 0) by {
        lemma_escape_stable_in_limit(diverged, limit, ITERATION_LIMIT as nat, k);
    }
}

/// Two distinct pixels of a row-major buffer have distinct offsets.
pub proof fn lemma_offsets_distinct(width: nat, c1: nat, r1: nat, c2: nat, r2: nat)
    requires
        c1 < width,
        c2 < width,
        c1 != c2 || r1 != r2,
    ensures
        pixel_offset(width, c1, r1) != pixel_offset(width, c2, r2),
{
    if r1 == r2 {
    } else if r1 < r2 {
        assert(r1 * width + width <= r2 * width) by (nonlinear_arith)
            requires
                r1 < r2,
        ;
    } else {
        assert(r2 * width + width <= r1 * width) by (nonlinear_arith)
            requires
                r2 < r1,
        ;
    }
}

} // verus!
