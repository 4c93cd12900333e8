//! What holds of scrolling captures as a whole.

use crate::frame::{rectangular, Frame, Pixel};
use crate::scroll::{best_shift, difference, distance, larger, luma, mean_difference, new_rows, no_shift, overlap_distance, pasted_frames, plannable, region_part, row_signatures, sample_column, sampleable, scored_rows, scroll_delta, scroll_step, scrolled, shift_score, shorter, signature, still, stitchable, stitched_rows, too_small, ScrollOptions, ROW_TOLERANCE};
use crate::single::{digits_and, lemma_single_bound, lemma_single_not_negative, lemma_single_positive, lemma_single_zero, single};
use vstd::arithmetic::power2::{lemma_pow2_pos, lemma_pow2_unfold, pow2};
use vstd::prelude::*;

verus! {

proof fn lemma_no_difference(a: Seq<u8>, n: int)
    ensures
        difference(a, a, n) == 0,
    decreases n,
{
    if n > 0 {
        lemma_no_difference(a, n - 1);
    }
}

proof fn lemma_no_overlap_distance(a: Seq<Seq<u8>>, b: Seq<Seq<u8>>, shift: int, overlap: int, n: int)
    requires
        0 <= n <= scored_rows(overlap),
        forall|y: int| 0 <= y < overlap ==> a[y + shift] == #[trigger] b[y],
    ensures
        overlap_distance(a, b, shift, n) == 0,
    decreases n,
{
    if n > 0 {
        lemma_no_overlap_distance(a, b, shift, overlap, n - 1);
        assert(a[3 * (n - 1) + shift] == b[3 * (n - 1)]);
        lemma_no_difference(b[3 * (n - 1)], 48);
        lemma_single_zero(48);
        lemma_single_zero(1);
    }
}

proof fn lemma_no_mean_difference(a: Seq<Seq<u8>>, b: Seq<Seq<u8>>, shift: int, overlap: int)
    requires
        0 <= overlap,
        forall|y: int| 0 <= y < overlap ==> a[y + shift] == #[trigger] b[y],
    ensures
        mean_difference(a, b, shift, overlap) == 0,
{
    let n = scored_rows(overlap);
    lemma_no_overlap_distance(a, b, shift, overlap, n);
    let count = if n < 1 {
        1
    } else {
        n
    };
    lemma_single_positive(count, 1);
    lemma_single_zero(single(count, 1));
}

proof fn lemma_difference_not_negative(a: Seq<u8>, b: Seq<u8>, n: int)
    ensures
        difference(a, b, n) >= 0,
    decreases n,
{
    if n > 0 {
        lemma_difference_not_negative(a, b, n - 1);
    }
}

proof fn lemma_overlap_distance_not_negative(a: Seq<Seq<u8>>, b: Seq<Seq<u8>>, shift: int, n: int)
    ensures
        overlap_distance(a, b, shift, n) >= 0,
    decreases n,
{
    if n > 0 {
        lemma_overlap_distance_not_negative(a, b, shift, n - 1);
        let (x, y) = (a[3 * (n - 1) + shift], b[3 * (n - 1)]);
        lemma_difference_not_negative(x, y, 48);
        lemma_single_not_negative(difference(x, y, 48) * 0x2000_0000, 48);
        lemma_single_not_negative(overlap_distance(a, b, shift, n - 1) + distance(x, y), 1);
    }
}

proof fn lemma_mean_difference_not_negative(a: Seq<Seq<u8>>, b: Seq<Seq<u8>>, shift: int, overlap: int)
    ensures
        mean_difference(a, b, shift, overlap) >= 0,
{
    let n = scored_rows(overlap);
    let count = if n < 1 {
        1
    } else {
        n
    };
    lemma_overlap_distance_not_negative(a, b, shift, n);
    lemma_single_positive(count, 1);
    lemma_single_not_negative(overlap_distance(a, b, shift, n) * 0x8_0000_0000, single(count, 1));
}

proof fn lemma_difference_symmetric(a: Seq<u8>, b: Seq<u8>, n: int)
    ensures
        difference(a, b, n) == difference(b, a, n),
    decreases n,
{
    if n > 0 {
        lemma_difference_symmetric(a, b, n - 1);
    }
}

proof fn lemma_overlap_distance_symmetric(a: Seq<Seq<u8>>, b: Seq<Seq<u8>>, n: int)
    ensures
        overlap_distance(a, b, 0, n) == overlap_distance(b, a, 0, n),
    decreases n,
{
    if n > 0 {
        lemma_overlap_distance_symmetric(a, b, n - 1);
        lemma_difference_symmetric(a[3 * (n - 1)], b[3 * (n - 1)], 48);
    }
}

/// A page that did not move is detected as such, rather than aligned: a frame
/// looks identical to one with the same rows, the order of the two does not
/// matter, and frames of different heights never look identical.
pub proof fn an_unmoved_page_looks_identical(a: Seq<Seq<u8>>, b: Seq<Seq<u8>>)
    ensures
        still(a, a),
        still(a, b) == still(b, a),
        a.len() != b.len() ==> !still(a, b),
{
    lemma_no_mean_difference(a, a, 0, a.len() as int);
    if a.len() == b.len() {
        lemma_overlap_distance_symmetric(a, b, scored_rows(a.len() as int));
    }
}

/// The rows of `b` are those of `a`, `shift` rows further down, as far as the two
/// overlap.
pub open spec fn lines_up(a: Seq<Seq<u8>>, b: Seq<Seq<u8>>, shift: int) -> bool {
    &&& a.len() == b.len()
    &&& forall|y: int| 0 <= y < a.len() - shift ==> a[y + shift] == #[trigger] b[y]
}

/// Two windows of one page, `shift` rows apart, line up there.
pub proof fn windows_line_up(page: Seq<Seq<Pixel>>, top: int, shift: int, h: int)
    requires
        0 <= top,
        0 <= shift <= h,
        top + shift + h <= page.len(),
    ensures
        lines_up(
            row_signatures(page.subrange(top, top + h)),
            row_signatures(page.subrange(top + shift, top + shift + h)),
            shift,
        ),
{
    let a = row_signatures(page.subrange(top, top + h));
    let b = row_signatures(page.subrange(top + shift, top + shift + h));
    assert forall|y: int| 0 <= y < h - shift implies a[y + shift] == #[trigger] b[y] by {
        assert(a[y + shift] == signature(page[top + y + shift]));
    }
}

/// Where the frames line up exactly, an alignment is found, without any
/// difference. It is never further than the true one, and is the true one if no
/// smaller shift fits without difference.
pub proof fn an_exact_shift_is_found(
    a: Seq<Seq<u8>>,
    b: Seq<Seq<u8>>,
    limit: int,
    exact: int,
    found: int,
)
    requires
        lines_up(a, b, exact),
        1 <= exact <= limit <= a.len(),
    ensures
        !no_shift(a, b, limit),
        best_shift(a, b, limit, found) ==> {
            &&& found <= exact
            &&& shift_score(a, b, found) == 0
            &&& (forall|t: int| 1 <= t < exact ==> #[trigger] shift_score(a, b, t) > 0) ==> found == exact
        },
{
    lemma_no_mean_difference(a, b, exact, a.len() - exact);
    assert(shift_score(a, b, exact) == 0);
    lemma_mean_difference_not_negative(a, b, found, a.len() - found);
    assert(shift_score(a, b, found) >= 0);
}

/// The frames are windows of one page, each `shifts[i]` rows below the one
/// before, the first at the row `top`.
pub open spec fn windows_of(
    page: Seq<Seq<Pixel>>,
    top: int,
    frames: Seq<Frame>,
    shifts: Seq<usize>,
) -> bool {
    &&& frames.len() == shifts.len() + 1
    &&& forall|i: int|
        #![trigger frames[i]]
        0 <= i < frames.len() ==> {
            &&& frames[i].wide() == frames[0].wide()
            &&& top + scrolled(shifts, i) + frames[0].tall() <= page.len()
            &&& frames[i].rows() == page.subrange(
                top + scrolled(shifts, i),
                top + scrolled(shifts, i) + frames[0].tall(),
            )
        }
}

/// Stitching windows of a page gives the page back, from the top of the first
/// window to the bottom of the last.
pub proof fn stitching_reassembles_the_page(
    page: Seq<Seq<Pixel>>,
    top: int,
    frames: Seq<Frame>,
    shifts: Seq<usize>,
    n: int,
)
    requires
        0 <= top,
        windows_of(page, top, frames, shifts),
        forall|i: int| 0 <= i < frames.len() ==> (#[trigger] frames[i]).valid(),
        forall|i: int| 0 <= i < shifts.len() ==> #[trigger] shifts[i] <= frames[0].tall(),
        0 <= n <= shifts.len(),
    ensures
        stitched_rows(frames, shifts, n) == page.subrange(
            top,
            top + scrolled(shifts, n) + frames[0].tall(),
        ),
    decreases n,
{
    let h = frames[0].tall() as int;
    if n > 0 {
        stitching_reassembles_the_page(page, top, frames, shifts, n - 1);
        let before = scrolled(shifts, n - 1);
        let shift = shifts[n - 1] as int;
        lemma_scrolled_grows(shifts, n - 1);
        let frame = frames[n - 1 + 1];
        let added = new_rows(frames, shifts, n - 1);
        assert(frame.rows() == page.subrange(top + before + shift, top + before + shift + h));
        assert(top + before + h <= page.len()) by {
            assert(frames[n - 1].wide() == frames[0].wide());
        }
        assert forall|j: int| 0 <= j < shift implies added[j] == page[top + before + h + j] by {
            let row = frame.rows()[h - shift + j];
            assert(row.len() == frame.wide());
            assert(row.subrange(0, frames[0].wide() as int) =~= row);
        }
        assert(stitched_rows(frames, shifts, n) =~= page.subrange(top, top + scrolled(shifts, n) + h));
    } else {
        assert(frames[0].rows() == page.subrange(top + scrolled(shifts, 0), top + scrolled(shifts, 0) + h));
    }
}

proof fn lemma_scrolled_grows(shifts: Seq<usize>, n: int)
    requires
        0 <= n <= shifts.len(),
    ensures
        0 <= scrolled(shifts, n),
    decreases n,
{
    if n > 0 {
        lemma_scrolled_grows(shifts, n - 1);
    }
}

// ---------------------------------------------------------------------------
// What is compared

/// The samples of a row cover its whole width: the first is the first pixel, the
/// last is the last pixel, and those between are spread evenly, each at most one
/// forty-seventh of the width and a pixel from the next.
pub proof fn samples_cover_the_row(i: int, w: int)
    requires
        w > 0,
        0 <= i < 47,
    ensures
        sample_column(0, w) == 0,
        sample_column(47, w) == w - 1,
        0 <= sample_column(i, w) <= sample_column(i + 1, w) <= sample_column(i, w) + (w - 1) / 47 + 1,
        47 * sample_column(i, w) <= i * (w - 1) < 47 * sample_column(i, w) + 47,
{
    let c = sample_column(i, w);
    let d = sample_column(i + 1, w);
    assert(0 * (w - 1) == 0);
    assert(i * (w - 1) >= 0) by (nonlinear_arith)
        requires
            i >= 0,
            w > 0,
    ;
    assert((i + 1) * (w - 1) == i * (w - 1) + (w - 1)) by (nonlinear_arith);
    assert(47 * c <= i * (w - 1) < 47 * c + 47);
    assert(47 * d <= (i + 1) * (w - 1) < 47 * d + 47);
}

/// A sample is the brightness of the pixel in its column, three parts red, six
/// green and one blue or thereabouts. Grey is as bright as it is, and what cannot
/// be seen plays no part.
pub proof fn a_sample_is_the_brightness_of_its_pixel(row: Seq<Pixel>, i: int, column: int)
    requires
        row.len() > 0,
        0 <= i < 48,
        47 * column <= i * (row.len() - 1) < 47 * column + 47,
    ensures
        signature(row).len() == 48,
        0 <= column < row.len(),
        ({
            let p = row[column];
            let v = signature(row)[i];
            &&& 100 * v <= 30 * p.0 + 59 * p.1 + 11 * p.2 < 100 * v + 100
            &&& p.0 == p.1 && p.1 == p.2 ==> v == p.0
        }),
        i == 0 ==> column == 0,
        i == 47 ==> column == row.len() - 1,
{
    let w = row.len() as int;
    assert(0 <= i * (w - 1) <= 47 * (w - 1)) by (nonlinear_arith)
        requires
            0 <= i <= 47,
            w >= 1,
    ;
    assert(i == 0 ==> i * (w - 1) == 0) by (nonlinear_arith);
    assert(i == 47 ==> i * (w - 1) == 47 * (w - 1)) by (nonlinear_arith);
    assert(sample_column(i, w) == column);
    let p = row[column];
    assert(0 <= luma(p) <= 255);
}

proof fn lemma_difference_of_equal(a: Seq<u8>, b: Seq<u8>, n: int)
    requires
        0 <= n <= a.len(),
        n <= b.len(),
        forall|k: int| 0 <= k < n ==> a[k] == b[k],
    ensures
        difference(a, b, n) == 0,
    decreases n,
{
    if n > 0 {
        lemma_difference_of_equal(a, b, n - 1);
    }
}

/// The difference of two rows counts every sample once: where only one sample
/// differs it is that difference, whichever sample it is, and where all differ
/// alike it is as many times that.
pub proof fn every_sample_counts(a: Seq<u8>, b: Seq<u8>, i: int, d: int)
    requires
        a.len() == 48,
        b.len() == 48,
        0 <= i < 48,
    ensures
        (forall|k: int| 0 <= k < 48 && k != i ==> a[k] == b[k]) ==> difference(a, b, 48) == (if a[i] < b[i] {
            b[i] - a[i]
        } else {
            a[i] - b[i]
        }),
        apart(a, b, d) ==> difference(a, b, 48) == 48 * d,
        a[i] != b[i] ==> difference(a, b, 48) > 0,
{
    lemma_one_difference(a, b, i, 48);
    if apart(a, b, d) {
        lemma_uniform_difference(a, b, d, 48);
    }
}

/// Each two samples are `d` apart.
pub open spec fn apart(a: Seq<u8>, b: Seq<u8>, d: int) -> bool {
    d >= 0 && a.len() == 48 && b.len() == 48 && forall|k: int|
        0 <= k < 48 ==> #[trigger] a[k] - b[k] == d || b[k] - a[k] == d
}

proof fn lemma_one_difference(a: Seq<u8>, b: Seq<u8>, i: int, n: int)
    requires
        a.len() == 48,
        b.len() == 48,
        0 <= i < n <= 48,
    ensures
        (forall|k: int| 0 <= k < n && k != i ==> a[k] == b[k]) ==> difference(a, b, n) == (if a[i] < b[i] {
            b[i] - a[i]
        } else {
            a[i] - b[i]
        }),
        a[i] != b[i] ==> difference(a, b, n) > 0,
    decreases n,
{
    lemma_difference_not_negative(a, b, n - 1);
    if i == n - 1 {
        if forall|k: int| 0 <= k < n && k != i ==> a[k] == b[k] {
            lemma_difference_of_equal(a, b, n - 1);
        }
    } else {
        lemma_one_difference(a, b, i, n - 1);
    }
}

proof fn lemma_uniform_difference(a: Seq<u8>, b: Seq<u8>, d: int, n: int)
    requires
        apart(a, b, d),
        d >= 0,
        0 <= n <= 48,
    ensures
        difference(a, b, n) == n * d,
    decreases n,
{
    if n > 0 {
        lemma_uniform_difference(a, b, d, n - 1);
        assert(a[n - 1] - b[n - 1] == d || b[n - 1] - a[n - 1] == d);
        assert((n - 1) * d + d == n * d) by (nonlinear_arith);
    } else {
        assert(n * d == 0) by (nonlinear_arith)
            requires
                n == 0,
        ;
    }
}

/// A number of at most 24 digits is not rounded, whatever power of two it is
/// scaled by.
proof fn lemma_single_exact(v: int, j: nat, den: int)
    requires
        0 <= v < 0x100_0000,
        den > 0,
    ensures
        single(v * pow2(j) * den, den) == v * pow2(j),
    decreases j,
{
    lemma_pow2_pos(j);
    let m = v * pow2(j);
    assert(m >= 0) by (nonlinear_arith)
        requires
            v >= 0,
            pow2(j) > 0,
            m == v * pow2(j),
    ;
    if m < 0x100_0000 {
        assert(m * den < den * 0x100_0000) by (nonlinear_arith)
            requires
                m < 0x100_0000,
                den > 0,
        ;
        vstd::arithmetic::div_mod::lemma_fundamental_div_mod_converse(m * den, den, m, 0);
    } else {
        if j == 0 {
            vstd::arithmetic::power2::lemma2_to64();
            assert(m == v) by (nonlinear_arith)
                requires
                    m == v * pow2(j),
                    pow2(j) == 1,
            ;
        }
        assert(j > 0);
        lemma_pow2_unfold(j);
        let k = (j - 1) as nat;
        let half = v * pow2(k);
        assert(m == 2 * half) by (nonlinear_arith)
            requires
                m == v * pow2(j),
                pow2(j) == 2 * pow2(k),
                half == v * pow2(k),
        ;
        assert(m * den == half * (2 * den)) by (nonlinear_arith)
            requires
                m == 2 * half,
        ;
        assert(m * den >= den * 0x100_0000) by (nonlinear_arith)
            requires
                m >= 0x100_0000,
                den > 0,
        ;
        lemma_single_exact(v, k, 2 * den);
    }
}

/// The rows of `b` lie over those of `a`, `shift` rows down, and each two samples
/// are `d` apart.
pub open spec fn evenly_apart(a: Seq<Seq<u8>>, b: Seq<Seq<u8>>, shift: int, overlap: int, d: int) -> bool {
    forall|y: int| 0 <= y < overlap ==> apart(a[y + shift], #[trigger] b[y], d)
}

proof fn lemma_uniform_sum(a: Seq<Seq<u8>>, b: Seq<Seq<u8>>, shift: int, overlap: int, d: int, n: int)
    requires
        evenly_apart(a, b, shift, overlap, d),
        0 <= d <= 255,
        0 <= n <= scored_rows(overlap),
        n * d < 0x100_0000,
    ensures
        overlap_distance(a, b, shift, n) == n * d * 0x2000_0000,
    decreases n,
{
    vstd::arithmetic::power2::lemma2_to64();
    if n > 0 {
        assert((n - 1) * d + d == n * d) by (nonlinear_arith);
        assert((n - 1) * d >= 0) by (nonlinear_arith)
            requires
                n >= 1,
                d >= 0,
        ;
        lemma_uniform_sum(a, b, shift, overlap, d, n - 1);
        let (x, y) = (a[3 * (n - 1) + shift], b[3 * (n - 1)]);
        assert(apart(x, y, d));
        lemma_uniform_difference(x, y, d, 48);
        lemma_single_exact(d, 29, 48);
        assert(pow2(29) == 0x2000_0000);
        assert(48 * d * 0x2000_0000 == d * 0x2000_0000 * 48);
        lemma_single_exact(n * d, 29, 1);
        assert((n - 1) * d * 0x2000_0000 + d * 0x2000_0000 == n * d * 0x2000_0000) by (nonlinear_arith)
            requires
                (n - 1) * d + d == n * d,
        ;
        let v = n * d * 0x2000_0000;
        assert(v * 1 == v);
    } else {
        assert(n * d == 0) by (nonlinear_arith)
            requires
                n == 0,
        ;
    }
}

/// The score of an overlap is the mean difference of its samples: where every two
/// are `d` apart it is `d`. So noise of up to 3 still is the same picture, and a
/// shift with up to 6 is still accepted, and no more. (As long as the sum has no
/// more digits than single precision keeps.)
pub proof fn the_score_is_the_mean_difference(
    a: Seq<Seq<u8>>,
    b: Seq<Seq<u8>>,
    shift: int,
    overlap: int,
    d: int,
)
    requires
        evenly_apart(a, b, shift, overlap, d),
        0 <= d <= 255,
        0 < overlap < 0x1_0000,
    ensures
        mean_difference(a, b, shift, overlap) == d * 0x1_0000_0000_0000_0000,
        a.len() == b.len() && overlap == a.len() && shift == 0 ==> (still(a, b) <==> d <= 3),
        1 <= shift && overlap == shorter(a.len() as int, b.len() as int) - shift ==> {
            &&& shift_score(a, b, shift) <= ROW_TOLERANCE <==> d <= 6
            &&& d <= 6 ==> forall|limit: int| shift <= limit ==> !#[trigger] no_shift(a, b, limit)
            &&& no_shift(a, b, shift) ==> d > 6
        },
{
    let n = scored_rows(overlap);
    assert(0 < n * d + 1 <= 0x1_0000 * 255) by (nonlinear_arith)
        requires
            0 < n <= 0xffff,
            0 <= d <= 255,
    ;
    lemma_uniform_sum(a, b, shift, overlap, d, n);
    vstd::arithmetic::power2::lemma2_to64();
    lemma_single_exact(n, 0, 1);
    assert(pow2(0) == 1);
    assert(single(n, 1) == n) by {
        assert(n * 1 * 1 == n);
    }
    lemma_single_exact(d, 64, n);
    assert(pow2(64) == 0x1_0000_0000_0000_0000);
    assert(n * d * 0x2000_0000 * 0x8_0000_0000 == d * 0x1_0000_0000_0000_0000 * n) by (nonlinear_arith);
    if 1 <= shift && overlap == shorter(a.len() as int, b.len() as int) - shift {
        assert(shift_score(a, b, shift) == d * 0x1_0000_0000_0000_0000);
    }
}

/// Every third row counts, from the first on, as far as the overlap reaches: a
/// score is zero only if those rows agree.
pub proof fn every_third_row_counts(a: Seq<Seq<u8>>, b: Seq<Seq<u8>>, shift: int, overlap: int, y: int)
    requires
        0 <= y < overlap <= u32::MAX,
        y % 3 == 0,
        a[y + shift].len() == 48,
        b[y].len() == 48,
        a[y + shift] != b[y],
    ensures
        mean_difference(a, b, shift, overlap) > 0,
        3 * scored_rows(overlap) >= overlap > 3 * (scored_rows(overlap) - 1),
{
    let n = scored_rows(overlap);
    let k = y / 3;
    let (x, z) = (a[y + shift], b[y]);
    assert(exists|i: int| 0 <= i < 48 && x[i] != z[i]) by {
        if forall|i: int| 0 <= i < 48 ==> x[i] == z[i] {
            assert(x =~= z);
        }
    }
    let i = choose|i: int| 0 <= i < 48 && x[i] != z[i];
    lemma_one_difference(x, z, i, 48);
    lemma_positive_sum(a, b, shift, k, n);
    lemma_single_positive(n, 1);
    assert(digits_and(8) == 0x1_0000_0000) by {
        reveal_with_fuel(digits_and, 9);
    }
    lemma_single_bound(n, 1, 8);
    lemma_single_positive(overlap_distance(a, b, shift, n) * 0x8_0000_0000, single(n, 1));
}

proof fn lemma_positive_sum(a: Seq<Seq<u8>>, b: Seq<Seq<u8>>, shift: int, k: int, n: int)
    requires
        0 <= k < n,
        difference(a[3 * k + shift], b[3 * k], 48) > 0,
    ensures
        overlap_distance(a, b, shift, n) > 0,
    decreases n,
{
    let (x, y) = (a[3 * (n - 1) + shift], b[3 * (n - 1)]);
    let before = overlap_distance(a, b, shift, n - 1);
    lemma_overlap_distance_not_negative(a, b, shift, n - 1);
    lemma_difference_not_negative(x, y, 48);
    lemma_single_not_negative(difference(x, y, 48) * 0x2000_0000, 48);
    if k == n - 1 {
        lemma_single_positive(difference(x, y, 48) * 0x2000_0000, 48);
    } else {
        lemma_positive_sum(a, b, shift, k, n - 1);
    }
    lemma_single_positive(before + distance(x, y), 1);
}

// ---------------------------------------------------------------------------
// The plan of a capture

/// A step that leaves at least twenty rows in view and moves at least as many is
/// kept as it was asked for; without one, two thirds of the height are scrolled.
/// Some of the last frame always stays in view, and the content always moves down.
pub proof fn a_scroll_keeps_something_in_view(opts: ScrollOptions)
    requires
        !too_small(opts.region),
    ensures
        opts.region.2 >= 32 && opts.region.3 >= 64,
        20 <= scroll_step(opts) <= opts.region.3 - 20,
        20 <= opts.step <= opts.region.3 - 20 ==> scroll_step(opts) == opts.step,
        opts.step > opts.region.3 - 20 ==> scroll_step(opts) == opts.region.3 - 20,
        0 < opts.step < 20 ==> scroll_step(opts) == 20,
        opts.step == 0 ==> 3 * scroll_step(opts) <= 2 * opts.region.3 < 3 * scroll_step(opts) + 3,
        scroll_step(opts) < 0x8000_0000 ==> scroll_delta(scroll_step(opts)) == -scroll_step(opts) < 0,
        scroll_step(opts) > 0x8000_0000 ==> scroll_delta(scroll_step(opts)) + scroll_step(opts) == 0x1_0000_0000,
{
}

/// Whether a region can be captured goes by its size alone: 32 columns and 64 rows
/// are enough.
pub proof fn a_region_is_large_enough(region: (u32, u32, u32, u32))
    ensures
        too_small(region) <==> region.2 < 32 || region.3 < 64,
{
}

/// Of two numbers the shorter is one of them and not more than either, the larger
/// one of them and not less than either.
pub proof fn the_shorter_and_the_larger(a: int, b: int)
    ensures
        shorter(a, b) <= a && shorter(a, b) <= b && (shorter(a, b) == a || shorter(a, b) == b),
        larger(a, b) >= a && larger(a, b) >= b && (larger(a, b) == a || larger(a, b) == b),
{
}

/// A region shows the pixels of the display where it lies. It has its own size as
/// far as the display reaches, and ends at the edge of the display otherwise.
pub proof fn a_region_shows_what_lies_under_it(
    rows: Seq<Seq<Pixel>>,
    width: nat,
    region: (u32, u32, u32, u32),
    column: int,
    line: int,
)
    requires
        rectangular(rows, width),
        region.0 < width,
        region.1 < rows.len(),
    ensures
        ({
            let (x, y, w, h) = region;
            let part = region_part(rows, width, region);
            &&& part.0 == w || (part.0 < w && x + part.0 == width)
            &&& part.1.len() == h || (part.1.len() < h && y + part.1.len() == rows.len())
            &&& x + part.0 <= width
            &&& y + part.1.len() <= rows.len()
            &&& 0 <= line < part.1.len() ==> part.1[line].len() == part.0
            &&& 0 <= line < part.1.len() && 0 <= column < part.0 ==> part.1[line][column] == rows[y + line][x
                + column]
        }),
{
    let (x, y, w, h) = region;
    let part = region_part(rows, width, region);
    if 0 <= line < part.1.len() {
        assert(rows[y + line].len() == width);
    }
}

/// Shifts add up.
pub proof fn shifts_add_up(shifts: Seq<usize>, m: int, n: int)
    requires
        0 <= m <= n <= shifts.len(),
    ensures
        scrolled(shifts, 0) == 0,
        m < shifts.len() ==> scrolled(shifts, m + 1) == scrolled(shifts, m) + shifts[m],
        (forall|i: int| m <= i < n ==> #[trigger] shifts[i] == 1) ==> scrolled(shifts, n) == scrolled(shifts, m)
            + n - m,
    decreases n,
{
    if m < n {
        shifts_add_up(shifts, m, n - 1);
    }
}

/// The stitched picture is as tall as the first frame and all the shifts, and what
/// each further frame adds is its last rows.
pub proof fn a_frame_adds_its_last_rows(frames: Seq<Frame>, shifts: Seq<usize>, i: int, j: int)
    requires
        0 <= i < shifts.len(),
        frames.len() == shifts.len() + 1,
        forall|k: int| 0 <= k < frames.len() ==> (#[trigger] frames[k]).valid() && frames[k].tall()
            == frames[0].tall() && frames[k].wide() == frames[0].wide(),
        shifts[i] <= frames[0].tall(),
    ensures
        pasted_frames(frames, shifts) == shifts.len(),
        new_rows(frames, shifts, i).len() == shifts[i],
        0 <= j < shifts[i] ==> new_rows(frames, shifts, i)[j] == frames[i + 1].rows()[frames[0].tall() - shifts[i]
            + j],
{
    let frame = frames[i + 1];
    if 0 <= j < shifts[i] {
        let row = frame.rows()[frames[0].tall() - shifts[i] + j];
        assert(row.len() == frame.wide());
        assert(row.subrange(0, frames[0].wide() as int) =~= row);
    }
}

/// The shift that is chosen is the first of those with the smallest score, among
/// all that leave enough overlap; there is none exactly where every one of them
/// scores too high.
pub proof fn the_best_shift_is_chosen(a: Seq<Seq<u8>>, b: Seq<Seq<u8>>, limit: int, shift: int, other: int)
    requires
        1 <= other <= limit,
    ensures
        best_shift(a, b, limit, shift) ==> {
            &&& 1 <= shift <= limit
            &&& shift_score(a, b, shift) <= shift_score(a, b, other)
            &&& other < shift ==> shift_score(a, b, shift) < shift_score(a, b, other)
            &&& best_shift(a, b, limit, other) ==> other == shift
        },
        shift_score(a, b, other) <= 6 * 0x1_0000_0000_0000_0000 ==> !no_shift(a, b, limit),
        no_shift(a, b, limit) ==> shift_score(a, b, other) > 6 * 0x1_0000_0000_0000_0000,
        no_shift(a, b, 0),
{
}

/// A region of any size that a display can have can be captured, and so can frames
/// of one size that were scrolled, as long as the picture fits in memory.
pub proof fn ordinary_captures_are_possible(opts: ScrollOptions, frame: Frame, frames: Seq<Frame>, shifts: Seq<usize>)
    ensures
        opts.region.0 < 0x2000_0000 && opts.region.1 < 0x2000_0000 && opts.region.2 < 0x2000_0000 && opts.region.3
            < 0x2000_0000 ==> plannable(opts),
        0 < frame.wide() <= 0x400_0000 ==> sampleable(frame),
        frame.tall() == 0 ==> sampleable(frame),
        frames.len() == shifts.len() + 1 && (forall|i: int|
            0 <= i < frames.len() ==> (#[trigger] frames[i]).tall() == frames[0].tall() && frames[i].wide()
                == frames[0].wide()) && (forall|i: int|
            0 <= i < shifts.len() ==> #[trigger] shifts[i] <= frames[0].tall()) && frames[0].tall() + scrolled(
            shifts,
            shifts.len() as int,
        ) <= u32::MAX && 4 * (frames[0].wide() * (frames[0].tall() + scrolled(shifts, shifts.len() as int)))
            <= isize::MAX && 4 * frames[0].wide() <= usize::MAX ==> stitchable(frames, shifts),
{
}

/// Every scored row inside the band is `d` apart, and every other agrees.
pub open spec fn apart_in_band(
    a: Seq<Seq<u8>>,
    b: Seq<Seq<u8>>,
    shift: int,
    overlap: int,
    first: int,
    end: int,
    d: int,
) -> bool {
    forall|y: int|
        0 <= y < overlap ==> if first <= y < end {
            apart(a[y + shift], #[trigger] b[y], d)
        } else {
            a[y + shift] == b[y]
        }
}

/// Multiples of three among the first `n` that lie in the band.
spec fn in_band(first: int, end: int, n: int) -> int
    decreases n,
{
    if n <= 0 {
        0
    } else {
        in_band(first, end, n - 1) + (if first <= 3 * (n - 1) < end {
            1int
        } else {
            0
        })
    }
}

proof fn lemma_in_band(first: int, end: int, n: int)
    requires
        0 <= first <= end,
        0 <= n,
    ensures
        0 <= in_band(first, end, n) <= n,
        end <= 3 * n ==> 3 * in_band(first, end, n) >= end - first - 2,
        3 * in_band(first, end, n) >= 3 * n - first - 2 || end <= 3 * n,
    decreases n,
{
    if n > 0 {
        lemma_in_band(first, end, n - 1);
    }
}

proof fn lemma_band_sum(
    a: Seq<Seq<u8>>,
    b: Seq<Seq<u8>>,
    shift: int,
    overlap: int,
    first: int,
    end: int,
    d: int,
    n: int,
)
    requires
        apart_in_band(a, b, shift, overlap, first, end, d),
        0 <= first <= end <= overlap,
        0 <= d <= 255,
        0 <= n <= scored_rows(overlap) < 0x1_0000,
    ensures
        overlap_distance(a, b, shift, n) == in_band(first, end, n) * d * 0x2000_0000,
    decreases n,
{
    vstd::arithmetic::power2::lemma2_to64();
    lemma_in_band(first, end, n);
    if n > 0 {
        lemma_band_sum(a, b, shift, overlap, first, end, d, n - 1);
        lemma_in_band(first, end, n - 1);
        let (x, y) = (a[3 * (n - 1) + shift], b[3 * (n - 1)]);
        let m = in_band(first, end, n - 1);
        assert(0 <= (m + 1) * d < 0x100_0000) by (nonlinear_arith)
            requires
                0 <= m < 0x1_0000 - 1,
                0 <= d <= 255,
        ;
        assert(0 <= m * d < 0x100_0000) by (nonlinear_arith)
            requires
                0 <= m < 0x1_0000,
                0 <= d <= 255,
        ;
        if first <= 3 * (n - 1) < end {
            assert(apart(x, y, d));
            lemma_uniform_difference(x, y, d, 48);
            lemma_single_exact(d, 29, 48);
            assert(48 * d * 0x2000_0000 == d * 0x2000_0000 * 48);
            lemma_single_exact((m + 1) * d, 29, 1);
            assert(m * d * 0x2000_0000 + d * 0x2000_0000 == (m + 1) * d * 0x2000_0000) by (nonlinear_arith);
            let v = (m + 1) * d * 0x2000_0000;
            assert(v * 1 == v);
        } else {
            assert(x == y);
            lemma_no_difference(x, 48);
            lemma_single_zero(48);
            lemma_single_exact(m * d, 29, 1);
            let v = m * d * 0x2000_0000;
            assert(v * 1 == v);
        }
    } else {
        assert(in_band(first, end, n) * d == 0) by (nonlinear_arith)
            requires
                in_band(first, end, n) == 0,
        ;
    }
}

/// What is at least a number of at most 24 digits does not round to less.
proof fn lemma_single_at_least(v: int, j: nat, num: int, den: int)
    requires
        0 <= v < 0x100_0000,
        den > 0,
        num >= v * pow2(j) * den,
        num >= 0,
    ensures
        single(num, den) >= v * pow2(j),
    decreases num - den,
{
    lemma_pow2_pos(j);
    let m = v * pow2(j);
    assert(m >= 0) by (nonlinear_arith)
        requires
            v >= 0,
            pow2(j) > 0,
            m == v * pow2(j),
    ;
    if num < den * 0x100_0000 {
        assert(num / den >= m) by (nonlinear_arith)
            requires
                num >= m * den,
                den > 0,
        ;
    } else if j > 0 {
        lemma_pow2_unfold(j);
        let k = (j - 1) as nat;
        assert(m == 2 * (v * pow2(k))) by (nonlinear_arith)
            requires
                m == v * pow2(j),
                pow2(j) == 2 * pow2(k),
        ;
        assert(v * pow2(k) * (2 * den) == m * den) by (nonlinear_arith)
            requires
                m == 2 * (v * pow2(k)),
        ;
        lemma_single_at_least(v, k, num, 2 * den);
    } else {
        vstd::arithmetic::power2::lemma2_to64();
        assert(m == v) by (nonlinear_arith)
            requires
                m == v * pow2(j),
                pow2(j) == 1,
        ;
        assert(0x80_0000 * pow2(0) * (2 * den) == den * 0x100_0000) by (nonlinear_arith)
            requires
                pow2(0) == 1,
        ;
        lemma_single_at_least(0x80_0000, 0, num, 2 * den);
        assert(0x80_0000 * pow2(0) == 0x80_0000) by (nonlinear_arith)
            requires
                pow2(0) == 1,
        ;
    }
}

/// Every part of the overlap counts, wherever it lies: a band of rows that differs
/// strongly enough, for its height, tells two pictures apart and rules a shift out,
/// though all other rows agree.
pub proof fn every_part_of_the_overlap_counts(
    a: Seq<Seq<u8>>,
    b: Seq<Seq<u8>>,
    shift: int,
    overlap: int,
    first: int,
    end: int,
    d: int,
)
    requires
        apart_in_band(a, b, shift, overlap, first, end, d),
        0 <= first <= end <= overlap < 0x1_0000,
        0 < overlap,
        0 <= d <= 255,
    ensures
        a.len() == b.len() && overlap == a.len() && shift == 0 && (end - first - 2) * d >= 4 * (overlap + 2)
            ==> !still(a, b),
        1 <= shift && overlap == shorter(a.len() as int, b.len() as int) - shift && (end - first - 2) * d >= 7 * (
        overlap + 2) ==> shift_score(a, b, shift) > 6 * 0x1_0000_0000_0000_0000,
{
    let n = scored_rows(overlap);
    let m = in_band(first, end, n);
    lemma_in_band(first, end, n);
    lemma_band_sum(a, b, shift, overlap, first, end, d, n);
    vstd::arithmetic::power2::lemma2_to64();
    lemma_single_exact(n, 0, 1);
    assert(single(n, 1) == n) by {
        assert(n * 1 * 1 == n);
    }
    let num = m * d * 0x2000_0000 * 0x8_0000_0000;
    assert(num == m * d * 0x1_0000_0000_0000_0000) by (nonlinear_arith)
        requires
            num == m * d * 0x2000_0000 * 0x8_0000_0000,
    ;
    assert(3 * (m * d) >= (end - first - 2) * d) by (nonlinear_arith)
        requires
            3 * m >= end - first - 2,
            d >= 0,
    ;
    assert(m * d >= 0) by (nonlinear_arith)
        requires
            m >= 0,
            d >= 0,
    ;
    if (end - first - 2) * d >= 4 * (overlap + 2) {
        assert(m * d >= 4 * n);
        assert(num >= 4 * pow2(64) * n) by (nonlinear_arith)
            requires
                num == m * d * 0x1_0000_0000_0000_0000,
                m * d >= 4 * n,
                pow2(64) == 0x1_0000_0000_0000_0000,
        ;
        lemma_single_at_least(4, 64, num, n);
    }
    if (end - first - 2) * d >= 7 * (overlap + 2) {
        assert(m * d >= 7 * n);
        assert(num >= 7 * pow2(64) * n) by (nonlinear_arith)
            requires
                num == m * d * 0x1_0000_0000_0000_0000,
                m * d >= 7 * n,
                pow2(64) == 0x1_0000_0000_0000_0000,
        ;
        lemma_single_at_least(7, 64, num, n);
    }
}

/// Every third row of the overlap counts for a shift.
pub proof fn every_third_row_counts_for_a_shift(a: Seq<Seq<u8>>, b: Seq<Seq<u8>>, shift: int, y: int)
    requires
        0 <= y < shorter(a.len() as int, b.len() as int) - shift <= u32::MAX,
        y % 3 == 0,
        a[y + shift].len() == 48,
        b[y].len() == 48,
        a[y + shift] != b[y],
    ensures
        shift_score(a, b, shift) > 0,
{
    every_third_row_counts(a, b, shift, shorter(a.len() as int, b.len() as int) - shift, y);
}

} // verus!
