//! Scrolling capture.
//!
//! Grab the region, scroll it, grab again, repeat until the content stops
//! changing, then stitch the frames into one tall picture.
//!
//! The stitch does not trust the scroll distance. A synthetic scroll event is a
//! request, not a promise: pages apply momentum, snap to element boundaries or
//! refuse to scroll further at the bottom. So each pair of consecutive frames is
//! aligned by matching their pixels, and the requested step is only a request.

use crate::frame::{blank_row, part_of, pasted, png_picture, rectangular, Frame, Pixel};
use crate::single::{digits_and, lemma_single_absorbs, lemma_single_bound, lemma_single_positive, single, to_single};
use vstd::prelude::*;
use vstd::string::*;

verus! {

/// Horizontal samples kept per row: enough to distinguish lines of text, few
/// enough that comparing every candidate offset stays cheap.
pub const SAMPLES: usize = 48;

/// Rows are "the same" if their mean difference per sample is at most this: 6, in
/// units of 2^-64. Screen content is not free of noise: subpixel antialiasing and
/// cursor blink shift a few values even when nothing scrolled.
pub const ROW_TOLERANCE: u128 = 0x6_0000_0000_0000_0000;

/// Frames are "the same picture" up to half of [`ROW_TOLERANCE`].
pub const STILL_TOLERANCE: u128 = 0x3_0000_0000_0000_0000;

// ---------------------------------------------------------------------------
// Row signatures

/// The column of the `i`th sample of a row of `w` pixels.
pub open spec fn sample_column(i: int, w: int) -> int {
    i * (w - 1) / 47
}

/// Brightness of a pixel; colour adds nothing for alignment.
pub open spec fn luma(p: Pixel) -> int {
    (p.0 * 30 + p.1 * 59 + p.2 * 11) / 100
}

pub open spec fn signature(row: Seq<Pixel>) -> Seq<u8> {
    Seq::new(48, |i: int| luma(row[sample_column(i, row.len() as int)]) as u8)
}

pub open spec fn row_signatures(rows: Seq<Seq<Pixel>>) -> Seq<Seq<u8>> {
    rows.map_values(|row: Seq<Pixel>| signature(row))
}

/// The values of a list of signatures.
pub open spec fn samples(v: Seq<[u8; SAMPLES]>) -> Seq<Seq<u8>> {
    v.map_values(|s: [u8; SAMPLES]| s@)
}

proof fn lemma_sample_column(i: int, w: int)
    requires
        0 <= i < 48,
        w > 0,
    ensures
        0 <= sample_column(i, w) < w,
        i * (w - 1) <= 47 * (w - 1),
{
    assert(0 <= i * (w - 1) <= 47 * (w - 1)) by (nonlinear_arith)
        requires
            0 <= i < 48,
            w > 0,
    ;
}

/// A frame can be sampled: it has columns, and few enough that a sample's column
/// can be computed.
pub open spec fn sampleable(frame: Frame) -> bool {
    frame.tall() == 0 || (frame.wide() > 0 && 47 * (frame.wide() - 1) <= u32::MAX)
}

/// The signature of every row.
pub fn signatures(frame: &Frame) -> (r: Vec<[u8; SAMPLES]>)
    requires
        sampleable(*frame),
    ensures
        samples(r@) == row_signatures(frame.rows()),
        r@.len() == frame.tall(),
        r@.len() <= u32::MAX,
{
    let (w, h) = frame.dimensions();
    let mut r: Vec<[u8; SAMPLES]> = Vec::new();
    let mut y: u32 = 0;
    while y < h
        invariant
            y <= h,
            w == frame.wide(),
            h == frame.tall(),
            frame.valid(),
            sampleable(*frame),
            r@.len() == y,
            forall|j: int| 0 <= j < y ==> #[trigger] r@[j]@ == signature(frame.rows()[j]),
        decreases h - y,
    {
        let mut row: [u8; SAMPLES] = [0u8;SAMPLES];
        let mut i: u32 = 0;
        while i < 48
            invariant
                i <= 48,
                y < h,
                w == frame.wide(),
                h == frame.tall(),
                frame.valid(),
                sampleable(*frame),
                row@.len() == 48,
                forall|k: int| 0 <= k < i ==> #[trigger] row@[k] == signature(frame.rows()[y as int])[k],
            decreases 48 - i,
        {
            proof {
                lemma_sample_column(i as int, w as int);
            }
            let x: u32 = (i * (w - 1)) / 47;
            let p = frame.get_pixel(x, y);
            let v: u32 = (p.0 as u32 * 30 + p.1 as u32 * 59 + p.2 as u32 * 11) / 100;
            assert(v as int == luma(p));
            row[i as usize] = v as u8;
            i = i + 1;
        }
        assert(row@ =~= signature(frame.rows()[y as int]));
        r.push(row);
        y = y + 1;
    }
    assert(samples(r@) =~= row_signatures(frame.rows()));
    r
}

// ---------------------------------------------------------------------------
// Alignment

pub open spec fn abs_diff(a: int, b: int) -> int {
    if a < b {
        b - a
    } else {
        a - b
    }
}

/// Sum of the differences of the first `n` samples.
pub open spec fn difference(a: Seq<u8>, b: Seq<u8>, n: int) -> int
    decreases n,
{
    if n <= 0 {
        0
    } else {
        difference(a, b, n - 1) + abs_diff(a[n - 1] as int, b[n - 1] as int)
    }
}

/// How far two rows differ: the mean difference per sample, rounded to single
/// precision, in units of 2^-29.
pub open spec fn distance(a: Seq<u8>, b: Seq<u8>) -> int {
    single(difference(a, b, 48) * 0x2000_0000, 48)
}

/// The bound of a distance: 256, in units of 2^-29.
proof fn lemma_distance(a: Seq<u8>, b: Seq<u8>)
    requires
        0 <= difference(a, b, 48) <= 12240,
    ensures
        0 <= distance(a, b) <= 0x20_0000_0000,
{
    assert(digits_and(13) == 0x20_0000_0000) by {
        reveal_with_fuel(digits_and, 14);
    }
    lemma_single_bound(difference(a, b, 48) * 0x2000_0000, 48, 13);
}

/// Computes [`distance`].
pub fn row_distance(a: &[u8; SAMPLES], b: &[u8; SAMPLES]) -> (r: u64)
    ensures
        r == distance(a@, b@),
        r <= 0x20_0000_0000,
{
    let mut sum: u32 = 0;
    let mut i: usize = 0;
    while i < 48
        invariant
            i <= 48,
            a@.len() == 48,
            b@.len() == 48,
            sum == difference(a@, b@, i as int),
            sum <= i * 255,
        decreases 48 - i,
    {
        let d: u8 = if a[i] < b[i] {
            b[i] - a[i]
        } else {
            a[i] - b[i]
        };
        sum = sum + d as u32;
        i = i + 1;
    }
    proof {
        lemma_distance(a@, b@);
    }
    to_single(sum as u128 * 0x2000_0000, 48) as u64
}

/// Number of rows that score an overlap: every third one.
pub open spec fn scored_rows(overlap: int) -> int {
    (overlap + 2) / 3
}

/// Sum of the distances of the first `n` scored rows, `a` taken `shift` rows
/// further down: in units of 2^-29, rounded to single precision after each.
pub open spec fn overlap_distance(a: Seq<Seq<u8>>, b: Seq<Seq<u8>>, shift: int, n: int) -> int
    decreases n,
{
    if n <= 0 {
        0
    } else {
        single(
            overlap_distance(a, b, shift, n - 1) + distance(a[3 * (n - 1) + shift], b[3 * (n - 1)]),
            1,
        )
    }
}

/// The mean difference per sample where the first `overlap` rows of `b` lie over
/// `a`, `shift` rows down: in units of 2^-64, rounded to single precision. With
/// no row to compare it is zero.
pub open spec fn mean_difference(a: Seq<Seq<u8>>, b: Seq<Seq<u8>>, shift: int, overlap: int) -> int {
    let n = scored_rows(overlap);
    single(
        overlap_distance(a, b, shift, n) * 0x8_0000_0000,
        single(
            if n < 1 {
                1
            } else {
                n
            },
            1,
        ),
    )
}

/// A sum stops growing before it overflows: what is added no longer reaches its
/// last digit.
proof fn lemma_sum(sum: int, d: int)
    requires
        0 <= sum <= 0x4000_0000_0000_0000,
        0 <= d <= 0x20_0000_0000,
    ensures
        0 <= single(sum + d, 1) <= 0x4000_0000_0000_0000,
{
    if sum + d <= 0x4000_0000_0000_0000 {
        assert(digits_and(38) == 0x4000_0000_0000_0000) by {
            reveal_with_fuel(digits_and, 39);
        }
        lemma_single_bound(sum + d, 1, 38);
    } else {
        lemma_single_absorbs(sum + d - 0x4000_0000_0000_0000);
    }
}

/// Scores an overlap, from every third row.
fn score(a: &[[u8; SAMPLES]], b: &[[u8; SAMPLES]], shift: usize, overlap: usize) -> (r: u128)
    requires
        shift + overlap <= a@.len(),
        overlap <= b@.len(),
    ensures
        r == mean_difference(samples(a@), samples(b@), shift as int, overlap as int),
{
    let mut total: u64 = 0;
    let mut n: u64 = 0;
    let mut y: usize = 0;
    while y < overlap
        invariant
            shift + overlap <= a@.len(),
            overlap <= b@.len(),
            a@.len() == a.len(),
            b@.len() == b.len(),
            y == 3 * n || (y == overlap && n == scored_rows(overlap as int)),
            n <= scored_rows(overlap as int),
            total == overlap_distance(samples(a@), samples(b@), shift as int, n as int),
            total <= 0x4000_0000_0000_0000,
        decreases overlap - y,
    {
        let d: u64 = row_distance(&a[y + shift], &b[y]);
        assert(samples(a@)[3 * n + shift] == a@[y + shift]@);
        assert(samples(b@)[3 * n] == b@[y as int]@);
        proof {
            lemma_sum(total as int, d as int);
        }
        total = to_single(total as u128 + d as u128, 1) as u64;
        n = n + 1;
        y = if overlap - y <= 3 {
            overlap
        } else {
            y + 3
        };
    }
    let count: u64 = if n < 1 {
        1
    } else {
        n
    };
    proof {
        assert(digits_and(40) == 0x1_0000_0000_0000_0000) by {
            reveal_with_fuel(digits_and, 41);
        }
        lemma_single_bound(count as int, 1, 40);
        lemma_single_positive(count as int, 1);
    }
    to_single(total as u128 * 0x8_0000_0000, to_single(count as u128, 1))
}

pub open spec fn shorter(a: int, b: int) -> int {
    if a < b {
        a
    } else {
        b
    }
}

/// The score of a candidate: `b` has moved on by `shift` rows.
pub open spec fn shift_score(a: Seq<Seq<u8>>, b: Seq<Seq<u8>>, shift: int) -> int {
    mean_difference(a, b, shift, shorter(a.len() as int, b.len() as int) - shift)
}

/// `shift` is the candidate up to `limit` with the smallest score, and the first
/// such.
pub open spec fn best_shift(a: Seq<Seq<u8>>, b: Seq<Seq<u8>>, limit: int, shift: int) -> bool {
    &&& 1 <= shift <= limit
    &&& forall|t: int| 1 <= t <= limit ==> #[trigger] shift_score(a, b, t) >= shift_score(a, b, shift)
    &&& forall|t: int| 1 <= t < shift ==> #[trigger] shift_score(a, b, t) > shift_score(a, b, shift)
}

/// No candidate up to `limit` scores well enough.
pub open spec fn no_shift(a: Seq<Seq<u8>>, b: Seq<Seq<u8>>, limit: int) -> bool {
    forall|t: int| 1 <= t <= limit ==> #[trigger] shift_score(a, b, t) > ROW_TOLERANCE
}

/// How far `b` has scrolled past `a`, in rows: the offset where the lower rows of
/// `a` best match the upper rows of `b`, with its score, in units of 2^-64.
///
/// `None` when nothing lines up well enough: a hard cut, a page that jumped
/// somewhere unrelated, or content that changed completely.
pub fn find_shift(a: &[[u8; SAMPLES]], b: &[[u8; SAMPLES]], min_overlap: usize) -> (r: Option<
    (usize, u128),
>)
    ensures
        ({
            let sa = samples(a@);
            let sb = samples(b@);
            let limit = shorter(a@.len() as int, b@.len() as int) - min_overlap;
            match r {
                Some((shift, cost)) => {
                    &&& best_shift(sa, sb, limit, shift as int)
                    &&& cost == shift_score(sa, sb, shift as int)
                    &&& cost <= ROW_TOLERANCE
                },
                None => no_shift(sa, sb, limit),
            }
        }),
{
    let ghost (sa, sb) = (samples(a@), samples(b@));
    assert(a@.len() == a.len() && b@.len() == b.len());
    let h: usize = if a.len() < b.len() {
        a.len()
    } else {
        b.len()
    };
    if h <= min_overlap {
        return None;
    }
    let limit: usize = h - min_overlap;
    let mut best: usize = 1;
    let mut best_cost: u128 = score(a, b, 1, h - 1);
    let mut shift: usize = 1;
    while shift < limit
        invariant
            a@.len() == a.len(),
            b@.len() == b.len(),
            h == shorter(a@.len() as int, b@.len() as int),
            limit == h - min_overlap,
            1 <= shift <= limit,
            sa == samples(a@),
            sb == samples(b@),
            best_shift(sa, sb, shift as int, best as int),
            best_cost == shift_score(sa, sb, best as int),
        decreases limit - shift,
    {
        shift = shift + 1;
        let cost: u128 = score(a, b, shift, h - shift);
        assert(cost == shift_score(sa, sb, shift as int));
        if cost < best_cost {
            best = shift;
            best_cost = cost;
        }
    }
    if best_cost <= ROW_TOLERANCE {
        Some((best, best_cost))
    } else {
        None
    }
}

/// The two frames are the same picture.
pub open spec fn still(a: Seq<Seq<u8>>, b: Seq<Seq<u8>>) -> bool {
    a.len() == b.len() && mean_difference(a, b, 0, a.len() as int) <= STILL_TOLERANCE
}

/// True when two frames are the same picture: the page did not move.
pub fn looks_identical(a: &[[u8; SAMPLES]], b: &[[u8; SAMPLES]]) -> (r: bool)
    ensures
        r == still(samples(a@), samples(b@)),
{
    assert(a@.len() == a.len() && b@.len() == b.len());
    if a.len() != b.len() {
        return false;
    }
    score(a, b, 0, a.len()) <= STILL_TOLERANCE
}

// ---------------------------------------------------------------------------
// Stitching

/// Sum of the first `n` shifts.
pub open spec fn scrolled(shifts: Seq<usize>, n: int) -> int
    decreases n,
{
    if n <= 0 {
        0
    } else {
        scrolled(shifts, n - 1) + shifts[n - 1]
    }
}

/// How many frames after the first are pasted.
pub open spec fn pasted_frames(frames: Seq<Frame>, shifts: Seq<usize>) -> int {
    shorter(frames.len() - 1, shifts.len() as int)
}

/// The rows that the `i`th frame after the first adds: its last `shifts[i]` rows,
/// as wide as the first frame.
pub open spec fn new_rows(frames: Seq<Frame>, shifts: Seq<usize>, i: int) -> Seq<Seq<Pixel>> {
    let first = frames[0];
    part_of(
        frames[i + 1].rows(),
        0,
        first.tall() - shifts[i],
        first.wide(),
        shifts[i] as nat,
    )
}

/// The first frame, and below it what each of the next `n` frames adds.
pub open spec fn stitched_rows(frames: Seq<Frame>, shifts: Seq<usize>, n: int) -> Seq<Seq<Pixel>>
    decreases n,
{
    if n <= 0 {
        frames[0].rows()
    } else {
        stitched_rows(frames, shifts, n - 1) + new_rows(frames, shifts, n - 1)
    }
}

/// The frames can be stitched: each frame that adds rows is at least as large as
/// the first and adds no more rows than that has, and the whole picture fits in
/// memory.
pub open spec fn stitchable(frames: Seq<Frame>, shifts: Seq<usize>) -> bool {
    &&& frames.len() > 0
    &&& forall|i: int|
        #![trigger shifts[i]]
        0 <= i < pasted_frames(frames, shifts) && shifts[i] > 0 ==> {
            &&& shifts[i] <= frames[0].tall()
            &&& frames[i + 1].wide() >= frames[0].wide()
            &&& frames[i + 1].tall() >= frames[0].tall()
        }
    &&& frames[0].tall() + scrolled(shifts, shifts.len() as int) <= u32::MAX
    &&& 4 * (frames[0].wide() * (frames[0].tall() + scrolled(shifts, shifts.len() as int)))
        <= isize::MAX
    &&& 4 * frames[0].wide() <= usize::MAX
}

proof fn lemma_scrolled(shifts: Seq<usize>, m: int, n: int)
    requires
        0 <= m <= n <= shifts.len(),
    ensures
        0 <= scrolled(shifts, m) <= scrolled(shifts, n),
    decreases n,
{
    if m < n {
        lemma_scrolled(shifts, m, n - 1);
    } else if m > 0 {
        lemma_scrolled(shifts, m - 1, n - 1);
    }
}

proof fn lemma_stitched_len(frames: Seq<Frame>, shifts: Seq<usize>, n: int)
    requires
        frames.len() > 0,
        0 <= n <= pasted_frames(frames, shifts),
    ensures
        stitched_rows(frames, shifts, n).len() == frames[0].tall() + scrolled(shifts, n),
    decreases n,
{
    if n > 0 {
        lemma_stitched_len(frames, shifts, n - 1);
    }
}

/// `top` pasted at `(0, y)` over rows of its own width replaces whole rows.
proof fn lemma_pasted_rows(rows: Seq<Seq<Pixel>>, top: Seq<Seq<Pixel>>, y: int, w: nat)
    requires
        rectangular(rows, w),
        rectangular(top, w),
        0 <= y,
        y + top.len() <= rows.len(),
    ensures
        pasted(rows, top, 0, y, w) == rows.subrange(0, y) + top + rows.subrange(
            y + top.len(),
            rows.len() as int,
        ),
{
    let whole = rows.subrange(0, y) + top + rows.subrange(y + top.len(), rows.len() as int);
    let result = pasted(rows, top, 0, y, w);
    assert forall|j: int| 0 <= j < rows.len() implies result[j] == whole[j] by {
        if y <= j < y + top.len() {
            assert(rows[j].len() == w);
            assert(result[j] =~= top[j - y]);
        }
    }
    assert(result =~= whole);
}

/// Sum of all shifts.
fn sum_shifts(shifts: &[usize]) -> (r: u32)
    requires
        scrolled(shifts@, shifts@.len() as int) <= u32::MAX,
    ensures
        r == scrolled(shifts@, shifts@.len() as int),
{
    let mut sum: u32 = 0;
    let mut i: usize = 0;
    while i < shifts.len()
        invariant
            i <= shifts@.len(),
            shifts@.len() == shifts.len(),
            sum == scrolled(shifts@, i as int),
            scrolled(shifts@, shifts@.len() as int) <= u32::MAX,
        decreases shifts@.len() - i,
    {
        proof {
            lemma_scrolled(shifts@, i as int + 1, shifts@.len() as int);
        }
        sum = sum + shifts[i] as u32;
        i = i + 1;
    }
    sum
}

/// Pastes each frame's new rows below what came before. Rows that no frame fills
/// stay blank.
pub fn stitch(frames: &[Frame], shifts: &[usize]) -> (r: Frame)
    requires
        stitchable(frames@, shifts@),
    ensures
        r.valid(),
        r.wide() == frames@[0].wide(),
        r.tall() == frames@[0].tall() + scrolled(shifts@, shifts@.len() as int),
        ({
            let n = pasted_frames(frames@, shifts@);
            r.rows() == stitched_rows(frames@, shifts@, n) + Seq::new(
                (scrolled(shifts@, shifts@.len() as int) - scrolled(shifts@, n)) as nat,
                |j: int| blank_row(frames@[0].wide()),
            )
        }),
{
    let ghost fs = frames@;
    let ghost ss = shifts@;
    let ghost all = ss.len() as int;
    assert(fs.len() == frames.len() && ss.len() == shifts.len());
    let (w, h) = frames[0].dimensions();
    let total: u32 = h + sum_shifts(shifts);
    let mut out: Frame = Frame::blank(w, total);
    let ghost blank = out.rows();
    out.paste(&frames[0], 0, 0);
    let mut y: i64 = h as i64;
    let mut i: usize = 0;
    proof {
        lemma_scrolled(ss, 0, all);
        lemma_pasted_rows(blank, fs[0].rows(), 0, w as nat);
        assert(out.rows() =~= fs[0].rows() + blank.subrange(h as int, total as int));
    }
    while i < shifts.len() && i < frames.len() - 1
        invariant
            fs == frames@,
            ss == shifts@,
            fs.len() == frames.len(),
            ss.len() == shifts.len(),
            all == ss.len(),
            stitchable(fs, ss),
            fs[0].valid(),
            w == fs[0].wide(),
            h == fs[0].tall(),
            total == h + scrolled(ss, all),
            0 <= i <= pasted_frames(fs, ss),
            y == h + scrolled(ss, i as int),
            out.wide() == w,
            blank == Seq::new(total as nat, |j: int| blank_row(w as nat)),
            stitched_rows(fs, ss, i as int).len() == y,
            rectangular(stitched_rows(fs, ss, i as int), w as nat),
            out.rows() == stitched_rows(fs, ss, i as int) + blank.subrange(y as int, total as int),
        decreases ss.len() - i,
    {
        let shift: usize = shifts[i];
        proof {
            lemma_scrolled(ss, i as int + 1, all);
            lemma_stitched_len(fs, ss, i as int + 1);
        }
        if shift != 0 {
            let part: Frame = frames[i + 1].part(0, h - shift as u32, w, shift as u32);
            let ghost before = out.rows();
            let ghost done = stitched_rows(fs, ss, i as int);
            out.paste(&part, 0, y);
            proof {
                assert(rectangular(before, w as nat));
                lemma_pasted_rows(before, part.rows(), y as int, w as nat);
                assert(part.rows() == new_rows(fs, ss, i as int));
                assert(before.subrange(0, y as int) =~= done);
                assert(before.subrange(y + shift, total as int) =~= blank.subrange(
                    y + shift,
                    total as int,
                ));
            }
            y = y + shift as i64;
        } else {
            proof {
                assert(new_rows(fs, ss, i as int) =~= Seq::empty());
                assert(stitched_rows(fs, ss, i as int + 1) =~= stitched_rows(fs, ss, i as int));
            }
        }
        proof {
            let next = stitched_rows(fs, ss, i as int + 1);
            assert(rectangular(next, w as nat)) by {
                assert forall|k: int| 0 <= k < next.len() implies (#[trigger] next[k]).len() == w by {
                    let done = stitched_rows(fs, ss, i as int);
                    if k < done.len() {
                        assert(next[k] == done[k]);
                    } else {
                        assert(next[k] == new_rows(fs, ss, i as int)[k - done.len()]);
                    }
                }
            }
        }
        i = i + 1;
    }
    proof {
        assert(i == pasted_frames(fs, ss));
        lemma_scrolled(ss, i as int, all);
        assert(blank.subrange(y as int, total as int) =~= Seq::new(
            (scrolled(ss, all) - scrolled(ss, i as int)) as nat,
            |j: int| blank_row(w as nat),
        ));
        assert(rectangular(out.rows(), w as nat));
    }
    out
}

// ---------------------------------------------------------------------------
// Grabbing and the capture loop

pub open spec fn region_error() -> Seq<char> {
    "region is outside the display"@
}

/// The part of a picture of the whole display that a region shows: clipped at
/// the right and bottom edge.
pub open spec fn region_part(rows: Seq<Seq<Pixel>>, width: nat, region: (u32, u32, u32, u32)) -> (
    nat,
    Seq<Seq<Pixel>>,
) {
    let (x, y, w, h) = region;
    let pw = shorter(w as int, width - x) as nat;
    let ph = shorter(h as int, rows.len() - y) as nat;
    (pw, part_of(rows, x as int, y as int, pw, ph))
}

/// Cuts the region out of a picture of the whole display.
pub fn crop_frame(full: &Frame, region: (u32, u32, u32, u32)) -> (r: Result<Frame, String>)
    ensures
        match r {
            Ok(f) => {
                &&& region.0 < full.wide() && region.1 < full.tall()
                &&& f.valid()
                &&& (f.wide(), f.rows()) == region_part(full.rows(), full.wide(), region)
            },
            Err(e) => {
                &&& region.0 >= full.wide() || region.1 >= full.tall()
                &&& e@ == region_error()
            },
        },
{
    let (x, y, w, h) = region;
    let (fw, fh) = full.dimensions();
    if x >= fw || y >= fh {
        return Err("region is outside the display".to_owned());
    }
    let pw: u32 = if w < fw - x {
        w
    } else {
        fw - x
    };
    let ph: u32 = if h < fh - y {
        h
    } else {
        fh - y
    };
    Ok(full.part(x, y, pw, ph))
}

/// Cuts the region out of a screenshot of the whole display, if it could be
/// read.
pub fn crop_decoded(decoded: Result<Frame, String>, region: (u32, u32, u32, u32)) -> (r: Result<
    Frame,
    String,
>)
    ensures
        match decoded {
            Err(e) => r is Err && r->Err_0@ == "cannot read capture: "@ + e@,
            Ok(full) => if region.0 >= full.wide() || region.1 >= full.tall() {
                r is Err && r->Err_0@ == region_error()
            } else {
                r matches Ok(f) && f.valid() && (f.wide(), f.rows()) == region_part(
                    full.rows(),
                    full.wide(),
                    region,
                )
            },
        },
{
    match decoded {
        Ok(full) => crop_frame(&full, region),
        Err(e) => {
            let mut message: String = "cannot read capture: ".to_owned();
            message.append(e.as_str());
            Err(message)
        },
    }
}

/// Cuts the region out of a screenshot of the whole display, in PNG format.
pub fn crop_capture(png: &[u8], region: (u32, u32, u32, u32)) -> (r: Result<Frame, String>)
    ensures
        match png_picture(png@) {
            Err(e) => r is Err && r->Err_0@ == "cannot read capture: "@ + e,
            Ok((width, rows)) => if region.0 >= width || region.1 >= rows.len() {
                r is Err && r->Err_0@ == region_error()
            } else {
                r matches Ok(f) && f.valid() && (f.wide(), f.rows()) == region_part(rows, width, region)
            },
        },
{
    crop_decoded(Frame::from_png(png), region)
}

pub struct ScrollOptions {
    pub display: usize,
    /// Physical pixels, relative to the display.
    pub region: (u32, u32, u32, u32),
    /// How far to ask the page to scroll between frames; 0 means about two thirds
    /// of the region's height.
    pub step: u32,
    pub max_frames: usize,
    /// Time for the page to repaint, and finish any smooth scrolling, before the
    /// next grab.
    pub settle_ms: u64,
}

impl Default for ScrollOptions {
    fn default() -> (r: ScrollOptions)
        ensures
            r == (ScrollOptions {
                display: 0,
                region: (0, 0, 800, 600),
                step: 0,
                max_frames: 40,
                settle_ms: 550,
            }),
    {
        ScrollOptions { display: 0, region: (0, 0, 800, 600), step: 0, max_frames: 40, settle_ms: 550 }
    }
}

/// What a capture sets out to do.
#[derive(Clone, Copy, Debug, PartialEq, Eq)]
pub struct ScrollPlan {
    /// Where the pointer goes: the middle of the region. Scroll events are
    /// delivered to whatever is under it.
    pub pointer: (u32, u32),
    /// How far to scroll between frames. Negative scrolls the content down.
    pub delta: i32,
    /// Rows that two consecutive frames must share.
    pub min_overlap: usize,
}

/// Rows to scroll between frames.
pub open spec fn scroll_step(opts: ScrollOptions) -> int {
    let rh = opts.region.3;
    if opts.step == 0 {
        larger(rh * 2 / 3, 40)
    } else {
        larger(shorter(opts.step as int, if rh < 20 { 0 } else { rh - 20 }), 20)
    }
}

pub open spec fn larger(a: int, b: int) -> int {
    if a < b {
        b
    } else {
        a
    }
}

/// A step as the distance of a scroll event: negated, and read as a 32-bit
/// number.
pub open spec fn scroll_delta(step: int) -> int {
    if step < 0x8000_0000 {
        -step
    } else {
        0x1_0000_0000 - step
    }
}

/// The region is too small to capture by scrolling.
pub open spec fn too_small(region: (u32, u32, u32, u32)) -> bool {
    region.2 < 32 || region.3 < 64
}

/// The arithmetic on the region stays in range.
pub open spec fn plannable(opts: ScrollOptions) -> bool {
    too_small(opts.region) || {
        &&& opts.region.0 + opts.region.2 / 2 <= u32::MAX
        &&& opts.region.1 + opts.region.3 / 2 <= u32::MAX
        &&& opts.step == 0 ==> opts.region.3 * 2 <= u32::MAX
        &&& scroll_step(opts) != 0x8000_0000
    }
}

/// Whether [`plan_capture`] can be asked about a region.
pub fn can_plan(opts: &ScrollOptions) -> (r: bool)
    ensures
        r == plannable(*opts),
{
    let (rx, ry, rw, rh) = opts.region;
    if rw < 32 || rh < 64 {
        return true;
    }
    let step: u64 = if opts.step == 0 {
        let two_thirds: u64 = rh as u64 * 2 / 3;
        if two_thirds < 40 {
            40
        } else {
            two_thirds
        }
    } else {
        let capped: u32 = if opts.step < rh - 20 {
            opts.step
        } else {
            rh - 20
        };
        if capped < 20 {
            20
        } else {
            capped as u64
        }
    };
    assert(step as int == scroll_step(*opts));
    rx as u64 + rw as u64 / 2 <= u32::MAX as u64 && ry as u64 + rh as u64 / 2 <= u32::MAX as u64 && (
    opts.step != 0 || rh as u64 * 2 <= u32::MAX as u64) && step != 0x8000_0000
}

/// Plans a capture: where to point, how far to scroll, and how much overlap to
/// insist on. At least a third of a frame stays in view, so that alignment has
/// something to lock onto even if the page overshoots.
pub fn plan_capture(opts: &ScrollOptions) -> (r: Result<ScrollPlan, String>)
    requires
        plannable(*opts),
    ensures
        match r {
            Ok(plan) => {
                &&& !too_small(opts.region)
                &&& plan.pointer.0 == opts.region.0 + opts.region.2 / 2
                &&& plan.pointer.1 == opts.region.1 + opts.region.3 / 2
                &&& plan.delta == scroll_delta(scroll_step(*opts))
                &&& plan.min_overlap == larger(opts.region.3 as int / 3, 24)
            },
            Err(e) => too_small(opts.region) && e@ == "region is too small to scroll-capture"@,
        },
{
    let (rx, ry, rw, rh) = opts.region;
    if rw < 32 || rh < 64 {
        return Err("region is too small to scroll-capture".to_owned());
    }
    let step: u32 = if opts.step == 0 {
        let third: u32 = rh * 2 / 3;
        if third < 40 {
            40
        } else {
            third
        }
    } else {
        let capped: u32 = if opts.step < rh - 20 {
            opts.step
        } else {
            rh - 20
        };
        if capped < 20 {
            20
        } else {
            capped
        }
    };
    assert(step as int == scroll_step(*opts));
    let delta: i32 = if step < 0x8000_0000 {
        -(step as i32)
    } else {
        (0x1_0000_0000i64 - step as i64) as i32
    };
    let third: u32 = rh / 3;
    let min_overlap: usize = if third < 24 {
        24
    } else {
        third as usize
    };
    Ok(ScrollPlan { pointer: (rx + rw / 2, ry + rh / 2), delta, min_overlap })
}

pub struct ScrollResult {
    pub path: String,
    pub frames: usize,
    pub width: u32,
    pub height: u32,
    /// True if capture stopped because the page stopped moving (the good case)
    /// rather than because it hit the limit on frames.
    pub reached_end: bool,
}

/// What to do after a frame has been taken in.
#[derive(Clone, Copy, Debug, PartialEq, Eq, Structural)]
pub enum Next {
    /// The frame was kept: scroll on and grab another.
    Scroll,
    /// The capture is complete.
    Stop,
}

/// A capture under way.
pub struct ScrollCapture {
    frames: Vec<Frame>,
    /// Signatures of the last frame.
    last: Vec<[u8; SAMPLES]>,
    shifts: Vec<usize>,
    min_overlap: usize,
    max_frames: usize,
    reached_end: bool,
}

/// The error of a capture whose second frame has nothing to do with the first.
pub open spec fn stuck_error() -> Seq<char> {
    "the region didn't scroll \u{2014} is the pointer over a scrollable area?"@
}

impl ScrollCapture {
    /// The frames kept so far.
    pub closed spec fn kept(self) -> Seq<Frame> {
        self.frames@
    }

    /// How far each frame after the first has moved on.
    pub closed spec fn moved(self) -> Seq<usize> {
        self.shifts@
    }

    pub closed spec fn overlap(self) -> usize {
        self.min_overlap
    }

    pub closed spec fn most_frames(self) -> usize {
        self.max_frames
    }

    pub closed spec fn at_end(self) -> bool {
        self.reached_end
    }

    /// There is one shift between each two frames, and the signatures at hand are
    /// those of the last frame.
    pub closed spec fn wf(self) -> bool {
        &&& self.frames@.len() == 0 ==> self.shifts@.len() == 0
        &&& self.frames@.len() > 0 ==> self.shifts@.len() == self.frames@.len() - 1 && samples(
            self.last@,
        ) == row_signatures(self.frames@.last().rows()) && self.frames@.last().valid()
    }

    pub fn new(min_overlap: usize, max_frames: usize) -> (r: ScrollCapture)
        ensures
            r.wf(),
            r.most_frames() == max_frames,
            r.kept() == Seq::<Frame>::empty(),
            r.moved() == Seq::<usize>::empty(),
            r.overlap() == min_overlap,
            !r.at_end(),
    {
        ScrollCapture {
            frames: Vec::new(),
            last: Vec::new(),
            shifts: Vec::new(),
            min_overlap,
            max_frames,
            reached_end: false,
        }
    }

    /// How many frames have been kept.
    pub fn frames(&self) -> (r: usize)
        ensures
            r == self.kept().len(),
    {
        self.frames.len()
    }

    /// Whether there is room for another frame.
    pub fn wants_frame(&self) -> (r: bool)
        ensures
            r == (self.kept().len() < self.most_frames()),
    {
        self.frames.len() < self.max_frames
    }

    /// Takes in the next frame. The first is always kept. A later one that shows
    /// the same picture as the last means that the page is at its end. One that
    /// lines up with the last is kept, with its shift. One that does not ends the
    /// capture: better to stop with a correct picture than to guess an offset and
    /// emit a visible seam. If it is the second, nothing scrolled at all.
    pub fn accept(&mut self, frame: Frame) -> (r: Result<Next, String>)
        requires
            old(self).wf(),
            sampleable(frame),
        ensures
            final(self).wf(),
            final(self).overlap() == old(self).overlap(),
            final(self).most_frames() == old(self).most_frames(),
            ({
                let before = old(self).kept();
                let sb = row_signatures(frame.rows());
                let sa = row_signatures(before.last().rows());
                let limit = shorter(sa.len() as int, sb.len() as int) - old(self).overlap();
                if before.len() == 0 {
                    &&& r == Ok::<Next, String>(Next::Scroll)
                    &&& final(self).kept() == before.push(frame)
                    &&& final(self).moved() == old(self).moved()
                    &&& final(self).at_end() == old(self).at_end()
                } else if still(sa, sb) {
                    &&& r == Ok::<Next, String>(Next::Stop)
                    &&& final(self).kept() == before
                    &&& final(self).moved() == old(self).moved()
                    &&& final(self).at_end()
                } else if !no_shift(sa, sb, limit) {
                    &&& r == Ok::<Next, String>(Next::Scroll)
                    &&& final(self).kept() == before.push(frame)
                    &&& final(self).moved().len() == old(self).moved().len() + 1
                    &&& final(self).moved().drop_last() == old(self).moved()
                    &&& best_shift(sa, sb, limit, final(self).moved().last() as int)
                    &&& shift_score(sa, sb, final(self).moved().last() as int) <= ROW_TOLERANCE
                    &&& final(self).at_end() == old(self).at_end()
                } else {
                    &&& if before.len() == 1 {
                        r matches Err(e) && e@ == stuck_error()
                    } else {
                        r == Ok::<Next, String>(Next::Stop)
                    }
                    &&& final(self).kept() == before
                    &&& final(self).moved() == old(self).moved()
                    &&& final(self).at_end() == old(self).at_end()
                }
            }),
    {
        let (_w, _h) = frame.dimensions();
        let sig: Vec<[u8; SAMPLES]> = signatures(&frame);
        assert(samples(sig@).len() == frame.rows().len());
        if self.frames.len() > 0 {
            let ghost prev = self.frames@.last();
            assert(samples(self.last@).len() == prev.rows().len());
            if looks_identical(self.last.as_slice(), sig.as_slice()) {
                self.reached_end = true;
                return Ok(Next::Stop);
            }
            match find_shift(self.last.as_slice(), sig.as_slice(), self.min_overlap) {
                Some((shift, _)) => {
                    self.shifts.push(shift);
                    assert(self.shifts@.drop_last() =~= old(self).shifts@);
                },
                None => {
                    if self.frames.len() == 1 {
                        return Err(
                            "the region didn't scroll \u{2014} is the pointer over a scrollable area?".to_owned(),
                        );
                    }
                    return Ok(Next::Stop);
                },
            }
        }
        self.frames.push(frame);
        self.last = sig;
        Ok(Next::Scroll)
    }

    /// Whether [`finish`](ScrollCapture::finish) can put the frames together: they
    /// must not have changed their size on the way, and the picture must fit in
    /// memory.
    pub fn can_finish(&self) -> (r: bool)
        requires
            self.wf(),
        ensures
            r == (self.kept().len() == 0 || stitchable(self.kept(), self.moved())),
    {
        if self.frames.len() == 0 {
            return true;
        }
        let (w, h) = self.frames[0].dimensions();
        let mut total: u64 = h as u64;
        let mut i: usize = 0;
        let ghost fs = self.frames@;
        let ghost ss = self.shifts@;
        while i < self.shifts.len()
            invariant
                self.wf(),
                fs == self.frames@,
                ss == self.shifts@,
                fs.len() > 0,
                ss.len() == fs.len() - 1,
                w == fs[0].wide(),
                h == fs[0].tall(),
                i <= ss.len(),
                total == h + scrolled(ss, i as int),
                total <= u32::MAX,
                forall|k: int|
                    #![trigger ss[k]]
                    0 <= k < i && ss[k] > 0 ==> {
                        &&& ss[k] <= fs[0].tall()
                        &&& fs[k + 1].wide() >= fs[0].wide()
                        &&& fs[k + 1].tall() >= fs[0].tall()
                    },
            decreases ss.len() - i,
        {
            let shift: usize = self.shifts[i];
            let (fw, fh) = self.frames[i + 1].dimensions();
            proof {
                lemma_scrolled(ss, i as int + 1, ss.len() as int);
            }
            if shift > 0 && (shift > h as usize || fw < w || fh < h) {
                assert(ss[i as int] > 0);
                return false;
            }
            if shift as u64 > u32::MAX as u64 - total {
                return false;
            }
            total = total + shift as u64;
            i = i + 1;
        }
        proof {
            assert(0 <= w as int * total as int <= 0xffff_ffff * 0xffff_ffff) by (nonlinear_arith)
                requires
                    0 <= w <= 0xffff_ffff,
                    0 <= total <= 0xffff_ffff,
            ;
            assert(fs[0].wide() * (fs[0].tall() + scrolled(ss, ss.len() as int)) == w as int
                * total as int);
        }
        4 * (w as u128 * total as u128) <= isize::MAX as u128 && 4 * (w as u128) <= usize::MAX as u128
    }

    /// Ends the capture: the stitched picture, and whether the end of the page was
    /// reached.
    pub fn finish(self) -> (r: Result<(Frame, usize, bool), String>)
        requires
            self.wf(),
            self.kept().len() > 0 ==> stitchable(self.kept(), self.moved()),
        ensures
            match r {
                Ok((picture, frames, reached_end)) => {
                    &&& self.kept().len() > 0
                    &&& frames == self.kept().len()
                    &&& reached_end == self.at_end()
                    &&& picture.valid()
                    &&& picture.wide() == self.kept()[0].wide()
                    &&& picture.rows() == stitched_rows(
                        self.kept(),
                        self.moved(),
                        self.moved().len() as int,
                    )
                },
                Err(e) => self.kept().len() == 0 && e@ == "captured nothing"@,
            },
    {
        if self.frames.len() == 0 {
            return Err("captured nothing".to_owned());
        }
        let picture: Frame = stitch(self.frames.as_slice(), self.shifts.as_slice());
        assert(picture.rows() =~= stitched_rows(self.frames@, self.shifts@, self.shifts@.len() as int));
        Ok((picture, self.frames.len(), self.reached_end))
    }
}

} // verus!
