//! Text grab: putting what a text recogniser saw into reading order.
//!
//! Coordinates are fractions of the picture's width and height: double-precision
//! numbers, held by their bits.

use crate::capture::Platform;
use crate::double::{amount, is_more, is_nan, lemma_magnitudes_ordered, lemma_minus_swapped, magnitude, minus, more, subtract, unsigned, DOUBLING, INFINITY, SIGN};
use crate::pieces::{join, joined};
use crate::text::{end_of_text, is_white, lemma_end_of_text, lemma_skip_white, skip_white, strs, to_chars, trim, trimmed};
use vstd::prelude::*;
use vstd::string::*;

verus! {

/// The whole width or height: 1.0.
pub const ONE: u64 = 0x3ff0_0000_0000_0000;

/// Lines whose tops are closer than this share a row, however low they are:
/// 0.004.
pub const ROW_SLACK: u64 = 0x3f70_624d_d2f1_a9fc;

pub struct OcrLine {
    pub text: String,
    /// The recogniser's own score for this reading, as the bits of its
    /// single-precision number.
    pub confidence_bits: u32,
    /// Box of the line, the origin at the top left: the bits of four
    /// double-precision numbers.
    pub x: u64,
    pub y: u64,
    pub width: u64,
    pub height: u64,
}

pub struct OcrResult {
    /// Every line joined with newlines, in reading order.
    pub text: String,
    pub lines: Vec<OcrLine>,
}

// ---------------------------------------------------------------------------
// Reading order

/// The smaller of two heights. One that is no number does not count.
pub open spec fn lower(a: u64, b: u64) -> u64 {
    if is_nan(a) || more(a, b) {
        b
    } else {
        a
    }
}

/// How far apart the tops of lines can be in one row, by the lower height: half of
/// it, or [`ROW_SLACK`], whichever is more.
pub open spec fn reach(low: u64) -> int {
    let half = if low == INFINITY {
        amount(low)
    } else {
        amount(low) / 2
    };
    if is_nan(low) || half < amount(ROW_SLACK) {
        amount(ROW_SLACK)
    } else {
        half
    }
}

/// The vertical spans mostly overlap: the tops differ by less than half the lower
/// height, or by less than [`ROW_SLACK`].
pub open spec fn same_row(a: OcrLine, b: OcrLine) -> bool {
    let gap = minus(a.y, b.y);
    !is_nan(gap) && magnitude(unsigned(gap)) < reach(lower(a.height, b.height))
}

/// `a` is read after `b`: it is further right in the same row, or lower.
#[verifier::opaque]
pub open spec fn comes_after(a: OcrLine, b: OcrLine) -> bool {
    if same_row(a, b) {
        more(a.x, b.x)
    } else {
        more(a.y, b.y)
    }
}

/// `p` lists the numbers below its length, each once.
pub open spec fn rearranges(p: Seq<int>) -> bool {
    &&& forall|i: int| 0 <= i < p.len() ==> 0 <= #[trigger] p[i] < p.len()
    &&& forall|i: int, j: int| 0 <= i < j < p.len() ==> p[i] != p[j]
}

/// `after` is `before` in another order: `p[i]` is where the `i`th came from.
pub open spec fn rearranged(before: Seq<OcrLine>, after: Seq<OcrLine>, p: Seq<int>) -> bool {
    &&& p.len() == before.len()
    &&& after.len() == before.len()
    &&& rearranges(p)
    &&& forall|i: int| 0 <= i < p.len() ==> #[trigger] after[i] == before[p[i]]
}

/// No line is read after the next.
pub open spec fn neighbours_in_order(lines: Seq<OcrLine>) -> bool {
    forall|i: int, j: int| 0 <= i && j == i + 1 && j < lines.len() ==> !comes_after(lines[i], lines[j])
}

/// "Not read after" carries over from line to line, so that there is one reading
/// order. It does where the rows are clear; lines that overlap like the steps of
/// a staircase can each share a row with the next.
pub open spec fn orderable(lines: Seq<OcrLine>) -> bool {
    forall|a: int, b: int, c: int|
        #![trigger lines[a], lines[b], lines[c]]
        0 <= a < lines.len() && 0 <= b < lines.len() && 0 <= c < lines.len() && !comes_after(
            lines[a],
            lines[b],
        ) && !comes_after(lines[b], lines[c]) ==> !comes_after(lines[a], lines[c])
}

/// No line is read after any that follows it, and lines that are level with each
/// other keep their order.
pub open spec fn all_in_order(lines: Seq<OcrLine>, p: Seq<int>) -> bool {
    forall|i: int, j: int|
        #![trigger lines[i], lines[j]]
        0 <= i < j < lines.len() ==> !comes_after(lines[i], lines[j]) && (!comes_after(
            lines[j],
            lines[i],
        ) ==> p[i] < p[j])
}

/// Computes [`reach`], as the bits of a number.
fn reach_bits(low: u64) -> (r: u64)
    ensures
        r <= INFINITY,
        magnitude(r as int) == reach(low),
{
    proof {
        let double = ROW_SLACK + DOUBLING;
        assert(magnitude(double) == 2 * magnitude(ROW_SLACK as int));
        lemma_magnitudes_ordered(low as int, double);
        lemma_magnitudes_ordered(double, low as int);
        lemma_magnitudes_ordered(0, ROW_SLACK as int);
        lemma_magnitudes_ordered(ROW_SLACK as int, INFINITY as int);
        if low >= SIGN {
            lemma_magnitudes_ordered(0, low - SIGN);
        }
    }
    if low > INFINITY || low <= ROW_SLACK + DOUBLING {
        ROW_SLACK
    } else if low == INFINITY {
        INFINITY
    } else {
        low - DOUBLING
    }
}

fn is_after(a: &OcrLine, b: &OcrLine) -> (r: bool)
    ensures
        r == comes_after(*a, *b),
{
    let gap: u64 = subtract(a.y, b.y) % SIGN;
    let low: u64 = if a.height % SIGN > INFINITY || is_more(a.height, b.height) {
        b.height
    } else {
        a.height
    };
    let most: u64 = reach_bits(low);
    proof {
        reveal(comes_after);
        lemma_magnitudes_ordered(gap as int, most as int);
    }
    if gap < most {
        is_more(a.x, b.x)
    } else {
        is_more(a.y, b.y)
    }
}

/// Of two lines at most one is read after the other.
pub proof fn no_two_lines_follow_each_other(a: OcrLine, b: OcrLine)
    ensures
        same_row(a, b) == same_row(b, a),
        !(comes_after(a, b) && comes_after(b, a)),
{
    reveal(comes_after);
    lemma_minus_swapped(a.y, b.y);
    let (g, h) = (a.height, b.height);
    assert(reach(lower(g, h)) == reach(lower(h, g))) by {
        if !is_nan(g) && !is_nan(h) && amount(g) == amount(h) {
            lemma_magnitudes_ordered(unsigned(g), unsigned(h));
            lemma_magnitudes_ordered(unsigned(h), 0);
            lemma_magnitudes_ordered(unsigned(g), 0);
        }
    }
}

/// Sorts lines into reading order: top to bottom, and left to right in a row.
/// Where the lines have one such order the result is in it; where they do not,
/// still no line comes directly before one that is read earlier.
pub fn sort_reading_order(lines: Vec<OcrLine>) -> (r: Vec<OcrLine>)
    ensures
        exists|p: Seq<int>|
            #![trigger rearranged(lines@, r@, p)]
            {
                &&& rearranged(lines@, r@, p)
                &&& neighbours_in_order(r@)
                &&& orderable(lines@) ==> all_in_order(r@, p)
            },
{
    let ghost before = lines@;
    let mut rest = lines;
    let mut sorted: Vec<OcrLine> = Vec::new();
    let ghost mut p: Seq<int> = Seq::empty();
    while rest.len() > 0
        invariant
            rest@.len() <= before.len(),
            rest@ == before.skip(before.len() - rest@.len()),
            p.len() == before.len() - rest@.len(),
            sorted@.len() == p.len(),
            rearranges(p),
            forall|i: int| 0 <= i < p.len() ==> #[trigger] sorted@[i] == before[p[i]],
            neighbours_in_order(sorted@),
            orderable(before) ==> all_in_order(sorted@, p),
        decreases rest@.len(),
    {
        let ghost k = p.len() as int;
        let line: OcrLine = rest.remove(0);
        assert(line == before[k]);
        let mut at: usize = sorted.len();
        while at > 0 && is_after(&sorted[at - 1], &line)
            invariant
                at <= sorted@.len(),
                forall|j: int| at <= j < sorted@.len() ==> comes_after(#[trigger] sorted@[j], line),
            decreases at,
        {
            at = at - 1;
        }
        let ghost was = sorted@;
        let ghost from = p;
        sorted.insert(at, line);
        proof {
            p = from.insert(at as int, k);
            let now = sorted@;
            assert(forall|i: int| 0 <= i < at ==> now[i] == was[i] && p[i] == from[i]);
            assert(forall|i: int| at < i < now.len() ==> #[trigger] now[i] == was[i - 1] && p[i] == from[i - 1]);
            assert(now[at as int] == line && p[at as int] == k);
            assert forall|i: int, j: int| 0 <= i < j < p.len() implies p[i] != p[j] by {
                if i != at && j != at {
                    let i0 = if i < at {
                        i
                    } else {
                        i - 1
                    };
                    let j0 = if j < at {
                        j
                    } else {
                        j - 1
                    };
                    assert(from[i0] != from[j0]);
                }
            }
            assert forall|i: int, j: int| 0 <= i && j == i + 1 && j < now.len() implies !comes_after(
                now[i],
                now[j],
            ) by {
                if j < at {
                    assert(!comes_after(was[i], was[j]));
                } else if i == at {
                    assert(comes_after(was[i], line));
                    no_two_lines_follow_each_other(was[i], line);
                } else if i > at {
                    assert(!comes_after(was[i - 1], was[j - 1]));
                }
            }
            if orderable(before) {
                assert forall|i: int, j: int|
                    #![trigger now[i], now[j]]
                    0 <= i < j < now.len() implies !comes_after(now[i], now[j]) && (!comes_after(
                    now[j],
                    now[i],
                ) ==> p[i] < p[j]) by {
                    if j == at {
                        let last = at - 1;
                        assert(!comes_after(was[last], line));
                        if i < last {
                            assert(!comes_after(was[i], was[last]));
                            assert(was[i] == before[from[i]] && was[last] == before[from[last]] && line
                                == before[k]);
                        }
                    } else if i == at {
                        assert(comes_after(was[j - 1], line));
                        no_two_lines_follow_each_other(was[j - 1], line);
                    } else {
                        let i0 = if i < at {
                            i
                        } else {
                            i - 1
                        };
                        let j0 = if j < at {
                            j
                        } else {
                            j - 1
                        };
                        assert(!comes_after(was[i0], was[j0]));
                    }
                }
            }
        }
    }
    assert(rearranged(before, sorted@, p));
    sorted
}

/// Lines that each have a row of their own have one reading order: top to
/// bottom. Their tops must be numbers.
pub proof fn separate_rows_are_orderable(lines: Seq<OcrLine>)
    requires
        forall|i: int| 0 <= i < lines.len() ==> !is_nan((#[trigger] lines[i]).y),
        forall|i: int, j: int|
            #![trigger lines[i], lines[j]]
            0 <= i < lines.len() && 0 <= j < lines.len() && i != j ==> !same_row(lines[i], lines[j]),
    ensures
        orderable(lines),
{
    reveal(comes_after);
    assert forall|a: int, b: int, c: int|
        #![trigger lines[a], lines[b], lines[c]]
        0 <= a < lines.len() && 0 <= b < lines.len() && 0 <= c < lines.len() && !comes_after(
            lines[a],
            lines[b],
        ) && !comes_after(lines[b], lines[c]) implies !comes_after(lines[a], lines[c]) by {
        if a != b && b != c && a != c {
            assert(!same_row(lines[a], lines[b]) && !same_row(lines[b], lines[c]) && !same_row(
                lines[a],
                lines[c],
            ));
        }
    }
}

/// Lines that share one row have one reading order: left to right. Where they
/// begin must be numbers.
pub proof fn one_row_is_orderable(lines: Seq<OcrLine>)
    requires
        forall|i: int| 0 <= i < lines.len() ==> !is_nan((#[trigger] lines[i]).x),
        forall|i: int, j: int|
            #![trigger lines[i], lines[j]]
            0 <= i < lines.len() && 0 <= j < lines.len() ==> same_row(lines[i], lines[j]),
    ensures
        orderable(lines),
{
    reveal(comes_after);
}

/// The texts of lines.
pub open spec fn texts(lines: Seq<OcrLine>) -> Seq<Seq<char>> {
    lines.map_values(|l: OcrLine| l.text@)
}

/// Puts lines into reading order and joins their texts with newlines. No lines
/// make an empty text.
pub fn assemble(lines: Vec<OcrLine>) -> (r: OcrResult)
    ensures
        exists|p: Seq<int>|
            #![trigger rearranged(lines@, r.lines@, p)]
            {
                &&& rearranged(lines@, r.lines@, p)
                &&& neighbours_in_order(r.lines@)
                &&& orderable(lines@) ==> all_in_order(r.lines@, p)
            },
        r.text@ == joined(texts(r.lines@), "\n"@),
{
    let ghost before = lines@;
    let sorted: Vec<OcrLine> = sort_reading_order(lines);
    let ghost p = choose|p: Seq<int>|
        #![trigger rearranged(before, sorted@, p)]
        rearranged(before, sorted@, p) && (orderable(before) ==> all_in_order(sorted@, p));
    let mut parts: Vec<String> = Vec::new();
    let mut i: usize = 0;
    while i < sorted.len()
        invariant
            i <= sorted@.len(),
            parts@.len() == i,
            forall|j: int| 0 <= j < i ==> (#[trigger] parts@[j])@ == sorted@[j].text@,
        decreases sorted@.len() - i,
    {
        parts.push(sorted[i].text.clone());
        i = i + 1;
    }
    assert(strs(parts@) =~= texts(sorted@));
    let r = OcrResult { text: join(&parts, "\n"), lines: sorted };
    assert(rearranged(before, r.lines@, p));
    r
}

// ---------------------------------------------------------------------------
// What the recogniser saw

/// One reading of a recogniser: its best candidate, if it has one, and a box with
/// the origin at the bottom left: the bits of four double-precision numbers. A box
/// can reach a hair outside the picture.
pub struct Observation {
    pub text: Option<String>,
    pub confidence_bits: u32,
    pub x: u64,
    pub y: u64,
    pub width: u64,
    pub height: u64,
}

/// A coordinate, no less than 0 and no more than the whole. What is no number
/// stays as it is.
pub open spec fn inside(v: u64) -> u64 {
    if more(0, v) {
        0
    } else if more(v, ONE) {
        ONE
    } else {
        v
    }
}

fn clamp_inside(v: u64) -> (r: u64)
    ensures
        r == inside(v),
{
    if is_more(0, v) {
        0
    } else if is_more(v, ONE) {
        ONE
    } else {
        v
    }
}

/// A reading without a candidate, or with nothing but white characters, is
/// skipped.
pub open spec fn readable(o: Observation) -> bool {
    o.text is Some && trimmed(o.text->0@).len() > 0
}

/// `l` is the line of a reading: clamped to the picture, and turned over, so that
/// its origin is at the top left like every other coordinate here.
pub open spec fn line_of(o: Observation, l: OcrLine) -> bool {
    &&& o.text is Some
    &&& l.text == o.text->0
    &&& l.confidence_bits == o.confidence_bits
    &&& l.x == inside(o.x)
    &&& l.y == inside(minus(minus(ONE, o.y), o.height))
    &&& l.width == inside(o.width)
    &&& l.height == inside(o.height)
}

/// No coordinate of a line lies outside the picture.
pub proof fn lines_stay_inside(o: Observation, l: OcrLine)
    requires
        line_of(o, l),
    ensures
        !more(0, l.x) && !more(l.x, ONE),
        !more(0, l.y) && !more(l.y, ONE),
        !more(0, l.width) && !more(l.width, ONE),
        !more(0, l.height) && !more(l.height, ONE),
{
    lemma_magnitudes_ordered(0, ONE as int);
}

pub fn observed_line(o: Observation) -> (r: Option<OcrLine>)
    ensures
        match r {
            Some(l) => readable(o) && line_of(o, l),
            None => !readable(o),
        },
{
    match o.text {
        Some(text) => {
            let chars = to_chars(text.as_str());
            if trim(chars.as_slice()).len() == 0 {
                return None;
            }
            Some(
                OcrLine {
                    text,
                    confidence_bits: o.confidence_bits,
                    x: clamp_inside(o.x),
                    y: clamp_inside(subtract(subtract(ONE, o.y), o.height)),
                    width: clamp_inside(o.width),
                    height: clamp_inside(o.height),
                },
            )
        },
        None => None,
    }
}

/// The readable ones of the first `n` readings.
pub open spec fn readable_upto(seen: Seq<Observation>, n: int) -> Seq<Observation>
    decreases n,
{
    if n <= 0 {
        Seq::empty()
    } else if readable(seen[n - 1]) {
        readable_upto(seen, n - 1).push(seen[n - 1])
    } else {
        readable_upto(seen, n - 1)
    }
}

/// `lines` are the lines of what is readable in `seen`.
pub open spec fn lines_of_seen(seen: Seq<Observation>, lines: Seq<OcrLine>) -> bool {
    let good = readable_upto(seen, seen.len() as int);
    &&& lines.len() == good.len()
    &&& forall|i: int| 0 <= i < lines.len() ==> line_of(#[trigger] good[i], lines[i])
}

/// The lines of what a recogniser saw, in the order in which it was seen.
pub fn observed_lines(seen: Vec<Observation>) -> (r: Vec<OcrLine>)
    ensures
        lines_of_seen(seen@, r@),
{
    let ghost all = seen@;
    let mut rest = seen;
    let mut out: Vec<OcrLine> = Vec::new();
    while rest.len() > 0
        invariant
            rest@.len() <= all.len(),
            rest@ == all.skip(all.len() - rest@.len()),
            out@.len() == readable_upto(all, all.len() - rest@.len()).len(),
            forall|i: int|
                0 <= i < out@.len() ==> line_of(
                    #[trigger] readable_upto(all, all.len() - rest@.len())[i],
                    out@[i],
                ),
        decreases rest@.len(),
    {
        let ghost k = all.len() - rest@.len();
        let o: Observation = rest.remove(0);
        assert(o == all[k]);
        assert(rest@ =~= all.skip(k + 1));
        match observed_line(o) {
            Some(l) => out.push(l),
            None => {},
        }
    }
    out
}

/// Whether text can be read out of a file here: only on macOS, and only out of a
/// file that is there and whose path is text.
pub fn can_recognize(platform: Platform, is_file: bool, path_is_text: bool) -> (r: Result<(), String>)
    ensures
        match r {
            Ok(()) => platform is MacOs && is_file && path_is_text,
            Err(e) => if platform is Windows {
                e@ == "Text grab is macOS-only so far."@
            } else if !is_file {
                e@ == "image to read text from is missing"@
            } else {
                !path_is_text && e@ == "path is not valid UTF-8"@
            },
        },
{
    match platform {
        Platform::Windows => {
            return Err("Text grab is macOS-only so far.".to_owned());
        },
        Platform::MacOs => {},
    }
    if !is_file {
        return Err("image to read text from is missing".to_owned());
    }
    if !path_is_text {
        return Err("path is not valid UTF-8".to_owned());
    }
    Ok(())
}

/// The text in a picture, from what a recogniser saw in it, or why it failed.
pub fn recognize(seen: Result<Vec<Observation>, &str>) -> (r: Result<OcrResult, String>)
    ensures
        match seen {
            Err(e) => r is Err && r->Err_0@ == "text recognition failed: "@ + e@,
            Ok(seen) => r is Ok && exists|lines: Seq<OcrLine>, p: Seq<int>|
                #![trigger rearranged(lines, r->Ok_0.lines@, p)]
                {
                    &&& lines_of_seen(seen@, lines)
                    &&& rearranged(lines, r->Ok_0.lines@, p)
                    &&& neighbours_in_order(r->Ok_0.lines@)
                    &&& orderable(lines) ==> all_in_order(r->Ok_0.lines@, p)
                    &&& r->Ok_0.text@ == joined(texts(r->Ok_0.lines@), "\n"@)
                },
        },
{
    match seen {
        Err(e) => {
            let mut m: String = "text recognition failed: ".to_owned();
            m.append(e);
            Err(m)
        },
        Ok(seen) => {
            let lines: Vec<OcrLine> = observed_lines(seen);
            let ghost before = lines@;
            let found: OcrResult = assemble(lines);
            let ghost p = choose|p: Seq<int>|
                #![trigger rearranged(before, found.lines@, p)]
                rearranged(before, found.lines@, p) && (orderable(before) ==> all_in_order(
                    found.lines@,
                    p,
                ));
            let r: Result<OcrResult, String> = Ok(found);
            assert(lines_of_seen(seen@, before) && rearranged(before, r->Ok_0.lines@, p));
            r
        },
    }
}

// ---------------------------------------------------------------------------
// Laws of rows and readings

/// A number that is not infinite.
pub open spec fn finite(bits: u64) -> bool {
    unsigned(bits) < INFINITY
}

/// Lines at the same height share a row, and are read from left to right.
pub proof fn level_lines_are_read_from_left_to_right(a: OcrLine, b: OcrLine)
    requires
        a.y == b.y,
        finite(a.y),
    ensures
        same_row(a, b),
        comes_after(a, b) <==> more(a.x, b.x),
{
    reveal(comes_after);
    assert(minus(a.y, b.y) == 0);
    assert(magnitude(0) == 0);
    lemma_magnitudes_ordered(0, ROW_SLACK as int);
}

/// Half the lower of two heights is what a row reaches, but no less than 0.004.
pub proof fn a_row_reaches_half_the_lower_height(a: u64, b: u64)
    requires
        finite(a),
        finite(b),
    ensures
        ({
            let low = lower(a, b);
            let slack = amount(0x3f70_624d_d2f1_a9fc);
            &&& low == a || low == b
            &&& amount(low) <= amount(a) && amount(low) <= amount(b)
            &&& reach(low) >= slack > 0
            &&& amount(low) >= 2 * slack ==> 2 * reach(low) <= amount(low) < 2 * reach(low) + 2
            &&& amount(low) < 2 * slack ==> reach(low) == slack
        }),
{
    lemma_magnitudes_ordered(0, ROW_SLACK as int);
}

/// Lines in different rows are read from top to bottom, wherever in their row they
/// begin: they are in different rows if their tops are at least the reach apart.
pub proof fn separate_lines_are_read_from_top_to_bottom(a: OcrLine, b: OcrLine)
    requires
        magnitude(unsigned(minus(a.y, b.y))) >= reach(lower(a.height, b.height)),
    ensures
        !same_row(a, b),
        comes_after(a, b) <==> more(a.y, b.y),
{
    reveal(comes_after);
}

/// `p` lists the readings that hold visible text, from the first to the last.
pub open spec fn visible(seen: Seq<Observation>, n: int, p: Seq<int>) -> bool {
    &&& forall|a: int, b: int| 0 <= a < b < p.len() ==> p[a] < p[b]
    &&& forall|a: int| 0 <= a < p.len() ==> 0 <= #[trigger] p[a] < n && has_visible_text(seen[p[a]])
    &&& forall|i: int| 0 <= i < n && has_visible_text(#[trigger] seen[i]) ==> p.contains(i)
}

/// A reading has a text with a character in it that is not white.
pub open spec fn has_visible_text(o: Observation) -> bool {
    o.text is Some && exists|k: int| 0 <= k < o.text->0@.len() && !is_white(#[trigger] o.text->0@[k])
}

proof fn lemma_readable(o: Observation)
    ensures
        readable(o) <==> has_visible_text(o),
{
    if o.text is Some {
        let s = o.text->0@;
        lemma_skip_white(s, 0);
        lemma_end_of_text(s, s.len() as int);
        let a = skip_white(s, 0);
        if has_visible_text(o) {
            let k = choose|k: int| 0 <= k < s.len() && !is_white(#[trigger] s[k]);
            assert(a <= k);
            assert(end_of_text(s, s.len() as int) > k) by {
                if end_of_text(s, s.len() as int) <= k {
                    assert(is_white(s[k]));
                }
            }
        }
        if readable(o) {
            assert(!is_white(s[a]));
        }
    }
}

proof fn lemma_visible(seen: Seq<Observation>, n: int) -> (p: Seq<int>)
    requires
        0 <= n <= seen.len(),
    ensures
        visible(seen, n, p),
        readable_upto(seen, n) == p.map_values(|i: int| seen[i]),
    decreases n,
{
    if n == 0 {
        let p = Seq::<int>::empty();
        assert(readable_upto(seen, n) =~= p.map_values(|i: int| seen[i]));
        p
    } else {
        let before = lemma_visible(seen, n - 1);
        lemma_readable(seen[n - 1]);
        if readable(seen[n - 1]) {
            let p = before.push(n - 1);
            assert(readable_upto(seen, n) =~= p.map_values(|i: int| seen[i]));
            assert forall|i: int| 0 <= i < n && has_visible_text(#[trigger] seen[i]) implies p.contains(i) by {
                if i < n - 1 {
                    let a = choose|a: int| 0 <= a < before.len() && before[a] == i;
                    assert(p[a] == i);
                } else {
                    assert(p[p.len() - 1] == i);
                }
            }
            p
        } else {
            before
        }
    }
}

/// Every reading with visible text becomes a line, in the order in which they were
/// seen, with its text and its score as they were and its box turned over; no
/// other does.
pub proof fn every_visible_reading_becomes_a_line(seen: Seq<Observation>, lines: Seq<OcrLine>)
    requires
        lines_of_seen(seen, lines),
    ensures
        exists|p: Seq<int>| #[trigger] visible(seen, seen.len() as int, p) && lines_from_readings(seen, p, lines),
{
    let p = lemma_visible(seen, seen.len() as int);
    assert(visible(seen, seen.len() as int, p));
    let good = readable_upto(seen, seen.len() as int);
    lemma_magnitudes_ordered(0, ONE as int);
    assert forall|a: int| 0 <= a < p.len() implies is_line_of(#[trigger] seen[p[a]], lines[a]) by {
        assert(good[a] == seen[p[a]]);
        assert(line_of(good[a], lines[a]));
    }
}

/// Each of the lines is that of the reading at its position.
pub open spec fn lines_from_readings(seen: Seq<Observation>, p: Seq<int>, lines: Seq<OcrLine>) -> bool {
    lines.len() == p.len() && forall|a: int| 0 <= a < p.len() ==> is_line_of(#[trigger] seen[p[a]], lines[a])
}

/// The line has the reading's text and score. A coordinate between 0 and 1 stays
/// as it is, and what is above the bottom by the reading's box is below the top by
/// the rest.
pub open spec fn is_line_of(o: Observation, l: OcrLine) -> bool {
    &&& o.text == Some(l.text)
    &&& o.confidence_bits == l.confidence_bits
    &&& !more(0, o.x) && !more(o.x, ONE) ==> l.x == o.x
    &&& !more(0, o.width) && !more(o.width, ONE) ==> l.width == o.width
    &&& !more(0, o.height) && !more(o.height, ONE) ==> l.height == o.height
    &&& ({
        let top = minus(minus(0x3ff0_0000_0000_0000, o.y), o.height);
        &&& !more(0, top) && !more(top, ONE) ==> l.y == top
        &&& more(0, top) ==> l.y == 0
        &&& more(top, ONE) ==> l.y == ONE
    })
}

/// What was sorted is what was there, in another order: each line comes once, from
/// where `p` says. Where there is one reading order, no line stands in front of one
/// that is read earlier, and lines that are level keep their order; in any case no
/// two neighbours are the wrong way round.
pub proof fn sorting_only_changes_the_order(
    before: Seq<OcrLine>,
    after: Seq<OcrLine>,
    p: Seq<int>,
    i: int,
    j: int,
)
    requires
        rearranged(before, after, p),
        0 <= i < j < after.len(),
    ensures
        after.len() == before.len(),
        0 <= p[i] < before.len() && after[i] == before[p[i]],
        p[i] != p[j],
        neighbours_in_order(after) && j == i + 1 ==> !comes_after(after[i], after[j]),
        all_in_order(after, p) ==> !comes_after(after[i], after[j]) && (!comes_after(after[j], after[i]) ==> p[i]
            < p[j]),
{
    assert(after[i] == before[p[i]]);
}

/// The texts of lines, one for one.
pub proof fn texts_are_those_of_the_lines(lines: Seq<OcrLine>, i: int)
    ensures
        texts(lines).len() == lines.len(),
        0 <= i < lines.len() ==> texts(lines)[i] == lines[i].text@,
{
}

} // verus!
