//! What ffmpeg says while it records: its progress stream, and the tail of its
//! error output.

use crate::numbers::{dec, is_digit, lemma_dec, parse_uint, read_uint};
use crate::pieces::{join, joined};
use crate::text::{begins, is_white, lemma_skip_white, skip_white, starts_with, strs, to_chars, trim, trim_start, trimmed, trimmed_start};
use crate::text_laws::{all_white, numbers_are_read_back, trimming_keeps_the_inside};
use std::collections::VecDeque;
use vstd::prelude::*;
use vstd::slice::slice_subrange;
use vstd::string::*;

verus! {

/// How long a segment may produce zero frames before it counts as dead, in
/// seconds. Generous on purpose: a false positive kills a real recording.
pub const STALL_GRACE_SECS: u64 = 8;

/// Whether a segment that has had its grace is dead: it produced no frame.
pub fn stalled(frames: u64) -> (r: bool)
    ensures
        r == (frames == 0),
{
    frames == 0
}

/// The number of frames that a line of the progress stream reports.
pub open spec fn reported_frames(line: Seq<char>) -> Option<nat> {
    let s = trimmed_start(line);
    if begins(s, "frame="@) {
        parse_uint(trimmed(s.skip("frame="@.len() as int)), u64::MAX as nat)
    } else {
        None
    }
}

pub fn frames_in(line: &str) -> (r: Option<u64>)
    ensures
        r matches Some(n) ==> reported_frames(line@) == Some(n as nat),
        r is None ==> reported_frames(line@) is None,
{
    let chars = to_chars(line);
    let s: &[char] = trim_start(chars.as_slice());
    if !starts_with(s, "frame=") {
        return None;
    }
    proof {
        reveal_strlit("frame=");
    }
    let rest: &[char] = slice_subrange(s, 6, s.len());
    assert(rest@ == s@.skip(6));
    read_uint(trim(rest), u64::MAX)
}

/// Lines of error output kept.
pub const TAIL_LINES: usize = 80;

/// Lines of error output shown.
pub const SHOWN_LINES: usize = 15;

/// The last lines of ffmpeg's error output.
pub struct StderrTail {
    lines: VecDeque<String>,
}

/// The last `n` of `lines`.
pub open spec fn last_of(lines: Seq<Seq<char>>, n: int) -> Seq<Seq<char>> {
    if lines.len() > n {
        lines.skip(lines.len() - n)
    } else {
        lines
    }
}

impl View for StderrTail {
    type V = Seq<Seq<char>>;

    closed spec fn view(&self) -> Seq<Seq<char>> {
        strs(self.lines@)
    }
}

impl StderrTail {
    pub fn new() -> (r: StderrTail)
        ensures
            r@ == Seq::<Seq<char>>::empty(),
    {
        let r = StderrTail { lines: VecDeque::new() };
        assert(r@ =~= Seq::empty());
        r
    }

    /// Takes in a line. The oldest one goes when there are too many, so there are
    /// never more than [`TAIL_LINES`].
    pub fn push(&mut self, line: String)
        ensures
            final(self)@ == if old(self)@.len() >= TAIL_LINES {
                old(self)@.skip(1).push(line@)
            } else {
                old(self)@.push(line@)
            },
            old(self)@.len() <= TAIL_LINES ==> final(self)@.len() <= TAIL_LINES && final(self)@
                == last_of(old(self)@.push(line@), TAIL_LINES as int),
    {
        let ghost before = self.lines@;
        if self.lines.len() >= TAIL_LINES {
            let _ = self.lines.pop_front();
            assert(strs(self.lines@) =~= strs(before).skip(1));
        }
        let ghost kept = self.lines@;
        self.lines.push_back(line);
        assert(strs(self.lines@) =~= strs(kept).push(line@));
        assert(before.len() <= TAIL_LINES ==> self@ =~= last_of(
            strs(before).push(line@),
            TAIL_LINES as int,
        ));
    }

    pub fn clear(&mut self)
        ensures
            final(self)@ == Seq::<Seq<char>>::empty(),
    {
        self.lines.clear();
        assert(self@ =~= Seq::empty());
    }

    /// The last lines, as an error report shows them.
    pub fn tail_string(&self) -> (r: String)
        ensures
            r@ == joined(last_of(self@, SHOWN_LINES as int), "\n"@),
    {
        let n: usize = self.lines.len();
        let start: usize = if n > SHOWN_LINES {
            n - SHOWN_LINES
        } else {
            0
        };
        let mut shown: Vec<String> = Vec::new();
        let mut i: usize = start;
        while i < n
            invariant
                start <= i <= n,
                n == self.lines@.len(),
                shown@.len() == i - start,
                forall|j: int| 0 <= j < shown@.len() ==> #[trigger] shown@[j] == self.lines@[start + j],
            decreases n - i,
        {
            shown.push(self.lines[i].clone());
            i = i + 1;
        }
        assert(strs(shown@) =~= last_of(self@, SHOWN_LINES as int));
        join(&shown, "\n")
    }
}

// ---------------------------------------------------------------------------
// Laws

/// A line of the progress stream reports the number behind `frame=`, whatever
/// blanks stand around it, and a line of anything else reports none.
pub proof fn a_progress_line_reports_its_frames(pad: Seq<char>, gap: Seq<char>, end: Seq<char>, n: nat)
    requires
        all_white(pad),
        all_white(gap),
        all_white(end),
        n <= u64::MAX,
    ensures
        reported_frames(pad + "frame="@ + gap + dec(n) + end) == Some(n),
{
    reveal_strlit("frame=");
    let word = "frame="@;
    lemma_dec(n);
    let d = dec(n);
    assert(is_digit(d[0]) && is_digit(d[d.len() - 1]));
    let inner = word + gap + d;
    let line = pad + word + gap + d + end;
    assert(inner[0] == 'f' && inner.last() == d.last());
    trimming_keeps_the_inside(pad, inner, end);
    assert(line =~= pad + inner + end);
    let s = inner + end;
    assert(trimmed_start(line) == s);
    assert(s.take(6) =~= word);
    assert(s.skip(6) =~= gap + d + end);
    trimming_keeps_the_inside(gap, d, end);
    numbers_are_read_back(n, u64::MAX as nat);
}

/// A line whose first visible character is not the `f` of `frame=` reports
/// nothing.
pub proof fn other_progress_lines_report_nothing(pad: Seq<char>, rest: Seq<char>)
    requires
        all_white(pad),
        rest.len() > 0,
        !is_white(rest[0]),
        !begins(rest, "frame="@),
    ensures
        reported_frames(pad + rest) is None,
        reported_frames(pad) is None,
{
    reveal_strlit("frame=");
    let all = pad + rest;
    let n = pad.len() as int;
    lemma_skip_white(all, 0);
    let a = skip_white(all, 0);
    assert(a == n) by {
        if a < n {
            assert(all[a] == pad[a]);
            assert(is_white(pad[a]));
        } else if a > n {
            assert(is_white(all[n]));
        }
    }
    assert(trimmed_start(all) =~= rest);
    lemma_skip_white(pad, 0);
    let b = skip_white(pad, 0);
    if b < pad.len() {
        assert(is_white(pad[b]));
    }
    assert(trimmed_start(pad).len() == 0);
}

/// The last lines are the end of all of them, as many as asked for where there are
/// as many.
pub proof fn the_last_lines_are_the_end(before: Seq<Seq<char>>, tail: Seq<Seq<char>>, n: int)
    requires
        n >= 0,
    ensures
        tail.len() == n ==> last_of(before + tail, n) == tail,
        tail.len() < n ==> last_of(tail, n) == tail,
        last_of(tail, n).len() <= n,
        TAIL_LINES == 80 && SHOWN_LINES == 15 && STALL_GRACE_SECS == 8,
{
    if tail.len() == n {
        assert(last_of(before + tail, n) =~= tail);
    }
}

} // verus!
