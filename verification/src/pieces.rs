//! Taking text apart and putting it together.

use crate::text::{find_char, from_chars, index_from, is_white, lemma_index_from, lemma_skip_white, lemma_skip_word, skip_white, skip_word, slices, strs, views, white};
use vstd::prelude::*;
use vstd::slice::{slice_subrange, slice_to_vec};
use vstd::string::*;

verus! {

// ---------------------------------------------------------------------------
// Lines

/// A line without the carriage return that ends it.
pub open spec fn without_cr(s: Seq<char>) -> Seq<char> {
    if s.len() > 0 && s.last() == '\r' {
        s.drop_last()
    } else {
        s
    }
}

/// The lines of `s` from position `i` on. A line ends at a line feed, or at a
/// carriage return and a line feed; what follows the last line feed is a line
/// if it is not empty.
pub open spec fn lines_from(s: Seq<char>, i: int) -> Seq<Seq<char>>
    decreases s.len() - i,
    when 0 <= i
{
    let j = index_from(s, '\n', i);
    if i >= s.len() {
        Seq::empty()
    } else if j >= s.len() {
        seq![s.skip(i)]
    } else {
        proof {
            lemma_index_from(s, '\n', i);
        }
        seq![without_cr(s.subrange(i, j))] + lines_from(s, j + 1)
    }
}

pub open spec fn lines_of(s: Seq<char>) -> Seq<Seq<char>> {
    lines_from(s, 0)
}

pub proof fn lemma_views_push(v: Seq<Vec<char>>, x: Vec<char>)
    ensures
        views(v.push(x)) == views(v).push(x@),
{
    assert(views(v.push(x)) =~= views(v).push(x@));
}

pub fn lines(s: &[char]) -> (r: Vec<Vec<char>>)
    ensures
        views(r@) == lines_of(s@),
{
    let mut out: Vec<Vec<char>> = Vec::new();
    let mut i: usize = 0;
    assert(views(out@) + lines_from(s@, 0) =~= lines_of(s@));
    while i < s.len()
        invariant
            i <= s@.len(),
            views(out@) + lines_from(s@, i as int) == lines_of(s@),
        decreases s@.len() - i,
    {
        let j: usize = find_char(s, '\n', i);
        let ghost done = views(out@);
        if j >= s.len() {
            let line = slice_to_vec(slice_subrange(s, i, s.len()));
            proof {
                lemma_views_push(out@, line);
                assert(s@.skip(i as int) == s@.subrange(i as int, s@.len() as int));
                assert(done + seq![line@] =~= done.push(line@));
            }
            out.push(line);
            return out;
        }
        let mut k: usize = j;
        let ghost raw = s@.subrange(i as int, j as int);
        if k > i && s[k - 1] == '\r' {
            k = k - 1;
            assert(raw.last() == s@[j - 1]);
            assert(without_cr(raw) =~= s@.subrange(i as int, k as int));
        } else {
            assert(raw.len() > 0 ==> raw.last() == s@[j - 1]);
        }
        let line = slice_to_vec(slice_subrange(s, i, k));
        proof {
            lemma_views_push(out@, line);
            let rest = lines_from(s@, j + 1);
            assert(lines_from(s@, i as int) == seq![line@] + rest);
            assert(done + (seq![line@] + rest) =~= done.push(line@) + rest);
        }
        out.push(line);
        i = j + 1;
    }
    assert(views(out@) + lines_from(s@, i as int) =~= views(out@));
    out
}

// ---------------------------------------------------------------------------
// Fields

/// The pieces of `s` between the occurrences of `c`, from position `i` on.
pub open spec fn split_from(s: Seq<char>, c: char, i: int) -> Seq<Seq<char>>
    decreases s.len() - i,
    when 0 <= i <= s.len()
{
    let j = index_from(s, c, i);
    if j >= s.len() {
        seq![s.skip(i)]
    } else {
        proof {
            lemma_index_from(s, c, i);
        }
        seq![s.subrange(i, j)] + split_from(s, c, j + 1)
    }
}

pub open spec fn split_at(s: Seq<char>, c: char) -> Seq<Seq<char>> {
    split_from(s, c, 0)
}

pub fn split(s: &[char], c: char) -> (r: Vec<Vec<char>>)
    ensures
        views(r@) == split_at(s@, c),
{
    let mut out: Vec<Vec<char>> = Vec::new();
    let mut i: usize = 0;
    let mut j: usize = find_char(s, c, 0);
    assert(views(out@) + split_from(s@, c, 0) =~= split_at(s@, c));
    while j < s.len()
        invariant
            i <= j <= s@.len(),
            j == index_from(s@, c, i as int),
            views(out@) + split_from(s@, c, i as int) == split_at(s@, c),
        decreases s@.len() - i,
    {
        let ghost done = views(out@);
        let piece = slice_to_vec(slice_subrange(s, i, j));
        proof {
            lemma_views_push(out@, piece);
            let rest = split_from(s@, c, j + 1);
            assert(split_from(s@, c, i as int) == seq![piece@] + rest);
            assert(done + (seq![piece@] + rest) =~= done.push(piece@) + rest);
        }
        out.push(piece);
        i = j + 1;
        j = find_char(s, c, i);
    }
    let ghost done = views(out@);
    let piece = slice_to_vec(slice_subrange(s, i, s.len()));
    proof {
        lemma_views_push(out@, piece);
        assert(s@.skip(i as int) == s@.subrange(i as int, s@.len() as int));
        assert(done + seq![piece@] =~= done.push(piece@));
    }
    out.push(piece);
    out
}

/// The words of `s` from position `i` on: its longest runs without white
/// characters.
pub open spec fn words_from(s: Seq<char>, i: int) -> Seq<Seq<char>>
    decreases s.len() - i,
    when 0 <= i <= s.len()
{
    let a = skip_white(s, i);
    let b = skip_word(s, a);
    if a >= s.len() {
        Seq::empty()
    } else {
        proof {
            lemma_skip_white(s, i);
            lemma_skip_word(s, a);
        }
        seq![s.subrange(a, b)] + words_from(s, b)
    }
}

pub open spec fn words_of(s: Seq<char>) -> Seq<Seq<char>> {
    words_from(s, 0)
}

pub fn words(s: &[char]) -> (r: Vec<Vec<char>>)
    ensures
        views(r@) == words_of(s@),
{
    let mut out: Vec<Vec<char>> = Vec::new();
    let mut i: usize = 0;
    assert(views(out@) + words_from(s@, 0) =~= words_of(s@));
    while i < s.len()
        invariant
            i <= s@.len(),
            views(out@) + words_from(s@, i as int) == words_of(s@),
        decreases s@.len() - i,
    {
        let ghost start = i as int;
        proof {
            lemma_skip_white(s@, start);
        }
        while i < s.len() && white(s[i])
            invariant
                start <= i <= s@.len(),
                skip_white(s@, i as int) == skip_white(s@, start),
            decreases s@.len() - i,
        {
            i = i + 1;
        }
        if i >= s.len() {
            assert(views(out@) + words_from(s@, start) =~= views(out@));
            return out;
        }
        let a: usize = i;
        while i < s.len() && !white(s[i])
            invariant
                a <= i <= s@.len(),
                a < s@.len(),
                !is_white(s@[a as int]),
                skip_word(s@, i as int) == skip_word(s@, a as int),
            decreases s@.len() - i,
        {
            i = i + 1;
        }
        let word = slice_to_vec(slice_subrange(s, a, i));
        let ghost done = views(out@);
        proof {
            lemma_skip_word(s@, a as int);
            lemma_views_push(out@, word);
            let rest = words_from(s@, i as int);
            assert(words_from(s@, start) == seq![word@] + rest);
            assert(done + (seq![word@] + rest) =~= done.push(word@) + rest);
        }
        out.push(word);
    }
    assert(views(out@) + words_from(s@, i as int) =~= views(out@));
    out
}

// ---------------------------------------------------------------------------
// Rewriting

/// `s` with every `c` replaced by `with`.
pub open spec fn replaced(s: Seq<char>, c: char, with: Seq<char>) -> Seq<char>
    decreases s.len(),
{
    if s.len() == 0 {
        Seq::empty()
    } else if s.last() == c {
        replaced(s.drop_last(), c, with) + with
    } else {
        replaced(s.drop_last(), c, with).push(s.last())
    }
}

pub fn replace(s: &[char], c: char, with: &str) -> (r: Vec<char>)
    ensures
        r@ == replaced(s@, c, with@),
{
    let mut out: Vec<char> = Vec::new();
    let mut i: usize = 0;
    while i < s.len()
        invariant
            i <= s@.len(),
            out@ == replaced(s@.take(i as int), c, with@),
        decreases s@.len() - i,
    {
        assert(s@.take(i + 1).drop_last() == s@.take(i as int));
        if s[i] == c {
            let mut w = crate::text::to_chars(with);
            out.append(&mut w);
        } else {
            out.push(s[i]);
        }
        i = i + 1;
    }
    assert(s@.take(s@.len() as int) == s@);
    out
}

/// The parts one after another, with `sep` between each two.
pub open spec fn joined(parts: Seq<Seq<char>>, sep: Seq<char>) -> Seq<char>
    decreases parts.len(),
{
    if parts.len() == 0 {
        Seq::empty()
    } else if parts.len() == 1 {
        parts[0]
    } else {
        joined(parts.drop_last(), sep) + sep + parts.last()
    }
}

pub fn join(parts: &Vec<String>, sep: &str) -> (r: String)
    ensures
        r@ == joined(strs(parts@), sep@),
{
    let mut out = String::new();
    let mut i: usize = 0;
    assert(strs(parts@).take(0) == Seq::<Seq<char>>::empty());
    while i < parts.len()
        invariant
            i <= parts@.len(),
            out@ == joined(strs(parts@).take(i as int), sep@),
        decreases parts@.len() - i,
    {
        let ghost upto = strs(parts@).take(i + 1);
        assert(upto.drop_last() == strs(parts@).take(i as int));
        assert(upto.last() == parts@[i as int]@);
        if i > 0 {
            out.append(sep);
        }
        out.append(parts[i].as_str());
        assert(i == 0 ==> out@ =~= upto[0]);
        i = i + 1;
    }
    assert(strs(parts@).take(parts@.len() as int) == strs(parts@));
    out
}

/// The last `n` parts, the last one first.
pub open spec fn last_reversed(parts: Seq<Seq<char>>, n: nat) -> Seq<Seq<char>> {
    let k = if n <= parts.len() {
        n
    } else {
        parts.len()
    };
    Seq::new(k, |i: int| parts[parts.len() - 1 - i])
}

/// The last `n` lines of a text, the last one first, with spaces between.
pub fn last_lines(s: &str, n: usize) -> (r: String)
    ensures
        r@ == joined(last_reversed(lines_of(s@), n as nat), " "@),
{
    let all = lines(crate::text::to_chars(s).as_slice());
    let mut out: Vec<String> = Vec::new();
    let k: usize = if n <= all.len() {
        n
    } else {
        all.len()
    };
    let mut i: usize = 0;
    while i < k
        invariant
            i <= k <= all@.len(),
            out@.len() == i,
            forall|j: int| 0 <= j < i ==> (#[trigger] out@[j])@ == all@[all@.len() - 1 - j]@,
        decreases k - i,
    {
        out.push(from_chars(all[all.len() - 1 - i].as_slice()));
        i = i + 1;
    }
    assert(strs(out@) =~= last_reversed(lines_of(s@), n as nat)) by {
        assert forall|j: int| 0 <= j < k implies strs(out@)[j] == lines_of(s@)[all@.len() - 1 - j] by {
            assert(views(all@)[all@.len() - 1 - j] == all@[all@.len() - 1 - j]@);
        }
    }
    join(&out, " ")
}

// ---------------------------------------------------------------------------
// Argument lists

/// Appends copies of `parts`.
pub fn push_all(out: &mut Vec<String>, parts: &[&str])
    ensures
        strs(final(out)@) == strs(old(out)@) + slices(parts@),
{
    let mut i: usize = 0;
    while i < parts.len()
        invariant
            i <= parts@.len(),
            strs(out@) =~= strs(old(out)@) + slices(parts@).take(i as int),
        decreases parts@.len() - i,
    {
        let ghost before = out@;
        out.push(parts[i].to_owned());
        assert(strs(out@) =~= strs(before).push(parts@[i as int]@));
        i = i + 1;
    }
    assert(slices(parts@).take(parts@.len() as int) == slices(parts@));
}

} // verus!
