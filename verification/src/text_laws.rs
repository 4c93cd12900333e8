//! What holds of reading and writing text: what is written is read back, and what
//! is taken apart fits together again.

use crate::numbers::{all_digits, dec, digit, is_digit, lemma_dec, parse_int, parse_uint};
use crate::pieces::{joined, last_reversed, lines_from, lines_of, replaced, split_at, split_from, without_cr, words_from, words_of};
use crate::text::{begins, end_of_text, has, index_from, is_white, lemma_end_of_text, lemma_index_from, lemma_index_from_is, lemma_match_from, lemma_skip_white, match_from, occurs, opt_str, skip_white, skip_word, strs, trimmed, trimmed_start};
use vstd::prelude::*;
use vstd::string::*;

verus! {

// ---------------------------------------------------------------------------
// Rewriting and joining

/// Replacing goes character by character: one that is meant becomes the
/// replacement, any other stays, and each stays in its place.
pub proof fn replacing_goes_by_character(a: Seq<char>, b: Seq<char>, c: char, x: char, with: Seq<char>)
    ensures
        replaced(Seq::empty(), c, with) == Seq::<char>::empty(),
        replaced(seq![c], c, with) == with,
        x != c ==> replaced(seq![x], c, with) == seq![x],
        replaced(a + b, c, with) == replaced(a, c, with) + replaced(b, c, with),
        !a.contains(c) ==> replaced(a, c, with) == a,
    decreases a.len() + b.len(),
{
    let none = Seq::<char>::empty();
    assert(seq![c].drop_last() =~= none && seq![x].drop_last() =~= none);
    assert(replaced(none, c, with) == none);
    assert(replaced(seq![c], c, with) =~= with);
    assert(replaced(seq![x], c, with) =~= if x == c {
        with
    } else {
        seq![x]
    });
    if b.len() > 0 {
        let less = b.drop_last();
        replacing_goes_by_character(a, less, c, x, with);
        assert((a + b).drop_last() =~= a + less);
        assert((a + b).last() == b.last());
        assert(replaced(a + b, c, with) =~= replaced(a, c, with) + replaced(b, c, with));
    } else {
        assert(a + b =~= a);
        assert(replaced(a + b, c, with) =~= replaced(a, c, with) + replaced(b, c, with));
    }
    lemma_nothing_to_replace(a, c, with);
}

proof fn lemma_nothing_to_replace(a: Seq<char>, c: char, with: Seq<char>)
    ensures
        !a.contains(c) ==> replaced(a, c, with) == a,
    decreases a.len(),
{
    if a.len() > 0 && !a.contains(c) {
        let less = a.drop_last();
        assert forall|k: int| 0 <= k < less.len() implies less[k] != c by {
            assert(a.contains(a[k]));
        }
        lemma_nothing_to_replace(less, c, with);
        assert(a.contains(a.last()));
        assert(replaced(a, c, with) =~= a);
    }
}

/// Joining puts the separator between each two neighbours, and nowhere else.
pub proof fn joining_separates_neighbours(a: Seq<Seq<char>>, b: Seq<Seq<char>>, x: Seq<char>, sep: Seq<char>)
    ensures
        joined(Seq::empty(), sep) == Seq::<char>::empty(),
        joined(seq![x], sep) == x,
        a.len() > 0 && b.len() > 0 ==> joined(a + b, sep) == joined(a, sep) + sep + joined(b, sep),
    decreases b.len(),
{
    if a.len() > 0 && b.len() > 0 {
        let all = a + b;
        let less = b.drop_last();
        assert(all.drop_last() =~= a + less);
        assert(all.last() == b.last());
        if b.len() == 1 {
            assert(a + less =~= a);
        } else {
            joining_separates_neighbours(a, less, x, sep);
            assert(joined(a, sep) + sep + joined(less, sep) + sep + b.last() =~= joined(a, sep) + sep + (
            joined(less, sep) + sep + b.last()));
        }
    }
}

proof fn lemma_split_is_whole(s: Seq<char>, c: char, i: int)
    requires
        0 <= i <= s.len(),
    ensures
        split_from(s, c, i).len() > 0,
        joined(split_from(s, c, i), seq![c]) == s.skip(i),
        forall|k: int| 0 <= k < split_from(s, c, i).len() ==> !(#[trigger] split_from(s, c, i)[k]).contains(c),
    decreases s.len() - i,
{
    let j = index_from(s, c, i);
    lemma_index_from(s, c, i);
    let all = split_from(s, c, i);
    if j < s.len() {
        lemma_split_is_whole(s, c, j + 1);
        let first = s.subrange(i, j);
        let rest = split_from(s, c, j + 1);
        joining_separates_neighbours(seq![first], rest, first, seq![c]);
        assert(first + seq![c] + s.skip(j + 1) =~= s.skip(i));
        assert forall|k: int| 0 <= k < all.len() implies !(#[trigger] all[k]).contains(c) by {
            if k > 0 {
                assert(all[k] == rest[k - 1]);
            }
        }
    } else {
        assert(all =~= seq![s.skip(i)]);
    }
}

/// The pieces of a text hold no separator, and joined by it they are the text.
pub proof fn joining_undoes_splitting(s: Seq<char>, c: char)
    ensures
        joined(split_at(s, c), seq![c]) == s,
        split_at(s, c).len() > 0,
        forall|k: int| 0 <= k < split_at(s, c).len() ==> !(#[trigger] split_at(s, c)[k]).contains(c),
{
    lemma_split_is_whole(s, c, 0);
    assert(s.skip(0) =~= s);
}

proof fn lemma_split_push(d: Seq<char>, c: char, name: Seq<char>, i: int)
    requires
        0 <= i <= d.len(),
        !name.contains(c),
    ensures
        split_from(d + seq![c] + name, c, i) == split_from(d, c, i).push(name),
    decreases d.len() - i,
{
    let all = d + seq![c] + name;
    let j = index_from(d, c, i);
    lemma_index_from(d, c, i);
    assert forall|k: int| i <= k < j implies all[k] != c by {
        assert(all[k] == d[k]);
    }
    assert(all[j] == c);
    lemma_index_from_is(all, c, i, j);
    assert(all.subrange(i, j) =~= d.subrange(i, j));
    let first = seq![d.subrange(i, j)];
    if j < d.len() {
        lemma_split_push(d, c, name, j + 1);
        let rest = split_from(d, c, j + 1);
        assert(first + rest.push(name) =~= (first + rest).push(name));
    } else {
        let n = all.len() as int;
        assert forall|k: int| j + 1 <= k < n implies all[k] != c by {
            assert(name.contains(name[k - j - 1]));
        }
        lemma_index_from_is(all, c, j + 1, n);
        assert(all.skip(j + 1) =~= name);
        assert(d.skip(i) =~= d.subrange(i, j));
        assert(split_from(all, c, j + 1) == seq![name]);
        assert(first + seq![name] =~= seq![d.skip(i)].push(name));
    }
}

/// What was joined by a separator that it does not hold is split there again.
pub proof fn splitting_undoes_joining(parts: Seq<Seq<char>>, c: char)
    requires
        parts.len() > 0,
        forall|k: int| 0 <= k < parts.len() ==> !(#[trigger] parts[k]).contains(c),
    ensures
        split_at(joined(parts, seq![c]), c) == parts,
    decreases parts.len(),
{
    if parts.len() == 1 {
        let s = parts[0];
        assert forall|k: int| 0 <= k < s.len() implies s[k] != c by {
            assert(s.contains(s[k]));
        }
        lemma_index_from_is(s, c, 0, s.len() as int);
        assert(s.skip(0) =~= s);
        assert(split_at(s, c) =~= parts);
    } else {
        let less = parts.drop_last();
        assert forall|k: int| 0 <= k < less.len() implies !(#[trigger] less[k]).contains(c) by {
            assert(less[k] == parts[k]);
        }
        splitting_undoes_joining(less, c);
        assert(!parts[parts.len() - 1].contains(c));
        lemma_split_push(joined(less, seq![c]), c, parts.last(), 0);
        assert(less.push(parts.last()) =~= parts);
    }
}

/// The last lines, the last one first: the newest comes in front, and the oldest
/// goes where there are too many.
pub proof fn the_newest_comes_first(parts: Seq<Seq<char>>, x: Seq<char>, n: nat)
    ensures
        last_reversed(parts, 0) == Seq::<Seq<char>>::empty(),
        last_reversed(Seq::empty(), n) == Seq::<Seq<char>>::empty(),
        last_reversed(parts.push(x), n + 1) == seq![x] + last_reversed(parts, n),
{
    assert(last_reversed(parts, 0) =~= Seq::<Seq<char>>::empty());
    assert(last_reversed(Seq::empty(), n) =~= Seq::<Seq<char>>::empty());
    assert(last_reversed(parts.push(x), n + 1) =~= seq![x] + last_reversed(parts, n));
}

// ---------------------------------------------------------------------------
// Lines, words and white space

proof fn lemma_line_push(s: Seq<char>, line: Seq<char>, i: int)
    requires
        0 <= i <= s.len(),
        s.len() > 0 ==> s.last() == '\n',
        !line.contains('\n'),
    ensures
        lines_from(s + line + seq!['\n'], i) == lines_from(s, i).push(without_cr(line)),
    decreases s.len() - i,
{
    let all = s + line + seq!['\n'];
    if i == s.len() {
        let j = (s.len() + line.len()) as int;
        assert forall|k: int| i <= k < j implies all[k] != '\n' by {
            assert(line.contains(line[k - i]));
        }
        lemma_index_from_is(all, '\n', i, j);
        assert(all.subrange(i, j) =~= line);
        assert(lines_from(all, j + 1) =~= Seq::empty());
        assert(lines_from(all, i) =~= seq![without_cr(line)]);
        assert(lines_from(s, i).push(without_cr(line)) =~= seq![without_cr(line)]);
    } else {
        let j = index_from(s, '\n', i);
        lemma_index_from(s, '\n', i);
        assert(j < s.len()) by {
            assert(s[s.len() - 1] == '\n');
        }
        assert forall|k: int| i <= k < j implies all[k] != '\n' by {
            assert(all[k] == s[k]);
        }
        assert(all[j] == s[j]);
        lemma_index_from_is(all, '\n', i, j);
        assert(all.subrange(i, j) =~= s.subrange(i, j));
        lemma_line_push(s, line, j + 1);
        let first = seq![without_cr(s.subrange(i, j))];
        assert(first + lines_from(s, j + 1).push(without_cr(line)) =~= (first + lines_from(s, j + 1)).push(
            without_cr(line),
        ));
    }
}

/// A line that is added at the end is the last line read, whether it ends in a
/// line feed alone or in a carriage return and a line feed; the lines before it
/// stay as they are. An empty text has no lines.
pub proof fn an_added_line_is_read_last(s: Seq<char>, line: Seq<char>)
    requires
        s.len() > 0 ==> s.last() == '\n',
        !line.contains('\n'),
        line.len() > 0 ==> line.last() != '\r',
    ensures
        lines_of(Seq::empty()) == Seq::<Seq<char>>::empty(),
        lines_of(s + line + seq!['\n']) == lines_of(s).push(line),
        lines_of(s + line + seq!['\r', '\n']) == lines_of(s).push(line),
        line.len() > 0 ==> lines_of(s + line) == lines_of(s).push(line),
{
    lemma_line_push(s, line, 0);
    assert(without_cr(line) == line);
    let returned = line.push('\r');
    assert forall|k: int| 0 <= k < returned.len() implies returned[k] != '\n' by {
        if k < line.len() {
            assert(line.contains(line[k]));
        }
    }
    lemma_line_push(s, returned, 0);
    assert(without_cr(returned) =~= line);
    assert(s + returned + seq!['\n'] =~= s + line + seq!['\r', '\n']);
    if line.len() > 0 {
        lemma_last_line(s, line, 0);
    }
}

proof fn lemma_last_line(s: Seq<char>, line: Seq<char>, i: int)
    requires
        0 <= i <= s.len(),
        s.len() > 0 ==> s.last() == '\n',
        !line.contains('\n'),
        line.len() > 0,
    ensures
        lines_from(s + line, i) == lines_from(s, i).push(line),
    decreases s.len() - i,
{
    let all = s + line;
    if i == s.len() {
        assert forall|k: int| i <= k < all.len() implies all[k] != '\n' by {
            assert(line.contains(line[k - i]));
        }
        lemma_index_from_is(all, '\n', i, all.len() as int);
        assert(all.skip(i) =~= line);
        assert(lines_from(s, i).push(line) =~= seq![line]);
    } else {
        let j = index_from(s, '\n', i);
        lemma_index_from(s, '\n', i);
        assert(j < s.len()) by {
            assert(s[s.len() - 1] == '\n');
        }
        assert forall|k: int| i <= k < j implies all[k] != '\n' by {
            assert(all[k] == s[k]);
        }
        assert(all[j] == s[j]);
        lemma_index_from_is(all, '\n', i, j);
        assert(all.subrange(i, j) =~= s.subrange(i, j));
        lemma_last_line(s, line, j + 1);
        let first = seq![without_cr(s.subrange(i, j))];
        assert(first + lines_from(s, j + 1).push(line) =~= (first + lines_from(s, j + 1)).push(line));
    }
}

/// Whether `s` is not empty and has no white character in it.
pub open spec fn one_word(s: Seq<char>) -> bool {
    s.len() > 0 && forall|k: int| 0 <= k < s.len() ==> !is_white(#[trigger] s[k])
}

pub open spec fn all_white(s: Seq<char>) -> bool {
    forall|k: int| 0 <= k < s.len() ==> is_white(#[trigger] s[k])
}

proof fn lemma_skip_white_is(s: Seq<char>, i: int, j: int)
    requires
        0 <= i <= j <= s.len(),
        forall|k: int| i <= k < j ==> is_white(#[trigger] s[k]),
        j < s.len() ==> !is_white(s[j]),
    ensures
        skip_white(s, i) == j,
    decreases j - i,
{
    if i < j {
        assert(is_white(s[i]));
        lemma_skip_white_is(s, i + 1, j);
    }
}

proof fn lemma_skip_word_is(s: Seq<char>, i: int, j: int)
    requires
        0 <= i <= j <= s.len(),
        forall|k: int| i <= k < j ==> !is_white(#[trigger] s[k]),
        j < s.len() ==> is_white(s[j]),
    ensures
        skip_word(s, i) == j,
    decreases j - i,
{
    if i < j {
        assert(!is_white(s[i]));
        lemma_skip_word_is(s, i + 1, j);
    }
}

proof fn lemma_words_behind(front: Seq<char>, s: Seq<char>, i: int)
    requires
        0 <= i <= s.len(),
    ensures
        words_from(front + s, front.len() + i) == words_from(s, i),
    decreases s.len() - i,
{
    let all = front + s;
    let n = front.len() as int;
    let a = skip_white(s, i);
    lemma_skip_white(s, i);
    assert forall|k: int| n + i <= k < n + a implies is_white(#[trigger] all[k]) by {
        assert(is_white(s[k - n]));
    }
    lemma_skip_white_is(all, n + i, n + a);
    if a < s.len() {
        let b = skip_word(s, a);
        crate::text::lemma_skip_word(s, a);
        assert forall|k: int| n + a <= k < n + b implies !is_white(#[trigger] all[k]) by {
            assert(!is_white(s[k - n]));
        }
        lemma_skip_word_is(all, n + a, n + b);
        assert(b > a) by {
            assert(!is_white(s[a]));
        }
        assert(all.subrange(n + a, n + b) =~= s.subrange(a, b));
        lemma_words_behind(front, s, b);
    }
}

/// The words of a text are what stands between its white characters: a word, and
/// white characters of any kind and number behind it, add that word in front, and
/// white characters alone add none.
pub proof fn words_are_separated_by_white_space(word: Seq<char>, gap: Seq<char>, rest: Seq<char>)
    requires
        one_word(word),
        all_white(gap),
    ensures
        words_of(gap) == Seq::<Seq<char>>::empty(),
        words_of(gap + rest) == words_of(rest),
        gap.len() > 0 || rest.len() == 0 ==> words_of(word + gap + rest) == seq![word] + words_of(rest),
{
    lemma_skip_white_is(gap, 0, gap.len() as int);
    let none = Seq::<Seq<char>>::empty();
    assert(words_of(gap) == none);
    lemma_gap(gap, rest);
    if gap.len() > 0 || rest.len() == 0 {
        let all = word + gap + rest;
        let n = word.len() as int;
        assert forall|k: int| 0 <= k < n implies !is_white(#[trigger] all[k]) by {
            assert(!is_white(word[k]));
        }
        assert(!is_white(all[0]));
        lemma_skip_white_is(all, 0, 0);
        if n < all.len() {
            assert(all[n] == gap[0]);
        }
        lemma_skip_word_is(all, 0, n);
        assert(all.subrange(0, n) =~= word);
        assert(all =~= word + (gap + rest));
        lemma_words_behind(word, gap + rest, 0);
        assert(words_of(all) == seq![word] + words_from(all, n));
    }
}

proof fn lemma_words_before(a: Seq<char>, gap: Seq<char>, b: Seq<char>, i: int)
    requires
        0 <= i <= a.len(),
        all_white(gap),
        gap.len() > 0,
    ensures
        words_from(a + gap + b, i) == words_from(a, i) + words_of(b),
    decreases a.len() - i,
{
    let all = a + gap + b;
    let s = skip_white(a, i);
    lemma_skip_white(a, i);
    if s < a.len() {
        assert forall|k: int| i <= k < s implies is_white(#[trigger] all[k]) by {
            assert(is_white(a[k]));
        }
        assert(all[s] == a[s]);
        lemma_skip_white_is(all, i, s);
        let e = skip_word(a, s);
        crate::text::lemma_skip_word(a, s);
        assert forall|k: int| s <= k < e implies !is_white(#[trigger] all[k]) by {
            assert(!is_white(a[k]));
        }
        assert(e > s) by {
            assert(!is_white(a[s]));
        }
        assert(is_white(all[e])) by {
            if e < a.len() {
                assert(all[e] == a[e]);
            } else {
                assert(all[e] == gap[0]);
            }
        }
        lemma_skip_word_is(all, s, e);
        assert(all.subrange(s, e) =~= a.subrange(s, e));
        lemma_words_before(a, gap, b, e);
        let word = seq![a.subrange(s, e)];
        assert(word + (words_from(a, e) + words_of(b)) =~= word + words_from(a, e) + words_of(b));
    } else {
        let white = a.skip(i) + gap;
        assert forall|k: int| 0 <= k < white.len() implies is_white(#[trigger] white[k]) by {
            if k < a.len() - i {
                assert(is_white(a[k + i]));
            } else {
                assert(is_white(gap[k - (a.len() - i)]));
            }
        }
        lemma_gap(white, b);
        let front = a.take(i);
        assert(all =~= front + (white + b));
        lemma_words_behind(front, white + b, 0);
        assert(words_from(a, i) + words_of(b) =~= words_of(b));
    }
}

/// The words of two texts with white space between them are those of the first,
/// and then those of the second.
pub proof fn words_add_up(a: Seq<char>, gap: Seq<char>, b: Seq<char>)
    requires
        all_white(gap),
        gap.len() > 0,
    ensures
        words_of(a + gap + b) == words_of(a) + words_of(b),
{
    lemma_words_before(a, gap, b, 0);
}

proof fn lemma_gap(gap: Seq<char>, rest: Seq<char>)
    requires
        all_white(gap),
    ensures
        words_of(gap + rest) == words_of(rest),
{
    let all = gap + rest;
    let a = skip_white(rest, 0);
    lemma_skip_white(rest, 0);
    let n = gap.len() as int;
    assert forall|k: int| 0 <= k < n + a implies is_white(#[trigger] all[k]) by {
        if k < n {
            assert(is_white(gap[k]));
        } else {
            assert(is_white(rest[k - n]));
        }
    }
    lemma_skip_white_is(all, 0, n + a);
    lemma_skip_white_is(all, n, n + a);
    lemma_words_behind(gap, rest, 0);
}

/// The white characters of ASCII are the blank and the five from the tab to the
/// carriage return; what can be seen is never white.
pub proof fn what_is_seen_is_not_white(c: char)
    ensures
        '!' <= c <= '~' ==> !is_white(c),
        c == ' ' || c == '\t' || c == '\n' || c == '\r' ==> is_white(c),
        c as int == 11 || c as int == 12 ==> is_white(c),
        (c as int) < 9 || 13 < (c as int) < 32 ==> !is_white(c),
        c == '\u{a0}' || c == '\u{2003}' || c == '\u{3000}' ==> is_white(c),
{
}

/// Trimming takes the white characters away at both ends, and nothing else.
pub proof fn trimming_keeps_the_inside(before: Seq<char>, s: Seq<char>, after: Seq<char>)
    requires
        all_white(before),
        all_white(after),
        s.len() > 0 ==> !is_white(s[0]) && !is_white(s.last()),
    ensures
        trimmed(before + s + after) == s,
        s.len() > 0 ==> trimmed_start(before + s + after) == s + after,
{
    let all = before + s + after;
    let (m, n) = (before.len() as int, (before.len() + s.len()) as int);
    if s.len() == 0 {
        assert forall|k: int| 0 <= k < all.len() implies is_white(#[trigger] all[k]) by {
            if k < m {
                assert(is_white(before[k]));
            } else {
                assert(is_white(after[k - m]));
            }
        }
        lemma_skip_white_is(all, 0, all.len() as int);
        assert(trimmed(all) =~= s);
    } else {
        assert forall|k: int| 0 <= k < m implies is_white(#[trigger] all[k]) by {
            assert(is_white(before[k]));
        }
        assert(all[m] == s[0] && all[n - 1] == s.last());
        lemma_skip_white_is(all, 0, m);
        lemma_end_of_text(all, all.len() as int);
        let e = end_of_text(all, all.len() as int);
        assert(e >= n) by {
            if e < n {
                assert(is_white(all[n - 1]));
            }
        }
        assert(e <= n) by {
            if e > n {
                assert(all[e - 1] == after[e - 1 - n]);
                assert(is_white(after[e - 1 - n]));
            }
        }
        assert(trimmed(all) =~= s);
        assert(trimmed_start(all) =~= s + after);
    }
}

// ---------------------------------------------------------------------------
// Numbers

/// A number is written in decimal: one digit stands for itself, and ten times a
/// number and a digit is the number with the digit behind it.
pub proof fn numbers_are_written_in_decimal(n: nat, d: nat)
    requires
        d < 10,
    ensures
        dec(d).len() == 1 && dec(d)[0] as int == '0' as int + d,
        n > 0 ==> dec(10 * n + d) == dec(n) + dec(d),
{
    assert(dec(d) == seq![digit(d as int)]);
    if n > 0 {
        assert((10 * n + d) / 10 == n && (10 * n + d) % 10 == d);
        assert(dec(10 * n + d) =~= dec(n) + dec(d));
    }
}

/// A number that was written is read back as it was, with or without a sign, and
/// one that is too large is refused.
pub proof fn numbers_are_read_back(n: nat, max: nat)
    ensures
        n <= max ==> parse_uint(dec(n), max) == Some(n) && parse_uint(seq!['+'] + dec(n), max) == Some(n),
        n > max ==> parse_uint(dec(n), max) is None,
        n <= i64::MAX ==> parse_int(dec(n)) == Some(n as int) && parse_int(seq!['+'] + dec(n)) == Some(n as int),
        n <= i64::MAX + 1 ==> parse_int(seq!['-'] + dec(n)) == Some(-(n as int)),
        n > i64::MAX ==> parse_int(dec(n)) is None,
{
    lemma_dec(n);
    assert(is_digit(dec(n)[0]));
    assert((seq!['+'] + dec(n)).skip(1) =~= dec(n));
    assert((seq!['-'] + dec(n)).skip(1) =~= dec(n));
}

/// What is read as a number is made of digits, but for a sign in front.
pub proof fn nothing_else_is_a_number(s: Seq<char>, max: nat, i: int)
    requires
        0 <= i < s.len(),
        !('0' <= s[i] <= '9'),
    ensures
        s[i] != '+' || i > 0 || s.len() == 1 ==> parse_uint(s, max) is None,
        (s[i] != '+' && s[i] != '-') || i > 0 || s.len() == 1 ==> parse_int(s) is None,
        parse_uint(Seq::empty(), max) is None,
        parse_int(Seq::empty()) is None,
{
    let d = s.skip(1);
    if i > 0 {
        assert(d[i - 1] == s[i]);
    }
    assert(!is_digit(s[i]));
    if all_digits(s) {
        assert(is_digit(s[i]));
    }
    if i > 0 && all_digits(d) {
        assert(is_digit(d[i - 1]));
    }
}

/// A text begins with what was put in front of it.
pub proof fn a_text_begins_with_its_front(front: Seq<char>, rest: Seq<char>, other: Seq<char>)
    ensures
        begins(front + rest, front),
        begins(rest, other) ==> rest == other + rest.skip(other.len() as int),
{
    assert((front + rest).take(front.len() as int) =~= front);
    if begins(rest, other) {
        assert(rest =~= other + rest.skip(other.len() as int));
    }
}

/// What the contracts speak of is every text of a list, in order.
pub proof fn lists_are_seen_whole(v: Seq<String>, s: Option<String>, i: int)
    ensures
        strs(v).len() == v.len(),
        0 <= i < v.len() ==> strs(v)[i] == v[i]@,
        s is None ==> opt_str(s) is None,
        s matches Some(t) ==> opt_str(s) == Some(t@),
{
}

/// A text is found in what it is part of, and only there.
pub proof fn a_part_is_found(front: Seq<char>, part: Seq<char>, rest: Seq<char>, s: Seq<char>)
    ensures
        has(front + part + rest, part),
        has(s, part) ==> exists|i: int| 0 <= i && i + part.len() <= s.len() && #[trigger] s.subrange(
            i,
            i + part.len(),
        ) == part,
{
    let all = front + part + rest;
    let j = front.len() as int;
    assert(all.subrange(j, j + part.len()) =~= part);
    assert(occurs(all, part, j));
    lemma_match_from(all, part, 0);
    lemma_match_from(s, part, 0);
    if has(s, part) {
        let i = match_from(s, part, 0)->0;
        assert(s.subrange(i, i + part.len()) == part);
    }
}

/// A last line without a line feed is kept as it is, with whatever it ends in.
pub proof fn a_last_line_is_kept_whole(s: Seq<char>, line: Seq<char>)
    requires
        s.len() > 0 ==> s.last() == '\n',
        !line.contains('\n'),
        line.len() > 0,
    ensures
        lines_of(s + line) == lines_of(s).push(line),
{
    lemma_last_line(s, line, 0);
}

} // verus!
