//! Free disk space: reading it from what the system's tools print, and what
//! follows from it.

use crate::numbers::{dec, dec_string, digit, digit_char, is_digit, lemma_dec, parse_uint, read_uint};
use crate::pieces::{lines, lines_of, replace, replaced, words, words_of};
use crate::recorder::{Recorder, Status};
use crate::single::{round_div, rounded};
use crate::text::{begins, from_chars, is_white, to_chars, trim, trimmed, views};
use crate::text_laws::{all_white, an_added_line_is_read_last, numbers_are_read_back, one_word, words_add_up, words_are_separated_by_white_space};
use vstd::prelude::*;
use vstd::string::*;

verus! {

/// Refuse to start below this. A gigabyte is minutes of screen video, not hours:
/// a floor for "this will fail almost immediately", not a budget.
pub const MIN_FREE_TO_START: u64 = 1073741824;

/// Stop below this, mid-recording.
pub const MIN_FREE_TO_CONTINUE: u64 = 268435456;

/// Time between two looks at the free space, in seconds.
pub const DISK_POLL_SECS: u64 = 15;

// ---------------------------------------------------------------------------
// Sizes in words

/// The gap between neighbouring double-precision numbers around `n`, a power of
/// two that is at least `u`: `n` has at most 53 binary digits above it.
pub open spec fn double_step(n: int, u: int) -> int
    decreases n - u,
    when u > 0
{
    if n < u * 0x20_0000_0000_0000 {
        u
    } else {
        double_step(n, 2 * u)
    }
}

/// The double-precision number nearest to `n`.
pub open spec fn as_double(n: int) -> int {
    rounded(n, double_step(n, 1)) * double_step(n, 1)
}

/// A size in words: gigabytes to one decimal, or whole megabytes.
pub open spec fn human_text(n: nat) -> Seq<char> {
    if n >= 1073741824 {
        let tenths = rounded(as_double(n as int) * 10, 1073741824);
        dec((tenths / 10) as nat) + seq!['.', digit(tenths % 10)] + " GB"@
    } else {
        dec(n / 1048576) + " MB"@
    }
}

pub fn human_bytes(n: u64) -> (r: String)
    ensures
        r@ == human_text(n as nat),
{
    if n >= 1073741824 {
        let mut u: u128 = 1;
        while n as u128 >= u * 0x20_0000_0000_0000
            invariant
                1 <= u <= 0x1000,
                double_step(n as int, 1) == double_step(n as int, u as int),
            decreases 0x2000 - u,
        {
            u = 2 * u;
        }
        assert(double_step(n as int, 1) == u);
        let multiple: u128 = round_div(n as u128, u);
        proof {
            assert(multiple <= n + 1);
            assert(multiple * u <= 0x1_0000_0000_0000_0001 * 0x1000) by (nonlinear_arith)
                requires
                    0 <= multiple <= 0x1_0000_0000_0000_0000,
                    1 <= u <= 0x1000,
            ;
        }
        let double: u128 = multiple * u;
        let tenths: u128 = round_div(double * 10, 1073741824);
        let mut out: String = dec_string((tenths / 10) as u64);
        out.push('.');
        out.push(digit_char((tenths % 10) as u64));
        out.append(" GB");
        assert(out@ =~= human_text(n as nat));
        out
    } else {
        let mut out: String = dec_string(n / 1048576);
        out.append(" MB");
        out
    }
}

// ---------------------------------------------------------------------------
// Reading the free space

/// A word that ends in a percent sign.
pub open spec fn is_capacity(word: Seq<char>) -> bool {
    word.len() > 0 && word.last() == '%'
}

/// The first capacity among `words` from `i` on.
pub open spec fn capacity_from(words: Seq<Seq<char>>, i: int) -> Option<int>
    decreases words.len() - i,
{
    if i < 0 || i >= words.len() {
        None
    } else if is_capacity(words[i]) {
        Some(i)
    } else {
        capacity_from(words, i + 1)
    }
}

/// The number of free kilobytes in a line of `df -P`: the word before the
/// capacity.
pub open spec fn free_in_line(line: Seq<char>) -> Option<nat> {
    let words = words_of(line);
    match capacity_from(words, 0) {
        Some(cap) => if cap > 0 {
            parse_uint(words[cap - 1], u64::MAX as nat)
        } else {
            None
        },
        None => None,
    }
}

/// The first of `lines`, from `i` on, that has a number of free kilobytes.
pub open spec fn free_from(lines: Seq<Seq<char>>, i: int) -> Option<nat>
    decreases lines.len() - i,
{
    if i < 0 || i >= lines.len() {
        None
    } else if free_in_line(lines[i]) is Some {
        free_in_line(lines[i])
    } else {
        free_from(lines, i + 1)
    }
}

/// Free kilobytes in the output of `df -P`: what its lines after the heading
/// say.
pub open spec fn df_free_kb(stdout: Seq<char>) -> Option<nat> {
    free_from(lines_of(stdout), 1)
}

fn read_free(line: &[char]) -> (r: Option<u64>)
    ensures
        r matches Some(n) ==> free_in_line(line@) == Some(n as nat),
        r is None ==> free_in_line(line@) is None,
{
    let all = words(line);
    let mut i: usize = 0;
    while i < all.len()
        invariant
            i <= all@.len(),
            views(all@) == words_of(line@),
            capacity_from(words_of(line@), 0) == capacity_from(words_of(line@), i as int),
        decreases all@.len() - i,
    {
        let n: usize = all[i].len();
        assert(views(all@)[i as int] == all@[i as int]@);
        if n > 0 && all[i][n - 1] == '%' {
            if i == 0 {
                return None;
            }
            assert(views(all@)[i - 1] == all@[i - 1]@);
            return read_uint(all[i - 1].as_slice(), u64::MAX);
        }
        i = i + 1;
    }
    None
}

/// Free kilobytes from the output of `df -P`.
///
/// Anchored on the capacity column, the one that ends in a percent sign, instead
/// of counting fields from the left: a device or a mount point with a space in
/// its name shifts every index after it.
pub fn parse_df_kb(stdout: &str) -> (r: Option<u64>)
    ensures
        r matches Some(n) ==> df_free_kb(stdout@) == Some(n as nat),
        r is None ==> df_free_kb(stdout@) is None,
{
    let chars = to_chars(stdout);
    let all = lines(chars.as_slice());
    let mut i: usize = 1;
    while i < all.len()
        invariant
            1 <= i,
            views(all@) == lines_of(stdout@),
            df_free_kb(stdout@) == free_from(lines_of(stdout@), i as int),
        decreases all@.len() - i,
    {
        assert(views(all@)[i as int] == all@[i as int]@);
        let found: Option<u64> = read_free(all[i].as_slice());
        if found.is_some() {
            return found;
        }
        i = i + 1;
    }
    assert(views(all@).len() == all@.len());
    None
}

/// The least of `n` and the largest `u64`.
pub open spec fn clamped(n: nat) -> nat {
    if n > u64::MAX {
        u64::MAX as nat
    } else {
        n
    }
}

/// Free bytes from a run of `df -Pk`: whether it succeeded, and what it printed.
pub fn df_free_bytes(success: bool, stdout: &str) -> (r: Option<u64>)
    ensures
        match r {
            Some(n) => success && df_free_kb(stdout@) is Some && n == clamped(
                df_free_kb(stdout@)->0 * 1024,
            ),
            None => !success || df_free_kb(stdout@) is None,
        },
{
    if !success {
        return None;
    }
    match parse_df_kb(stdout) {
        Some(kb) => if kb > 0x3f_ffff_ffff_ffff {
            Some(u64::MAX)
        } else {
            Some(kb * 1024)
        },
        None => None,
    }
}

/// The PowerShell script that prints the free bytes of the volume holding a
/// path.
pub fn free_space_script(path: &str) -> (r: String)
    ensures
        r@ == "(Get-Item -LiteralPath '"@ + replaced(path@, '\'', "''"@) + "').PSDrive.Free"@,
{
    let mut r: String = "(Get-Item -LiteralPath '".to_owned();
    let quoted: String = from_chars(replace(to_chars(path).as_slice(), '\'', "''").as_slice());
    r.append(quoted.as_str());
    r.append("').PSDrive.Free");
    r
}

/// Free bytes from a run of [`free_space_script`]. `None` for a path that has no
/// drive: the caller treats that as "unknown", not as "full".
pub fn drive_free_bytes(success: bool, stdout: &str) -> (r: Option<u64>)
    ensures
        r matches Some(n) ==> success && parse_uint(trimmed(stdout@), u64::MAX as nat) == Some(n as nat),
        r is None ==> !success || parse_uint(trimmed(stdout@), u64::MAX as nat) is None,
{
    if !success {
        return None;
    }
    let chars = to_chars(stdout);
    read_uint(trim(chars.as_slice()), u64::MAX)
}

// ---------------------------------------------------------------------------
// What follows

/// The refusal of a start in a folder that is too full.
pub open spec fn too_full(free: nat, needed: nat, dir: Seq<char>) -> Seq<char> {
    "Not enough free space in "@ + dir + " \u{2014} "@ + human_text(free) + " left, "@ + human_text(
        needed,
    ) + " needed to start. Free some space or choose another folder."@
}

/// Gates a start on free space. An unknown answer passes: refusing to record
/// because the space could not be read would be worse than recording.
pub fn space_check(free: Option<u64>, needed: u64, dir: &str) -> (r: Result<(), String>)
    ensures
        match r {
            Ok(()) => free is None || free->0 >= needed,
            Err(e) => free is Some && free->0 < needed && e@ == too_full(
                free->0 as nat,
                needed as nat,
                dir@,
            ),
        },
{
    match free {
        Some(free) => {
            if free < needed {
                let mut e: String = "Not enough free space in ".to_owned();
                e.append(dir);
                e.append(" \u{2014} ");
                e.append(human_bytes(free).as_str());
                e.append(" left, ");
                e.append(human_bytes(needed).as_str());
                e.append(" needed to start. Free some space or choose another folder.");
                return Err(e);
            }
            Ok(())
        },
        None => Ok(()),
    }
}

/// Whether the disk watchdog of session `session_id` still has something to
/// protect.
pub fn session_writes(r: &Recorder, session_id: u64) -> (res: bool)
    ensures
        res == r@.being_written(session_id),
{
    r.session_id == session_id && match r.status {
        Status::Recording | Status::Paused => true,
        _ => false,
    }
}

/// What the disk watchdog tells the user before it stops the recording, if it
/// must: a disk that fills leaves a file without an index, which no player
/// opens.
pub fn almost_full(free: Option<u64>) -> (r: Option<String>)
    ensures
        match r {
            Some(m) => free is Some && free->0 < MIN_FREE_TO_CONTINUE && m@ == "Disk almost full ("@
                + human_text(free->0 as nat)
                + " left) \u{2014} stopping now so the recording stays playable."@,
            None => free is None || free->0 >= MIN_FREE_TO_CONTINUE,
        },
{
    match free {
        Some(n) => {
            if n >= MIN_FREE_TO_CONTINUE {
                return None;
            }
            let mut m: String = "Disk almost full (".to_owned();
            m.append(human_bytes(n).as_str());
            m.append(" left) \u{2014} stopping now so the recording stays playable.");
            Some(m)
        },
        None => None,
    }
}

// ---------------------------------------------------------------------------
// Laws

/// Below a gigabyte a size is told in whole megabytes, rounded down.
pub proof fn small_sizes_are_told_in_megabytes(n: nat, m: nat)
    requires
        n < 1024 * 1024 * 1024,
        m * 1048576 <= n < m * 1048576 + 1048576,
    ensures
        human_text(n) == dec(m) + " MB"@,
{
    assert(n / 1048576 == m);
}

/// From a gigabyte on a size is told in gigabytes, to the nearest tenth.
pub proof fn large_sizes_are_told_in_gigabytes(n: nat, whole: nat, tenth: nat)
    requires
        1024 * 1024 * 1024 <= n < 0x20_0000_0000_0000,
        tenth < 10,
        ({
            let t = 10 * whole + tenth;
            -536870912 < t * 1073741824 - 10 * n < 536870912
        }),
    ensures
        human_text(n) == dec(whole) + seq!['.'] + dec(tenth) + " GB"@,
{
    let t = 10 * whole + tenth;
    assert(double_step(n as int, 1) == 1);
    vstd::arithmetic::div_mod::lemma_fundamental_div_mod_converse(n as int, 1, n as int, 0);
    assert(as_double(n as int) == n);
    let num = 10 * n;
    let rest = num - t * 1073741824;
    if rest >= 0 {
        vstd::arithmetic::div_mod::lemma_fundamental_div_mod_converse(num as int, 1073741824, t as int, rest);
    } else {
        vstd::arithmetic::div_mod::lemma_fundamental_div_mod_converse(
            num as int,
            1073741824,
            t - 1,
            rest + 1073741824,
        );
    }
    assert(rounded(num as int, 1073741824) == t);
    assert(t / 10 == whole && t % 10 == tenth);
    assert(human_text(n) =~= dec(whole) + seq!['.'] + dec(tenth) + " GB"@);
}

/// No word is a capacity.
pub open spec fn no_capacity(words: Seq<Seq<char>>) -> bool {
    forall|k: int| 0 <= k < words.len() ==> (#[trigger] words[k]).len() == 0 || words[k].last() != '%'
}

proof fn lemma_capacity_from(words: Seq<Seq<char>>, i: int, cap: int)
    requires
        0 <= i <= cap < words.len(),
        forall|k: int| i <= k < cap ==> !is_capacity(#[trigger] words[k]),
        is_capacity(words[cap]),
    ensures
        capacity_from(words, i) == Some(cap),
    decreases cap - i,
{
    if i < cap {
        assert(!is_capacity(words[i]));
        lemma_capacity_from(words, i + 1, cap);
    }
}

/// The free space of a line of `df` is the number in front of its capacity,
/// whatever stands in front of that and behind it: a name with blanks in it makes
/// no difference.
pub proof fn free_space_stands_before_the_capacity(
    name: Seq<char>,
    gap: Seq<char>,
    free: nat,
    used: Seq<char>,
    mount: Seq<char>,
)
    requires
        all_white(gap),
        gap.len() > 0,
        no_capacity(words_of(name)),
        one_word(used.push('%')),
        free <= u64::MAX,
    ensures
        free_in_line(name + gap + dec(free) + gap + used.push('%') + gap + mount) == Some(free),
{
    let capacity = used.push('%');
    let number = dec(free);
    lemma_dec(free);
    assert(one_word(number)) by {
        assert forall|k: int| 0 <= k < number.len() implies !is_white(#[trigger] number[k]) by {
            assert(is_digit(number[k]));
        }
    }
    let tail = capacity + gap + mount;
    words_are_separated_by_white_space(capacity, gap, mount);
    words_are_separated_by_white_space(number, gap, tail);
    let rest = number + gap + tail;
    words_add_up(name, gap, rest);
    let line = name + gap + dec(free) + gap + used.push('%') + gap + mount;
    assert(line =~= name + gap + rest);
    let before = words_of(name);
    let words = words_of(line);
    let n = before.len() as int;
    assert(words[n] == number);
    assert(words[n + 1] == capacity);
    assert(is_digit(number[number.len() - 1]));
    assert(capacity.last() == '%');
    assert forall|k: int| 0 <= k < n + 1 implies !is_capacity(#[trigger] words[k]) by {
        if k < n {
            assert(words[k] == before[k]);
        }
    }
    lemma_capacity_from(words, 0, n + 1);
    numbers_are_read_back(free, u64::MAX as nat);
}

/// The heading of `df` is never taken for an answer, and the first line below it
/// that has one gives it.
pub proof fn the_heading_is_skipped(heading: Seq<char>, line: Seq<char>)
    requires
        !heading.contains('\n'),
        heading.len() > 0 ==> heading.last() != '\r',
        !line.contains('\n'),
        line.len() > 0 ==> line.last() != '\r',
    ensures
        df_free_kb(heading + seq!['\n'] + line + seq!['\n']) == free_in_line(line),
        df_free_kb(heading + seq!['\n']) is None,
        df_free_kb(Seq::empty()) is None,
        df_free_kb(heading + seq!['\n'] + line + seq!['\n'] + heading + seq!['\n']) == (if free_in_line(line) is Some {
            free_in_line(line)
        } else {
            free_in_line(heading)
        }),
{
    let empty = Seq::<char>::empty();
    let s = heading + seq!['\n'];
    an_added_line_is_read_last(empty, heading);
    assert(empty + heading + seq!['\n'] =~= s);
    an_added_line_is_read_last(s, line);
    let all = lines_of(s + line + seq!['\n']);
    assert(all.len() == 2 && all[1] == line);
    assert(free_from(all, 2) is None);
    let below = s + line + seq!['\n'];
    an_added_line_is_read_last(below, heading);
    let three = lines_of(below + heading + seq!['\n']);
    assert(three.len() == 3 && three[1] == line && three[2] == heading);
    assert(free_from(three, 3) is None);
    assert(free_from(three, 2) == free_in_line(heading));
    assert(free_from(lines_of(s), 1) is None);
    assert(free_from(lines_of(empty), 1) is None);
}

/// Free bytes are told as they are up to the largest number that there is. A
/// gigabyte is needed to start, a quarter of one to go on, and the disk is looked
/// at every fifteen seconds.
pub proof fn limits_of_free_space(n: nat)
    ensures
        n <= u64::MAX ==> clamped(n) == n,
        n > u64::MAX ==> clamped(n) == u64::MAX,
        MIN_FREE_TO_START == 1024 * 1024 * 1024,
        4 * MIN_FREE_TO_CONTINUE == MIN_FREE_TO_START,
        DISK_POLL_SECS == 15,
{
}

/// A refusal names the folder, what is left and what is needed, in that order.
pub proof fn a_refusal_tells_what_is_missing(free: nat, needed: nat, dir: Seq<char>)
    ensures
        begins(
            too_full(free, needed, dir),
            "Not enough free space in "@ + dir + " \u{2014} "@ + human_text(free) + " left, "@ + human_text(needed)
                + " needed"@,
        ),
{
    reveal_strlit(" needed");
    reveal_strlit(" needed to start. Free some space or choose another folder.");
    let front = "Not enough free space in "@ + dir + " \u{2014} "@ + human_text(free) + " left, "@ + human_text(
        needed,
    ) + " needed"@;
    assert(too_full(free, needed, dir).take(front.len() as int) =~= front);
}

} // verus!
