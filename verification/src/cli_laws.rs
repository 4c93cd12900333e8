//! What holds of the command line: which argument sets what.

use crate::cli::{all_numbers, clamped_frames, default_opts, invocation_of, is_job, low_bits, number, parse_from, refusal, region_of, signed_low_bits, uint_at, Invocation, Job, Opts, OptsView, Verb};
use crate::numbers::{dec, is_digit, lemma_dec, parse_int};
use crate::pieces::{joined, split_at};
use crate::text::{is_white, trimmed};
use crate::text_laws::{all_white, nothing_else_is_a_number, numbers_are_read_back, splitting_undoes_joining, trimming_keeps_the_inside};
use vstd::prelude::*;
use vstd::string::*;

verus! {

// ---------------------------------------------------------------------------
// Regions

/// A number with blanks around it, and a minus sign in front of it or not.
pub open spec fn written(pad: Seq<char>, negative: bool, n: nat) -> Seq<char> {
    pad + (if negative {
        seq!['-'] + dec(n)
    } else {
        dec(n)
    }) + pad
}

proof fn lemma_written(pad: Seq<char>, negative: bool, n: nat)
    requires
        all_white(pad),
        n <= i64::MAX,
    ensures
        parse_int(trimmed(written(pad, negative, n))) == Some(if negative {
            -(n as int)
        } else {
            n as int
        }),
        !written(pad, negative, n).contains(','),
{
    let inner = if negative {
        seq!['-'] + dec(n)
    } else {
        dec(n)
    };
    lemma_dec(n);
    let d = dec(n);
    assert(is_digit(d[0]) && is_digit(d[d.len() - 1]));
    assert(inner.last() == d.last());
    trimming_keeps_the_inside(pad, inner, pad);
    numbers_are_read_back(n, i64::MAX as nat);
    let all = written(pad, negative, n);
    assert forall|k: int| 0 <= k < all.len() implies all[k] != ',' by {
        let m = pad.len() as int;
        if k < m {
            assert(is_white(pad[k]));
        } else if k < m + inner.len() {
            assert(all[k] == inner[k - m]);
            if negative && k > m {
                assert(inner[k - m] == d[k - m - 1]);
                assert(is_digit(d[k - m - 1]));
            } else if !negative {
                assert(is_digit(d[k - m]));
            }
        } else {
            assert(all[k] == pad[k - m - inner.len()]);
            assert(is_white(pad[k - m - inner.len()]));
        }
    }
}

/// Four numbers with commas between them, with blanks around them or not, are read
/// as x, y, width and height, in that order and each as it is written. Only what
/// cannot be encoded is changed: an odd side loses a pixel, a side of one gains
/// one, and a negative offset becomes zero.
pub proof fn a_region_is_read_as_it_is_written(
    pad: Seq<char>,
    left: bool,
    x: nat,
    above: bool,
    y: nat,
    w: nat,
    h: nat,
)
    requires
        all_white(pad),
        x < 0x8000_0000,
        y < 0x8000_0000,
        1 <= w < 0x1_0000_0000,
        1 <= h < 0x1_0000_0000,
    ensures
        ({
            let raw = joined(
                seq![
                    written(pad, left, x),
                    written(pad, above, y),
                    written(pad, false, w),
                    written(pad, false, h),
                ],
                seq![','],
            );
            &&& region_of(raw) is Ok
            &&& region_of(raw)->Ok_0.0 == (if left {
                0
            } else {
                x
            })
            &&& region_of(raw)->Ok_0.1 == (if above {
                0
            } else {
                y
            })
            &&& w % 2 == 0 ==> region_of(raw)->Ok_0.2 == w
            &&& h % 2 == 0 ==> region_of(raw)->Ok_0.3 == h
            &&& w % 2 == 1 && w > 1 ==> region_of(raw)->Ok_0.2 == w - 1
            &&& h % 2 == 1 && h > 1 ==> region_of(raw)->Ok_0.3 == h - 1
            &&& w == 1 ==> region_of(raw)->Ok_0.2 == 2
            &&& h == 1 ==> region_of(raw)->Ok_0.3 == 2
        }),
{
    let fields = seq![
        written(pad, left, x),
        written(pad, above, y),
        written(pad, false, w),
        written(pad, false, h),
    ];
    lemma_written(pad, left, x);
    lemma_written(pad, above, y);
    lemma_written(pad, false, w);
    lemma_written(pad, false, h);
    splitting_undoes_joining(fields, ',');
    assert forall|i: int| 0 <= i < fields.len() implies parse_int(trimmed(#[trigger] fields[i])) is Some by {
        assert(i == 0 || i == 1 || i == 2 || i == 3);
    }
    assert(all_numbers(fields));
    assert(number(fields, 2) == w && number(fields, 3) == h);
}

/// A region needs four numbers, no more and no less, and two positive sides.
pub proof fn a_region_that_is_not_one_is_refused(fields: Seq<Seq<char>>, i: int)
    requires
        fields.len() > 0,
        forall|k: int| 0 <= k < fields.len() ==> !(#[trigger] fields[k]).contains(','),
    ensures
        ({
            let raw = joined(fields, seq![',']);
            &&& 0 <= i < fields.len() && parse_int(trimmed(fields[i])) is None ==> region_of(raw) == Err::<
                (u32, u32, u32, u32),
                Seq<char>,
            >("--region wants numbers"@)
            &&& fields.len() != 4 ==> region_of(raw) is Err
            &&& fields.len() == 4 && (2 <= i <= 3) && parse_int(trimmed(fields[i])) is Some && parse_int(
                trimmed(fields[i]),
            )->0 <= 0 ==> region_of(raw) is Err
        }),
{
    splitting_undoes_joining(fields, ',');
}

// ---------------------------------------------------------------------------
// Options

proof fn lemma_parse_behind(front: Seq<Seq<char>>, rest: Seq<Seq<char>>, i: int, o: OptsView)
    requires
        0 <= i,
    ensures
        parse_from(front + rest, front.len() + i, o) == parse_from(rest, i, o),
    decreases rest.len() + 2 - i,
{
    let all = front + rest;
    let n = front.len() as int;
    if i < rest.len() {
        let word = rest[i];
        assert(all[n + i] == word);
        if i + 1 < rest.len() {
            assert(all[n + i + 1] == rest[i + 1]);
        }
        let number = uint_at(rest, i + 1, usize::MAX as nat);
        let short = uint_at(rest, i + 1, u32::MAX as nat);
        assert(uint_at(all, n + i + 1, usize::MAX as nat) == number);
        assert(uint_at(all, n + i + 1, u32::MAX as nat) == short);
        if word == "--display"@ {
            if number is Some {
                lemma_parse_behind(front, rest, i + 2, OptsView { display: number->0 as usize, ..o });
            }
        } else if word == "--region"@ {
            if i + 1 < rest.len() && region_of(rest[i + 1]) is Ok {
                lemma_parse_behind(
                    front,
                    rest,
                    i + 2,
                    OptsView { region: Some(region_of(rest[i + 1])->Ok_0), ..o },
                );
            }
        } else if word == "--step"@ {
            if short is Some {
                lemma_parse_behind(front, rest, i + 2, OptsView { step: short->0 as u32, ..o });
            }
        } else if word == "--max"@ {
            if number is Some {
                lemma_parse_behind(front, rest, i + 2, OptsView { max_frames: number->0 as usize, ..o });
            }
        } else if word == "--json"@ {
            lemma_parse_behind(front, rest, i + 1, OptsView { json: true, ..o });
        } else if !(word.len() > 0 && word[0] == '-') {
            lemma_parse_behind(front, rest, i + 1, OptsView { positional: o.positional.push(word), ..o });
        }
    }
}

proof fn lemma_flags_differ()
    ensures
        "--display"@ != "--region"@ && "--display"@ != "--step"@ && "--display"@ != "--max"@ && "--display"@
            != "--json"@,
        "--region"@ != "--step"@ && "--region"@ != "--max"@ && "--region"@ != "--json"@,
        "--step"@ != "--max"@ && "--step"@ != "--json"@ && "--max"@ != "--json"@,
        "--display"@[0] == '-' && "--region"@[0] == '-' && "--step"@[0] == '-' && "--max"@[0] == '-'
            && "--json"@[0] == '-',
        "--display"@.len() > 0 && "--region"@.len() > 0 && "--step"@.len() > 0 && "--max"@.len() > 0
            && "--json"@.len() > 0,
{
    reveal_strlit("--display");
    reveal_strlit("--region");
    reveal_strlit("--step");
    reveal_strlit("--max");
    reveal_strlit("--json");
    assert("--display"@.len() == 9 && "--region"@.len() == 8 && "--max"@.len() == 5);
    assert("--step"@.len() == 6 && "--json"@.len() == 6 && "--step"@[2] == 's' && "--json"@[2] == 'j');
}

/// An option with a number sets its own value to that number, leaves all others
/// alone, and is as good in front of other arguments as anywhere.
pub proof fn an_option_sets_its_value(n: nat, rest: Seq<Seq<char>>, o: OptsView)
    ensures
        n <= usize::MAX ==> parse_from(seq!["--display"@, dec(n)] + rest, 0, o) == parse_from(
            rest,
            0,
            (OptsView { display: n as usize, ..o }),
        ),
        n <= u32::MAX ==> parse_from(seq!["--step"@, dec(n)] + rest, 0, o) == parse_from(
            rest,
            0,
            (OptsView { step: n as u32, ..o }),
        ),
        n <= usize::MAX ==> parse_from(seq!["--max"@, dec(n)] + rest, 0, o) == parse_from(
            rest,
            0,
            (OptsView { max_frames: n as usize, ..o }),
        ),
        n > u32::MAX ==> parse_from(seq!["--step"@, dec(n)] + rest, 0, o) == Err::<OptsView, Seq<char>>(
            "--step needs a number"@,
        ),
{
    lemma_flags_differ();
    numbers_are_read_back(n, usize::MAX as nat);
    numbers_are_read_back(n, u32::MAX as nat);
    let d = seq!["--display"@, dec(n)];
    let s = seq!["--step"@, dec(n)];
    let m = seq!["--max"@, dec(n)];
    assert((d + rest)[0] == "--display"@ && (d + rest)[1] == dec(n));
    assert((s + rest)[0] == "--step"@ && (s + rest)[1] == dec(n));
    assert((m + rest)[0] == "--max"@ && (m + rest)[1] == dec(n));
    lemma_parse_behind(d, rest, 0, OptsView { display: n as usize, ..o });
    lemma_parse_behind(s, rest, 0, OptsView { step: n as u32, ..o });
    lemma_parse_behind(m, rest, 0, OptsView { max_frames: n as usize, ..o });
}

/// A region is set by its option, `--json` by its presence, and what is no option
/// is kept in order. Without arguments everything stays as it was.
pub proof fn other_arguments_are_taken_in(raw: Seq<char>, word: Seq<char>, rest: Seq<Seq<char>>, o: OptsView)
    ensures
        region_of(raw) is Ok ==> parse_from(seq!["--region"@, raw] + rest, 0, o) == parse_from(
            rest,
            0,
            (OptsView { region: Some(region_of(raw)->Ok_0), ..o }),
        ),
        region_of(raw) is Err ==> parse_from(seq!["--region"@, raw] + rest, 0, o) == Err::<OptsView, Seq<char>>(
            region_of(raw)->Err_0,
        ),
        parse_from(seq!["--json"@] + rest, 0, o) == parse_from(rest, 0, (OptsView { json: true, ..o })),
        word.len() == 0 || word[0] != '-' ==> parse_from(seq![word] + rest, 0, o) == parse_from(
            rest,
            0,
            (OptsView { positional: o.positional.push(word), ..o }),
        ),
        parse_from(Seq::empty(), 0, o) == Ok::<OptsView, Seq<char>>(o),
{
    lemma_flags_differ();
    let r = seq!["--region"@, raw];
    let j = seq!["--json"@];
    let p = seq![word];
    assert((r + rest)[0] == "--region"@ && (r + rest)[1] == raw);
    assert((j + rest)[0] == "--json"@);
    assert((p + rest)[0] == word);
    if region_of(raw) is Ok {
        lemma_parse_behind(r, rest, 0, OptsView { region: Some(region_of(raw)->Ok_0), ..o });
    }
    lemma_parse_behind(j, rest, 0, OptsView { json: true, ..o });
    lemma_parse_behind(p, rest, 0, OptsView { positional: o.positional.push(word), ..o });
}

/// An option that lacks its value, or has one that is no number, is refused in its
/// own words, and so is one that there is not.
pub proof fn bad_options_are_refused(word: Seq<char>, rest: Seq<Seq<char>>, o: OptsView, i: int)
    requires
        0 <= i < word.len(),
        !('0' <= word[i] <= '9'),
        i > 0 || word[i] != '+',
    ensures
        parse_from(seq!["--display"@, word] + rest, 0, o) == Err::<OptsView, Seq<char>>(
            "--display needs a number"@,
        ),
        parse_from(seq!["--step"@, word] + rest, 0, o) == Err::<OptsView, Seq<char>>(
            "--step needs a number"@,
        ),
        parse_from(seq!["--max"@, word] + rest, 0, o) == Err::<OptsView, Seq<char>>(
            "--max needs a number"@,
        ),
        parse_from(seq!["--display"@], 0, o) == Err::<OptsView, Seq<char>>("--display needs a number"@),
        parse_from(seq!["--step"@], 0, o) == Err::<OptsView, Seq<char>>("--step needs a number"@),
        parse_from(seq!["--max"@], 0, o) == Err::<OptsView, Seq<char>>("--max needs a number"@),
        parse_from(seq!["--region"@], 0, o) == Err::<OptsView, Seq<char>>("--region needs X,Y,W,H"@),
        word[0] == '-' && word != "--display"@ && word != "--region"@ && word != "--step"@ && word != "--max"@
            && word != "--json"@ ==> parse_from(seq![word] + rest, 0, o) == Err::<OptsView, Seq<char>>(
            "unknown flag `"@ + word + "`"@,
        ),
{
    lemma_flags_differ();
    nothing_else_is_a_number(word, usize::MAX as nat, i);
    nothing_else_is_a_number(word, u32::MAX as nat, i);
    let d = seq!["--display"@, word] + rest;
    let s = seq!["--step"@, word] + rest;
    let m = seq!["--max"@, word] + rest;
    assert(d[0] == "--display"@ && d[1] == word);
    assert(s[0] == "--step"@ && s[1] == word);
    assert(m[0] == "--max"@ && m[1] == word);
    assert((seq![word] + rest)[0] == word);
}

/// Without options: the first display, no step, forty frames, no region, plain
/// text.
pub proof fn options_have_their_defaults()
    ensures
        ({
            let o = default_opts();
            &&& o.display == 0 && o.step == 0 && o.max_frames == 40
            &&& o.region is None && !o.json && o.positional.len() == 0
        }),
{
}

// ---------------------------------------------------------------------------
// Verbs

/// The first argument alone decides what runs: each verb by its name, help by one
/// of three, and the window otherwise.
pub proof fn the_first_argument_decides(args: Seq<Seq<char>>, rest: Seq<Seq<char>>)
    ensures
        invocation_of(seq!["shot"@] + rest) == Invocation::Run(Verb::Shot),
        invocation_of(seq!["scroll"@] + rest) == Invocation::Run(Verb::Scroll),
        invocation_of(seq!["ocr"@] + rest) == Invocation::Run(Verb::Ocr),
        invocation_of(seq!["--help"@] + rest) == Invocation::Help,
        invocation_of(seq!["-h"@] + rest) == Invocation::Help,
        invocation_of(seq!["help"@] + rest) == Invocation::Help,
        invocation_of(Seq::empty()) == Invocation::Window,
        args.len() > 0 && args[0] != "shot"@ && args[0] != "scroll"@ && args[0] != "ocr"@ && args[0] != "--help"@
            && args[0] != "-h"@ && args[0] != "help"@ ==> invocation_of(args) == Invocation::Window,
{
    reveal_strlit("shot");
    reveal_strlit("scroll");
    reveal_strlit("ocr");
    reveal_strlit("--help");
    reveal_strlit("-h");
    reveal_strlit("help");
    assert("shot"@.len() == 4 && "shot"@[0] == 's' && "scroll"@.len() == 6 && "scroll"@[0] == 's');
    assert("ocr"@.len() == 3 && "--help"@.len() == 6 && "--help"@[0] == '-' && "-h"@.len() == 2);
    assert("help"@.len() == 4 && "help"@[0] == 'h');
    assert((seq!["shot"@] + rest)[0] == "shot"@);
    assert((seq!["scroll"@] + rest)[0] == "scroll"@);
    assert((seq!["ocr"@] + rest)[0] == "ocr"@);
    assert((seq!["--help"@] + rest)[0] == "--help"@);
    assert((seq!["-h"@] + rest)[0] == "-h"@);
    assert((seq!["help"@] + rest)[0] == "help"@);
}

/// A verb does what its options say: it writes to the first name that was given,
/// and a scroll capture takes its display, region, step and, from 2 to 200, its
/// number of frames from them.
pub proof fn a_job_follows_its_options(verb: Verb, o: OptsView, job: Job)
    requires
        refusal(verb, o) is None,
        is_job(verb, o, job),
    ensures
        match job {
            Job::Shot(opts, out) => verb == Verb::Shot && o.positional.len() > 0 && out@ == o.positional[0] && opts@
                == o,
            Job::Scroll(opts, out) => {
                &&& verb == Verb::Scroll
                &&& o.positional.len() > 0 && out@ == o.positional[0]
                &&& o.region == Some(opts.region)
                &&& opts.display == o.display
                &&& opts.step == o.step
                &&& opts.settle_ms == 550
                &&& 2 <= opts.max_frames <= 200
                &&& 2 <= o.max_frames <= 200 ==> opts.max_frames == o.max_frames
                &&& o.max_frames > 200 ==> opts.max_frames == 200
            },
            Job::Ocr(opts, image) => {
                &&& verb == Verb::Ocr
                &&& opts@ == o
                &&& image is Some <==> o.positional.len() > 0
                &&& image matches Some(p) ==> p@ == o.positional[0]
            },
        },
{
}

/// A verb is refused only for what it lacks: a name to write to, or, for a scroll
/// capture, a region.
pub proof fn a_verb_is_refused_for_what_it_lacks(o: OptsView, n: usize)
    ensures
        refusal(Verb::Shot, o) is Some <==> o.positional.len() == 0,
        refusal(Verb::Scroll, o) is Some <==> o.positional.len() == 0 || o.region is None,
        refusal(Verb::Ocr, o) is None,
        o.positional.len() > 0 && o.region is None ==> refusal(Verb::Scroll, o) == Some(
            "scroll needs --region X,Y,W,H"@,
        ),
        2 <= n <= 200 ==> clamped_frames(n) == n,
        n < 2 ==> clamped_frames(n) == 2,
        n > 200 ==> clamped_frames(n) == 200,
{
}

/// A number that does not fit 32 bits is cut to them, as a sign or as a size.
pub proof fn numbers_are_cut_to_their_low_bits(n: int, k: int)
    requires
        0 <= n < 0x1_0000_0000,
    ensures
        low_bits(n + k * 0x1_0000_0000) == n,
        n < 0x8000_0000 ==> signed_low_bits(n + k * 0x1_0000_0000) == n,
        n >= 0x8000_0000 ==> signed_low_bits(n + k * 0x1_0000_0000) == n - 0x1_0000_0000,
{
    assert((n + k * 0x1_0000_0000) % 0x1_0000_0000 == n);
}

/// What the contracts speak of is all that the options hold.
pub proof fn options_are_seen_whole(o: Opts, i: int)
    ensures
        o@.display == o.display && o@.step == o.step && o@.max_frames == o.max_frames,
        o@.region == o.region && o@.json == o.json && o@.positional.len() == o.positional@.len(),
        0 <= i < o.positional@.len() ==> o@.positional[i] == o.positional@[i]@,
{
}

} // verus!
