//! Headless command line.
//!
//! Capture and text grab are useful to anything that can run a process. The
//! arguments are looked at before any window is made.

use crate::capture::{evened, not_negative, sanitize_region};
use crate::numbers::{dec, dec_string, parse_int, parse_uint, read_int, read_uint};
use crate::pieces::{split, split_at};
use crate::scroll::ScrollOptions;
use crate::text::{same, strs, to_chars, trim, trimmed, views};
use vstd::prelude::*;
use vstd::string::*;

verus! {

pub const USAGE: &'static str = "\
recap \u{2014} screen capture, annotation and text grab

  recap shot [--display N] [--region X,Y,W,H] <out.png>
        Save a screenshot. Region is in physical pixels, relative to the display.

  recap scroll --region X,Y,W,H [--step N] [--max N] <out.png>
        Scroll-capture a region: grab, scroll, repeat, stitch into one tall
        image. Put the pointer over the scrollable area first.

  recap ocr [--display N] [--region X,Y,W,H] [--json] [image.png]
        Read text off the screen, or out of an image if one is given.
        Prints plain text; --json adds per-line boxes and confidence.

  recap --help

With no arguments, the normal windowed app starts.
";

#[derive(Clone, Copy, Debug, PartialEq, Eq, Structural)]
pub enum Verb {
    Shot,
    Scroll,
    Ocr,
}

#[derive(Clone, Copy, Debug, PartialEq, Eq, Structural)]
pub enum Invocation {
    /// A headless run.
    Run(Verb),
    /// Print [`USAGE`].
    Help,
    /// Start the window. Anything unknown belongs there, including no arguments
    /// at all.
    Window,
}

pub open spec fn invocation_of(args: Seq<Seq<char>>) -> Invocation {
    if args.len() == 0 {
        Invocation::Window
    } else if args[0] == "shot"@ {
        Invocation::Run(Verb::Shot)
    } else if args[0] == "ocr"@ {
        Invocation::Run(Verb::Ocr)
    } else if args[0] == "scroll"@ {
        Invocation::Run(Verb::Scroll)
    } else if args[0] == "--help"@ || args[0] == "-h"@ || args[0] == "help"@ {
        Invocation::Help
    } else {
        Invocation::Window
    }
}

/// What the arguments, without the program's name, ask for.
pub fn maybe_run(args: &Vec<String>) -> (r: Invocation)
    ensures
        r == invocation_of(strs(args@)),
{
    if args.len() == 0 {
        return Invocation::Window;
    }
    assert(strs(args@)[0] == args@[0]@);
    let first: &str = args[0].as_str();
    if same(first, "shot") {
        Invocation::Run(Verb::Shot)
    } else if same(first, "ocr") {
        Invocation::Run(Verb::Ocr)
    } else if same(first, "scroll") {
        Invocation::Run(Verb::Scroll)
    } else if same(first, "--help") || same(first, "-h") || same(first, "help") {
        Invocation::Help
    } else {
        Invocation::Window
    }
}

// ---------------------------------------------------------------------------
// Options

pub struct Opts {
    pub display: usize,
    pub step: u32,
    pub max_frames: usize,
    pub region: Option<(u32, u32, u32, u32)>,
    pub json: bool,
    pub positional: Vec<String>,
}

#[verifier::ext_equal]
pub struct OptsView {
    pub display: usize,
    pub step: u32,
    pub max_frames: usize,
    pub region: Option<(u32, u32, u32, u32)>,
    pub json: bool,
    pub positional: Seq<Seq<char>>,
}

impl View for Opts {
    type V = OptsView;

    open spec fn view(&self) -> OptsView {
        OptsView {
            display: self.display,
            step: self.step,
            max_frames: self.max_frames,
            region: self.region,
            json: self.json,
            positional: strs(self.positional@),
        }
    }
}

pub open spec fn default_opts() -> OptsView {
    OptsView {
        display: 0,
        step: 0,
        max_frames: 40,
        region: None,
        json: false,
        positional: Seq::empty(),
    }
}

/// The low 32 bits of a number.
pub open spec fn low_bits(n: int) -> int {
    n % 0x1_0000_0000
}

/// The low 32 bits of a number, read as a signed one.
pub open spec fn signed_low_bits(n: int) -> int {
    if low_bits(n) < 0x8000_0000 {
        low_bits(n)
    } else {
        low_bits(n) - 0x1_0000_0000
    }
}

/// Every field between commas is a number.
pub open spec fn all_numbers(fields: Seq<Seq<char>>) -> bool {
    forall|i: int| 0 <= i < fields.len() ==> parse_int(trimmed(#[trigger] fields[i])) is Some
}

pub open spec fn number(fields: Seq<Seq<char>>, i: int) -> int {
    parse_int(trimmed(fields[i]))->0
}

/// A region as it is written, `X,Y,W,H`.
pub open spec fn region_of(raw: Seq<char>) -> Result<(u32, u32, u32, u32), Seq<char>> {
    let fields = split_at(raw, ',');
    if !all_numbers(fields) {
        Err("--region wants numbers"@)
    } else if fields.len() != 4 {
        Err("--region wants exactly X,Y,W,H"@)
    } else if number(fields, 2) <= 0 || number(fields, 3) <= 0 {
        Err("--region width and height must be positive"@)
    } else {
        Ok(
            (
                not_negative(signed_low_bits(number(fields, 0))) as u32,
                not_negative(signed_low_bits(number(fields, 1))) as u32,
                evened(low_bits(number(fields, 2))) as u32,
                evened(low_bits(number(fields, 3))) as u32,
            ),
        )
    }
}

/// A region that is accepted has even sides of at least two pixels.
pub proof fn an_accepted_region_can_be_encoded(raw: Seq<char>)
    requires
        region_of(raw) is Ok,
    ensures
        ({
            let region = region_of(raw)->Ok_0;
            &&& region.2 % 2 == 0 && region.2 >= 2
            &&& region.3 % 2 == 0 && region.3 >= 2
        }),
{
}

/// What the arguments from `i` on make of the options `o`.
pub open spec fn parse_from(args: Seq<Seq<char>>, i: int, o: OptsView) -> Result<OptsView, Seq<char>>
    decreases args.len() - i,
{
    if i < 0 || i >= args.len() {
        Ok(o)
    } else if args[i] == "--display"@ {
        match uint_at(args, i + 1, usize::MAX as nat) {
            Some(n) => parse_from(args, i + 2, OptsView { display: n as usize, ..o }),
            None => Err("--display needs a number"@),
        }
    } else if args[i] == "--region"@ {
        if i + 1 >= args.len() {
            Err("--region needs X,Y,W,H"@)
        } else {
            match region_of(args[i + 1]) {
                Ok(region) => parse_from(args, i + 2, OptsView { region: Some(region), ..o }),
                Err(e) => Err(e),
            }
        }
    } else if args[i] == "--step"@ {
        match uint_at(args, i + 1, u32::MAX as nat) {
            Some(n) => parse_from(args, i + 2, OptsView { step: n as u32, ..o }),
            None => Err("--step needs a number"@),
        }
    } else if args[i] == "--max"@ {
        match uint_at(args, i + 1, usize::MAX as nat) {
            Some(n) => parse_from(args, i + 2, OptsView { max_frames: n as usize, ..o }),
            None => Err("--max needs a number"@),
        }
    } else if args[i] == "--json"@ {
        parse_from(args, i + 1, OptsView { json: true, ..o })
    } else if args[i].len() > 0 && args[i][0] == '-' {
        Err("unknown flag `"@ + args[i] + "`"@)
    } else {
        parse_from(args, i + 1, OptsView { positional: o.positional.push(args[i]), ..o })
    }
}

/// The argument at `i` as a number up to `max`, if there is one.
pub open spec fn uint_at(args: Seq<Seq<char>>, i: int, max: nat) -> Option<nat> {
    if i < args.len() {
        parse_uint(args[i], max)
    } else {
        None
    }
}

fn read_uint_at(args: &Vec<String>, i: usize, max: u64) -> (r: Option<u64>)
    ensures
        r matches Some(n) ==> uint_at(strs(args@), i as int, max as nat) == Some(n as nat) && n <= max
            && i < args@.len(),
        r is None ==> uint_at(strs(args@), i as int, max as nat) is None,
{
    if i >= args.len() {
        return None;
    }
    assert(strs(args@)[i as int] == args@[i as int]@);
    read_uint(to_chars(args[i].as_str()).as_slice(), max)
}

fn low_u32(n: i64) -> (r: u32)
    ensures
        r == low_bits(n as int),
{
    let shifted: i128 = n as i128 + 0x1_0000_0000_0000_0000;
    (shifted as u128 % 0x1_0000_0000) as u32
}

fn low_i32(n: i64) -> (r: i32)
    ensures
        r == signed_low_bits(n as int),
{
    let low: u32 = low_u32(n);
    if low < 0x8000_0000 {
        low as i32
    } else {
        (low as i64 - 0x1_0000_0000) as i32
    }
}

fn read_region(raw: &str) -> (r: Result<(u32, u32, u32, u32), String>)
    ensures
        match r {
            Ok(region) => region_of(raw@) == Ok::<_, Seq<char>>(region),
            Err(e) => region_of(raw@) == Err::<(u32, u32, u32, u32), _>(e@),
        },
{
    let pieces = split(to_chars(raw).as_slice(), ',');
    let ghost fields = split_at(raw@, ',');
    let mut n: Vec<i64> = Vec::new();
    let mut i: usize = 0;
    while i < pieces.len()
        invariant
            i <= pieces@.len(),
            fields == views(pieces@),
            fields == split_at(raw@, ','),
            n@.len() == i,
            forall|k: int|
                0 <= k < i ==> parse_int(trimmed(#[trigger] fields[k])) == Some(n@[k] as int),
        decreases pieces@.len() - i,
    {
        assert(fields[i as int] == pieces@[i as int]@);
        match read_int(trim(pieces[i].as_slice())) {
            Some(v) => n.push(v),
            None => {
                assert(!all_numbers(fields));
                return Err("--region wants numbers".to_owned());
            },
        }
        i = i + 1;
    }
    assert(all_numbers(fields));
    if n.len() != 4 {
        return Err("--region wants exactly X,Y,W,H".to_owned());
    }
    assert(forall|k: int| 0 <= k < 4 ==> #[trigger] n@[k] == number(fields, k));
    let (x, y, w, h): (i64, i64, i64, i64) = (n[0], n[1], n[2], n[3]);
    if w <= 0 || h <= 0 {
        return Err("--region width and height must be positive".to_owned());
    }
    Ok(sanitize_region(low_i32(x), low_i32(y), low_u32(w), low_u32(h)))
}

fn starts_with_dash(s: &str) -> (r: bool)
    ensures
        r == (s@.len() > 0 && s@[0] == '-'),
{
    let chars = to_chars(s);
    chars.len() > 0 && chars[0] == '-'
}

/// Reads the options of a headless run.
pub fn parse(args: &Vec<String>) -> (r: Result<Opts, String>)
    ensures
        match r {
            Ok(o) => parse_from(strs(args@), 0, default_opts()) == Ok::<_, Seq<char>>(o@),
            Err(e) => parse_from(strs(args@), 0, default_opts()) == Err::<OptsView, _>(e@),
        },
{
    let ghost all = strs(args@);
    let mut o = Opts {
        display: 0,
        step: 0,
        max_frames: 40,
        region: None,
        json: false,
        positional: Vec::new(),
    };
    assert(o@ =~= default_opts());
    let mut i: usize = 0;
    while i < args.len()
        invariant
            i <= args@.len(),
            all == strs(args@),
            parse_from(all, 0, default_opts()) == parse_from(all, i as int, o@),
        decreases args@.len() - i,
    {
        assert(all[i as int] == args@[i as int]@);
        let a: &str = args[i].as_str();
        let ghost before = o@;
        if same(a, "--display") {
            match read_uint_at(args, i + 1, usize::MAX as u64) {
                Some(n) => {
                    o.display = n as usize;
                    assert(o@ =~= (OptsView { display: n as usize, ..before }));
                },
                None => {
                    return Err("--display needs a number".to_owned());
                },
            }
            i = i + 2;
        } else if same(a, "--region") {
            if i + 1 >= args.len() {
                return Err("--region needs X,Y,W,H".to_owned());
            }
            assert(all[i + 1] == args@[i + 1]@);
            match read_region(args[i + 1].as_str()) {
                Ok(region) => {
                    o.region = Some(region);
                    assert(o@ =~= (OptsView { region: Some(region), ..before }));
                },
                Err(e) => {
                    return Err(e);
                },
            }
            i = i + 2;
        } else if same(a, "--step") {
            match read_uint_at(args, i + 1, u32::MAX as u64) {
                Some(n) => {
                    o.step = n as u32;
                    assert(o@ =~= (OptsView { step: n as u32, ..before }));
                },
                None => {
                    return Err("--step needs a number".to_owned());
                },
            }
            i = i + 2;
        } else if same(a, "--max") {
            match read_uint_at(args, i + 1, usize::MAX as u64) {
                Some(n) => {
                    o.max_frames = n as usize;
                    assert(o@ =~= (OptsView { max_frames: n as usize, ..before }));
                },
                None => {
                    return Err("--max needs a number".to_owned());
                },
            }
            i = i + 2;
        } else if same(a, "--json") {
            o.json = true;
            assert(o@ =~= (OptsView { json: true, ..before }));
            i = i + 1;
        } else if starts_with_dash(a) {
            let mut e: String = "unknown flag `".to_owned();
            e.append(a);
            e.append("`");
            return Err(e);
        } else {
            o.positional.push(a.to_owned());
            assert(o@ =~= (OptsView { positional: before.positional.push(a@), ..before }));
            i = i + 1;
        }
    }
    Ok(o)
}

// ---------------------------------------------------------------------------
// Runs

/// What a headless run is to do.
pub enum Job {
    /// Save a screenshot to a file.
    Shot(Opts, String),
    /// Scroll-capture to a file.
    Scroll(ScrollOptions, String),
    /// Read text out of a picture, or off the screen where none is given.
    Ocr(Opts, Option<String>),
}

pub open spec fn clamped_frames(n: usize) -> usize {
    if n < 2 {
        2
    } else if n > 200 {
        200
    } else {
        n
    }
}

/// The error of a run whose options are in order, if there is one.
pub open spec fn refusal(verb: Verb, o: OptsView) -> Option<Seq<char>> {
    match verb {
        Verb::Shot => if o.positional.len() == 0 {
            Some("shot needs an output path\n\n"@ + USAGE@)
        } else {
            None
        },
        Verb::Scroll => if o.positional.len() == 0 {
            Some("scroll needs an output path\n\n"@ + USAGE@)
        } else if o.region is None {
            Some("scroll needs --region X,Y,W,H"@)
        } else {
            None
        },
        Verb::Ocr => None,
    }
}

/// `job` is what `verb` does with the options `o`.
pub open spec fn is_job(verb: Verb, o: OptsView, job: Job) -> bool {
    match verb {
        Verb::Shot => job matches Job::Shot(opts, out) && opts@ == o && out@ == o.positional[0],
        Verb::Scroll => job matches Job::Scroll(opts, out) && out@ == o.positional[0] && opts == (
        ScrollOptions {
            display: o.display,
            region: o.region->0,
            step: o.step,
            max_frames: clamped_frames(o.max_frames),
            settle_ms: 550,
        }),
        Verb::Ocr => job matches Job::Ocr(opts, image) && opts@ == o && match image {
            Some(p) => o.positional.len() > 0 && p@ == o.positional[0],
            None => o.positional.len() == 0,
        },
    }
}

/// Plans a headless run: reads the options, which follow the verb, and checks
/// that what the verb needs is there.
pub fn run(verb: Verb, args: &Vec<String>) -> (r: Result<Job, String>)
    ensures
        match parse_from(strs(args@), 0, default_opts()) {
            Err(e) => r is Err && r->Err_0@ == e,
            Ok(o) => match refusal(verb, o) {
                Some(e) => r is Err && r->Err_0@ == e,
                None => r is Ok && is_job(verb, o, r->Ok_0),
            },
        },
{
    let o: Opts = match parse(args) {
        Ok(o) => o,
        Err(e) => {
            return Err(e);
        },
    };
    let ghost view = o@;
    let first: Option<String> = if o.positional.len() > 0 {
        assert(strs(o.positional@)[0] == o.positional@[0]@);
        Some(o.positional[0].clone())
    } else {
        None
    };
    match verb {
        Verb::Shot => match first {
            Some(out) => Ok(Job::Shot(o, out)),
            None => {
                let mut e: String = "shot needs an output path\n\n".to_owned();
                e.append(USAGE);
                Err(e)
            },
        },
        Verb::Scroll => match first {
            Some(out) => match o.region {
                Some(region) => {
                    let max_frames: usize = if o.max_frames < 2 {
                        2
                    } else if o.max_frames > 200 {
                        200
                    } else {
                        o.max_frames
                    };
                    let d = ScrollOptions::default();
                    Ok(
                        Job::Scroll(
                            ScrollOptions {
                                display: o.display,
                                region,
                                step: o.step,
                                max_frames,
                                settle_ms: d.settle_ms,
                            },
                            out,
                        ),
                    )
                },
                None => Err("scroll needs --region X,Y,W,H".to_owned()),
            },
            None => {
                let mut e: String = "scroll needs an output path\n\n".to_owned();
                e.append(USAGE);
                Err(e)
            },
        },
        Verb::Ocr => Ok(Job::Ocr(o, first)),
    }
}

/// What a screenshot prints: the path of its file.
pub fn shot_output(path: &str) -> (r: String)
    ensures
        r@ == path@ + "\n"@,
{
    let mut r: String = path.to_owned();
    r.append("\n");
    r
}

/// How a scroll capture ended, where that is worth saying: it stopped while the
/// page still moved.
pub fn scroll_note(reached_end: bool) -> (r: &'static str)
    ensures
        r@ == if reached_end {
            ""@
        } else {
            " (stopped before the end of the page)"@
        },
{
    if reached_end {
        ""
    } else {
        " (stopped before the end of the page)"
    }
}

/// What a scroll capture prints. `note` says how it ended, where that is worth
/// saying.
pub fn scroll_output(path: &str, frames: usize, width: u32, height: u32, note: &str) -> (r: String)
    ensures
        r@ == path@ + "\n"@ + dec(frames as nat) + " frames, "@ + dec(width as nat) + "x"@ + dec(
            height as nat,
        ) + note@ + "\n"@,
{
    let mut r: String = path.to_owned();
    r.append("\n");
    r.append(dec_string(frames as u64).as_str());
    r.append(" frames, ");
    r.append(dec_string(width as u64).as_str());
    r.append("x");
    r.append(dec_string(height as u64).as_str());
    r.append(note);
    r.append("\n");
    r
}

/// What a text grab prints without `--json`: the text and a line feed, or
/// nothing.
pub fn ocr_output(text: &str) -> (r: String)
    ensures
        r@ == if text@.len() == 0 {
            ""@
        } else {
            text@ + "\n"@
        },
{
    if text.is_empty() {
        return "".to_owned();
    }
    let mut r: String = text.to_owned();
    r.append("\n");
    r
}

} // verus!
