//! Still capture.
//!
//! Always grabs the whole display, then crops. Every platform can capture a full
//! display trivially, but region syntax differs wildly, and some of it works in
//! points instead of physical pixels. Cropping afterwards keeps a single
//! coordinate space shared with the recorder.

use crate::capture::{crop_filter, crop_filter_string, evened, not_negative, sanitize_region, Backend, CaptureBackend, ProgramCall};
use crate::capture::macos::MacOs;
use crate::capture::windows::Windows;
use crate::clock::{capture_stamp, dashed_stamp};
use crate::pieces::{joined, last_lines, last_reversed, lines_of, push_all};
use crate::numbers::dec;
use crate::recorder::{Recorder, Region};
use crate::text::{begins, strs};
use crate::text_laws::{an_added_line_is_read_last, the_newest_comes_first};
use vstd::prelude::*;
use vstd::string::*;

verus! {

/// A still with fewer bytes than this never contains a picture: it is a truncated
/// or empty file from a capture that the system refused.
pub const MIN_PLAUSIBLE_PNG: u64 = 512;

/// How long a still may take, in seconds. A blocked screen capture can hang
/// rather than fail.
pub const STILL_TIMEOUT_SECS: u64 = 10;

/// How long to wait before looking at the program again, in milliseconds.
pub const STILL_POLL_MS: u64 = 50;

/// What to do about a program that captures a still.
#[derive(Clone, Copy, Debug, PartialEq, Eq, Structural)]
pub enum StillStep {
    /// It has ended: see how.
    Ended,
    /// Look again in [`STILL_POLL_MS`] milliseconds.
    Wait,
    /// It had its time: kill it.
    TimedOut,
}

/// What to do about a program that has captured for `elapsed_ms` milliseconds,
/// by whether it has ended. One that ended late is not timed out.
pub fn still_step(ended: bool, elapsed_ms: u64) -> (r: StillStep)
    ensures
        r == if ended {
            StillStep::Ended
        } else if elapsed_ms < STILL_TIMEOUT_SECS * 1000 {
            StillStep::Wait
        } else {
            StillStep::TimedOut
        },
{
    if ended {
        StillStep::Ended
    } else if elapsed_ms < STILL_TIMEOUT_SECS * 1000 {
        StillStep::Wait
    } else {
        StillStep::TimedOut
    }
}

/// What a still is to show, and where it goes.
pub struct StillPlan {
    pub output_dir: String,
    pub region: Option<Region>,
    pub display_index: usize,
}

/// Plans a still from the recorder's configuration. A region belongs to the
/// display it was drawn on.
pub fn plan_still(r: &Recorder) -> (res: Result<StillPlan, String>)
    ensures
        match res {
            Ok(plan) => {
                &&& r@.config.output_dir.len() > 0
                &&& plan.output_dir@ == r@.config.output_dir
                &&& plan.region == r@.target_region()
                &&& plan.display_index == r@.target_monitor()
            },
            Err(e) => r@.config.output_dir.len() == 0 && e@ == "Choose an output folder first."@,
        },
{
    if r.config.output_dir.as_str().is_empty() {
        return Err("Choose an output folder first.".to_owned());
    }
    Ok(
        StillPlan {
            output_dir: r.config.output_dir.clone(),
            region: r.region_to_capture(),
            display_index: r.monitor_to_capture(),
        },
    )
}

/// File name of a finished still.
pub open spec fn still_file(stamp: Seq<char>) -> Seq<char> {
    "Recap_"@ + stamp + ".png"@
}

/// File name of the grab that a still is cropped from.
pub open spec fn raw_file(stamp: Seq<char>) -> Seq<char> {
    ".recap-raw-"@ + stamp + ".png"@
}

/// The names of a still: of the finished file, and of what is grabbed. Cropping
/// needs somewhere to put the uncropped grab first.
pub fn still_names(stamp: &str, cropped: bool) -> (r: (String, String))
    ensures
        r.0@ == still_file(stamp@),
        r.1@ == if cropped {
            raw_file(stamp@)
        } else {
            still_file(stamp@)
        },
{
    let mut name: String = "Recap_".to_owned();
    name.append(stamp);
    name.append(".png");
    if cropped {
        let mut raw: String = ".recap-raw-".to_owned();
        raw.append(stamp);
        raw.append(".png");
        (name, raw)
    } else {
        let raw: String = name.clone();
        (name, raw)
    }
}

/// The names of a still taken now.
pub fn new_still_names(cropped: bool) -> (r: (String, String))
    ensures
        exists|stamp: Seq<char>|
            dashed_stamp(stamp) && r.0@ == #[trigger] still_file(stamp) && r.1@ == if cropped {
                raw_file(stamp)
            } else {
                still_file(stamp)
            },
{
    let stamp: String = capture_stamp();
    still_names(stamp.as_str(), cropped)
}

/// A path, or nothing.
pub open spec fn path_or_empty(path: Option<&str>) -> Seq<char> {
    match path {
        Some(p) => p@,
        None => ""@,
    }
}

/// The program that grabs display `display_index` into the file `out`. ffmpeg is
/// not needed for that on every platform; where it is and is missing, the hint
/// says so.
pub fn still_call(backend: &Backend, ff: Option<&str>, display_index: usize, out: &str) -> (r: Result<
    ProgramCall,
    String,
>)
    requires
        display_index < usize::MAX,
    ensures
        match r {
            Ok(call) => {
                &&& backend.still_program(path_or_empty(ff)).len() > 0
                &&& call.program@ == backend.still_program(path_or_empty(ff))
                &&& strs(call.args@) == backend.still_args(display_index as nat, out@)
            },
            Err(e) => backend.still_program(path_or_empty(ff)).len() == 0 && e@
                == backend.ffmpeg_hint_text(),
        },
{
    let ff: &str = match ff {
        Some(p) => p,
        None => "",
    };
    let call: ProgramCall = backend.still_command(ff, display_index, out);
    if call.program.as_str().is_empty() {
        return Err(backend.ffmpeg_hint().to_owned());
    }
    Ok(call)
}

/// Whether a grab produced a picture: `bytes` is the size of its file, if there
/// is one.
pub fn check_still(backend: &Backend, bytes: Option<u64>) -> (r: Result<(), String>)
    ensures
        match r {
            Ok(()) => bytes is Some && bytes->0 >= MIN_PLAUSIBLE_PNG,
            Err(e) => (bytes is None || bytes->0 < MIN_PLAUSIBLE_PNG) && e@ == backend.stall_hint_text(),
        },
{
    let enough: bool = match bytes {
        Some(n) => n >= MIN_PLAUSIBLE_PNG,
        None => false,
    };
    if enough {
        Ok(())
    } else {
        Err(backend.stall_hint().to_owned())
    }
}

/// A 32-bit number, read as a signed one.
pub open spec fn signed(n: u32) -> int {
    if n < 0x8000_0000 {
        n as int
    } else {
        n - 0x1_0000_0000
    }
}

fn as_signed(n: u32) -> (r: i32)
    ensures
        r == signed(n),
{
    if n < 0x8000_0000 {
        n as i32
    } else {
        (n as i64 - 0x1_0000_0000) as i32
    }
}

/// The rectangle that is cropped for a region, in monitor-relative physical
/// pixels: x, y, width, height.
pub fn crop_rect(region: &Region) -> (r: (u32, u32, u32, u32))
    ensures
        r.0 == not_negative(signed(region.x)),
        r.1 == not_negative(signed(region.y)),
        r.2 == evened(region.width as int),
        r.3 == evened(region.height as int),
{
    sanitize_region(as_signed(region.x), as_signed(region.y), region.width, region.height)
}

pub open spec fn crop_args(src: Seq<char>, rect: (u32, u32, u32, u32), out: Seq<char>) -> Seq<Seq<char>> {
    seq![
        "-hide_banner"@,
        "-loglevel"@,
        "error"@,
        "-y"@,
        "-i"@,
        src,
        "-vf"@,
        crop_filter(rect.2, rect.3, rect.0, rect.1),
        out,
    ]
}

/// The program that crops the picture `src` to a rectangle: ffmpeg, which this
/// cannot do without.
pub fn crop(backend: &Backend, ff: Option<&str>, src: &str, rect: (u32, u32, u32, u32), out: &str) -> (r:
    Result<ProgramCall, String>)
    ensures
        match r {
            Ok(call) => ff is Some && call.program@ == ff->0@ && strs(call.args@) == crop_args(
                src@,
                rect,
                out@,
            ),
            Err(e) => ff is None && e@ == backend.ffmpeg_hint_text(),
        },
{
    match ff {
        Some(program) => {
            let filter: String = crop_filter_string(rect.2, rect.3, rect.0, rect.1);
            let mut args: Vec<String> = Vec::new();
            push_all(
                &mut args,
                &["-hide_banner", "-loglevel", "error", "-y", "-i", src, "-vf", filter.as_str(), out],
            );
            assert(strs(args@) =~= crop_args(src@, rect, out@));
            Ok(ProgramCall { program: program.to_owned(), args })
        },
        None => Err(backend.ffmpeg_hint().to_owned()),
    }
}

/// What follows a grab: `bytes` is the size of the file `raw` that it made, if
/// there is one. A picture of the whole display is done; for a region, it is
/// cropped into the file `out`.
pub fn after_grab(
    backend: &Backend,
    ff: Option<&str>,
    bytes: Option<u64>,
    rect: Option<(u32, u32, u32, u32)>,
    raw: &str,
    out: &str,
) -> (r: Result<Option<ProgramCall>, String>)
    ensures
        if bytes is None || bytes->0 < MIN_PLAUSIBLE_PNG {
            r is Err && r->Err_0@ == backend.stall_hint_text()
        } else {
            match rect {
                Some(rect) => match ff {
                    Some(program) => r matches Ok(Some(call)) && call.program@ == program@ && strs(
                        call.args@,
                    ) == crop_args(raw@, rect, out@),
                    None => r is Err && r->Err_0@ == backend.ffmpeg_hint_text(),
                },
                None => r matches Ok(None),
            }
        },
{
    match check_still(backend, bytes) {
        Ok(()) => {},
        Err(e) => {
            return Err(e);
        },
    }
    match rect {
        Some(rect) => match crop(backend, ff, raw, rect, out) {
            Ok(call) => Ok(Some(call)),
            Err(e) => Err(e),
        },
        None => Ok(None),
    }
}

/// What became of a capture program.
pub enum Ran<'a> {
    /// It could not be started: the file name of the program, and why.
    NotStarted(&'a str, &'a str),
    Succeeded,
    /// It ended with a failure: its status in words, and its error output.
    Failed(&'a str, &'a str),
    /// It hung and was killed.
    TimedOut,
    /// Its end could not be awaited: why.
    Lost(&'a str),
}

/// The last three lines of an error output, the last one first.
pub open spec fn short_tail(stderr: Seq<char>) -> Seq<char> {
    joined(last_reversed(lines_of(stderr), 3), " "@)
}

/// The verdict on a capture program.
pub fn run(backend: &Backend, ran: Ran) -> (r: Result<(), String>)
    ensures
        match ran {
            Ran::NotStarted(name, e) => r is Err && r->Err_0@ == "could not start "@ + name@ + ": "@ + e@,
            Ran::Succeeded => r is Ok,
            Ran::Failed(status, stderr) => r is Err && r->Err_0@ == if short_tail(stderr@).len() == 0 {
                "capture failed ("@ + status@ + ")"@
            } else {
                "capture failed: "@ + short_tail(stderr@)
            },
            Ran::TimedOut => r is Err && r->Err_0@ == backend.stall_hint_text(),
            Ran::Lost(e) => r is Err && r->Err_0@ == "capture failed: "@ + e@,
        },
{
    match ran {
        Ran::NotStarted(name, e) => {
            let mut m: String = "could not start ".to_owned();
            m.append(name);
            m.append(": ");
            m.append(e);
            Err(m)
        },
        Ran::Succeeded => Ok(()),
        Ran::Failed(status, stderr) => {
            let tail: String = last_lines(stderr, 3);
            if tail.as_str().is_empty() {
                let mut m: String = "capture failed (".to_owned();
                m.append(status);
                m.append(")");
                Err(m)
            } else {
                let mut m: String = "capture failed: ".to_owned();
                m.append(tail.as_str());
                Err(m)
            }
        },
        Ran::TimedOut => Err(backend.stall_hint().to_owned()),
        Ran::Lost(e) => {
            let mut m: String = "capture failed: ".to_owned();
            m.append(e);
            Err(m)
        },
    }
}

// ---------------------------------------------------------------------------
// Laws

/// The grab that a still is cropped from never has the name of a finished still,
/// and two stills of different times never share a name.
pub proof fn a_grab_never_overwrites_a_still(a: Seq<char>, b: Seq<char>)
    ensures
        raw_file(a) != still_file(b),
        a != b ==> still_file(a) != still_file(b) && raw_file(a) != raw_file(b),
        begins(still_file(a), "Recap_"@),
        begins(raw_file(a), "."@),
        still_file(a).skip(still_file(a).len() - 4) == ".png"@,
        raw_file(a).skip(raw_file(a).len() - 4) == ".png"@,
        still_file(a).subrange(6, still_file(a).len() - 4) == a,
{
    reveal_strlit("Recap_");
    reveal_strlit(".recap-raw-");
    reveal_strlit(".png");
    reveal_strlit(".");
    assert(raw_file(a)[0] == '.' && still_file(b)[0] == 'R');
    assert(still_file(a).take(6) =~= "Recap_"@);
    assert(raw_file(a).take(1) =~= "."@);
    assert(still_file(a).skip(still_file(a).len() - 4) =~= ".png"@);
    assert(raw_file(a).skip(raw_file(a).len() - 4) =~= ".png"@);
    assert(still_file(a).subrange(6, still_file(a).len() - 4) =~= a);
    assert(still_file(b).subrange(6, still_file(b).len() - 4) =~= b);
    assert(raw_file(a).subrange(11, raw_file(a).len() - 4) =~= a);
    assert(raw_file(b).subrange(11, raw_file(b).len() - 4) =~= b);
}

/// A crop reads its picture, cuts out the rectangle of the given size at the given
/// offset, and writes the result.
pub proof fn a_crop_cuts_its_rectangle(src: Seq<char>, rect: (u32, u32, u32, u32), out: Seq<char>)
    ensures
        ({
            let args = crop_args(src, rect, out);
            let (x, y, w, h) = rect;
            &&& args.last() == out
            &&& exists|k: int| 0 <= k && k + 1 < args.len() - 1 && #[trigger] args[k] == "-i"@ && args[k + 1] == src
            &&& exists|k: int|
                0 <= k && k + 1 < args.len() - 1 && #[trigger] args[k] == "-vf"@ && args[k + 1] == "crop="@ + dec(
                    w as nat,
                ) + ":"@ + dec(h as nat) + ":"@ + dec(x as nat) + ":"@ + dec(y as nat)
            &&& exists|k: int| 0 <= k < args.len() - 1 && #[trigger] args[k] == "-y"@
        }),
{
    let args = crop_args(src, rect, out);
    assert(args[3] == "-y"@);
    assert(args[4] == "-i"@);
    assert(args[6] == "-vf"@);
}

/// A still grabs the display that was asked for into the file that was asked for:
/// on macOS with the system's own tool, which counts displays from one; on Windows
/// with ffmpeg, one frame of the display, brought to system memory.
pub proof fn a_still_grabs_its_display(display: nat, ff: Seq<char>, out: Seq<char>)
    ensures
        ({
            let args = MacOs.still_args(display, out);
            &&& MacOs.still_program(ff) == "screencapture"@
            &&& args.last() == out
            &&& exists|k: int| 0 <= k && k + 1 < args.len() - 1 && #[trigger] args[k] == "-D"@ && args[k + 1] == dec(
                display + 1,
            )
            &&& exists|k: int| 0 <= k < args.len() - 1 && #[trigger] args[k] == "-x"@
        }),
        ({
            let args = Windows.still_args(display, out);
            &&& Windows.still_program(ff) == ff
            &&& args.last() == out
            &&& exists|k: int|
                0 <= k && k + 1 < args.len() - 1 && #[trigger] args[k] == "-i"@ && args[k + 1]
                    == "ddagrab=output_idx="@ + dec(display) + ",hwdownload,format=bgra"@
            &&& exists|k: int|
                0 <= k && k + 1 < args.len() - 1 && #[trigger] args[k] == "-frames:v"@ && args[k + 1] == "1"@
            &&& exists|k: int|
                0 <= k && k + 1 < args.len() - 1 && #[trigger] args[k] == "-f"@ && args[k + 1] == "lavfi"@
            &&& exists|k: int| 0 <= k < args.len() - 1 && #[trigger] args[k] == "-y"@
        }),
{
    let m = MacOs.still_args(display, out);
    assert(m[0] == "-x"@);
    assert(m[1] == "-D"@);
    let w = Windows.still_args(display, out);
    assert(w[3] == "-y"@);
    assert(w[4] == "-f"@);
    assert(w[6] == "-i"@);
    assert(w[8] == "-frames:v"@);
}

/// The reason of a failure is in the last lines of its output: the last one comes
/// first, up to two before it follow, and anything older is left out.
pub proof fn a_failure_shows_its_last_lines(older: Seq<char>, a: Seq<char>, b: Seq<char>, c: Seq<char>)
    requires
        older.len() > 0 ==> older.last() == '\n',
        !a.contains('\n') && !b.contains('\n') && !c.contains('\n'),
        a.len() > 0 ==> a.last() != '\r',
        b.len() > 0 ==> b.last() != '\r',
        c.len() > 0 ==> c.last() != '\r',
    ensures
        short_tail(older + a + seq!['\n'] + b + seq!['\n'] + c + seq!['\n']) == c + seq![' '] + b + seq![' '] + a,
        short_tail(Seq::empty()) == Seq::<char>::empty(),
        short_tail(a + seq!['\n']) == a,
{
    reveal_strlit(" ");
    assert(" "@ =~= seq![' ']);
    let none = Seq::<Seq<char>>::empty();
    let l0 = lines_of(older);
    let s1 = older + a + seq!['\n'];
    let s2 = s1 + b + seq!['\n'];
    let s3 = s2 + c + seq!['\n'];
    an_added_line_is_read_last(older, a);
    an_added_line_is_read_last(s1, b);
    an_added_line_is_read_last(s2, c);
    let (l1, l2, l3) = (l0.push(a), l0.push(a).push(b), l0.push(a).push(b).push(c));
    the_newest_comes_first(l2, c, 2);
    the_newest_comes_first(l1, b, 1);
    the_newest_comes_first(l0, a, 0);
    let tail = last_reversed(l3, 3);
    assert(tail =~= seq![c, b, a]);
    assert(tail.drop_last() =~= seq![c, b]);
    assert(seq![c, b].drop_last() =~= seq![c]);
    assert(joined(seq![c], " "@) == c);
    assert(joined(seq![c, b], " "@) == c + " "@ + b);
    assert(joined(tail, " "@) == c + " "@ + b + " "@ + a);
    assert(older + a + seq!['\n'] + b + seq!['\n'] + c + seq!['\n'] =~= s3);
    let empty = Seq::<char>::empty();
    an_added_line_is_read_last(empty, a);
    assert(empty + a + seq!['\n'] =~= a + seq!['\n']);
    the_newest_comes_first(none, a, 2);
    assert(last_reversed(none.push(a), 3) =~= seq![a]);
    assert(lines_of(empty) =~= none);
    assert(lines_of(a + seq!['\n']) =~= none.push(a));
}

/// A number below 2^31 is the same with a sign as without one. A still has ten
/// seconds, and is a picture only from half a kilobyte on.
pub proof fn limits_of_stills(n: u32)
    ensures
        n < 0x8000_0000 ==> signed(n) == n,
        n >= 0x8000_0000 ==> signed(n) < 0 && signed(n) + 0x1_0000_0000 == n,
        STILL_TIMEOUT_SECS == 10 && STILL_POLL_MS == 50 && MIN_PLAUSIBLE_PNG == 512,
{
}

} // verus!
