//! Talking to ffmpeg, whatever the platform: where to look for it, what to ask
//! it for, and how to read its answers.

use crate::capture::{Backend, CaptureBackend};
use crate::numbers::{dec, dec_string};
use crate::paths::{find_last_piece, last_piece};
use crate::pieces::{join, joined, last_lines, last_reversed, lines_of, push_all, replace, replaced, split, split_at};
use crate::text::{begins, from_chars, same_chars, slices, strs, to_chars, views};
use vstd::prelude::*;
use vstd::string::*;

verus! {

/// One line of the concat demuxer's list.
pub open spec fn concat_line(path: Seq<char>) -> Seq<char> {
    "file '"@ + replaced(replaced(path, '\\', "/"@), '\'', "'\\''"@) + "'"@
}

/// One `file '...'` line for the concat demuxer. Forward slashes keep the
/// demuxer happy on Windows; embedded single quotes are closed, escaped and
/// opened again.
pub fn concat_list_line(path: &str) -> (r: String)
    ensures
        r@ == concat_line(path@),
{
    let slashed = replace(to_chars(path).as_slice(), '\\', "/");
    let quoted = replace(slashed.as_slice(), '\'', "'\\''");
    let mut line = "file '".to_owned();
    line.append(from_chars(quoted.as_slice()).as_str());
    line.append("'");
    line
}

/// What the concat demuxer makes of a word of its list: quotes hold text as it
/// is, and outside of them a backslash takes the next character as it is.
pub open spec fn demuxed(s: Seq<char>, quoted: bool) -> Seq<char>
    decreases s.len(),
{
    if s.len() == 0 {
        Seq::empty()
    } else if s[0] == '\'' {
        demuxed(s.skip(1), !quoted)
    } else if s[0] == '\\' && !quoted && s.len() >= 2 {
        seq![s[1]] + demuxed(s.skip(2), quoted)
    } else {
        seq![s[0]] + demuxed(s.skip(1), quoted)
    }
}

proof fn lemma_demuxed_quoted(path: Seq<char>, rest: Seq<char>)
    ensures
        demuxed(replaced(path, '\'', "'\\''"@) + rest, true) == path + demuxed(rest, true),
    decreases path.len(),
{
    let with = "'\\''"@;
    reveal_strlit("'\\''");
    if path.len() == 0 {
        assert(replaced(path, '\'', with) + rest =~= rest);
        assert(path + demuxed(rest, true) =~= demuxed(rest, true));
    } else {
        let c = path.last();
        let before = path.drop_last();
        let tail = if c == '\'' {
            with + rest
        } else {
            seq![c] + rest
        };
        assert(replaced(path, '\'', with) + rest =~= replaced(before, '\'', with) + tail);
        lemma_demuxed_quoted(before, tail);
        if c == '\'' {
            assert(tail.skip(1) =~= seq!['\\', '\'', '\''] + rest);
            let open = tail.skip(1);
            assert(open.skip(2) =~= seq!['\''] + rest);
            assert(open.skip(2).skip(1) =~= rest);
            assert(demuxed(tail, true) == demuxed(open, false));
            assert(demuxed(open, false) == seq!['\''] + demuxed(open.skip(2), false));
            assert(demuxed(open.skip(2), false) == demuxed(rest, true));
        } else {
            assert(tail.skip(1) =~= rest);
        }
        assert(demuxed(tail, true) =~= seq![c] + demuxed(rest, true));
        assert(before + (seq![c] + demuxed(rest, true)) =~= path + demuxed(rest, true));
    }
}

/// A line of the list names the segment it was made for, with forward slashes,
/// whatever quotes its path holds.
pub proof fn a_list_line_names_its_segment(path: Seq<char>)
    ensures
        begins(concat_line(path), "file "@),
        demuxed(concat_line(path).skip("file "@.len() as int), false) == replaced(path, '\\', "/"@),
{
    reveal_strlit("file '");
    reveal_strlit("file ");
    reveal_strlit("'");
    let slashed = replaced(path, '\\', "/"@);
    let quoted = replaced(slashed, '\'', "'\\''"@);
    let line = concat_line(path);
    let word = line.skip(5);
    assert(line.take(5) =~= "file "@);
    assert(word =~= seq!['\''] + (quoted + "'"@));
    assert(word.skip(1) =~= quoted + "'"@);
    lemma_demuxed_quoted(slashed, "'"@);
    assert("'"@.skip(1) =~= Seq::empty());
    assert(demuxed("'"@.skip(1), false) =~= Seq::empty());
    assert(demuxed("'"@, true) =~= Seq::empty());
    assert(slashed + Seq::empty() =~= slashed);
}

// ---------------------------------------------------------------------------
// Where to look

/// Where a candidate for the program lies.
#[derive(Clone, Copy, Debug, PartialEq, Eq, Structural)]
pub enum Place {
    /// The path that the environment names.
    Configured,
    /// The folder of this program.
    ExeDir,
    /// The Resources folder of the bundle that this program runs from.
    Resources,
    /// The folder this many levels above that of this program.
    Above(usize),
    /// The system's search path: the candidate is there if it runs.
    SearchPath,
}

/// A place to look for ffmpeg: the parts of a path below `place`.
pub struct Candidate {
    pub place: Place,
    pub parts: Vec<String>,
}

/// What is known of the folder that this program lies in.
#[derive(Clone, Copy, Debug, PartialEq, Eq, Structural)]
pub struct ExeFolder {
    /// It is part of a bundle with a Resources folder.
    pub bundled: bool,
    /// How many folders the path has, itself and those above it.
    pub levels: usize,
}

impl View for Candidate {
    type V = (Place, Seq<Seq<char>>);

    open spec fn view(&self) -> (Place, Seq<Seq<char>>) {
        (self.place, strs(self.parts@))
    }
}

pub open spec fn candidates(v: Seq<Candidate>) -> Seq<(Place, Seq<Seq<char>>)> {
    v.map_values(|c: Candidate| c@)
}

/// Next to the program, and in a folder `ffmpeg` there, for each of the first `n`
/// names.
pub open spec fn beside(names: Seq<Seq<char>>, n: int) -> Seq<(Place, Seq<Seq<char>>)>
    decreases n,
{
    if n <= 0 {
        Seq::empty()
    } else {
        let name = names[n - 1];
        beside(names, n - 1) + seq![
            (Place::ExeDir, seq![name]),
            (Place::ExeDir, seq!["ffmpeg"@, name]),
            (Place::ExeDir, seq!["ffmpeg"@, "bin"@, name]),
        ]
    }
}

/// Each of the names at `place`, below `within`.
pub open spec fn each_at(place: Place, within: Seq<Seq<char>>, names: Seq<Seq<char>>) -> Seq<
    (Place, Seq<Seq<char>>),
> {
    Seq::new(names.len(), |i: int| (place, within.push(names[i])))
}

/// A folder `vendor` in the first `levels` folders up the tree.
pub open spec fn vendored(names: Seq<Seq<char>>, levels: int) -> Seq<(Place, Seq<Seq<char>>)>
    decreases levels,
{
    if levels <= 0 {
        Seq::empty()
    } else {
        vendored(names, levels - 1) + each_at(
            Place::Above((levels - 1) as usize),
            seq!["vendor"@],
            names,
        )
    }
}

/// Where to look, in order.
pub open spec fn search_list(names: Seq<Seq<char>>, configured: bool, exe: Option<ExeFolder>) -> Seq<
    (Place, Seq<Seq<char>>),
> {
    let first = if configured {
        seq![(Place::Configured, Seq::<Seq<char>>::empty())]
    } else {
        Seq::empty()
    };
    let local = match exe {
        Some(f) => beside(names, names.len() as int) + (if f.bundled {
            each_at(Place::Resources, Seq::empty(), names)
        } else {
            Seq::empty()
        }) + vendored(names, f.levels as int),
        None => Seq::empty(),
    };
    first + local + each_at(Place::SearchPath, Seq::empty(), names)
}

fn push_candidate(out: &mut Vec<Candidate>, place: Place, parts: &[&str])
    ensures
        candidates(final(out)@) == candidates(old(out)@).push((place, slices(parts@))),
{
    let mut v: Vec<String> = Vec::new();
    push_all(&mut v, parts);
    assert(strs(v@) =~= slices(parts@));
    let ghost before = out@;
    out.push(Candidate { place, parts: v });
    assert(candidates(out@) =~= candidates(before).push((place, slices(parts@))));
}

fn push_each(out: &mut Vec<Candidate>, place: Place, within: Option<&str>, names: &[&str])
    ensures
        candidates(final(out)@) == candidates(old(out)@) + each_at(
            place,
            match within {
                Some(dir) => seq![dir@],
                None => Seq::empty(),
            },
            slices(names@),
        ),
{
    let ghost before = candidates(out@);
    let ghost dirs = match within {
        Some(dir) => seq![dir@],
        None => Seq::empty(),
    };
    let mut i: usize = 0;
    while i < names.len()
        invariant
            i <= names@.len(),
            dirs == (match within {
                Some(dir) => seq![dir@],
                None => Seq::empty(),
            }),
            candidates(out@) =~= before + each_at(place, dirs, slices(names@)).take(i as int),
        decreases names@.len() - i,
    {
        match within {
            Some(dir) => {
                let parts: [&str; 2] = [dir, names[i]];
                assert(slices(parts@) =~= dirs.push(names@[i as int]@));
                push_candidate(out, place, &parts);
            },
            None => {
                let parts: [&str; 1] = [names[i]];
                assert(slices(parts@) =~= dirs.push(names@[i as int]@));
                push_candidate(out, place, &parts);
            },
        }
        i = i + 1;
    }
    assert(each_at(place, dirs, slices(names@)).take(names@.len() as int) =~= each_at(
        place,
        dirs,
        slices(names@),
    ));
}

/// Where to look for ffmpeg, in order: the path that the environment names, next
/// to this program, a bundled `ffmpeg` folder, the bundle's Resources, a `vendor`
/// folder anywhere up the tree, then the system's search path. The first
/// candidate that is there is the one to use.
///
/// `configured` says whether the environment names a path; `exe` describes the
/// folder of this program, if that is known.
pub fn search_order(backend: &Backend, configured: bool, exe: Option<ExeFolder>) -> (r: Vec<Candidate>)
    ensures
        candidates(r@) == search_list(backend.filenames(), configured, exe),
{
    let names: &'static [&'static str] = backend.ffmpeg_filenames();
    let ghost ns = backend.filenames();
    let mut out: Vec<Candidate> = Vec::new();
    assert(candidates(out@) =~= Seq::empty());
    if configured {
        let parts: [&str; 0] = [];
        assert(slices(parts@) =~= Seq::empty());
        push_candidate(&mut out, Place::Configured, &parts);
        assert(candidates(out@) =~= seq![(Place::Configured, Seq::<Seq<char>>::empty())]);
    }
    let ghost first = candidates(out@);
    if let Some(f) = exe {
        let mut i: usize = 0;
        assert(candidates(out@) =~= first + beside(ns, 0));
        while i < names.len()
            invariant
                i <= names@.len(),
                slices(names@) == ns,
                candidates(out@) == first + beside(ns, i as int),
            decreases names@.len() - i,
        {
            let ghost before = candidates(out@);
            let name: &str = names[i];
            assert(ns[i as int] == name@);
            let beside_it: [&str; 1] = [name];
            let in_folder: [&str; 2] = ["ffmpeg", name];
            let in_bin: [&str; 3] = ["ffmpeg", "bin", name];
            proof {
                assert(slices(beside_it@) =~= seq![name@]);
                assert(slices(in_folder@) =~= seq!["ffmpeg"@, name@]);
                assert(slices(in_bin@) =~= seq!["ffmpeg"@, "bin"@, name@]);
            }
            push_candidate(&mut out, Place::ExeDir, &beside_it);
            push_candidate(&mut out, Place::ExeDir, &in_folder);
            push_candidate(&mut out, Place::ExeDir, &in_bin);
            assert(candidates(out@) =~= first + beside(ns, i as int + 1));
            i = i + 1;
        }
        let ghost next_to = first + beside(ns, ns.len() as int);
        if f.bundled {
            push_each(&mut out, Place::Resources, None, names);
        }
        let ghost own = next_to + (if f.bundled {
            each_at(Place::Resources, Seq::empty(), ns)
        } else {
            Seq::empty()
        });
        assert(candidates(out@) =~= own + vendored(ns, 0));
        let mut level: usize = 0;
        while level < f.levels
            invariant
                level <= f.levels,
                slices(names@) == ns,
                candidates(out@) == own + vendored(ns, level as int),
            decreases f.levels - level,
        {
            push_each(&mut out, Place::Above(level), Some("vendor"), names);
            assert(candidates(out@) =~= own + vendored(ns, level as int + 1));
            level = level + 1;
        }
    }
    push_each(&mut out, Place::SearchPath, None, names);
    assert(candidates(out@) =~= search_list(ns, configured, exe));
    out
}

/// How early a place comes in the search.
pub open spec fn rank(place: Place) -> int {
    match place {
        Place::Configured => 0,
        Place::ExeDir => 1,
        Place::Resources => 2,
        Place::Above(_) => 3,
        Place::SearchPath => 4,
    }
}

pub proof fn lemma_beside_places(names: Seq<Seq<char>>, n: int)
    ensures
        forall|i: int| 0 <= i < beside(names, n).len() ==> (#[trigger] beside(names, n)[i]).0 == Place::ExeDir,
    decreases n,
{
    if n > 0 {
        lemma_beside_places(names, n - 1);
        let before = beside(names, n - 1);
        let all = beside(names, n);
        assert forall|i: int| 0 <= i < all.len() implies (#[trigger] all[i]).0 == Place::ExeDir by {
            if i < before.len() {
                assert(all[i] == before[i]);
            }
        }
    }
}

pub proof fn lemma_vendored_places(names: Seq<Seq<char>>, levels: int)
    requires
        levels <= usize::MAX,
    ensures
        forall|i: int|
            #![trigger vendored(names, levels)[i]]
            0 <= i < vendored(names, levels).len() ==> (vendored(names, levels)[i].0 matches Place::Above(l)
                && l < levels),
        forall|i: int, k: int|
            #![trigger vendored(names, levels)[i], vendored(names, levels)[k]]
            0 <= i <= k < vendored(names, levels).len() ==> vendored(names, levels)[i].0->Above_0
                <= vendored(names, levels)[k].0->Above_0,
    decreases levels,
{
    if levels > 0 {
        lemma_vendored_places(names, levels - 1);
        let before = vendored(names, levels - 1);
        let all = vendored(names, levels);
        assert(forall|i: int| 0 <= i < before.len() ==> #[trigger] all[i] == before[i]);
        assert(forall|i: int|
            before.len() <= i < all.len() ==> (#[trigger] all[i]).0 == Place::Above((levels - 1) as usize));
    }
}

/// How the search for ffmpeg goes on.
#[derive(Clone, Copy, Debug, PartialEq, Eq, Structural)]
pub enum LocateStep {
    /// This candidate is ffmpeg.
    Found(usize),
    /// See whether this candidate is there.
    Look(usize),
    /// ffmpeg cannot be found.
    Missing,
}

/// Whether none of the candidates seen so far is there.
pub open spec fn none_there(seen: Seq<bool>) -> bool {
    forall|i: int| 0 <= i < seen.len() ==> !seen[i]
}

/// `i` is the first candidate that is there.
pub open spec fn first_there(seen: Seq<bool>, i: int) -> bool {
    0 <= i < seen.len() && seen[i] && forall|k: int| 0 <= k < i ==> !seen[k]
}

/// How the search goes on when the first candidates were seen to be there or not:
/// the first one that is there is found, and ffmpeg is missing when every one was
/// looked at and none was there.
pub fn locate(candidates: &Vec<Candidate>, seen: &Vec<bool>) -> (r: LocateStep)
    ensures
        match r {
            LocateStep::Found(i) => first_there(seen@, i as int),
            LocateStep::Look(i) => none_there(seen@) && i == seen@.len() && i < candidates@.len(),
            LocateStep::Missing => none_there(seen@) && seen@.len() >= candidates@.len(),
        },
{
    let mut i: usize = 0;
    while i < seen.len()
        invariant
            i <= seen@.len(),
            forall|k: int| 0 <= k < i ==> !seen@[k],
        decreases seen@.len() - i,
    {
        if seen[i] {
            return LocateStep::Found(i);
        }
        i = i + 1;
    }
    if seen.len() < candidates.len() {
        LocateStep::Look(seen.len())
    } else {
        LocateStep::Missing
    }
}

/// The places are searched in the documented order: an installed bundle never
/// prefers a stray `vendor` folder above it over its own copy, of two `vendor`
/// folders the nearer one comes first, and the system's search path comes last.
pub proof fn places_come_in_order(
    names: Seq<Seq<char>>,
    configured: bool,
    exe: Option<ExeFolder>,
    i: int,
    k: int,
)
    requires
        0 <= i <= k < search_list(names, configured, exe).len(),
    ensures
        ({
            let list = search_list(names, configured, exe);
            &&& rank(list[i].0) <= rank(list[k].0)
            &&& list[k].0 is Configured ==> list[i].0 is Configured
            &&& list[k].0 is ExeDir ==> list[i].0 is Configured || list[i].0 is ExeDir
            &&& list[k].0 is Resources ==> !(list[i].0 is Above) && !(list[i].0 is SearchPath)
            &&& list[k].0 is Above ==> !(list[i].0 is SearchPath)
            &&& list[i].0 is Above && list[k].0 is Above ==> list[i].0->Above_0 <= list[k].0->Above_0
        }),
{
    let list = search_list(names, configured, exe);
    lemma_beside_places(names, names.len() as int);
    let a = if configured {
        1int
    } else {
        0
    };
    match exe {
        Some(f) => {
            lemma_vendored_places(names, f.levels as int);
            let near = beside(names, names.len() as int);
            let own = if f.bundled {
                each_at(Place::Resources, Seq::empty(), names)
            } else {
                Seq::empty()
            };
            let above = vendored(names, f.levels as int);
            let b = a + near.len();
            let c = b + own.len();
            let d = c + above.len();
            assert(forall|x: int| a <= x < b ==> #[trigger] list[x] == near[x - a]);
            assert(forall|x: int| b <= x < c ==> #[trigger] list[x] == own[x - b]);
            assert(forall|x: int| c <= x < d ==> #[trigger] list[x] == above[x - c]);
            assert(forall|x: int| d <= x < list.len() ==> (#[trigger] list[x]).0 == Place::SearchPath);
        },
        None => {
            assert(forall|x: int| a <= x < list.len() ==> (#[trigger] list[x]).0 == Place::SearchPath);
        },
    }
}

/// The Resources folder next to a Unix folder `.../Contents/MacOS`.
pub open spec fn resources_of(exe_dir: Seq<char>) -> Option<Seq<char>> {
    let pieces = split_at(exe_dir, '/');
    match last_piece(pieces, pieces.len() as int) {
        Some(i) => match last_piece(pieces, i) {
            Some(j) => if pieces[i] == "MacOS"@ && pieces[j] == "Contents"@ {
                Some(joined(pieces.take(j + 1), "/"@) + "/Resources"@)
            } else {
                None
            },
            None => None,
        },
        None => None,
    }
}

/// Maps the folder that holds this program to the bundle's Resources folder, if
/// it runs from inside a bundle.
///
/// Both path components are checked by name rather than just going up two
/// levels, so a plain build folder does not get a phantom `Resources`.
pub fn bundle_resource_dir(exe_dir: &str) -> (r: Option<String>)
    ensures
        match r {
            Some(dir) => resources_of(exe_dir@) == Some(dir@),
            None => resources_of(exe_dir@) is None,
        },
{
    let pieces = split(to_chars(exe_dir).as_slice(), '/');
    let ghost ps = split_at(exe_dir@, '/');
    match find_last_piece(&pieces, pieces.len()) {
        Some(i) => match find_last_piece(&pieces, i) {
            Some(j) => {
                assert(ps[i as int] == pieces@[i as int]@ && ps[j as int] == pieces@[j as int]@);
                if !same_chars(pieces[i].as_slice(), to_chars("MacOS").as_slice()) || !same_chars(
                    pieces[j].as_slice(),
                    to_chars("Contents").as_slice(),
                ) {
                    return None;
                }
                let mut parts: Vec<String> = Vec::new();
                let mut k: usize = 0;
                while k <= j
                    invariant
                        k <= j + 1,
                        j < pieces.len(),
                        ps == views(pieces@),
                        strs(parts@) =~= ps.take(k as int),
                    decreases j + 1 - k,
                {
                    let ghost before = parts@;
                    parts.push(from_chars(pieces[k].as_slice()));
                    assert(ps[k as int] == pieces@[k as int]@);
                    assert(strs(parts@) =~= strs(before).push(ps[k as int]));
                    k = k + 1;
                }
                let mut dir: String = join(&parts, "/");
                dir.append("/Resources");
                Some(dir)
            },
            None => None,
        },
        None => None,
    }
}

// ---------------------------------------------------------------------------
// Encoders

/// Arguments of the test encode that shows whether an encoder works here.
pub open spec fn probe_list(encoder: Seq<char>) -> Seq<Seq<char>> {
    seq![
        "-hide_banner"@,
        "-v"@,
        "error"@,
        "-f"@,
        "lavfi"@,
        "-i"@,
        "color=c=black:s=128x128:r=30:d=0.2"@,
        "-frames:v"@,
        "3"@,
        "-c:v"@,
        encoder,
        "-f"@,
        "null"@,
        "-"@,
    ]
}

pub fn probe_encoder(encoder: &str) -> (r: Vec<String>)
    ensures
        strs(r@) == probe_list(encoder@),
{
    let mut r: Vec<String> = Vec::new();
    push_all(
        &mut r,
        &[
            "-hide_banner",
            "-v",
            "error",
            "-f",
            "lavfi",
            "-i",
            "color=c=black:s=128x128:r=30:d=0.2",
            "-frames:v",
            "3",
            "-c:v",
            encoder,
            "-f",
            "null",
            "-",
        ],
    );
    assert(strs(r@) =~= probe_list(encoder@));
    r
}

/// Those of the first `n` encoders that work.
pub open spec fn working(encoders: Seq<Seq<char>>, works: Seq<bool>, n: int) -> Seq<Seq<char>>
    decreases n,
{
    if n <= 0 {
        Seq::empty()
    } else if n <= works.len() && works[n - 1] {
        working(encoders, works, n - 1).push(encoders[n - 1])
    } else {
        working(encoders, works, n - 1)
    }
}

/// The encoders that can be used here: the hardware encoders whose probe
/// succeeded, in the backend's order, and the software encoder. ffmpeg lists
/// everything compiled in, so only a real test encode tells. `works` holds the
/// outcome of each probe; one that was not made counts as failed.
pub fn usable_encoders(backend: &Backend, works: &Vec<bool>) -> (r: Vec<String>)
    ensures
        strs(r@) == working(backend.encoders(), works@, backend.encoders().len() as int).push(
            "libx264"@,
        ),
{
    let hw: &'static [&'static str] = backend.hw_encoders();
    let ghost es = backend.encoders();
    let mut r: Vec<String> = Vec::new();
    let mut i: usize = 0;
    assert(strs(r@) =~= working(es, works@, 0));
    while i < hw.len()
        invariant
            i <= hw@.len(),
            slices(hw@) == es,
            strs(r@) == working(es, works@, i as int),
        decreases hw@.len() - i,
    {
        if i < works.len() && works[i] {
            let ghost before = r@;
            r.push(hw[i].to_owned());
            assert(es[i as int] == hw@[i as int]@);
            assert(strs(r@) =~= strs(before).push(es[i as int]));
        }
        i = i + 1;
    }
    let ghost before = r@;
    r.push("libx264".to_owned());
    assert(strs(r@) =~= strs(before).push("libx264"@));
    r
}

// ---------------------------------------------------------------------------
// Joining segments

pub open spec fn concat_args_list(list: Seq<char>, out: Seq<char>) -> Seq<Seq<char>> {
    seq![
        "-hide_banner"@,
        "-loglevel"@,
        "error"@,
        "-y"@,
        "-f"@,
        "concat"@,
        "-safe"@,
        "0"@,
        "-i"@,
        list,
        "-c"@,
        "copy"@,
        out,
    ]
}

/// Arguments that join the segments in the file `list` without loss.
pub fn concat_args(list: &str, out: &str) -> (r: Vec<String>)
    ensures
        strs(r@) == concat_args_list(list@, out@),
{
    let mut r: Vec<String> = Vec::new();
    push_all(
        &mut r,
        &[
            "-hide_banner",
            "-loglevel",
            "error",
            "-y",
            "-f",
            "concat",
            "-safe",
            "0",
            "-i",
            list,
            "-c",
            "copy",
            out,
        ],
    );
    assert(strs(r@) =~= concat_args_list(list@, out@));
    r
}

/// The verdict on a join: it worked only if ffmpeg could be started, reported
/// success, and left a file. `run` is whether it succeeded, or why it could not
/// be started.
pub fn run_concat(run: Result<bool, &str>, out_exists: bool) -> (r: Result<(), String>)
    ensures
        match run {
            Err(e) => r is Err && r->Err_0@ == "could not run ffmpeg concat: "@ + e@,
            Ok(success) => if success && out_exists {
                r is Ok
            } else {
                r is Err && r->Err_0@ == "segment concat failed"@
            },
        },
{
    match run {
        Err(e) => {
            let mut m: String = "could not run ffmpeg concat: ".to_owned();
            m.append(e);
            Err(m)
        },
        Ok(success) => if success && out_exists {
            Ok(())
        } else {
            Err("segment concat failed".to_owned())
        },
    }
}

// ---------------------------------------------------------------------------
// GIF

/// Two passes: one builds the palette of this very clip, the other maps to it.
pub open spec fn gif_filters(fps: nat, width: nat) -> Seq<char> {
    let f = if fps < 1 {
        1
    } else if fps > 50 {
        50
    } else {
        fps
    };
    let w = if width < 16 {
        16
    } else {
        width
    };
    "fps="@ + dec(f) + ",scale="@ + dec(w)
        + ":-1:flags=lanczos,split[a][b];[a]palettegen=stats_mode=diff[p];[b][p]paletteuse=dither=bayer:bayer_scale=3"@
}

pub open spec fn gif_args(src: Seq<char>, out: Seq<char>, fps: nat, width: nat) -> Seq<Seq<char>> {
    seq![
        "-hide_banner"@,
        "-loglevel"@,
        "error"@,
        "-y"@,
        "-i"@,
        src,
        "-filter_complex"@,
        gif_filters(fps, width),
        "-loop"@,
        "0"@,
        out,
    ]
}

/// Arguments that convert a finished recording to a GIF.
pub fn to_gif(src: &str, out: &str, fps: u32, width: u32) -> (r: Vec<String>)
    ensures
        strs(r@) == gif_args(src@, out@, fps as nat, width as nat),
{
    let f: u32 = if fps < 1 {
        1
    } else if fps > 50 {
        50
    } else {
        fps
    };
    let w: u32 = if width < 16 {
        16
    } else {
        width
    };
    let mut filters: String = "fps=".to_owned();
    filters.append(dec_string(f as u64).as_str());
    filters.append(",scale=");
    filters.append(dec_string(w as u64).as_str());
    filters.append(
        ":-1:flags=lanczos,split[a][b];[a]palettegen=stats_mode=diff[p];[b][p]paletteuse=dither=bayer:bayer_scale=3",
    );
    let mut r: Vec<String> = Vec::new();
    push_all(
        &mut r,
        &[
            "-hide_banner",
            "-loglevel",
            "error",
            "-y",
            "-i",
            src,
            "-filter_complex",
            filters.as_str(),
            "-loop",
            "0",
            out,
        ],
    );
    assert(strs(r@) =~= gif_args(src@, out@, fps as nat, width as nat));
    r
}

/// The verdict on a conversion. `run` is whether it succeeded and what it printed
/// as errors, or why it could not be started.
pub fn gif_outcome(run: Result<(bool, &str), &str>) -> (r: Result<(), String>)
    ensures
        match run {
            Err(e) => r is Err && r->Err_0@ == "could not start ffmpeg: "@ + e@,
            Ok((success, stderr)) => if success {
                r is Ok
            } else {
                r is Err && r->Err_0@ == "GIF export failed: "@ + joined(
                    last_reversed(lines_of(stderr@), 2),
                    " "@,
                )
            },
        },
{
    match run {
        Err(e) => {
            let mut m: String = "could not start ffmpeg: ".to_owned();
            m.append(e);
            Err(m)
        },
        Ok((success, stderr)) => {
            if success {
                return Ok(());
            }
            let mut m: String = "GIF export failed: ".to_owned();
            m.append(last_lines(stderr, 2).as_str());
            Err(m)
        },
    }
}

} // verus!
