//! What holds of the work that ffmpeg is asked for besides recording.

use crate::ffmpeg::{beside, candidates, concat_args_list, each_at, first_there, gif_args, gif_filters, none_there, probe_list, resources_of, search_list, vendored, working, Candidate, ExeFolder, Place};
use crate::numbers::dec;
use crate::paths::{last_piece, trivial};
use crate::pieces::{joined, split_at};
use crate::text::begins;
use crate::text_laws::{joining_separates_neighbours, joining_undoes_splitting, splitting_undoes_joining};
use vstd::prelude::*;
use vstd::string::*;

verus! {

// ---------------------------------------------------------------------------
// GIF

/// A GIF is made at the frame rate and the width that were asked for: a rate from
/// 1 to 50 and a width of at least 16 are kept as they are, and what is outside
/// becomes the nearest that is inside. The height follows the width.
pub proof fn a_gif_has_the_rate_and_width_asked_for(fps: nat, width: nat)
    ensures
        1 <= fps <= 50 && width >= 16 ==> begins(
            gif_filters(fps, width),
            "fps="@ + dec(fps) + ",scale="@ + dec(width) + ":-1:"@,
        ),
        1 <= fps <= 50 && width >= 16 ==> gif_filters(fps, width).skip(
            ("fps="@ + dec(fps) + ",scale="@ + dec(width) + ":-1:"@).len() as int,
        )
            == "flags=lanczos,split[a][b];[a]palettegen=stats_mode=diff[p];[b][p]paletteuse=dither=bayer:bayer_scale=3"@,
        1 <= fps <= 50 ==> begins(gif_filters(fps, width), "fps="@ + dec(fps) + ",scale="@),
        fps == 0 ==> gif_filters(fps, width) == gif_filters(1, width),
        fps > 50 ==> gif_filters(fps, width) == gif_filters(50, width),
        width < 16 ==> gif_filters(fps, width) == gif_filters(fps, 16),
{
    reveal_strlit(":-1:");
    reveal_strlit(
        ":-1:flags=lanczos,split[a][b];[a]palettegen=stats_mode=diff[p];[b][p]paletteuse=dither=bayer:bayer_scale=3",
    );
    let g = gif_filters(fps, width);
    if 1 <= fps <= 50 {
        let front = "fps="@ + dec(fps) + ",scale="@;
        assert(g.take(front.len() as int) =~= front);
        if width >= 16 {
            let more = front + dec(width) + ":-1:"@;
            assert(g.take(more.len() as int) =~= more);
            reveal_strlit(
                "flags=lanczos,split[a][b];[a]palettegen=stats_mode=diff[p];[b][p]paletteuse=dither=bayer:bayer_scale=3",
            );
            assert(g.skip(more.len() as int)
                =~= "flags=lanczos,split[a][b];[a]palettegen=stats_mode=diff[p];[b][p]paletteuse=dither=bayer:bayer_scale=3"@);
        }
    }
}

/// Each argument of a conversion stands where ffmpeg looks for it: the recording
/// behind `-i`, the filters behind their flag, and the GIF, which repeats forever,
/// at the end. A file of that name is overwritten.
pub proof fn a_gif_is_made_from_its_recording(src: Seq<char>, out: Seq<char>, fps: nat, width: nat)
    ensures
        ({
            let args = gif_args(src, out, fps, width);
            &&& args.last() == out
            &&& exists|k: int| 0 <= k && k + 1 < args.len() - 1 && #[trigger] args[k] == "-i"@ && args[k + 1] == src
            &&& exists|k: int|
                0 <= k && k + 1 < args.len() - 1 && #[trigger] args[k] == "-filter_complex"@ && args[k + 1]
                    == gif_filters(fps, width)
            &&& exists|k: int| 0 <= k && k + 1 < args.len() - 1 && #[trigger] args[k] == "-loop"@ && args[k + 1] == "0"@
            &&& exists|k: int| 0 <= k < args.len() - 1 && #[trigger] args[k] == "-y"@
        }),
{
    let args = gif_args(src, out, fps, width);
    assert(args[3] == "-y"@);
    assert(args[4] == "-i"@);
    assert(args[6] == "-filter_complex"@);
    assert(args[8] == "-loop"@);
}

// ---------------------------------------------------------------------------
// Joining and probing

/// Segments are joined from their list, without loss, into one file.
pub proof fn segments_are_joined_without_loss(list: Seq<char>, out: Seq<char>)
    ensures
        ({
            let args = concat_args_list(list, out);
            &&& args.last() == out
            &&& exists|k: int| 0 <= k && k + 1 < args.len() - 1 && #[trigger] args[k] == "-i"@ && args[k + 1] == list
            &&& exists|k: int| 0 <= k && k + 1 < args.len() - 1 && #[trigger] args[k] == "-f"@ && args[k + 1] == "concat"@
            &&& exists|k: int| 0 <= k && k + 1 < args.len() - 1 && #[trigger] args[k] == "-safe"@ && args[k + 1] == "0"@
            &&& exists|k: int| 0 <= k && k + 1 < args.len() - 1 && #[trigger] args[k] == "-c"@ && args[k + 1] == "copy"@
            &&& exists|k: int| 0 <= k < args.len() - 1 && #[trigger] args[k] == "-y"@
        }),
{
    let args = concat_args_list(list, out);
    assert(args[3] == "-y"@);
    assert(args[4] == "-f"@);
    assert(args[6] == "-safe"@);
    assert(args[8] == "-i"@);
    assert(args[10] == "-c"@);
}

/// A probe encodes with the encoder that it is about, and keeps nothing of it.
pub proof fn a_probe_tries_its_encoder(encoder: Seq<char>)
    ensures
        ({
            let args = probe_list(encoder);
            &&& exists|k: int| 0 <= k && k + 1 < args.len() && #[trigger] args[k] == "-c:v"@ && args[k + 1] == encoder
            &&& args.len() >= 3 && args[args.len() - 3] == "-f"@ && args[args.len() - 2] == "null"@ && args.last()
                == "-"@
            &&& exists|k: int| 0 <= k && k + 1 < args.len() && #[trigger] args[k] == "-frames:v"@ && args[k + 1] == "3"@
        }),
{
    let args = probe_list(encoder);
    assert(args[9] == "-c:v"@);
    assert(args[7] == "-frames:v"@);
}

/// `p` lists the positions of the probes that succeeded, from the first to the
/// last.
pub open spec fn succeeded(works: Seq<bool>, n: int, p: Seq<int>) -> bool {
    &&& forall|a: int, b: int| 0 <= a < b < p.len() ==> p[a] < p[b]
    &&& forall|a: int| 0 <= a < p.len() ==> 0 <= #[trigger] p[a] < n && p[a] < works.len() && works[p[a]]
    &&& forall|i: int| 0 <= i < n && i < works.len() && #[trigger] works[i] ==> p.contains(i)
}

proof fn lemma_working(encoders: Seq<Seq<char>>, works: Seq<bool>, n: int) -> (p: Seq<int>)
    requires
        0 <= n,
    ensures
        succeeded(works, n, p),
        working(encoders, works, n) == p.map_values(|i: int| encoders[i]),
    decreases n,
{
    if n == 0 {
        let p = Seq::<int>::empty();
        assert(working(encoders, works, n) =~= p.map_values(|i: int| encoders[i]));
        p
    } else {
        let before = lemma_working(encoders, works, n - 1);
        if n <= works.len() && works[n - 1] {
            let p = before.push(n - 1);
            assert(working(encoders, works, n) =~= p.map_values(|i: int| encoders[i]));
            assert forall|i: int| 0 <= i < n && i < works.len() && #[trigger] works[i] implies p.contains(i) by {
                if i < n - 1 {
                    let a = choose|a: int| 0 <= a < before.len() && before[a] == i;
                    assert(p[a] == i);
                } else {
                    assert(p[p.len() - 1] == i);
                }
            }
            p
        } else {
            before
        }
    }
}

/// The encoders that can be used are exactly those whose probe succeeded, in the
/// order in which the platform prefers them.
pub proof fn usable_encoders_are_those_that_work(encoders: Seq<Seq<char>>, works: Seq<bool>)
    ensures
        exists|p: Seq<int>|
            #[trigger] succeeded(works, encoders.len() as int, p) && working(
                encoders,
                works,
                encoders.len() as int,
            ) == p.map_values(|i: int| encoders[i]),
{
    let p = lemma_working(encoders, works, encoders.len() as int);
    assert(succeeded(works, encoders.len() as int, p));
}

// ---------------------------------------------------------------------------
// Looking for ffmpeg

proof fn lemma_beside(names: Seq<Seq<char>>, n: int, i: int)
    requires
        0 <= i < n <= names.len(),
    ensures
        beside(names, n).len() == 3 * n,
        beside(names, n)[3 * i] == (Place::ExeDir, seq![names[i]]),
        beside(names, n)[3 * i + 1] == (Place::ExeDir, seq!["ffmpeg"@, names[i]]),
        beside(names, n)[3 * i + 2] == (Place::ExeDir, seq!["ffmpeg"@, "bin"@, names[i]]),
    decreases n,
{
    if i < n - 1 {
        lemma_beside(names, n - 1, i);
    } else if n > 1 {
        lemma_beside(names, n - 1, 0);
    } else {
        assert(beside(names, 0).len() == 0);
    }
}

proof fn lemma_vendored(names: Seq<Seq<char>>, levels: int, l: int, i: int)
    requires
        0 <= l < levels <= usize::MAX,
        0 <= i < names.len(),
    ensures
        vendored(names, levels).contains((Place::Above(l as usize), seq!["vendor"@, names[i]])),
    decreases levels,
{
    let all = vendored(names, levels);
    let before = vendored(names, levels - 1);
    let entry = (Place::Above(l as usize), seq!["vendor"@, names[i]]);
    if l < levels - 1 {
        lemma_vendored(names, levels - 1, l, i);
        let k = choose|k: int| 0 <= k < before.len() && before[k] == entry;
        assert(all[k] == entry);
    } else {
        assert(seq!["vendor"@].push(names[i]) =~= seq!["vendor"@, names[i]]);
        assert(all[before.len() + i] == entry);
    }
}

proof fn lemma_vendored_len(names: Seq<Seq<char>>, levels: int)
    requires
        0 <= levels,
    ensures
        vendored(names, levels).len() == levels * names.len(),
    decreases levels,
{
    if levels > 0 {
        lemma_vendored_len(names, levels - 1);
        assert((levels - 1) * names.len() + names.len() == levels * names.len()) by (nonlinear_arith);
    } else {
        assert(levels * names.len() == 0) by (nonlinear_arith)
            requires
                levels == 0,
        ;
    }
}

/// Every place that is promised is looked at, and no other, for every name that ffmpeg can have:
/// the path that the environment names, first of all; next to the program, in a
/// folder `ffmpeg` there and in its folder `bin`; in the Resources of a bundle;
/// in a folder `vendor` of every folder up the tree; and on the search path, last
/// of all.
pub proof fn every_place_is_looked_at(
    names: Seq<Seq<char>>,
    configured: bool,
    exe: Option<ExeFolder>,
    i: int,
    level: int,
)
    requires
        0 <= i < names.len(),
    ensures
        ({
            let list = search_list(names, configured, exe);
            &&& configured ==> list[0] == (Place::Configured, Seq::<Seq<char>>::empty())
            &&& !configured ==> forall|k: int| 0 <= k < list.len() ==> (#[trigger] list[k]).0 != Place::Configured
            &&& exe is Some ==> list.contains((Place::ExeDir, seq![names[i]])) && list.contains(
                (Place::ExeDir, seq!["ffmpeg"@, names[i]]),
            ) && list.contains((Place::ExeDir, seq!["ffmpeg"@, "bin"@, names[i]]))
            &&& exe is Some && exe->0.bundled ==> list.contains((Place::Resources, seq![names[i]]))
            &&& exe is Some && 0 <= level < exe->0.levels ==> list.contains(
                (Place::Above(level as usize), seq!["vendor"@, names[i]]),
            )
            &&& list[list.len() - names.len() + i] == (Place::SearchPath, seq![names[i]])
            &&& list.len() == (if configured {
                1int
            } else {
                0
            }) + (match exe {
                Some(f) => 3 * names.len() + (if f.bundled {
                    names.len()
                } else {
                    0
                }) + f.levels * names.len(),
                None => 0,
            }) + names.len()
        }),
{
    let list = search_list(names, configured, exe);
    let first = if configured {
        seq![(Place::Configured, Seq::<Seq<char>>::empty())]
    } else {
        Seq::empty()
    };
    let a = first.len() as int;
    let bare = Seq::<Seq<char>>::empty();
    assert(bare.push(names[i]) =~= seq![names[i]]);
    match exe {
        Some(f) => {
            let near = beside(names, names.len() as int);
            let own = if f.bundled {
                each_at(Place::Resources, Seq::empty(), names)
            } else {
                Seq::empty()
            };
            let above = vendored(names, f.levels as int);
            lemma_beside(names, names.len() as int, i);
            assert(list[a + 3 * i] == near[3 * i]);
            assert(list[a + 3 * i + 1] == near[3 * i + 1]);
            assert(list[a + 3 * i + 2] == near[3 * i + 2]);
            let c = a + near.len();
            if f.bundled {
                assert(list[c + i] == own[i]);
            }
            let d = c + own.len();
            if 0 <= level < f.levels {
                lemma_vendored(names, f.levels as int, level, i);
                let entry = (Place::Above(level as usize), seq!["vendor"@, names[i]]);
                let k = choose|k: int| 0 <= k < above.len() && above[k] == entry;
                assert(list[d + k] == entry);
            }
            lemma_vendored_len(names, f.levels as int);
            let e = d + above.len();
            assert(list.len() == e + names.len());
            assert(list[e + i].1 == bare.push(names[i]));
        },
        None => {
            assert(list.len() == a + names.len());
            assert(list[a + i].1 == bare.push(names[i]));
        },
    }
    if !configured {
        assert forall|k: int| 0 <= k < list.len() implies (#[trigger] list[k]).0 != Place::Configured by {
            crate::ffmpeg::places_come_in_order(names, configured, exe, 0, k);
            lemma_not_configured(names, exe, k);
        }
    }
}

proof fn lemma_not_configured(names: Seq<Seq<char>>, exe: Option<ExeFolder>, k: int)
    requires
        0 <= k < search_list(names, false, exe).len(),
    ensures
        search_list(names, false, exe)[k].0 != Place::Configured,
{
    let list = search_list(names, false, exe);
    match exe {
        Some(f) => {
            let near = beside(names, names.len() as int);
            let own = if f.bundled {
                each_at(Place::Resources, Seq::empty(), names)
            } else {
                Seq::empty()
            };
            let above = vendored(names, f.levels as int);
            crate::ffmpeg::lemma_beside_places(names, names.len() as int);
            crate::ffmpeg::lemma_vendored_places(names, f.levels as int);
            if k < near.len() {
                assert(list[k] == near[k]);
            } else if k < near.len() + own.len() {
                assert(list[k] == own[k - near.len()]);
            } else if k < near.len() + own.len() + above.len() {
                assert(list[k] == above[k - near.len() - own.len()]);
            } else {
                assert(list[k].0 == Place::SearchPath);
            }
        },
        None => {
            assert(list[k].0 == Place::SearchPath);
        },
    }
}

/// A program in `Contents/MacOS` of a bundle finds the bundle's Resources, which
/// lie next to `MacOS`. One in any other folder has none.
pub proof fn a_bundle_has_its_resources(bundle: Seq<char>, folder: Seq<char>)
    requires
        !folder.contains('/'),
        !trivial(folder),
    ensures
        resources_of(bundle + "/Contents/MacOS"@) == Some(bundle + "/Contents/Resources"@),
        folder != "MacOS"@ ==> resources_of(bundle + "/Contents/"@ + folder) is None,
        folder != "Contents"@ ==> resources_of(bundle + "/"@ + folder + "/MacOS"@) is None,
{
    reveal_strlit("/Contents/MacOS");
    reveal_strlit("/Contents/Resources");
    reveal_strlit("/Contents/");
    reveal_strlit("/Resources");
    reveal_strlit("/MacOS");
    reveal_strlit("/");
    reveal_strlit("Contents");
    reveal_strlit("MacOS");
    reveal_strlit("");
    reveal_strlit(".");
    let sep = seq!['/'];
    let (inside, last) = ("Contents"@, "MacOS"@);
    assert(!trivial(inside) && !trivial(last)) by {
        assert(""@.len() == 0 && "."@.len() == 1 && inside.len() == 8 && last.len() == 5);
    }
    let base = split_at(bundle, '/');
    joining_undoes_splitting(bundle, '/');
    // The bundle itself.
    lemma_two_folders(bundle, inside, last);
    assert(bundle + "/Contents/MacOS"@ =~= bundle + sep + inside + sep + last);
    let pieces = base.push(inside).push(last);
    assert(pieces.take(base.len() as int + 1) =~= base.push(inside));
    joining_separates_neighbours(base, seq![inside], inside, sep);
    assert(base + seq![inside] =~= base.push(inside));
    assert("/"@ =~= sep);
    assert(bundle + sep + inside + "/Resources"@ =~= bundle + "/Contents/Resources"@);
    // Other folders.
    lemma_two_folders(bundle, inside, folder);
    assert(bundle + "/Contents/"@ + folder =~= bundle + sep + inside + sep + folder);
    lemma_two_folders(bundle, folder, last);
    assert(bundle + "/"@ + folder + "/MacOS"@ =~= bundle + sep + folder + sep + last);
}

proof fn lemma_two_folders(bundle: Seq<char>, a: Seq<char>, b: Seq<char>)
    requires
        !a.contains('/'),
        !b.contains('/'),
        !trivial(a),
        !trivial(b),
    ensures
        ({
            let base = split_at(bundle, '/');
            let pieces = split_at(bundle + seq!['/'] + a + seq!['/'] + b, '/');
            let n = base.len() as int;
            &&& pieces == base.push(a).push(b)
            &&& last_piece(pieces, pieces.len() as int) == Some(n + 1)
            &&& last_piece(pieces, n + 1) == Some(n)
        }),
{
    let base = split_at(bundle, '/');
    let sep = seq!['/'];
    joining_undoes_splitting(bundle, '/');
    joining_separates_neighbours(base, seq![a], a, sep);
    joining_separates_neighbours(base.push(a), seq![b], b, sep);
    assert(base + seq![a] =~= base.push(a));
    assert(base.push(a) + seq![b] =~= base.push(a).push(b));
    let parts = base.push(a).push(b);
    assert forall|k: int| 0 <= k < parts.len() implies !(#[trigger] parts[k]).contains('/') by {
        if k < base.len() {
            assert(parts[k] == base[k]);
        }
    }
    splitting_undoes_joining(parts, '/');
    assert(joined(parts, sep) == bundle + sep + a + sep + b);
}

/// The candidate that is found is the first that is there, so there is only one,
/// and none is found only where none is there.
pub proof fn the_first_that_is_there_is_found(seen: Seq<bool>, i: int, k: int)
    requires
        0 <= k < seen.len(),
        seen[k],
    ensures
        first_there(seen, i) ==> 0 <= i <= k && seen[i] && !seen.take(i).contains(true),
        first_there(seen, i) && first_there(seen, k) ==> i == k,
        !none_there(seen),
        none_there(Seq::empty()),
        !seen.take(k).contains(true) ==> first_there(seen, k),
{
    if first_there(seen, i) {
        assert forall|j: int| 0 <= j < i implies !seen.take(i)[j] by {
            assert(!seen[j]);
        }
    }
    if !seen.take(k).contains(true) {
        assert forall|j: int| 0 <= j < k implies !seen[j] by {
            assert(seen.take(k)[j] == seen[j]);
        }
    }
}

/// What the contracts speak of is every candidate, with its place and its parts.
pub proof fn candidates_are_seen_whole(v: Seq<Candidate>, i: int, k: int)
    requires
        0 <= i < v.len(),
        0 <= k < v[i].parts@.len(),
    ensures
        candidates(v).len() == v.len(),
        candidates(v)[i].0 == v[i].place,
        candidates(v)[i].1.len() == v[i].parts@.len(),
        candidates(v)[i].1[k] == v[i].parts@[k]@,
{
}

} // verus!
