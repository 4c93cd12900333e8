//! What holds of the Windows arguments and listings as a whole.

use super::windows::{audio_name, download_hop, dshow_inputs, dshow_upto, geometry, graph, mic_input, video_encoder, Windows};
use super::{base_args_spec, capped_fps, stream_map, CaptureBackend, CaptureTarget};
use crate::numbers::{dec, is_digit, lemma_dec};
use crate::pieces::{lines_from, lines_of, without_cr};
use crate::recorder::ConfigView;
use crate::text::{has, index_from, lemma_index_from, lemma_index_from_is, lemma_match_from, occurs};
use vstd::prelude::*;

verus! {

// ---------------------------------------------------------------------------
// The hop into system memory

/// Whether `s` ends in `tail`.
pub open spec fn ends_in(s: Seq<char>, tail: Seq<char>) -> bool {
    s.len() >= tail.len() && s.skip(s.len() - tail.len()) == tail
}

/// Where `-c:v` stands among the arguments: behind the inputs and the stream map.
pub open spec fn codec_at(cfg: ConfigView) -> int {
    base_args_spec().len() as int + 4 + mic_input(cfg).len() + stream_map(cfg.mic() is Some).len()
}

proof fn lemma_no_h(a: Seq<char>, b: Seq<char>)
    requires
        !a.contains('h'),
        !b.contains('h'),
    ensures
        !(a + b).contains('h'),
{
    assert forall|k: int| 0 <= k < (a + b).len() implies (a + b)[k] != 'h' by {
        if k < a.len() {
            assert(a.contains(a[k]));
        } else {
            assert(b.contains(b[k - a.len()]));
        }
    }
}

proof fn lemma_dec_no_h(n: nat)
    ensures
        !dec(n).contains('h'),
{
    lemma_dec(n);
    assert forall|k: int| 0 <= k < dec(n).len() implies dec(n)[k] != 'h' by {
        assert(is_digit(dec(n)[k]));
    }
}

/// Without the hop there is no `h` in the graph.
proof fn lemma_graph_no_h(cfg: ConfigView, target: CaptureTarget, encoder: Seq<char>)
    requires
        download_hop(encoder).len() == 0,
    ensures
        !graph(cfg, target, encoder).contains('h'),
{
    reveal_strlit("ddagrab=output_idx=");
    reveal_strlit(":framerate=");
    reveal_strlit(":draw_mouse=");
    reveal_strlit("1");
    reveal_strlit("0");
    let g0 = "ddagrab=output_idx="@;
    let g1 = g0 + dec(target.screen_id as nat);
    let g2 = g1 + ":framerate="@;
    let g3 = g2 + dec(capped_fps(cfg.fps) as nat);
    let g4 = g3 + ":draw_mouse="@;
    let mouse = if cfg.capture_cursor {
        "1"@
    } else {
        "0"@
    };
    let g5 = g4 + mouse;
    lemma_dec_no_h(target.screen_id as nat);
    lemma_dec_no_h(capped_fps(cfg.fps) as nat);
    lemma_no_h(g0, dec(target.screen_id as nat));
    lemma_no_h(g1, ":framerate="@);
    lemma_no_h(g2, dec(capped_fps(cfg.fps) as nat));
    lemma_no_h(g3, ":draw_mouse="@);
    lemma_no_h(g4, mouse);
    lemma_geometry_no_h(target);
    lemma_no_h(g5, geometry(target));
    lemma_no_h(g5 + geometry(target), download_hop(encoder));
}

proof fn lemma_geometry_no_h(target: CaptureTarget)
    ensures
        !geometry(target).contains('h'),
{
    match target.region {
        Some(r) => {
            reveal_strlit(":offset_x=");
            reveal_strlit(":offset_y=");
            reveal_strlit(":video_size=");
            reveal_strlit("x");
            lemma_dec_no_h(r.x as nat);
            lemma_dec_no_h(r.y as nat);
            lemma_dec_no_h(r.width as nat);
            lemma_dec_no_h(r.height as nat);
            let g0 = ":offset_x="@;
            let g1 = g0 + dec(r.x as nat);
            let g2 = g1 + ":offset_y="@;
            let g3 = g2 + dec(r.y as nat);
            let g4 = g3 + ":video_size="@;
            let g5 = g4 + dec(r.width as nat);
            let g6 = g5 + "x"@;
            lemma_no_h(g0, dec(r.x as nat));
            lemma_no_h(g1, ":offset_y="@);
            lemma_no_h(g2, dec(r.y as nat));
            lemma_no_h(g3, ":video_size="@);
            lemma_no_h(g4, dec(r.width as nat));
            lemma_no_h(g5, "x"@);
            lemma_no_h(g6, dec(r.height as nat));
        },
        None => {},
    }
}

/// The graph, which follows the first `-i`, ends in the hop into system memory
/// exactly where the codec that follows `-c:v` is libx264 or QSV. With any other
/// codec it does not download at all.
pub proof fn the_hop_follows_the_codec(
    cfg: ConfigView,
    target: CaptureTarget,
    encoder: Seq<char>,
    out: Seq<char>,
)
    ensures
        ({
            let args = Windows.segment_args_of(cfg, target, encoder, out);
            let first = base_args_spec().len() as int + 2;
            let codec = args[codec_at(cfg) + 1];
            let software = codec == "libx264"@ || codec == "h264_qsv"@;
            &&& codec_at(cfg) + 1 < args.len()
            &&& forall|k: int| 0 <= k < first ==> args[k] != "-i"@
            &&& args[first] == "-i"@
            &&& args[first + 1] == graph(cfg, target, encoder)
            &&& args[codec_at(cfg)] == "-c:v"@
            &&& ends_in(args[first + 1], ",hwdownload,format=bgra"@) == software
            &&& has(args[first + 1], "hwdownload"@) == software
        }),
{
    reveal_strlit("-hide_banner");
    reveal_strlit("-loglevel");
    reveal_strlit("warning");
    reveal_strlit("-progress");
    reveal_strlit("pipe:1");
    reveal_strlit("-y");
    reveal_strlit("-f");
    reveal_strlit("lavfi");
    reveal_strlit("-i");
    reveal_strlit("libx264");
    reveal_strlit("h264_nvenc");
    reveal_strlit("h264_amf");
    reveal_strlit("h264_qsv");
    let args = Windows.segment_args_of(cfg, target, encoder, out);
    let base = base_args_spec();
    let head = base + seq!["-f"@, "lavfi"@, "-i"@, graph(cfg, target, encoder)];
    let mapped = head + mic_input(cfg) + stream_map(cfg.mic() is Some);
    let first = base.len() as int + 2;
    assert(mapped.len() == codec_at(cfg));
    assert(args[codec_at(cfg)] == video_encoder(encoder)[0]);
    assert(args[codec_at(cfg) + 1] == video_encoder(encoder)[1]);
    assert(args[first] == head[first]);
    assert(args[first + 1] == head[first + 1]);
    assert("-i"@.len() == 2 && "-i"@[1] == 'i');
    assert forall|k: int| 0 <= k < first implies args[k] != "-i"@ by {
        assert(args[k] == head[k]);
        if k < base.len() {
            assert(head[k] == base[k]);
        }
    }
    assert("libx264"@.len() == 7);
    assert("h264_nvenc"@.len() == 10);
    assert("h264_amf"@.len() == 8 && "h264_amf"@[5] == 'a');
    assert("h264_qsv"@.len() == 8 && "h264_qsv"@[5] == 'q');
    let g = graph(cfg, target, encoder);
    let hop = ",hwdownload,format=bgra"@;
    let word = "hwdownload"@;
    reveal_strlit(",hwdownload,format=bgra");
    reveal_strlit("hwdownload");
    if download_hop(encoder).len() > 0 {
        assert(download_hop(encoder) == hop);
        let n = g.len() - hop.len();
        assert(g.skip(n) =~= hop);
        assert(g.subrange(n + 1, n + 1 + word.len()) =~= word);
        assert(occurs(g, word, n + 1));
        lemma_match_from(g, word, 0);
    } else {
        lemma_graph_no_h(cfg, target, encoder);
        lemma_match_from(g, word, 0);
        assert forall|k: int| 0 <= k implies !occurs(g, word, k) by {
            if occurs(g, word, k) {
                assert(g.subrange(k, k + word.len())[0] == 'h');
                assert(g.contains(g[k]));
            }
        }
        if ends_in(g, hop) {
            assert(g.skip(g.len() - hop.len())[1] == 'h');
            assert(g.contains(g[g.len() - hop.len() + 1]));
        }
    }
}

// ---------------------------------------------------------------------------
// The listing of audio inputs

/// The audio inputs that one line names: one or none.
pub open spec fn dshow_line(line: Seq<char>) -> Seq<(Seq<char>, Seq<char>)> {
    match audio_name(line) {
        Some(name) => seq![(name, name)],
        None => Seq::empty(),
    }
}

proof fn lemma_dshow_front(line: Seq<char>, rest: Seq<Seq<char>>, n: int)
    requires
        0 <= n <= rest.len(),
    ensures
        dshow_upto(seq![line] + rest, n + 1) == dshow_line(line) + dshow_upto(rest, n),
    decreases n,
{
    let all = seq![line] + rest;
    if n == 0 {
        assert(dshow_upto(all, 0) == Seq::<(Seq<char>, Seq<char>)>::empty());
        assert(all[0] == line);
        assert(dshow_upto(all, 1) =~= dshow_line(line) + dshow_upto(rest, 0));
    } else {
        lemma_dshow_front(line, rest, n - 1);
        assert(all[n] == rest[n - 1]);
        assert(dshow_upto(all, n + 1) =~= dshow_line(line) + dshow_upto(rest, n));
    }
}

/// A carriage return at the end of a line does not change what the line names.
proof fn lemma_cr_names_nothing(line: Seq<char>)
    ensures
        audio_name(without_cr(line)) == audio_name(line),
{
    reveal_strlit("(audio)");
    if line.len() > 0 && line.last() == '\r' {
        let short = line.drop_last();
        let tag = "(audio)"@;
        let n = short.len() as int;
        lemma_match_from(line, tag, 0);
        lemma_match_from(short, tag, 0);
        assert forall|k: int| occurs(line, tag, k) implies occurs(short, tag, k) by {
            if k + tag.len() > n {
                assert(line.subrange(k, k + tag.len())[tag.len() - 1] == line[n]);
            }
            assert(short.subrange(k, k + tag.len()) =~= line.subrange(k, k + tag.len()));
        }
        assert forall|k: int| occurs(short, tag, k) implies occurs(line, tag, k) by {
            assert(short.subrange(k, k + tag.len()) =~= line.subrange(k, k + tag.len()));
        }
        assert(has(line, tag) == has(short, tag));
        let start = index_from(short, '"', 0);
        lemma_index_from(short, '"', 0);
        lemma_cr_index(line, 0);
        if start < n {
            lemma_index_from(short, '"', start + 1);
            lemma_cr_index(line, start + 1);
            let end = index_from(short, '"', start + 1);
            if end < n {
                assert(line.subrange(start + 1, end) =~= short.subrange(start + 1, end));
            }
        }
    }
}

proof fn lemma_cr_index(line: Seq<char>, i: int)
    requires
        line.len() > 0,
        line.last() == '\r',
        0 <= i < line.len(),
    ensures
        ({
            let j = index_from(line.drop_last(), '"', i);
            index_from(line, '"', i) == if j < line.len() - 1 {
                j
            } else {
                line.len() as int
            }
        }),
{
    let short = line.drop_last();
    let j = index_from(short, '"', i);
    lemma_index_from(short, '"', i);
    assert forall|k: int| i <= k < j implies line[k] != '"' by {
        assert(short[k] == line[k]);
    }
    if j < short.len() {
        assert(short[j] == line[j]);
        lemma_index_from_is(line, '"', i, j);
    } else {
        lemma_index_from_is(line, '"', i, line.len() as int);
    }
}

/// What stands in front of a position does not change the lines behind it.
proof fn lemma_lines_behind(front: Seq<char>, s: Seq<char>, i: int)
    requires
        0 <= i <= s.len(),
    ensures
        lines_from(front + s, front.len() + i) == lines_from(s, i),
    decreases s.len() - i,
{
    let all = front + s;
    let n = front.len() as int;
    if i < s.len() {
        let j = index_from(s, '\n', i);
        lemma_index_from(s, '\n', i);
        assert forall|k: int| n + i <= k < n + j implies all[k] != '\n' by {
            assert(all[k] == s[k - n]);
        }
        lemma_index_from_is(all, '\n', n + i, n + j);
        if j < s.len() {
            assert(all.subrange(n + i, n + j) =~= s.subrange(i, j));
            lemma_lines_behind(front, s, j + 1);
            assert(n + j + 1 == n + (j + 1));
        } else {
            assert(all.skip(n + i) =~= s.skip(i));
        }
    }
}

proof fn lemma_joined_lines(a: Seq<char>, b: Seq<char>, i: int)
    requires
        0 <= i <= a.len(),
    ensures
        ({
            let all = lines_from(a + "\n"@ + b, i);
            let mine = lines_from(a, i);
            dshow_upto(all, all.len() as int) == dshow_upto(mine, mine.len() as int) + dshow_inputs(b)
        }),
    decreases a.len() - i,
{
    reveal_strlit("\n");
    let text = a + "\n"@ + b;
    let n = a.len() as int;
    let j = index_from(a, '\n', i);
    lemma_index_from(a, '\n', i);
    assert forall|k: int| i <= k < j implies text[k] != '\n' by {
        assert(text[k] == a[k]);
    }
    assert(text[j] == '\n');
    lemma_index_from_is(text, '\n', i, j);
    assert(text.subrange(i, j) =~= a.subrange(i, j));
    let line = without_cr(a.subrange(i, j));
    let rest = lines_from(text, j + 1);
    let mine = lines_from(a, i);
    assert(lines_from(text, i) == seq![line] + rest);
    lemma_dshow_front(line, rest, rest.len() as int);
    let none = Seq::<(Seq<char>, Seq<char>)>::empty();
    if j < n {
        lemma_joined_lines(a, b, j + 1);
        let later = lines_from(a, j + 1);
        assert(mine == seq![line] + later);
        lemma_dshow_front(line, later, later.len() as int);
        let devices = dshow_upto(later, later.len() as int);
        assert(dshow_line(line) + (devices + dshow_inputs(b)) =~= dshow_line(line) + devices + dshow_inputs(b));
    } else {
        let front = a + "\n"@;
        assert(front + b =~= text);
        lemma_lines_behind(front, b, 0);
        assert(rest == lines_of(b));
        lemma_cr_names_nothing(a.subrange(i, j));
        if i < n {
            assert(a.skip(i) =~= a.subrange(i, j));
            assert(mine == seq![a.subrange(i, j)]);
            assert(mine =~= seq![a.subrange(i, j)] + Seq::<Seq<char>>::empty());
            lemma_dshow_front(a.subrange(i, j), Seq::empty(), 0);
            assert(dshow_upto(mine, 1) =~= dshow_line(line));
        } else {
            assert(line.len() == 0);
            assert(audio_name(line) is None);
            assert(dshow_upto(mine, 0) == none);
            assert(none + dshow_inputs(b) =~= dshow_inputs(b));
        }
    }
}

/// Two listings, one below the other, name the audio inputs of the first and
/// then those of the second.
pub proof fn listings_add_up(a: Seq<char>, b: Seq<char>)
    ensures
        dshow_inputs(a + "\n"@ + b) == dshow_inputs(a) + dshow_inputs(b),
{
    lemma_joined_lines(a, b, 0);
}

/// A line names an audio input exactly where it holds `(audio)` and its first
/// quotation mark is followed by another, with something between the two. Any
/// other line adds nothing.
pub proof fn a_line_names_what_it_quotes(line: Seq<char>)
    ensures
        forall|i: int, j: int|
            0 <= i && i + 1 < j < line.len() && line[i] == '"' && line[j] == '"' && has(line, "(audio)"@) && (
            forall|k: int| 0 <= k < j && k != i ==> line[k] != '"') ==> audio_name(line) == Some(
                #[trigger] line.subrange(i + 1, j),
            ),
        audio_name(line) matches Some(name) ==> has(line, "(audio)"@) && name.len() > 0 && !name.contains('"')
            && exists|i: int|
            0 <= i && i + name.len() + 1 < line.len() && line[i] == '"' && line[i + name.len() + 1] == '"'
                && #[trigger] line.subrange(i + 1, i + 1 + name.len()) == name,
{
    let start = index_from(line, '"', 0);
    lemma_index_from(line, '"', 0);
    if start < line.len() {
        lemma_index_from(line, '"', start + 1);
    }
    let end = index_from(line, '"', start + 1);
    assert forall|i: int, j: int|
        0 <= i && i + 1 < j < line.len() && line[i] == '"' && line[j] == '"' && has(line, "(audio)"@) && (
        forall|k: int| 0 <= k < j && k != i ==> line[k] != '"') implies audio_name(line) == Some(
        #[trigger] line.subrange(i + 1, j),
    ) by {
        lemma_index_from_is(line, '"', 0, i);
        lemma_index_from_is(line, '"', i + 1, j);
    }
    if let Some(name) = audio_name(line) {
        assert forall|k: int| 0 <= k < name.len() implies name[k] != '"' by {
            assert(name[k] == line[start + 1 + k]);
        }
        assert(line.subrange(start + 1, start + 1 + name.len()) == name);
    }
}

/// Whether an audio input's identifier is its label, a name without quotation
/// marks.
pub open spec fn addressed_by_label(device: (Seq<char>, Seq<char>)) -> bool {
    device.0 == device.1 && device.0.len() > 0 && !device.0.contains('"')
}

/// Every audio input is addressed by its label, which is not empty and holds no
/// quotation mark.
pub proof fn inputs_are_addressed_by_label(listing: Seq<char>)
    ensures
        forall|d: int|
            0 <= d < dshow_inputs(listing).len() ==> addressed_by_label(
                #[trigger] dshow_inputs(listing)[d],
            ),
{
    lemma_labels(lines_of(listing), lines_of(listing).len() as int);
}

proof fn lemma_labels(lines: Seq<Seq<char>>, n: int)
    requires
        0 <= n <= lines.len(),
    ensures
        forall|d: int|
            0 <= d < dshow_upto(lines, n).len() ==> addressed_by_label(
                #[trigger] dshow_upto(lines, n)[d],
            ),
    decreases n,
{
    if n > 0 {
        lemma_labels(lines, n - 1);
        a_line_names_what_it_quotes(lines[n - 1]);
        let before = dshow_upto(lines, n - 1);
        let all = dshow_upto(lines, n);
        assert forall|d: int| 0 <= d < all.len() implies addressed_by_label(#[trigger] all[d]) by {
            if d < before.len() {
                assert(all[d] == before[d]);
            }
        }
    }
}

/// A line that names no audio input adds nothing to a listing.
pub proof fn other_lines_add_nothing(listing: Seq<char>, line: Seq<char>)
    requires
        !line.contains('\n'),
        audio_name(line) is None,
    ensures
        dshow_inputs(listing + "\n"@ + line) == dshow_inputs(listing),
{
    listings_add_up(listing, line);
    assert forall|k: int| 0 <= k < line.len() implies line[k] != '\n' by {
        assert(line.contains(line[k]));
    }
    lemma_index_from_is(line, '\n', 0, line.len() as int);
    if line.len() > 0 {
        assert(line.skip(0) =~= line);
        assert(lines_of(line) == seq![line]);
        assert(dshow_upto(lines_of(line), 0) == Seq::<(Seq<char>, Seq<char>)>::empty());
        assert(dshow_upto(lines_of(line), 1) == Seq::<(Seq<char>, Seq<char>)>::empty());
    }
    assert(dshow_inputs(line) == Seq::<(Seq<char>, Seq<char>)>::empty());
    assert(dshow_inputs(listing) + dshow_inputs(line) =~= dshow_inputs(listing));
}

} // verus!
