//! What holds of the recording machine as a whole.

use crate::capture::{Backend, CaptureBackend, CaptureTarget, Platform};
use crate::numbers::{dec, is_digit, lemma_dec, value, zero_padded};
use crate::paths::{other_names_are_other_paths, plain_name, same_path};
use crate::ffmpeg::{a_list_line_names_its_segment, concat_line, demuxed};
use crate::pieces::{lines_from, lines_of, replaced, without_cr};
use crate::recorder::{chosen_encoder, concat_list, countdown_after, finalize_refusal, first_available, good_segments, is_plan, screen_id_of, segment_command_of, segment_name, stop_after, ConfigView, CountdownStep, FinalizePlan, Recorder, RecorderView, RecordingConfig, RegionSel, Status, StopStep, COUNTDOWN_FROM, MIN_SEGMENT_BYTES, STOP_POLLS, STOP_POLL_MS};
use crate::text::{begins, index_from, lemma_index_from, lemma_index_from_is};
use vstd::prelude::*;
use vstd::string::*;

verus! {

// ---------------------------------------------------------------------------
// Who may end a session

/// A stop that lands first disarms every abort, whatever session and segment it
/// is about. What is to be finalized is still there: the segments and the
/// folder of a stopped recording are untouched.
pub proof fn a_stop_disarms_every_abort(r: RecorderView, id: u64, expect_last: Option<Seq<char>>)
    requires
        r.stopped() is Some,
    ensures
        !r.stopped()->0.may_fail(id, expect_last),
        r.status != Status::Countdown ==> r.stopped()->0.segments == r.segments
            && r.stopped()->0.session_dir == r.session_dir && r.stopped()->0.status
            == Status::Finalizing,
{
}

/// An abort of a session is granted at most once: asked again, it is refused. A
/// session that begins later does not inherit it.
pub proof fn an_abort_is_granted_once(
    r: RecorderView,
    id: u64,
    first: Option<Seq<char>>,
    second: Option<Seq<char>>,
    dir: Seq<char>,
)
    requires
        r.may_fail(id, first),
    ensures
        !r.failed().may_fail(id, second),
        r.session_id < u64::MAX - 1 ==> !r.failed().begun(dir).may_fail(id, second),
{
}

/// States that have already ended the session, or paused it, refuse an abort.
pub proof fn an_ended_session_refuses_aborts(r: RecorderView, id: u64, expect_last: Option<Seq<char>>)
    requires
        r.status == Status::Paused || r.status == Status::Finalizing || r.status == Status::Idle,
    ensures
        !r.may_fail(id, expect_last),
{
}

/// A watchdog that was armed for an earlier segment cannot shoot down a later
/// one.
pub proof fn an_old_watchdog_spares_the_new_segment(
    r: RecorderView,
    id: u64,
    child: u64,
    old_path: Seq<char>,
    new_path: Seq<char>,
)
    requires
        !same_path(r.platform, new_path, old_path),
    ensures
        !r.with_segment(child, new_path).recording().may_fail(id, Some(old_path)),
{
}

proof fn lemma_value_of_zeros(n: nat, s: Seq<char>)
    ensures
        value(Seq::new(n, |i: int| '0') + s) == value(s),
    decreases s.len(), n,
{
    let zeros = Seq::new(n, |i: int| '0');
    if s.len() > 0 {
        assert((zeros + s).drop_last() == zeros + s.drop_last());
        lemma_value_of_zeros(n, s.drop_last());
    } else if n > 0 {
        let fewer = Seq::new((n - 1) as nat, |i: int| '0');
        assert((zeros + s).drop_last() =~= fewer + s);
        lemma_value_of_zeros((n - 1) as nat, s);
    } else {
        assert(zeros + s =~= s);
    }
}

/// No two segments of a session share a file name, so none overwrites another
/// and each can be told from the one before a pause.
pub proof fn segment_names_differ(m: nat, n: nat)
    requires
        m != n,
    ensures
        segment_name(m) != segment_name(n),
{
    lemma_dec(m);
    lemma_dec(n);
    let a = zero_padded(dec(m), 3);
    let b = zero_padded(dec(n), 3);
    if dec(m).len() < 3 {
        lemma_value_of_zeros((3 - dec(m).len()) as nat, dec(m));
    }
    if dec(n).len() < 3 {
        lemma_value_of_zeros((3 - dec(n).len()) as nat, dec(n));
    }
    assert(value(a) == m && value(b) == n);
    if segment_name(m) == segment_name(n) {
        let head = "seg_"@.len() as int;
        assert(segment_name(m).len() == segment_name(n).len());
        assert(segment_name(m).subrange(head, head + a.len()) =~= a);
        assert(segment_name(n).subrange(head, head + b.len()) =~= b);
        assert(a == b);
    }
}

proof fn lemma_segment_name_is_plain(n: nat)
    ensures
        plain_name(segment_name(n)),
{
    reveal_strlit("");
    reveal_strlit(".");
    reveal_strlit("seg_");
    reveal_strlit(".mp4");
    lemma_dec(n);
    let number = zero_padded(dec(n), 3);
    let name = segment_name(n);
    assert("seg_"@.len() == 4);
    assert(""@.len() == 0 && "."@.len() == 1);
    assert(name.len() >= 4);
    assert forall|k: int| 0 <= k < name.len() implies name[k] != '/' && name[k] != '\\' by {
        if 4 <= k < 4 + number.len() {
            assert(name[k] == number[k - 4]);
            assert(is_digit(number[k - 4]));
        }
    }
}

/// Segments of one session differ as paths too, in whatever folder it is: a
/// watchdog that was armed for one of them cannot shoot down another.
pub proof fn a_watchdog_knows_its_segment(
    r: RecorderView,
    id: u64,
    child: u64,
    dir: Seq<char>,
    separator: char,
    armed_for: nat,
    running: nat,
)
    requires
        separator == '/' || (separator == '\\' && r.platform == Platform::Windows),
        armed_for != running,
    ensures
        ({
            let old_path = dir + seq![separator] + segment_name(armed_for);
            let new_path = dir + seq![separator] + segment_name(running);
            !r.with_segment(child, new_path).recording().may_fail(id, Some(old_path))
        }),
{
    segment_names_differ(armed_for, running);
    lemma_segment_name_is_plain(armed_for);
    lemma_segment_name_is_plain(running);
    other_names_are_other_paths(
        r.platform,
        dir,
        separator,
        segment_name(running),
        segment_name(armed_for),
    );
}

/// The watchdog of the segment that is running can always shoot it down while it
/// records.
pub proof fn a_watchdog_finds_its_segment(r: RecorderView, child: u64, path: Seq<char>)
    ensures
        r.with_segment(child, path).recording().may_fail(r.session_id, Some(path)),
{
}

// ---------------------------------------------------------------------------
// Session numbers

/// Session numbers only grow: a start, a cancelled countdown, an abort and a
/// shutdown each take a new one, everything else keeps it.
pub proof fn session_numbers_only_grow(r: RecorderView, dir: Seq<char>, cfg: ConfigView)
    requires
        r.session_id < u64::MAX,
    ensures
        r.begun(dir).session_id > r.session_id,
        r.failed().session_id > r.session_id,
        r.shut_down().session_id > r.session_id,
        r.status == Status::Countdown ==> r.stopped()->0.session_id > r.session_id,
        r.status == Status::Recording || r.status == Status::Paused ==> r.stopped()->0.session_id
            == r.session_id,
        r.finalized().session_id == r.session_id,
        r.recording().session_id == r.session_id,
        r.paused().session_id == r.session_id,
        r.with_config(cfg).session_id == r.session_id,
{
}

/// A countdown ends when its session is cancelled, aborted or shut down, and
/// does not come back to life when another session begins.
pub proof fn a_cancelled_countdown_stays_dead(r: RecorderView, id: u64, dir: Seq<char>)
    requires
        r.counting(id),
    ensures
        !r.stopped()->0.counting(id),
        !r.failed().counting(id),
        !r.shut_down().counting(id),
        id < u64::MAX - 1 ==> {
            &&& !r.stopped()->0.begun(dir).counting(id)
            &&& !r.failed().begun(dir).counting(id)
            &&& !r.shut_down().begun(dir).counting(id)
        },
{
}

/// A process that was asked to finish is never killed once it has ended, and
/// otherwise exactly when it has been waited for for four seconds.
pub proof fn a_process_has_four_seconds_to_finish(polls: u32, ended: bool)
    ensures
        STOP_POLLS * STOP_POLL_MS == 4000,
        stop_after(polls, ended) == StopStep::Done <==> ended,
        stop_after(polls, ended) == StopStep::Kill <==> !ended && polls * STOP_POLL_MS >= 4000,
{
}

/// A cancelled countdown shows no further number and begins nothing; one that
/// goes on shows a smaller number each second, down to one, and only then begins.
pub proof fn a_countdown_goes_down(n: u32, counting: bool)
    requires
        1 <= n <= COUNTDOWN_FROM,
    ensures
        !counting ==> countdown_after(Some(n), counting) == CountdownStep::Cancelled,
        counting && n > 1 ==> countdown_after(Some(n), counting) == CountdownStep::Show((n - 1) as u32),
        countdown_after(Some(n), counting) == CountdownStep::Begin <==> counting && n == 1,
        countdown_after(None, counting) == CountdownStep::Show(COUNTDOWN_FROM),
{
}

// ---------------------------------------------------------------------------
// The shape of the machine

/// Idle -> Countdown -> Recording <-> Paused -> Finalizing -> Idle, with a way
/// back to Idle from a countdown or a recording that fails.
pub open spec fn follows(from: Status, to: Status) -> bool {
    match from {
        Status::Idle => to == Status::Countdown,
        Status::Countdown => to == Status::Recording || to == Status::Idle,
        Status::Recording => to == Status::Paused || to == Status::Finalizing || to == Status::Idle,
        Status::Paused => to == Status::Recording || to == Status::Finalizing,
        Status::Finalizing => to == Status::Idle,
    }
}

/// Every transition is one of the machine's. (A shutdown goes to Idle from
/// anywhere.)
pub proof fn transitions_follow_the_machine(
    r: RecorderView,
    dir: Seq<char>,
    id: u64,
    expect_last: Option<Seq<char>>,
)
    ensures
        r.status == Status::Idle ==> follows(r.status, r.begun(dir).status),
        r.status == Status::Countdown || r.status == Status::Paused ==> follows(
            r.status,
            r.recording().status,
        ),
        r.status == Status::Recording ==> follows(r.status, r.paused().status),
        r.stopped() matches Some(after) ==> follows(r.status, after.status),
        r.may_fail(id, expect_last) ==> follows(r.status, r.failed().status),
        r.status == Status::Finalizing ==> follows(r.status, r.finalized().status),
        r.shut_down().status == Status::Idle,
{
}

/// A session that is under way has a folder.
pub open spec fn has_its_folder(r: RecorderView) -> bool {
    r.status != Status::Idle ==> r.session_dir is Some
}

/// Every transition keeps a folder for the session that is under way. (The
/// session must not have been cancelled between the start of its segment and
/// the step to Recording.)
pub proof fn a_live_session_keeps_its_folder(
    r: RecorderView,
    dir: Seq<char>,
    child: u64,
    path: Seq<char>,
    cfg: ConfigView,
)
    requires
        has_its_folder(r),
    ensures
        has_its_folder(RecorderView::fresh()),
        has_its_folder(r.begun(dir)),
        has_its_folder(r.with_segment(child, path)),
        r.status != Status::Idle ==> has_its_folder(r.recording()),
        r.status == Status::Recording ==> has_its_folder(r.paused()),
        r.stopped() matches Some(after) ==> has_its_folder(after),
        has_its_folder(r.failed()),
        has_its_folder(r.finalized()),
        has_its_folder(r.shut_down()),
        has_its_folder(r.with_config(cfg)),
{
}

// ---------------------------------------------------------------------------
// Configuration

/// A region is never recorded against another display than the one it was drawn
/// on.
pub proof fn a_region_stays_on_its_display(r: RecorderView, cfg: ConfigView)
    ensures
        r.with_config(cfg).region matches Some(g) ==> g.monitor_index == cfg.monitor_index,
        r.with_config(cfg).target_monitor() == cfg.monitor_index,
        cfg.mode != "region"@ ==> r.with_config(cfg).target_region() is None,
{
}

proof fn lemma_first_available(available: Seq<Seq<char>>, hw: Seq<Seq<char>>, i: int)
    requires
        0 <= i <= hw.len(),
    ensures
        ({
            let e = first_available(available, hw, i);
            ||| exists|k: int| i <= k < hw.len() && #[trigger] hw[k] == e && available.contains(e)
                && forall|j: int| i <= j < k ==> !available.contains(hw[j])
            ||| e == "libx264"@ && forall|j: int| i <= j < hw.len() ==> !available.contains(hw[j])
        }),
    decreases hw.len() - i,
{
    if i < hw.len() && !available.contains(hw[i]) {
        lemma_first_available(available, hw, i + 1);
        let e = first_available(available, hw, i);
        if exists|k: int| i + 1 <= k < hw.len() && #[trigger] hw[k] == e && available.contains(e)
            && forall|j: int| i + 1 <= j < k ==> !available.contains(hw[j]) {
            let k = choose|k: int| i + 1 <= k < hw.len() && #[trigger] hw[k] == e && available.contains(e)
                && forall|j: int| i + 1 <= j < k ==> !available.contains(hw[j]);
            assert forall|j: int| i <= j < k implies !available.contains(hw[j]) by {
                if j > i {
                }
            }
            assert(hw[k] == e);
        }
    } else if i < hw.len() {
        assert(hw[i] == first_available(available, hw, i));
    }
}

/// "auto" picks the first hardware encoder that works here, and falls back to
/// software only where none does.
pub proof fn auto_prefers_hardware(available: Seq<Seq<char>>, backend: Backend)
    ensures
        ({
            let e = chosen_encoder("auto"@, available, backend.encoders());
            ||| exists|k: int| 0 <= k < backend.encoders().len() && #[trigger] backend.encoders()[k] == e
                && available.contains(e) && forall|j: int| 0 <= j < k ==> !available.contains(
                backend.encoders()[j],
            )
            ||| e == "libx264"@ && forall|j: int| 0 <= j < backend.encoders().len()
                ==> !available.contains(#[trigger] backend.encoders()[j])
        }),
{
    lemma_first_available(available, backend.encoders(), 0);
}

// ---------------------------------------------------------------------------
// Finalizing

proof fn lemma_good_segments(segments: Seq<Seq<char>>, sizes: Seq<Option<u64>>, n: int, i: int)
    requires
        0 <= i < n <= sizes.len(),
        sizes[i] is Some,
        sizes[i]->0 > MIN_SEGMENT_BYTES,
    ensures
        good_segments(segments, sizes, n).contains(segments[i]),
    decreases n,
{
    if i < n - 1 {
        lemma_good_segments(segments, sizes, n - 1, i);
        let shorter = good_segments(segments, sizes, n - 1);
        let k = choose|k: int| 0 <= k < shorter.len() && shorter[k] == segments[i];
        assert(good_segments(segments, sizes, n)[k] == segments[i]);
    } else {
        let all = good_segments(segments, sizes, n);
        assert(all[all.len() - 1] == segments[i]);
    }
}

/// A segment that holds video is part of the recording, and a recording with
/// such a segment is never reported as empty.
pub proof fn captured_video_is_kept(r: RecorderView, sizes: Seq<Option<u64>>, i: int)
    requires
        sizes.len() == r.segments.len(),
        0 <= i < sizes.len(),
        sizes[i] is Some,
        sizes[i]->0 > MIN_SEGMENT_BYTES,
    ensures
        ({
            let good = good_segments(r.segments, sizes, sizes.len() as int);
            &&& good.contains(r.segments[i])
            &&& r.ffmpeg_path is Some && r.session_dir is Some ==> finalize_refusal(r, good) is None
        }),
{
    lemma_good_segments(r.segments, sizes, sizes.len() as int, i);
}

/// A text that is a whole number of lines: empty, or ended by a line feed.
pub open spec fn whole_lines(s: Seq<char>) -> bool {
    s.len() == 0 || s.last() == '\n'
}

/// A text that can be a line.
pub open spec fn one_line(s: Seq<char>) -> bool {
    !s.contains('\n') && s.len() > 0 && s.last() != '\r'
}

proof fn lemma_lines_push(s: Seq<char>, line: Seq<char>, i: int)
    requires
        whole_lines(s),
        one_line(line),
        0 <= i <= s.len(),
    ensures
        lines_from(s + line + "\n"@, i) == lines_from(s, i).push(line),
    decreases s.len() - i,
{
    reveal_strlit("\n");
    let all = s + line + "\n"@;
    if i == s.len() {
        let j = (s.len() + line.len()) as int;
        assert forall|k: int| i <= k < j implies all[k] != '\n' by {
            assert(all[k] == line[k - i]);
            assert(line.contains(line[k - i]));
        }
        lemma_index_from_is(all, '\n', i, j);
        assert(all.subrange(i, j) =~= line);
        assert(without_cr(line) == line);
        assert(lines_from(all, j + 1) =~= Seq::empty());
        assert(lines_from(all, i) =~= seq![line]);
        assert(lines_from(s, i).push(line) =~= seq![line]);
    } else {
        let j = index_from(s, '\n', i);
        lemma_index_from(s, '\n', i);
        assert(j < s.len()) by {
            assert(s[s.len() - 1] == '\n');
        }
        assert(all[j] == s[j]);
        assert forall|k: int| i <= k < j implies all[k] != '\n' by {
            assert(all[k] == s[k]);
        }
        lemma_index_from_is(all, '\n', i, j);
        assert(all.subrange(i, j) =~= s.subrange(i, j));
        lemma_lines_push(s, line, j + 1);
        let first = seq![without_cr(s.subrange(i, j))];
        assert(lines_from(all, i) == first + lines_from(all, j + 1));
        assert(first + lines_from(s, j + 1).push(line) =~= (first + lines_from(s, j + 1)).push(line));
    }
}

proof fn lemma_whole_list(segments: Seq<Seq<char>>)
    ensures
        whole_lines(concat_list(segments)),
{
    reveal_strlit("\n");
}

proof fn lemma_replaced_line(s: Seq<char>, c: char, with: Seq<char>)
    requires
        !s.contains('\n'),
        !with.contains('\n'),
    ensures
        !replaced(s, c, with).contains('\n'),
    decreases s.len(),
{
    if s.len() > 0 {
        let before = s.drop_last();
        assert forall|k: int| 0 <= k < before.len() implies before[k] != '\n' by {
            assert(s.contains(s[k]));
        }
        lemma_replaced_line(before, c, with);
        assert(s.contains(s.last()));
        let all = replaced(s, c, with);
        let old_part = replaced(before, c, with);
        assert forall|k: int| 0 <= k < all.len() implies all[k] != '\n' by {
            if k < old_part.len() {
                assert(all[k] == old_part[k]);
                assert(old_part.contains(old_part[k]));
            } else if s.last() == c {
                assert(all[k] == with[k - old_part.len()]);
                assert(with.contains(with[k - old_part.len()]));
            }
        }
    }
}

proof fn lemma_concat_line_is_one_line(path: Seq<char>)
    requires
        !path.contains('\n'),
    ensures
        one_line(concat_line(path)),
{
    reveal_strlit("/");
    reveal_strlit("'\\''");
    reveal_strlit("file '");
    reveal_strlit("'");
    let slashed = replaced(path, '\\', "/"@);
    lemma_replaced_line(path, '\\', "/"@);
    lemma_replaced_line(slashed, '\'', "'\\''"@);
    let quoted = replaced(slashed, '\'', "'\\''"@);
    let line = concat_line(path);
    assert forall|k: int| 0 <= k < line.len() implies line[k] != '\n' by {
        if 6 <= k < 6 + quoted.len() {
            assert(line[k] == quoted[k - 6]);
            assert(quoted.contains(quoted[k - 6]));
        }
    }
    assert(line.last() == '\'');
}

/// The list that ffmpeg joins names every segment on a line of its own, once and
/// in the order of recording. (A path with a line feed in it would break the
/// list apart.)
pub proof fn the_list_names_the_segments_in_order(segments: Seq<Seq<char>>)
    requires
        forall|i: int| 0 <= i < segments.len() ==> !(#[trigger] segments[i]).contains('\n'),
    ensures
        lines_of(concat_list(segments)) == segments.map_values(|p: Seq<char>| concat_line(p)),
    decreases segments.len(),
{
    let named = segments.map_values(|p: Seq<char>| concat_line(p));
    if segments.len() > 0 {
        let before = segments.drop_last();
        the_list_names_the_segments_in_order(before);
        lemma_whole_list(before);
        lemma_concat_line_is_one_line(segments.last());
        lemma_lines_push(concat_list(before), concat_line(segments.last()), 0);
        assert(named =~= before.map_values(|p: Seq<char>| concat_line(p)).push(concat_line(segments.last())));
    } else {
        assert(lines_of(concat_list(segments)) =~= named);
    }
}

/// `p` lists the positions of the segments whose file holds more than a kilobyte,
/// each once and from the first to the last.
pub open spec fn holds_video(sizes: Seq<Option<u64>>, p: Seq<int>) -> bool {
    &&& forall|a: int, b: int| 0 <= a < b < p.len() ==> p[a] < p[b]
    &&& forall|a: int| 0 <= a < p.len() ==> 0 <= #[trigger] p[a] < sizes.len() && sizes[p[a]] is Some
        && sizes[p[a]]->0 > 1024
    &&& forall|i: int|
        0 <= i < sizes.len() && (#[trigger] sizes[i]) is Some && sizes[i]->0 > 1024 ==> p.contains(i)
}

/// The parts of `all` at the positions `p`.
pub open spec fn picked(all: Seq<Seq<char>>, p: Seq<int>) -> Seq<Seq<char>> {
    p.map_values(|i: int| all[i])
}

proof fn lemma_good_positions(segments: Seq<Seq<char>>, sizes: Seq<Option<u64>>, n: int) -> (p: Seq<int>)
    requires
        0 <= n <= sizes.len(),
    ensures
        holds_video(sizes.take(n), p),
        good_segments(segments, sizes, n) == picked(segments, p),
    decreases n,
{
    if n == 0 {
        let p = Seq::<int>::empty();
        assert(good_segments(segments, sizes, n) =~= picked(segments, p));
        p
    } else {
        let before = lemma_good_positions(segments, sizes, n - 1);
        let (old_sizes, new_sizes) = (sizes.take(n - 1), sizes.take(n));
        assert(forall|i: int| 0 <= i < n - 1 ==> old_sizes[i] == new_sizes[i]);
        assert(new_sizes[n - 1] == sizes[n - 1]);
        if sizes[n - 1] is Some && sizes[n - 1]->0 > MIN_SEGMENT_BYTES {
            let p = before.push(n - 1);
            assert(good_segments(segments, sizes, n) =~= picked(segments, p));
            assert forall|i: int|
                0 <= i < n && (#[trigger] new_sizes[i]) is Some && new_sizes[i]->0 > 1024 implies p.contains(i) by {
                if i < n - 1 {
                    assert(old_sizes[i] is Some && old_sizes[i]->0 > 1024);
                    let a = choose|a: int| 0 <= a < before.len() && before[a] == i;
                    assert(p[a] == i);
                } else {
                    assert(p[p.len() - 1] == i);
                }
            }
            p
        } else {
            assert forall|i: int|
                0 <= i < n && (#[trigger] new_sizes[i]) is Some && new_sizes[i]->0 > 1024 implies before.contains(
                i,
            ) by {
                assert(old_sizes[i] is Some && old_sizes[i]->0 > 1024);
            }
            before
        }
    }
}

/// What is joined is what was recorded, in the order in which it was recorded:
/// every segment that holds video, and none besides.
pub proof fn segments_are_joined_in_recording_order(segments: Seq<Seq<char>>, sizes: Seq<Option<u64>>)
    requires
        sizes.len() == segments.len(),
    ensures
        exists|p: Seq<int>|
            #[trigger] holds_video(sizes, p) && good_segments(segments, sizes, sizes.len() as int) == picked(
                segments,
                p,
            ),
{
    let p = lemma_good_positions(segments, sizes, sizes.len() as int);
    assert(sizes.take(sizes.len() as int) =~= sizes);
    assert(holds_video(sizes, p));
}

/// There is only one such list of positions.
proof fn lemma_positions_are_unique(sizes: Seq<Option<u64>>, p: Seq<int>, q: Seq<int>)
    requires
        holds_video(sizes, p),
        holds_video(sizes, q),
    ensures
        p == q,
    decreases p.len() + q.len(),
{
    if p.len() > 0 && q.len() > 0 {
        let (x, y) = (p.last(), q.last());
        assert(sizes[x] is Some && sizes[y] is Some);
        assert(q.contains(x) && p.contains(y));
        let a = choose|a: int| 0 <= a < q.len() && q[a] == x;
        let b = choose|b: int| 0 <= b < p.len() && p[b] == y;
        assert(x == y) by {
            if a < q.len() - 1 {
                assert(q[a] < q[q.len() - 1]);
            }
            if b < p.len() - 1 {
                assert(p[b] < p[p.len() - 1]);
            }
        }
        let (p0, q0) = (p.drop_last(), q.drop_last());
        let shorter = sizes.take(x);
        assert forall|i: int| 0 <= i < x && (#[trigger] shorter[i]) is Some && shorter[i]->0 > 1024 implies p0.contains(
            i,
        ) && q0.contains(i) by {
            assert(sizes[i] is Some && sizes[i]->0 > 1024);
            let a = choose|a: int| 0 <= a < p.len() && p[a] == i;
            let b = choose|b: int| 0 <= b < q.len() && q[b] == i;
            assert(p0[a] == i && q0[b] == i);
        }
        assert forall|a: int| 0 <= a < p0.len() implies 0 <= #[trigger] p0[a] < x by {
            assert(p[a] < p[p.len() - 1]);
            assert(sizes[p[a]] is Some);
        }
        assert forall|a: int| 0 <= a < q0.len() implies 0 <= #[trigger] q0[a] < x by {
            assert(q[a] < q[q.len() - 1]);
            assert(sizes[q[a]] is Some);
        }
        assert(holds_video(shorter, p0));
        assert(holds_video(shorter, q0));
        lemma_positions_are_unique(shorter, p0, q0);
        assert(p =~= p0.push(x) && q =~= q0.push(x));
    } else {
        if p.len() > 0 {
            assert(sizes[p[0]] is Some);
            assert(q.contains(p[0]));
        }
        if q.len() > 0 {
            assert(sizes[q[0]] is Some);
            assert(p.contains(q[0]));
        }
        assert(p =~= q);
    }
}

/// The end of a recording, from its segments and the sizes of their files. One
/// segment with video is the recording as it is. Several are joined: the list
/// names each of them on a line of its own, in the order of recording, with
/// forward slashes. Nothing but the lack of video, or of ffmpeg or a folder where
/// there is something to join, stands in the way.
pub proof fn a_recording_is_made_of_its_segments(
    r: RecorderView,
    sizes: Seq<Option<u64>>,
    p: Seq<int>,
    plan: FinalizePlan,
)
    requires
        sizes.len() == r.segments.len(),
        holds_video(sizes, p),
    ensures
        ({
            let good = good_segments(r.segments, sizes, sizes.len() as int);
            &&& finalize_refusal(r, good) is None <==> p.len() == 1 || (p.len() > 1 && r.ffmpeg_path is Some
                && r.session_dir is Some)
            &&& p.len() == 0 ==> finalize_refusal(r, good) == Some(
                "No video was captured — ffmpeg produced nothing."@,
            )
            &&& p.len() > 1 && r.ffmpeg_path is None ==> finalize_refusal(r, good) == Some("ffmpeg not found"@)
            &&& p.len() > 1 && r.ffmpeg_path is Some && r.session_dir is None ==> finalize_refusal(r, good)
                == Some("no session folder"@)
            &&& finalize_refusal(r, good) is None && is_plan(r, good, plan) ==> match plan {
                FinalizePlan::Move(path) => p.len() == 1 && path@ == r.segments[p[0]],
                FinalizePlan::Concat { ffmpeg, session_dir, list } => {
                    &&& p.len() > 1
                    &&& r.ffmpeg_path == Some(ffmpeg@)
                    &&& r.session_dir == Some(session_dir@)
                    &&& (forall|a: int| 0 <= a < p.len() ==> !r.segments[#[trigger] p[a]].contains('\n')) ==> {
                        &&& lines_of(list@).len() == p.len()
                        &&& forall|a: int|
                            0 <= a < p.len() ==> names_file(
                                #[trigger] lines_of(list@)[a],
                                replaced(r.segments[p[a]], '\\', seq!['/']),
                            )
                    }
                },
            }
        }),
{
    let good = good_segments(r.segments, sizes, sizes.len() as int);
    segments_are_joined_in_recording_order(r.segments, sizes);
    let q = choose|q: Seq<int>| #[trigger] holds_video(sizes, q) && good == picked(r.segments, q);
    lemma_positions_are_unique(sizes, p, q);
    assert(good.len() == p.len());
    if good.len() > 1 && (forall|a: int| 0 <= a < p.len() ==> !r.segments[#[trigger] p[a]].contains('\n')) {
        assert forall|i: int| 0 <= i < good.len() implies !(#[trigger] good[i]).contains('\n') by {
            assert(good[i] == r.segments[p[i]]);
        }
        the_list_names_the_segments_in_order(good);
        assert forall|a: int| 0 <= a < p.len() implies names_file(
            #[trigger] lines_of(concat_list(good))[a],
            replaced(r.segments[p[a]], '\\', seq!['/']),
        ) by {
            a_list_line_names_its_segment(good[a]);
            reveal_strlit("/");
            assert("/"@ =~= seq!['/']);
            reveal_strlit("file ");
            assert("file "@.len() == 5);
        }
    }
}

/// What a line of the list has ffmpeg read: the file `path`.
pub open spec fn names_file(line: Seq<char>, path: Seq<char>) -> bool {
    begins(line, "file "@) && demuxed(line.skip(5), false) == path
}

// ---------------------------------------------------------------------------
// What each step changes, and what it leaves

/// Everything that the user set or the program found out: no step of a session
/// touches it.
pub open spec fn same_setup(a: RecorderView, b: RecorderView) -> bool {
    &&& a.config == b.config
    &&& a.region == b.region
    &&& a.pending_overlay_monitor == b.pending_overlay_monitor
    &&& a.ffmpeg_path == b.ffmpeg_path
    &&& a.encoders == b.encoders
    &&& a.screens == b.screens
    &&& a.platform == b.platform
}

/// No step of a session touches the settings.
pub proof fn sessions_leave_the_settings_alone(
    r: RecorderView,
    dir: Seq<char>,
    child: u64,
    path: Seq<char>,
)
    ensures
        same_setup(r.begun(dir), r),
        same_setup(r.with_segment(child, path), r),
        same_setup(r.recording(), r),
        same_setup(r.paused(), r),
        same_setup(r.failed(), r),
        same_setup(r.finalized(), r),
        same_setup(r.shut_down(), r),
        r.stopped() matches Some(after) ==> same_setup(after, r),
{
}

/// A session begins in its folder, without segments. Each segment is added behind
/// those before it, and its process is the one that runs. A pause lets go of the
/// process and keeps all else, so that a recording that was paused and resumed
/// holds what was recorded before, and then what came after.
pub proof fn a_session_collects_its_segments(
    r: RecorderView,
    dir: Seq<char>,
    child: u64,
    path: Seq<char>,
)
    ensures
        ({
            let b = r.begun(dir);
            &&& b.session_dir == Some(dir) && b.segments.len() == 0 && b.status == Status::Countdown
            &&& b.child == r.child
        }),
        ({
            let s = r.with_segment(child, path);
            &&& s.segments.len() == r.segments.len() + 1
            &&& s.segments.last() == path
            &&& forall|i: int| 0 <= i < r.segments.len() ==> s.segments[i] == r.segments[i]
            &&& s.child == Some(child)
            &&& s.session_dir == r.session_dir && s.session_id == r.session_id && s.status == r.status
        }),
        ({
            let p = r.paused();
            &&& p.status == Status::Paused && p.child is None
            &&& p.segments == r.segments && p.session_dir == r.session_dir && p.session_id == r.session_id
        }),
        ({
            let again = r.paused().with_segment(child, path).recording();
            &&& again.status == Status::Recording && again.child == Some(child)
            &&& again.segments.drop_last() == r.segments && again.segments.last() == path
            &&& again.session_dir == r.session_dir && again.session_id == r.session_id
        }),
        ({
            let on = r.recording();
            &&& on.status == Status::Recording && on.child == r.child && on.segments == r.segments
            &&& on.session_dir == r.session_dir && on.session_id == r.session_id
        }),
{
    assert(r.segments.push(path).drop_last() =~= r.segments);
}

/// A session ends in one way or another: nothing of it is left after an abort or
/// after finalizing, a stop leaves the segments to be joined, a cancelled
/// countdown gives up its folder, and a shutdown lets go of the process.
pub proof fn a_session_ends_cleanly(r: RecorderView)
    ensures
        ({
            let f = r.failed();
            f.status == Status::Idle && f.segments.len() == 0 && f.child is None && f.session_dir is None
        }),
        ({
            let f = r.finalized();
            f.status == Status::Idle && f.segments.len() == 0 && f.child is None && f.session_dir is None
        }),
        r.shut_down().status == Status::Idle && r.shut_down().child is None && r.shut_down().segments
            == r.segments && r.shut_down().session_dir == r.session_dir,
        r.stopped() is Some <==> r.status == Status::Countdown || r.status == Status::Recording || r.status
            == Status::Paused,
        r.status == Status::Countdown ==> r.stopped()->0.status == Status::Idle && r.stopped()->0.session_dir is None,
        r.status == Status::Recording || r.status == Status::Paused ==> {
            let s = r.stopped()->0;
            &&& s.status == Status::Finalizing
            &&& s.segments == r.segments
            &&& s.session_dir == r.session_dir
            &&& r.status == Status::Recording ==> s.child is None
            &&& r.status == Status::Paused ==> s.child == r.child
        },
{
}

/// A recording can start when nothing is recorded, ffmpeg is there, a region is
/// drawn where one is to be recorded, and there is a folder for it; the first of
/// these that is missing is named.
pub proof fn a_start_needs_four_things(r: RecorderView, hint: Seq<char>)
    ensures
        r.start_refusal(hint) is None <==> r.status == Status::Idle && r.ffmpeg_path is Some && (r.config.mode
            == "region"@ ==> r.region is Some) && r.config.output_dir.len() > 0,
        r.status != Status::Idle ==> r.start_refusal(hint) == Some("Already recording."@),
        r.status == Status::Idle && r.ffmpeg_path is None ==> r.start_refusal(hint) == Some(hint),
        r.status == Status::Idle && r.ffmpeg_path is Some && r.config.mode == "region"@ && r.region is None
            ==> r.start_refusal(hint) == Some("Select a region first."@),
        r.status == Status::Idle && r.ffmpeg_path is Some && (r.config.mode != "region"@ || r.region is Some)
            && r.config.output_dir.len() == 0 ==> r.start_refusal(hint) == Some(
            "Choose an output folder first."@,
        ),
{
}

/// A segment is started only for the session that is under way, with an ffmpeg and
/// a folder.
pub proof fn a_segment_belongs_to_its_session(r: RecorderView, id: u64)
    ensures
        r.segment_refusal(id) is None <==> r.session_id == id && r.ffmpeg_path is Some && r.session_dir is Some,
        r.session_id != id ==> r.segment_refusal(id) == Some("session was cancelled"@),
        r.session_id == id && r.ffmpeg_path is None ==> r.segment_refusal(id) == Some("ffmpeg not found"@),
        r.session_id == id && r.ffmpeg_path is Some && r.session_dir is None ==> r.segment_refusal(id) == Some(
            "no active session"@,
        ),
        r.being_written(id) <==> r.session_id == id && (r.status == Status::Recording || r.status
            == Status::Paused),
        r.counting(id) <==> r.session_id == id && r.status == Status::Countdown,
{
}

/// An abort of the session that is under way is granted while it counts down or
/// records, and only then, and only if the segment that it is about is still the
/// last.
pub proof fn who_may_abort(r: RecorderView, id: u64, expect_last: Option<Seq<char>>)
    ensures
        r.may_fail(id, expect_last) ==> r.session_id == id && (r.status == Status::Countdown || r.status
            == Status::Recording),
        r.session_id == id && (r.status == Status::Countdown || r.status == Status::Recording) ==> r.may_fail(
            id,
            None,
        ),
        r.may_fail(id, expect_last) && expect_last is Some ==> r.segments.len() > 0,
        r.session_id == id && (r.status == Status::Countdown || r.status == Status::Recording) && r.segments.len()
            > 0 ==> r.may_fail(id, Some(r.segments.last())),
{
}

// ---------------------------------------------------------------------------
// What is recorded

/// What was drawn on the overlay is what is recorded: on the display that the
/// overlay covered, at the offset and with the size that were drawn, as far as
/// they can be encoded. Nothing else of the settings changes.
pub proof fn a_selection_is_recorded_where_it_was_drawn(r: RecorderView, sel: RegionSel)
    ensures
        ({
            let s = r.with_selection(sel);
            let g = s.region->0;
            &&& s.region is Some
            &&& s.target_region() == s.region && s.target_monitor() == r.pending_overlay_monitor
            &&& g.monitor_index == r.pending_overlay_monitor
            &&& sel.x >= 0 ==> g.x == sel.x
            &&& sel.x < 0 ==> g.x == 0
            &&& sel.y >= 0 ==> g.y == sel.y
            &&& sel.y < 0 ==> g.y == 0
            &&& sel.width >= 2 ==> g.width % 2 == 0 && g.width <= sel.width < g.width + 2
            &&& sel.height >= 2 ==> g.height % 2 == 0 && g.height <= sel.height < g.height + 2
            &&& sel.width < 2 ==> g.width == 2
            &&& sel.height < 2 ==> g.height == 2
            &&& s.config.mode == "region"@
            &&& s.config == (ConfigView { mode: s.config.mode, ..r.config })
            &&& s == (RecorderView { region: s.region, config: s.config, ..r })
        }),
{
}

/// A configuration is adopted whole. A region is kept as long as the same display
/// is recorded by region, and dropped otherwise; nothing else changes.
pub proof fn a_configuration_is_adopted_whole(r: RecorderView, cfg: ConfigView)
    ensures
        ({
            let s = r.with_config(cfg);
            &&& s.config == cfg
            &&& s == (RecorderView { config: s.config, region: s.region, ..r })
            &&& r.region matches Some(g) ==> (if cfg.mode == "region"@ && g.monitor_index == cfg.monitor_index {
                s.region == Some(g)
            } else {
                s.region is None
            })
            &&& r.region is None ==> s.region is None
        }),
{
}

/// The region and the display that are captured: those of the region where one is
/// recorded, and the whole of the configured display otherwise.
pub proof fn the_target_follows_the_mode(r: RecorderView)
    ensures
        r.config.mode == "region"@ ==> r.target_region() == r.region,
        r.config.mode != "region"@ ==> r.target_region() is None && r.target_monitor() == r.config.monitor_index,
        r.config.mode == "region"@ && r.region is Some ==> r.target_monitor() == r.region->0.monitor_index,
        r.config.mode == "region"@ && r.region is None ==> r.target_monitor() == r.config.monitor_index,
{
}

/// A display is known to ffmpeg by the number that its listing gives it, or, where
/// it is not listed, by its place.
pub proof fn a_display_is_found_by_its_place(screens: Seq<(u32, Seq<char>)>, index: usize)
    ensures
        index < screens.len() ==> screen_id_of(screens, index) == screens[index as int].0,
        index >= screens.len() && index <= u32::MAX ==> screen_id_of(screens, index) == index,
{
}

/// An encoder that was asked for by name is used, whatever works here.
pub proof fn a_named_encoder_is_used(requested: Seq<char>, available: Seq<Seq<char>>, backend: Backend)
    requires
        requested != "auto"@,
    ensures
        chosen_encoder(requested, available, backend.encoders()) == requested,
{
}

/// What a segment is recorded with: the whole configuration, of the display and
/// the region that are to be captured, and nothing from elsewhere.
pub proof fn a_segment_records_the_target(r: RecorderView, backend: Backend, out: Seq<char>)
    ensures
        exists|target: CaptureTarget, encoder: Seq<char>|
            {
                &&& segment_command_of(r, backend, out) == #[trigger] backend.segment_args_of(
                    r.config,
                    target,
                    encoder,
                    out,
                )
                &&& r.config.mode == "region"@ ==> target.region == r.region
                &&& r.config.mode != "region"@ ==> target.region is None
                &&& r.config.encoder != "auto"@ ==> encoder == r.config.encoder
                &&& r.config.encoder == "auto"@ ==> encoder == "libx264"@ || r.encoders.contains(encoder)
                &&& ({
                    let monitor = if r.config.mode == "region"@ && r.region is Some {
                        r.region->0.monitor_index
                    } else {
                        r.config.monitor_index
                    };
                    &&& monitor < r.screens.len() ==> target.screen_id == r.screens[monitor as int].0
                    &&& r.screens.len() <= monitor <= u32::MAX ==> target.screen_id == monitor
                })
            },
{
    let target = CaptureTarget {
        screen_id: screen_id_of(r.screens, r.target_monitor()),
        region: r.target_region(),
    };
    let encoder = chosen_encoder(r.config.encoder, r.encoders, backend.encoders());
    lemma_first_available(r.encoders, backend.encoders(), 0);
    assert(segment_command_of(r, backend, out) == backend.segment_args_of(r.config, target, encoder, out));
}

/// The name of a segment tells its number, with at least three digits.
pub proof fn a_segment_is_numbered(n: nat)
    ensures
        ({
            let name = segment_name(n);
            let digits = name.subrange(4, name.len() - 4);
            &&& name.len() >= 11
            &&& name.take(4) == seq!['s', 'e', 'g', '_']
            &&& name.skip(name.len() - 4) == seq!['.', 'm', 'p', '4']
            &&& digits == dec(n) || (digits.len() == 3 && dec(n).len() < 3 && digits.skip(3 - dec(n).len())
                == dec(n) && forall|k: int| 0 <= k < 3 - dec(n).len() ==> digits[k] == '0')
        }),
{
    reveal_strlit("seg_");
    reveal_strlit(".mp4");
    let name = segment_name(n);
    let padded = zero_padded(dec(n), 3);
    lemma_dec(n);
    assert(name.take(4) =~= seq!['s', 'e', 'g', '_']);
    assert(name.skip(name.len() - 4) =~= seq!['.', 'm', 'p', '4']);
    assert(name.subrange(4, name.len() - 4) =~= padded);
    if dec(n).len() < 3 {
        assert(padded.skip(3 - dec(n).len()) =~= dec(n));
    }
}

/// Every state has a name of its own.
pub proof fn states_have_different_names(a: Status, b: Status)
    ensures
        a != b ==> a.text() != b.text(),
        Status::Idle.text() == "idle"@,
        Status::Recording.text() == "recording"@,
        Status::Paused.text() == "paused"@,
        Status::Countdown.text() == "countdown"@,
        Status::Finalizing.text() == "finalizing"@,
{
    reveal_strlit("idle");
    reveal_strlit("recording");
    reveal_strlit("paused");
    reveal_strlit("countdown");
    reveal_strlit("finalizing");
    assert("idle"@.len() == 4 && "paused"@.len() == 6 && "finalizing"@.len() == 10);
    assert("recording"@.len() == 9 && "recording"@[0] == 'r' && "countdown"@.len() == 9 && "countdown"@[0] == 'c');
}

/// What the contracts speak of is all that a configuration and a recorder hold.
pub proof fn nothing_is_left_out_of_view(c: RecordingConfig, r: Recorder)
    ensures
        c@.mode == c.mode@ && c@.monitor_index == c.monitor_index && c@.fps == c.fps && c@.encoder == c.encoder@,
        c@.capture_cursor == c.capture_cursor && c@.mic_enabled == c.mic_enabled && c@.output_dir == c.output_dir@,
        c@.mic_device is Some <==> c.mic_device is Some,
        c.mic_device matches Some(d) ==> c@.mic_device == Some(d@),
        r@.status == r.status && r@.config == r.config@ && r@.region == r.region,
        r@.pending_overlay_monitor == r.pending_overlay_monitor && r@.child == r.child,
        r@.session_id == r.session_id && r@.platform == r.platform,
        r.ffmpeg_path matches Some(p) ==> r@.ffmpeg_path == Some(p@),
        r.ffmpeg_path is None ==> r@.ffmpeg_path is None,
        r.session_dir matches Some(d) ==> r@.session_dir == Some(d@),
        r.session_dir is None ==> r@.session_dir is None,
        r@.segments.len() == r.segments@.len() && r@.encoders.len() == r.encoders@.len(),
        forall|i: int| 0 <= i < r.segments@.len() ==> #[trigger] r@.segments[i] == r.segments@[i]@,
        forall|i: int| 0 <= i < r.encoders@.len() ==> #[trigger] r@.encoders[i] == r.encoders@[i]@,
        r@.screens.len() == r.screens@.len(),
        forall|i: int|
            0 <= i < r.screens@.len() ==> #[trigger] r@.screens[i] == (r.screens@[i].id, r.screens@[i].label@),
{
}

} // verus!
