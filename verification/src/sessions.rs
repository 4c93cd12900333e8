//! The scratch folders that sessions leave their segments in, and what becomes
//! of those whose process is gone.

use crate::clock::{capture_stamp, compact_stamp, dashed_stamp, session_stamp};
use crate::numbers::{dec, dec_string, is_digit, lemma_dec, lemma_dec_parses, parse_uint, read_uint};
use crate::paths::{find_last_piece, last_piece, leaf, plain_name, trivial};
use crate::pieces::{joined, split, split_at};
use crate::text::{begins, contains, from_chars, has, last_index, lemma_last_index_is, rfind_char, same_chars, starts_with, to_chars, trim, trimmed, views};
use crate::text_laws::{joining_separates_neighbours, joining_undoes_splitting, splitting_undoes_joining};
use vstd::prelude::*;
use vstd::slice::slice_subrange;
use vstd::string::*;

verus! {

// ---------------------------------------------------------------------------
// Names

/// What the name of a session's folder begins with.
pub open spec fn session_prefix() -> Seq<char> {
    ".recap-tmp-"@
}

/// Name of the folder of a session that process `pid` started at `stamp`.
pub open spec fn session_name(stamp: Seq<char>, pid: nat) -> Seq<char> {
    session_prefix() + stamp + "-"@ + dec(pid)
}

/// Name of the scratch folder of a session.
///
/// The process is part of the name, not a file inside the folder: the claim then
/// exists from the instant the folder does, and two instances that start in the
/// same second cannot collide on one folder.
pub fn session_dir_name(stamp: &str, pid: u32) -> (r: String)
    ensures
        r@ == session_name(stamp@, pid as nat),
{
    let mut r: String = ".recap-tmp-".to_owned();
    r.append(stamp);
    r.append("-");
    r.append(dec_string(pid as u64).as_str());
    r
}

/// Name of the scratch folder of a session that process `pid` starts now.
pub fn new_session_name(pid: u32) -> (r: String)
    ensures
        exists|stamp: Seq<char>|
            compact_stamp(stamp) && r@ == #[trigger] session_name(stamp, pid as nat),
{
    let stamp: String = session_stamp();
    session_dir_name(stamp.as_str(), pid)
}

/// File name of a finished recording.
pub open spec fn recording_file(stamp: Seq<char>) -> Seq<char> {
    "Recap_"@ + stamp + ".mp4"@
}

pub fn recording_name(stamp: &str) -> (r: String)
    ensures
        r@ == recording_file(stamp@),
{
    let mut r: String = "Recap_".to_owned();
    r.append(stamp);
    r.append(".mp4");
    r
}

/// File name of a recording that is finished now.
pub fn new_recording_name() -> (r: String)
    ensures
        exists|stamp: Seq<char>| dashed_stamp(stamp) && r@ == #[trigger] recording_file(stamp),
{
    let stamp: String = capture_stamp();
    recording_name(stamp.as_str())
}

/// What follows the last dash of a name, or all of a name without one.
pub open spec fn last_field(name: Seq<char>) -> Seq<char> {
    match last_index(name, '-') {
        Some(i) => name.skip(i + 1),
        None => name,
    }
}

/// The process that a folder's name claims it for.
pub open spec fn owner_of(name: Seq<char>) -> Option<nat> {
    parse_uint(last_field(name), u32::MAX as nat)
}

/// The process in the name of a session's folder, if it has one. A stamp always
/// contains `_` and never `-`, so the last field is the process or nothing: a
/// name without one parses as unowned.
pub fn session_owner_pid(name: &str) -> (r: Option<u32>)
    ensures
        r matches Some(pid) ==> owner_of(name@) == Some(pid as nat),
        r is None ==> owner_of(name@) is None,
{
    let chars = to_chars(name);
    let n: usize = chars.len();
    let start: usize = match rfind_char(chars.as_slice(), '-') {
        Some(i) => i + 1,
        None => 0,
    };
    let field: &[char] = slice_subrange(chars.as_slice(), start, n);
    assert(field@ =~= last_field(name@));
    match read_uint(field, 0xffff_ffff) {
        Some(pid) => Some(pid as u32),
        None => None,
    }
}

/// The folder of a session names the process that started it.
pub proof fn a_session_folder_names_its_owner(stamp: Seq<char>, pid: nat)
    requires
        pid <= u32::MAX,
    ensures
        owner_of(session_name(stamp, pid)) == Some(pid),
{
    let name = session_name(stamp, pid);
    reveal_strlit("-");
    lemma_dec(pid);
    lemma_dec_parses(pid, u32::MAX as nat);
    let j = (session_prefix() + stamp).len() as int;
    assert(name[j] == '-');
    assert forall|k: int| j < k < name.len() implies name[k] != '-' by {
        assert(name[k] == dec(pid)[k - j - 1]);
        assert(is_digit(dec(pid)[k - j - 1]));
    }
    lemma_last_index_is(name, '-', name.len() as int, j);
    assert(last_field(name) =~= dec(pid));
}

/// Two processes that start a session in the same second do not share a folder.
pub proof fn two_processes_never_share_a_folder(stamp: Seq<char>, a: nat, b: nat)
    requires
        a <= u32::MAX,
        b <= u32::MAX,
        a != b,
    ensures
        session_name(stamp, a) != session_name(stamp, b),
{
    a_session_folder_names_its_owner(stamp, a);
    a_session_folder_names_its_owner(stamp, b);
}

/// A folder whose name carries no process is unowned: its time stamp is not
/// mistaken for one.
pub proof fn a_stamp_is_no_owner(stamp: Seq<char>)
    requires
        compact_stamp(stamp),
    ensures
        owner_of(session_prefix() + stamp) is None,
{
    let name = session_prefix() + stamp;
    reveal_strlit(".recap-tmp-");
    let n = stamp.len() - 11;
    let j = session_prefix().len() - 1;
    assert(name[j] == '-');
    assert forall|k: int| j < k < name.len() implies name[k] != '-' by {
        let i = k - j - 1;
        assert(name[k] == stamp[i]);
        if i < n {
            assert(stamp[i] == stamp.take(n)[i]);
        } else {
            assert(i == n || i == n + 1 || i == n + 2 || i == n + 3 || i == n + 4 || i == n + 5 || i == n
                + 6 || i == n + 7 || i == n + 8 || i == n + 9 || i == n + 10);
        }
    }
    lemma_last_index_is(name, '-', name.len() as int, j);
    assert(last_field(name) =~= stamp);
    let digits = stamp.skip(1);
    assert(stamp[n + 4] == '_' && digits[n + 3] == '_');
}

// ---------------------------------------------------------------------------
// Stale folders

/// How long a folder that no process claims must have sat untouched before it
/// counts as abandoned, in nanoseconds: thirty minutes.
pub const UNCLAIMED_MIN_AGE: i128 = 1800000000000;

/// Something in the output folder.
pub struct FolderEntry {
    pub name: String,
    pub is_dir: bool,
    /// Whether the process that the name claims it for is alive. Read only of a
    /// session's folder that a process claims.
    pub owner_alive: bool,
    /// When the folder, or anything in it, was last modified, if that is known.
    /// Read only of a session's folder that no process claims.
    pub newest: Option<i128>,
}

/// Who claims an entry of the output folder.
pub enum Claim {
    /// It is not a session's folder.
    Foreign,
    /// The session's process.
    Owned(u32),
    /// A session's folder without a process in its name.
    Unclaimed,
}

/// An entry is a session's folder.
pub open spec fn is_session(name: Seq<char>, is_dir: bool) -> bool {
    begins(name, session_prefix()) && is_dir
}

/// Whose folder an entry is: what has to be found out about it follows from
/// that.
pub fn claim_of(name: &str, is_dir: bool) -> (r: Claim)
    ensures
        match r {
            Claim::Foreign => !is_session(name@, is_dir),
            Claim::Owned(pid) => is_session(name@, is_dir) && owner_of(name@) == Some(pid as nat),
            Claim::Unclaimed => is_session(name@, is_dir) && owner_of(name@) is None,
        },
{
    if !starts_with(to_chars(name).as_slice(), ".recap-tmp-") || !is_dir {
        return Claim::Foreign;
    }
    match session_owner_pid(name) {
        Some(pid) => Claim::Owned(pid),
        None => Claim::Unclaimed,
    }
}

/// A folder last modified at `newest` has gone quiet. One whose time lies in the
/// future, or is unknown, has not.
pub open spec fn quiet(newest: Option<i128>, now: i128) -> bool {
    newest is Some && now - newest->0 >= UNCLAIMED_MIN_AGE
}

/// A folder that was left behind by a crash or a forced quit.
pub open spec fn abandoned(e: FolderEntry, now: i128) -> bool {
    is_session(e.name@, e.is_dir) && match owner_of(e.name@) {
        Some(pid) => !e.owner_alive,
        None => quiet(e.newest, now),
    }
}

/// Whether an entry is to be deleted. Someone may still own it: keeping a folder
/// that could go costs disk, deleting one still being recorded into costs the
/// recording, so every ambiguous case is kept.
pub fn is_abandoned(e: &FolderEntry, now: i128) -> (r: bool)
    ensures
        r == abandoned(*e, now),
{
    match claim_of(e.name.as_str(), e.is_dir) {
        Claim::Foreign => false,
        Claim::Owned(_) => !e.owner_alive,
        Claim::Unclaimed => match e.newest {
            Some(m) => now >= i128::MIN + UNCLAIMED_MIN_AGE && m <= now - UNCLAIMED_MIN_AGE,
            None => false,
        },
    }
}

/// The positions below `n` of the entries to delete, in order.
pub open spec fn stale_upto(entries: Seq<FolderEntry>, now: i128, n: int) -> Seq<usize>
    decreases n,
{
    if n <= 0 {
        Seq::empty()
    } else if abandoned(entries[n - 1], now) {
        stale_upto(entries, now, n - 1).push((n - 1) as usize)
    } else {
        stale_upto(entries, now, n - 1)
    }
}

/// Which entries of the output folder to delete: their positions, in order.
///
/// Nothing else ever removes these folders, so one that outlives its process
/// would stay in the user's video folder forever. Called at startup, before this
/// process can make a session folder of its own.
pub fn sweep_stale_sessions(entries: &Vec<FolderEntry>, now: i128) -> (r: Vec<usize>)
    ensures
        r@ == stale_upto(entries@, now, entries@.len() as int),
{
    let mut r: Vec<usize> = Vec::new();
    let mut i: usize = 0;
    while i < entries.len()
        invariant
            i <= entries@.len(),
            r@ == stale_upto(entries@, now, i as int),
        decreases entries@.len() - i,
    {
        if is_abandoned(&entries[i], now) {
            r.push(i);
        }
        i = i + 1;
    }
    r
}

proof fn lemma_stale_upto(entries: Seq<FolderEntry>, now: i128, n: int)
    requires
        0 <= n <= entries.len() <= usize::MAX,
    ensures
        forall|k: int|
            0 <= k < stale_upto(entries, now, n).len() ==> 0 <= #[trigger] stale_upto(entries, now, n)[k] < n
                && abandoned(entries[stale_upto(entries, now, n)[k] as int], now),
    decreases n,
{
    if n > 0 {
        lemma_stale_upto(entries, now, n - 1);
        let before = stale_upto(entries, now, n - 1);
        let all = stale_upto(entries, now, n);
        assert forall|k: int| 0 <= k < all.len() implies 0 <= #[trigger] all[k] < n && abandoned(
            entries[all[k] as int],
            now,
        ) by {
            if k < before.len() {
                assert(all[k] == before[k]);
            }
        }
    }
}

/// The sweep only ever touches folders that carry the sessions' prefix, and
/// never one that a live process claims or, without a claim, one that was
/// touched in the last thirty minutes.
pub proof fn the_sweep_spares_what_is_not_stale(entries: Seq<FolderEntry>, now: i128, k: int)
    requires
        entries.len() <= usize::MAX,
        0 <= k < stale_upto(entries, now, entries.len() as int).len(),
    ensures
        ({
            let e = entries[stale_upto(entries, now, entries.len() as int)[k] as int];
            &&& begins(e.name@, session_prefix())
            &&& e.is_dir
            &&& owner_of(e.name@) is Some ==> !e.owner_alive
            &&& owner_of(e.name@) is None ==> e.newest is Some && now - e.newest->0
                >= UNCLAIMED_MIN_AGE
        }),
{
    lemma_stale_upto(entries, now, entries.len() as int);
}

/// The latest of the known times.
pub open spec fn latest(times: Seq<Option<i128>>, n: int) -> Option<i128>
    decreases n,
{
    if n <= 0 {
        None
    } else {
        later(latest(times, n - 1), times[n - 1])
    }
}

pub open spec fn later(a: Option<i128>, b: Option<i128>) -> Option<i128> {
    match (a, b) {
        (Some(x), Some(y)) => Some(if x < y { y } else { x }),
        (Some(x), None) => Some(x),
        (None, _) => b,
    }
}

fn later_of(a: Option<i128>, b: Option<i128>) -> (r: Option<i128>)
    ensures
        r == later(a, b),
{
    match (a, b) {
        (Some(x), Some(y)) => Some(
            if x < y {
                y
            } else {
                x
            },
        ),
        (Some(x), None) => Some(x),
        (None, _) => b,
    }
}

/// When a folder or anything directly in it was last modified. `own` is the
/// folder's time, `contents` are those of what it holds, where it could be
/// listed at all.
///
/// The folder's own time is not enough: it only moves when an entry is added or
/// removed, so a long segment being written for an hour leaves it looking
/// untouched.
pub fn newest_mtime(own: Option<i128>, contents: Option<&Vec<Option<i128>>>) -> (r: Option<i128>)
    ensures
        r == match contents {
            Some(times) => later(latest(times@, times@.len() as int), own),
            None => None,
        },
        r is Some && own is Some ==> r->0 >= own->0,
{
    match contents {
        Some(times) => {
            let mut newest: Option<i128> = None;
            let mut i: usize = 0;
            while i < times.len()
                invariant
                    i <= times@.len(),
                    newest == latest(times@, i as int),
                decreases times@.len() - i,
            {
                newest = later_of(newest, times[i]);
                i = i + 1;
            }
            later_of(newest, own)
        },
        None => None,
    }
}

// ---------------------------------------------------------------------------
// Live processes

/// The name of the program at a Unix path.
pub fn exe_name(path: &str) -> (r: Option<String>)
    ensures
        match r {
            Some(name) => leaf(path@) == Some(name@),
            None => leaf(path@) is None,
        },
{
    let pieces = split(to_chars(path).as_slice(), '/');
    match find_last_piece(&pieces, pieces.len()) {
        Some(i) => {
            assert(views(pieces@)[i as int] == pieces@[i as int]@);
            if same_chars(pieces[i].as_slice(), to_chars("..").as_slice()) {
                None
            } else {
                Some(from_chars(pieces[i].as_slice()))
            }
        },
        None => None,
    }
}

/// Whether `comm`, as `ps` prints it, is the program `me`. It prints a path on
/// macOS and a bare name on Linux; the leaf is compared either way. A live
/// process that runs something else has only taken over the number, and does not
/// own a folder.
pub fn comm_matches(comm: &str, me: &str) -> (r: bool)
    ensures
        r == (leaf(comm@) == Some(me@)),
{
    match exe_name(comm) {
        Some(name) => {
            let a = to_chars(name.as_str());
            let b = to_chars(me);
            same_chars(a.as_slice(), b.as_slice())
        },
        None => false,
    }
}

/// Whether a process is alive and looks like another copy of this program, from
/// a run of `ps` for it: whether it succeeded and what it printed, if it could be
/// run at all; and from the path of this program, if that is known. Anything
/// that cannot be answered counts as alive.
pub fn process_is_alive(ps: Option<(bool, &str)>, own_exe: Option<&str>) -> (r: bool)
    ensures
        r == match ps {
            None => true,
            Some((success, stdout)) => success && trimmed(stdout@).len() > 0 && match own_exe {
                Some(exe) => match leaf(exe@) {
                    Some(me) => leaf(trimmed(stdout@)) == Some(me),
                    None => true,
                },
                None => true,
            },
        },
{
    match ps {
        None => true,
        Some((success, stdout)) => {
            if !success {
                return false;
            }
            let chars = to_chars(stdout);
            let comm: &[char] = trim(chars.as_slice());
            if comm.len() == 0 {
                return false;
            }
            match own_exe {
                Some(exe) => match exe_name(exe) {
                    Some(me) => comm_matches(from_chars(comm).as_str(), me.as_str()),
                    None => true,
                },
                None => true,
            }
        },
    }
}

/// Whether process `pid` is alive, from what `tasklist` printed for it, if it
/// could be run: it succeeds, and prints a message without the number, where
/// there is no such process.
pub fn task_is_alive(tasklist: Option<&str>, pid: u32) -> (r: bool)
    ensures
        r == match tasklist {
            None => true,
            Some(stdout) => has(stdout@, dec(pid as nat)),
        },
{
    match tasklist {
        None => true,
        Some(stdout) => contains(to_chars(stdout).as_slice(), dec_string(pid as u64).as_str()),
    }
}

// ---------------------------------------------------------------------------
// Laws of the sweep

/// A folder that was left behind: a folder with the sessions' prefix, whose
/// process is gone or, where no process claims it, that nothing has touched for
/// thirty minutes.
pub open spec fn left_behind(e: FolderEntry, now: i128) -> bool {
    &&& begins(e.name@, ".recap-tmp-"@)
    &&& e.is_dir
    &&& owner_of(e.name@) is Some ==> !e.owner_alive
    &&& owner_of(e.name@) is None ==> e.newest is Some && now - e.newest->0 >= 30 * 60 * 1_000_000_000
}

/// The sweep takes exactly what was left behind, each folder once and in order.
pub proof fn the_sweep_takes_what_was_left_behind(entries: Seq<FolderEntry>, now: i128, i: int)
    requires
        entries.len() <= usize::MAX,
        0 <= i < entries.len(),
    ensures
        ({
            let taken = stale_upto(entries, now, entries.len() as int);
            &&& taken.contains(i as usize) <==> left_behind(entries[i], now)
            &&& forall|a: int, b: int| 0 <= a < b < taken.len() ==> taken[a] < taken[b]
        }),
{
    lemma_taken(entries, now, entries.len() as int, i);
}

proof fn lemma_taken(entries: Seq<FolderEntry>, now: i128, n: int, i: int)
    requires
        0 <= n <= entries.len() <= usize::MAX,
        0 <= i < entries.len(),
    ensures
        ({
            let taken = stale_upto(entries, now, n);
            &&& taken.contains(i as usize) <==> i < n && left_behind(entries[i], now)
            &&& forall|a: int, b: int| 0 <= a < b < taken.len() ==> taken[a] < taken[b]
            &&& forall|a: int| 0 <= a < taken.len() ==> #[trigger] taken[a] < n
        }),
    decreases n,
{
    if n > 0 {
        lemma_taken(entries, now, n - 1, i);
        let before = stale_upto(entries, now, n - 1);
        let taken = stale_upto(entries, now, n);
        if abandoned(entries[n - 1], now) {
            assert(taken[taken.len() - 1] == n - 1);
            assert(forall|a: int| 0 <= a < before.len() ==> taken[a] == before[a]);
            if before.contains(i as usize) {
                let k = choose|k: int| 0 <= k < before.len() && before[k] == i;
                assert(taken[k] == i);
            }
        }
    }
}

/// The latest of some times is one of them, and none of them is later. Times that
/// are not known play no part.
pub proof fn the_latest_time_is_the_last(times: Seq<Option<i128>>, n: int, i: int)
    requires
        0 <= i < n <= times.len(),
    ensures
        latest(times, n) matches Some(t) ==> exists|k: int| 0 <= k < n && #[trigger] times[k] == Some(t),
        times[i] is Some ==> latest(times, n) is Some && latest(times, n)->0 >= times[i]->0,
        (forall|k: int| 0 <= k < n ==> (#[trigger] times[k]) is None) ==> latest(times, n) is None,
    decreases n,
{
    let before = latest(times, n - 1);
    let all = latest(times, n);
    if n > 1 {
        the_latest_time_is_the_last(
            times,
            n - 1,
            if i < n - 1 {
                i
            } else {
                0
            },
        );
    } else {
        assert(latest(times, 0) is None);
    }
    if all is Some {
        if all == times[n - 1] {
            assert(times[n - 1] == Some(all->0));
        } else {
            assert(all == before);
            let k = choose|k: int| 0 <= k < n - 1 && #[trigger] times[k] == before;
            assert(times[k] == Some(all->0));
        }
    }
    if forall|k: int| 0 <= k < n ==> (#[trigger] times[k]) is None {
        assert(times[n - 1] is None);
    }
}

/// Of two times that are known the later counts, and an unknown one not at all.
pub proof fn the_later_of_two_times(a: Option<i128>, b: Option<i128>)
    ensures
        a is None ==> later(a, b) == b,
        b is None ==> later(a, b) == a,
        a is Some && b is Some ==> later(a, b) is Some && later(a, b)->0 >= a->0 && later(a, b)->0 >= b->0 && (
        later(a, b) == a || later(a, b) == b),
{
}

/// The program at a path is its last name, whatever folders and how many slashes
/// stand in front of it.
pub proof fn a_program_is_named_last(dir: Seq<char>, name: Seq<char>)
    requires
        plain_name(name),
        name != ".."@,
    ensures
        leaf(name) == Some(name),
        leaf(dir + seq!['/'] + name) == Some(name),
        leaf(dir + seq!['/'] + name + seq!['/']) == Some(name),
        leaf(dir + seq!['/'] + ".."@) is None,
{
    let base = split_at(dir, '/');
    let sep = seq!['/'];
    joining_undoes_splitting(dir, '/');
    reveal_strlit("..");
    reveal_strlit("");
    reveal_strlit(".");
    let up = ".."@;
    assert(up.len() == 2 && up[0] == '.' && up[1] == '.');
    assert(!trivial(up)) by {
        assert(""@.len() == 0 && "."@.len() == 1);
    }
    let parts = base.push(name);
    lemma_joined_name(base, name);
    lemma_joined_name(base, up);
    let empty = Seq::<char>::empty();
    lemma_joined_name(parts, empty);
    assert(empty =~= ""@);
    let with_slash = parts.push(empty);
    assert(joined(with_slash, sep) =~= dir + sep + name + sep);
    assert(last_piece(with_slash, with_slash.len() as int) == last_piece(with_slash, with_slash.len() - 1));
    assert(with_slash[base.len() as int] == name);
    splitting_undoes_joining(seq![name], '/');
    assert(joined(seq![name], sep) == name);
    assert(split_at(name, '/') == seq![name]);
}

proof fn lemma_joined_name(base: Seq<Seq<char>>, name: Seq<char>)
    requires
        base.len() > 0,
        forall|k: int| 0 <= k < base.len() ==> !(#[trigger] base[k]).contains('/'),
        !name.contains('/'),
    ensures
        split_at(joined(base, seq!['/']) + seq!['/'] + name, '/') == base.push(name),
        joined(base.push(name), seq!['/']) == joined(base, seq!['/']) + seq!['/'] + name,
        forall|k: int| 0 <= k < base.push(name).len() ==> !(#[trigger] base.push(name)[k]).contains('/'),
{
    let sep = seq!['/'];
    joining_separates_neighbours(base, seq![name], name, sep);
    assert(base + seq![name] =~= base.push(name));
    let parts = base.push(name);
    assert forall|k: int| 0 <= k < parts.len() implies !(#[trigger] parts[k]).contains('/') by {
        if k < base.len() {
            assert(parts[k] == base[k]);
        }
    }
    splitting_undoes_joining(parts, '/');
}

/// Names tell the time: a recording and a session's folder hold their stamp, and
/// recordings of different times have different names.
pub proof fn names_tell_the_time(a: Seq<char>, b: Seq<char>, pid: nat)
    ensures
        a != b ==> recording_file(a) != recording_file(b),
        recording_file(a).take(6) == seq!['R', 'e', 'c', 'a', 'p', '_'],
        recording_file(a).skip(recording_file(a).len() - 4) == seq!['.', 'm', 'p', '4'],
        begins(session_name(a, pid), ".recap-tmp-"@ + a + seq!['-']),
        is_session(session_name(a, pid), true),
        !is_session(session_name(a, pid), false),
        !is_session(recording_file(a), true),
{
    reveal_strlit("Recap_");
    reveal_strlit(".mp4");
    reveal_strlit("-");
    reveal_strlit(".recap-tmp-");
    let (x, y) = (recording_file(a), recording_file(b));
    assert(x.take(6) =~= seq!['R', 'e', 'c', 'a', 'p', '_']);
    assert(x.skip(x.len() - 4) =~= seq!['.', 'm', 'p', '4']);
    assert(x.subrange(6, x.len() - 4) =~= a);
    assert(y.subrange(6, y.len() - 4) =~= b);
    let front = ".recap-tmp-"@ + a + seq!['-'];
    let name = session_name(a, pid);
    assert(name.take(front.len() as int) =~= front);
    assert(name.take(".recap-tmp-"@.len() as int) =~= ".recap-tmp-"@);
    if begins(x, ".recap-tmp-"@) {
        assert(x.take(11)[0] == x[0]);
    }
}

} // verus!
