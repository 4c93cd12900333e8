//! Paths, as text: the names in a Unix path, and when two paths are the same.

use crate::capture::Platform;
use crate::pieces::{split, split_at, split_from};
use crate::text::{index_from, lemma_index_from, lemma_index_from_is, same_chars, to_chars, views};
use vstd::prelude::*;
use vstd::slice::slice_subrange;
use vstd::string::*;

verus! {

/// A piece of a path that names nothing.
pub open spec fn trivial(piece: Seq<char>) -> bool {
    piece == ""@ || piece == "."@
}

/// The last of the first `n` pieces that names something.
pub open spec fn last_piece(pieces: Seq<Seq<char>>, n: int) -> Option<int>
    decreases n,
{
    if n <= 0 {
        None
    } else if !trivial(pieces[n - 1]) {
        Some(n - 1)
    } else {
        last_piece(pieces, n - 1)
    }
}

/// The last component of a Unix path, if it is a name.
pub open spec fn leaf(path: Seq<char>) -> Option<Seq<char>> {
    let pieces = split_at(path, '/');
    match last_piece(pieces, pieces.len() as int) {
        Some(i) => if pieces[i] == ".."@ {
            None
        } else {
            Some(pieces[i])
        },
        None => None,
    }
}

/// The last of the first `n` pieces that names something.
pub fn find_last_piece(pieces: &Vec<Vec<char>>, n: usize) -> (r: Option<usize>)
    requires
        n <= pieces@.len(),
    ensures
        match r {
            Some(i) => last_piece(views(pieces@), n as int) == Some(i as int) && i < n,
            None => last_piece(views(pieces@), n as int) is None,
        },
{
    let mut k: usize = n;
    let empty = to_chars("");
    let dot = to_chars(".");
    while k > 0
        invariant
            k <= n <= pieces@.len(),
            empty@ == ""@,
            dot@ == "."@,
            last_piece(views(pieces@), n as int) == last_piece(views(pieces@), k as int),
        decreases k,
    {
        assert(views(pieces@)[k - 1] == pieces@[k - 1]@);
        if !same_chars(pieces[k - 1].as_slice(), empty.as_slice()) && !same_chars(
            pieces[k - 1].as_slice(),
            dot.as_slice(),
        ) {
            return Some(k - 1);
        }
        k = k - 1;
    }
    None
}

// ---------------------------------------------------------------------------
// Equal paths

/// A path with its separators written as slashes. Windows has two of them.
pub open spec fn slashed(platform: Platform, path: Seq<char>) -> Seq<char> {
    match platform {
        Platform::Windows => path.map_values(
            |c: char|
                if c == '\\' {
                    '/'
                } else {
                    c
                },
        ),
        Platform::MacOs => path,
    }
}

/// The letter of the drive that a path begins with, as a capital.
pub open spec fn drive_of(platform: Platform, s: Seq<char>) -> Option<char> {
    if platform is Windows && s.len() >= 2 && s[1] == ':' && 'A' <= s[0] <= 'Z' {
        Some(s[0])
    } else if platform is Windows && s.len() >= 2 && s[1] == ':' && 'a' <= s[0] <= 'z' {
        Some((s[0] as u32 - 32) as char)
    } else {
        None
    }
}

/// What follows the drive.
pub open spec fn behind_drive(platform: Platform, s: Seq<char>) -> Seq<char> {
    if drive_of(platform, s) is Some {
        s.skip(2)
    } else {
        s
    }
}

/// The names among the first `n` pieces: those that name something, and a dot that
/// stands first.
pub open spec fn names_upto(pieces: Seq<Seq<char>>, n: int) -> Seq<Seq<char>>
    decreases n,
{
    if n <= 0 {
        Seq::empty()
    } else if trivial(pieces[n - 1]) && !(n == 1 && pieces[0] == "."@) {
        names_upto(pieces, n - 1)
    } else {
        names_upto(pieces, n - 1).push(pieces[n - 1])
    }
}

/// Whether the pieces of a Windows path begin with a server and its share.
pub open spec fn on_server(platform: Platform, pieces: Seq<Seq<char>>) -> bool {
    platform is Windows && pieces.len() > 3 && pieces[0] == ""@ && pieces[1] == ""@ && pieces[2] != ""@
        && pieces[3] != ""@
}

/// Two paths have the same components: the same drive and the same root, and the
/// same names one after the other. Repeated separators, a separator at the end and
/// dots, except one that stands first, make no difference. Windows paths that turn
/// this reading off, with a question mark for a server, are read like the others.
pub open spec fn same_path(platform: Platform, a: Seq<char>, b: Seq<char>) -> bool {
    let s = slashed(platform, a);
    let t = slashed(platform, b);
    let p = split_at(behind_drive(platform, s), '/');
    let q = split_at(behind_drive(platform, t), '/');
    &&& drive_of(platform, s) == drive_of(platform, t)
    &&& on_server(platform, p) == on_server(platform, q)
    &&& (p[0] == ""@ && p.len() > 1) == (q[0] == ""@ && q.len() > 1)
    &&& names_upto(p, p.len() as int) == names_upto(q, q.len() as int)
}

fn to_slashes(platform: Platform, path: &str) -> (r: Vec<char>)
    ensures
        r@ == slashed(platform, path@),
{
    let chars = to_chars(path);
    match platform {
        Platform::MacOs => chars,
        Platform::Windows => {
            let mut out: Vec<char> = Vec::new();
            let mut i: usize = 0;
            while i < chars.len()
                invariant
                    i <= chars@.len(),
                    chars@ == path@,
                    out@ == slashed(Platform::Windows, path@).take(i as int),
                decreases chars@.len() - i,
            {
                let c: char = chars[i];
                out.push(
                    if c == '\\' {
                        '/'
                    } else {
                        c
                    },
                );
                i = i + 1;
                assert(out@ =~= slashed(Platform::Windows, path@).take(i as int));
            }
            assert(out@ =~= slashed(Platform::Windows, path@));
            out
        },
    }
}

fn find_drive(platform: Platform, s: &Vec<char>) -> (r: Option<char>)
    ensures
        r == drive_of(platform, s@),
{
    match platform {
        Platform::MacOs => None,
        Platform::Windows => {
            if s.len() < 2 || s[1] != ':' {
                None
            } else if 'A' <= s[0] && s[0] <= 'Z' {
                Some(s[0])
            } else if 'a' <= s[0] && s[0] <= 'z' {
                Some((s[0] as u8 - 32) as char)
            } else {
                None
            }
        },
    }
}

fn find_names(pieces: &Vec<Vec<char>>) -> (r: Vec<usize>)
    ensures
        forall|k: int| 0 <= k < r@.len() ==> (#[trigger] r@[k]) < pieces@.len(),
        r@.len() == names_upto(views(pieces@), pieces@.len() as int).len(),
        forall|k: int|
            0 <= k < r@.len() ==> pieces@[#[trigger] r@[k] as int]@ == names_upto(
                views(pieces@),
                pieces@.len() as int,
            )[k],
{
    let empty = to_chars("");
    let dot = to_chars(".");
    let mut out: Vec<usize> = Vec::new();
    let mut i: usize = 0;
    let ghost all = views(pieces@);
    while i < pieces.len()
        invariant
            i <= pieces@.len(),
            all == views(pieces@),
            empty@ == ""@,
            dot@ == "."@,
            forall|k: int| 0 <= k < out@.len() ==> (#[trigger] out@[k]) < pieces@.len(),
            out@.len() == names_upto(all, i as int).len(),
            forall|k: int|
                0 <= k < out@.len() ==> pieces@[#[trigger] out@[k] as int]@ == names_upto(all, i as int)[k],
        decreases pieces@.len() - i,
    {
        assert(all[i as int] == pieces@[i as int]@);
        let is_dot: bool = same_chars(pieces[i].as_slice(), dot.as_slice());
        let is_empty: bool = same_chars(pieces[i].as_slice(), empty.as_slice());
        proof {
            reveal_strlit("");
            reveal_strlit(".");
        }
        if !is_empty && (!is_dot || i == 0) {
            out.push(i);
        }
        i = i + 1;
    }
    out
}

fn same_names(p: &Vec<Vec<char>>, q: &Vec<Vec<char>>) -> (r: bool)
    ensures
        r == (names_upto(views(p@), p@.len() as int) == names_upto(views(q@), q@.len() as int)),
{
    let a: Vec<usize> = find_names(p);
    let b: Vec<usize> = find_names(q);
    let ghost m = names_upto(views(p@), p@.len() as int);
    let ghost n = names_upto(views(q@), q@.len() as int);
    if a.len() != b.len() {
        return false;
    }
    let mut i: usize = 0;
    while i < a.len()
        invariant
            i <= a@.len(),
            a@.len() == b@.len(),
            m == names_upto(views(p@), p@.len() as int),
            n == names_upto(views(q@), q@.len() as int),
            m.len() == a@.len(),
            n.len() == b@.len(),
            forall|k: int| 0 <= k < a@.len() ==> (#[trigger] a@[k]) < p@.len(),
            forall|k: int| 0 <= k < b@.len() ==> (#[trigger] b@[k]) < q@.len(),
            forall|k: int| 0 <= k < a@.len() ==> p@[#[trigger] a@[k] as int]@ == m[k],
            forall|k: int| 0 <= k < b@.len() ==> q@[#[trigger] b@[k] as int]@ == n[k],
            forall|k: int| 0 <= k < i ==> m[k] == n[k],
        decreases a@.len() - i,
    {
        if !same_chars(p[a[i]].as_slice(), q[b[i]].as_slice()) {
            assert(m[i as int] != n[i as int]);
            return false;
        }
        i = i + 1;
    }
    assert(m =~= n);
    true
}

fn find_server(platform: Platform, pieces: &Vec<Vec<char>>) -> (r: bool)
    ensures
        r == on_server(platform, views(pieces@)),
{
    proof {
        reveal_strlit("");
        let all = views(pieces@);
        assert(forall|k: int| 0 <= k < all.len() ==> (#[trigger] all[k]).len() == 0 ==> all[k] =~= ""@);
    }
    match platform {
        Platform::MacOs => false,
        Platform::Windows => pieces.len() > 3 && pieces[0].len() == 0 && pieces[1].len() == 0
            && pieces[2].len() != 0 && pieces[3].len() != 0,
    }
}

fn has_root(pieces: &Vec<Vec<char>>) -> (r: bool)
    ensures
        r == (views(pieces@)[0] == ""@ && pieces@.len() > 1),
{
    proof {
        reveal_strlit("");
        let all = views(pieces@);
        assert(all.len() > 0 && all[0].len() == 0 ==> all[0] =~= ""@);
    }
    pieces.len() > 1 && pieces[0].len() == 0
}

fn pieces_behind_drive(platform: Platform, s: &Vec<char>) -> (r: Vec<Vec<char>>)
    ensures
        views(r@) == split_at(behind_drive(platform, s@), '/'),
{
    if find_drive(platform, s).is_some() {
        let rest: &[char] = slice_subrange(s.as_slice(), 2, s.len());
        assert(rest@ =~= s@.skip(2));
        split(rest, '/')
    } else {
        split(s.as_slice(), '/')
    }
}

/// Whether two texts are the same path.
pub fn paths_equal(platform: Platform, a: &str, b: &str) -> (r: bool)
    ensures
        r == same_path(platform, a@, b@),
{
    let s: Vec<char> = to_slashes(platform, a);
    let t: Vec<char> = to_slashes(platform, b);
    let p: Vec<Vec<char>> = pieces_behind_drive(platform, &s);
    let q: Vec<Vec<char>> = pieces_behind_drive(platform, &t);
    let same_drive: bool = match (find_drive(platform, &s), find_drive(platform, &t)) {
        (Some(c), Some(d)) => c == d,
        (None, None) => true,
        _ => false,
    };
    same_drive && find_server(platform, &p) == find_server(platform, &q) && has_root(&p) == has_root(&q)
        && same_names(&p, &q)
}

/// Whether a name can follow a separator: it names something and holds no
/// separator.
pub open spec fn plain_name(name: Seq<char>) -> bool {
    !trivial(name) && !name.contains('/') && !name.contains('\\')
}

proof fn lemma_split_joined(d: Seq<char>, name: Seq<char>, i: int)
    requires
        0 <= i <= d.len(),
        !name.contains('/'),
    ensures
        split_from(d + seq!['/'] + name, '/', i) == split_from(d, '/', i).push(name),
    decreases d.len() - i,
{
    let all = d + seq!['/'] + name;
    let j = index_from(d, '/', i);
    lemma_index_from(d, '/', i);
    assert forall|k: int| i <= k < j implies all[k] != '/' by {
        assert(all[k] == d[k]);
    }
    assert(all[j] == '/');
    lemma_index_from_is(all, '/', i, j);
    assert(all.subrange(i, j) =~= d.subrange(i, j));
    let first = seq![d.subrange(i, j)];
    if j < d.len() {
        lemma_split_joined(d, name, j + 1);
        let rest = split_from(d, '/', j + 1);
        assert(first + rest.push(name) =~= (first + rest).push(name));
    } else {
        let n = all.len() as int;
        assert forall|k: int| j + 1 <= k < n implies all[k] != '/' by {
            assert(name.contains(name[k - j - 1]));
        }
        lemma_index_from_is(all, '/', j + 1, n);
        assert(all.skip(j + 1) =~= name);
        assert(d.skip(i) =~= d.subrange(i, j));
        assert(split_from(all, '/', j + 1) == seq![name]);
        assert(split_from(all, '/', i) == first + seq![name]);
        assert(first + seq![name] =~= seq![d.skip(i)].push(name));
    }
}

/// The last name of a path is the one that was joined to it.
proof fn lemma_last_name(platform: Platform, dir: Seq<char>, sep: char, name: Seq<char>)
    requires
        sep == '/' || (sep == '\\' && platform is Windows),
        plain_name(name),
    ensures
        ({
            let s = slashed(platform, dir + seq![sep] + name);
            let p = split_at(behind_drive(platform, s), '/');
            let names = names_upto(p, p.len() as int);
            names.len() > 0 && names.last() == name
        }),
{
    let s = slashed(platform, dir + seq![sep] + name);
    let d = slashed(platform, dir);
    assert forall|k: int| 0 <= k < name.len() implies name[k] != '/' && name[k] != '\\' by {
        assert(name.contains(name[k]));
    }
    assert(s =~= d + seq!['/'] + name);
    let rest = behind_drive(platform, s);
    if drive_of(platform, s) is Some {
        if d.len() < 2 {
            assert(s[d.len() as int] == '/');
        }
        assert(rest =~= d.skip(2) + seq!['/'] + name);
        lemma_split_joined(d.skip(2), name, 0);
    } else {
        lemma_split_joined(d, name, 0);
    }
    let p = split_at(rest, '/');
    assert(p.last() == name);
    reveal_strlit(".");
}

/// Different names in one folder are different paths.
pub proof fn other_names_are_other_paths(
    platform: Platform,
    dir: Seq<char>,
    sep: char,
    a: Seq<char>,
    b: Seq<char>,
)
    requires
        sep == '/' || (sep == '\\' && platform is Windows),
        plain_name(a),
        plain_name(b),
        a != b,
    ensures
        !same_path(platform, dir + seq![sep] + a, dir + seq![sep] + b),
{
    lemma_last_name(platform, dir, sep, a);
    lemma_last_name(platform, dir, sep, b);
}

/// Whether two texts are the same path is a question of both: each is the same as
/// itself, and the order does not matter.
pub proof fn paths_are_compared_both_ways(platform: Platform, a: Seq<char>, b: Seq<char>)
    ensures
        same_path(platform, a, a),
        same_path(platform, a, b) == same_path(platform, b, a),
{
}

/// On macOS one slash is as good as several, a dot between two names says nothing,
/// and neither does a slash at the end. A path from the root is another than the
/// one that is not, and a folder's parent is not resolved.
pub proof fn slashes_and_dots_make_no_difference(dir: Seq<char>, name: Seq<char>)
    requires
        plain_name(name),
    ensures
        same_path(Platform::MacOs, dir + seq!['/'] + name, dir + seq!['/', '/'] + name),
        same_path(Platform::MacOs, dir + seq!['/'] + name, dir + seq!['/', '.', '/'] + name),
        same_path(Platform::MacOs, dir + seq!['/'] + name, dir + seq!['/'] + name + seq!['/']),
        dir.len() > 0 && dir[0] != '/' ==> !same_path(Platform::MacOs, dir, seq!['/'] + dir),
{
    reveal_strlit("");
    reveal_strlit(".");
    let empty = Seq::<char>::empty();
    let dot = seq!['.'];
    assert(empty =~= ""@ && dot =~= "."@);
    let base = split_at(dir, '/');
    lemma_split_joined(dir, name, 0);
    lemma_split_joined(dir, empty, 0);
    lemma_split_joined(dir, dot, 0);
    let d1 = dir + seq!['/'] + empty;
    let d2 = dir + seq!['/'] + dot;
    lemma_split_joined(d1, name, 0);
    lemma_split_joined(d2, name, 0);
    let plain = dir + seq!['/'] + name;
    lemma_split_joined(plain, empty, 0);
    let p0 = base.push(name);
    let p1 = base.push(empty).push(name);
    let p2 = base.push(dot).push(name);
    let p3 = p0.push(empty);
    assert(dir + seq!['/', '/'] + name =~= d1 + seq!['/'] + name);
    assert(dir + seq!['/', '.', '/'] + name =~= d2 + seq!['/'] + name);
    assert(plain + seq!['/'] =~= plain + seq!['/'] + empty);
    let n = base.len() as int;
    lemma_split_some(dir, 0);
    lemma_names_prefix(base, p0, n);
    lemma_names_prefix(base, p1, n);
    lemma_names_prefix(base, p2, n);
    lemma_names_prefix(p0, p3, n + 1);
    assert(names_upto(p1, n + 1) == names_upto(p1, n));
    assert(names_upto(p2, n + 1) == names_upto(p2, n));
    assert(names_upto(p3, n + 2) == names_upto(p3, n + 1));
    if dir.len() > 0 && dir[0] != '/' {
        let rooted = seq!['/'] + dir;
        lemma_index_from_is(rooted, '/', 0, 0);
        assert(rooted.subrange(0, 0) =~= empty);
        let q = split_at(rooted, '/');
        lemma_split_some(rooted, 1);
        assert(q == seq![empty] + split_from(rooted, '/', 1));
        assert(q[0] == ""@ && q.len() > 1);
        lemma_index_from(dir, '/', 0);
        let j = index_from(dir, '/', 0);
        assert(base[0].len() > 0) by {
            if j < dir.len() {
                assert(base[0] == dir.subrange(0, j));
            } else {
                assert(base[0] == dir.skip(0));
            }
        }
    }
}

proof fn lemma_split_some(s: Seq<char>, i: int)
    requires
        0 <= i <= s.len(),
    ensures
        split_from(s, '/', i).len() > 0,
{
}

proof fn lemma_names_prefix(p: Seq<Seq<char>>, q: Seq<Seq<char>>, n: int)
    requires
        0 <= n <= p.len(),
        n <= q.len(),
        forall|k: int| 0 <= k < n ==> p[k] == q[k],
    ensures
        names_upto(p, n) == names_upto(q, n),
    decreases n,
{
    if n > 0 {
        lemma_names_prefix(p, q, n - 1);
    }
}

/// On Windows a slash is as good as a backslash.
pub proof fn windows_has_two_separators(a: Seq<char>, b: Seq<char>)
    requires
        a.len() == b.len(),
        forall|k: int|
            0 <= k < a.len() ==> #[trigger] a[k] == b[k] || ((a[k] == '/' || a[k] == '\\') && (b[k] == '/' || b[k]
                == '\\')),
    ensures
        same_path(Platform::Windows, a, b),
{
    assert(slashed(Platform::Windows, a) =~= slashed(Platform::Windows, b));
}

} // verus!
