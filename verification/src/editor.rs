//! Annotation editor plumbing.
//!
//! The editor is a canvas in a web view; this only moves pixels in and out.
//! Pictures travel as data URLs, so the editor needs no access to files: it only
//! ever sees what it is handed.

use crate::numbers::{dec, dec_string};
use crate::text::{begins, find_chars, from_chars, last_index, lemma_last_before, lemma_match_from_is, match_from, occurs, rfind_char, to_chars};
use base64::Engine;
use vstd::prelude::*;
use vstd::slice::slice_subrange;
use vstd::string::*;
use vstd::utf8::encode_utf8;

verus! {

// ---------------------------------------------------------------------------
// File names

/// Refuse to inline anything absurd: base64 inflates by a third, and the bridge
/// to the web view has to carry all of it as a string.
pub const MAX_INLINE_BYTES: u64 = 67108864;

/// Where the extension of a file name begins: at its last dot, unless that is its
/// first character.
pub open spec fn extension_dot(name: Seq<char>) -> Option<int> {
    match last_index(name, '.') {
        Some(i) => if i > 0 {
            Some(i)
        } else {
            None
        },
        None => None,
    }
}

/// The extension of a file name; nothing where it has none.
pub open spec fn extension(name: Seq<char>) -> Seq<char> {
    match extension_dot(name) {
        Some(i) => name.skip(i + 1),
        None => Seq::empty(),
    }
}

pub open spec fn lower(c: char) -> char {
    if 'A' <= c <= 'Z' {
        (c as int + 32) as char
    } else {
        c
    }
}

/// A text with the ASCII capitals turned into small letters.
pub open spec fn lowercase(s: Seq<char>) -> Seq<char> {
    s.map_values(|c: char| lower(c))
}

fn lower_char(c: char) -> (r: char)
    ensures
        r == lower(c),
{
    if 'A' <= c && c <= 'Z' {
        let code: u8 = c as u8 + 32;
        code as char
    } else {
        c
    }
}

/// Whether the extension of `name` is `ext`, which is in small letters, if the
/// case of ASCII letters does not matter.
fn has_extension(name: &str, ext: &str) -> (r: bool)
    ensures
        r == (extension_dot(name@) is Some && lowercase(extension(name@)) == ext@),
{
    let chars = to_chars(name);
    let wanted = to_chars(ext);
    proof {
        lemma_last_before(name@, '.', name@.len() as int);
    }
    match rfind_char(chars.as_slice(), '.') {
        Some(dot) => {
            if dot == 0 {
                return false;
            }
            let n: usize = chars.len() - dot - 1;
            let ghost lowered = lowercase(extension(name@));
            if n != wanted.len() {
                assert(lowered.len() != ext@.len());
                return false;
            }
            let mut i: usize = 0;
            while i < n
                invariant
                    i <= n,
                    n == wanted@.len(),
                    dot < chars.len(),
                    n == chars@.len() - dot - 1,
                    chars@ == name@,
                    wanted@ == ext@,
                    lowered == lowercase(name@.skip(dot + 1)),
                    lowered == lowercase(extension(name@)),
                    forall|k: int| 0 <= k < i ==> lowered[k] == ext@[k],
                decreases n - i,
            {
                let c: char = lower_char(chars[dot + 1 + i]);
                assert(c == lowered[i as int]);
                if c != wanted[i] {
                    return false;
                }
                i = i + 1;
            }
            assert(lowered =~= ext@);
            true
        },
        None => false,
    }
}

/// The media type of a picture, by the name of its file.
pub fn mime_for(name: &str) -> (r: &'static str)
    ensures
        r@ == mime_of(name@),
{
    proof {
        reveal_strlit("jpg");
        reveal_strlit("jpeg");
        assert(extension_dot(name@) is None ==> lowercase(extension(name@)).len() == 0);
    }
    if has_extension(name, "jpg") || has_extension(name, "jpeg") {
        "image/jpeg"
    } else {
        "image/png"
    }
}

pub open spec fn mime_of(name: Seq<char>) -> Seq<char> {
    let ext = lowercase(extension(name));
    if ext == "jpg"@ || ext == "jpeg"@ {
        "image/jpeg"@
    } else {
        "image/png"@
    }
}

/// The name that a picture is saved under.
pub open spec fn png_name(name: Seq<char>) -> Seq<char> {
    match extension_dot(name) {
        Some(i) => if lowercase(name.skip(i + 1)) == "png"@ {
            name
        } else {
            name.take(i) + ".png"@
        },
        None => name + ".png"@,
    }
}

/// The name to save a picture under. Only PNG is ever encoded, so a name that
/// ends otherwise would be a lie that every other tool would then misread.
pub fn png_file_name(name: &str) -> (r: String)
    ensures
        r@ == png_name(name@),
{
    if has_extension(name, "png") {
        return name.to_owned();
    }
    let chars = to_chars(name);
    let mut stem: String = match rfind_char(chars.as_slice(), '.') {
        Some(dot) => {
            if dot == 0 {
                name.to_owned()
            } else {
                let s: &[char] = slice_subrange(chars.as_slice(), 0, dot);
                assert(s@ == name@.take(dot as int));
                from_chars(s)
            }
        },
        None => name.to_owned(),
    };
    stem.append(".png");
    stem
}

/// The name that a save dialog suggests: that of the picture's file, if it has
/// one.
pub fn suggested_name(file_name: Option<String>) -> (r: String)
    ensures
        r@ == match file_name {
            Some(name) => name@,
            None => "Recap.png"@,
        },
{
    match file_name {
        Some(name) => name,
        None => "Recap.png".to_owned(),
    }
}

/// A saved picture ends in `.png` in some case, and saving it under its own name
/// again changes nothing.
pub proof fn a_png_name_is_stable(name: Seq<char>)
    requires
        name.len() > 0,
    ensures
        lowercase(extension(png_name(name))) == "png"@,
        png_name(png_name(name)) == png_name(name),
{
    let saved = png_name(name);
    reveal_strlit(".png");
    reveal_strlit("png");
    lemma_last_before(name, '.', name.len() as int);
    if saved != name {
        let dot = saved.len() - 4;
        assert(saved[dot] == '.');
        assert(saved[dot + 1] == 'p' && saved[dot + 2] == 'n' && saved[dot + 3] == 'g');
        crate::text::lemma_last_index_is(saved, '.', saved.len() as int, dot);
        assert(lowercase(saved.skip(dot + 1)) =~= "png"@);
        assert(dot > 0);
    }
}

/// Whether a picture of `len` bytes is small enough to be edited.
pub fn check_size(len: u64) -> (r: Result<(), String>)
    ensures
        match r {
            Ok(()) => len <= MAX_INLINE_BYTES,
            Err(e) => len > MAX_INLINE_BYTES && e@ == "image is too large to edit ("@ + dec(
                len as nat / 1048576,
            ) + " MB)"@,
        },
{
    if len > MAX_INLINE_BYTES {
        let mut e: String = "image is too large to edit (".to_owned();
        e.append(dec_string(len / 1048576).as_str());
        e.append(" MB)");
        return Err(e);
    }
    Ok(())
}

// ---------------------------------------------------------------------------
// Data URLs

/// What the standard engine of the `base64` crate encodes bytes as.
pub uninterp spec fn base64_text(bytes: Seq<u8>) -> Seq<char>;

/// What it decodes a text as: bytes, or the text of the error.
pub uninterp spec fn base64_bytes(text: Seq<char>) -> Result<Seq<u8>, Seq<char>>;

/// `Engine::encode` with the standard engine: the standard alphabet, padded.
/// Decoding gives the bytes back. It panics where the text is longer than a
/// string can be.
#[verifier::external_body]
fn encode_base64(bytes: &[u8]) -> (r: String)
    requires
        4 * ((bytes@.len() + 2) / 3) <= isize::MAX,
    ensures
        r@ == base64_text(bytes@),
        base64_bytes(r@) is Ok,
        base64_bytes(r@)->Ok_0 == bytes@,
{
    base64::engine::general_purpose::STANDARD.encode(bytes)
}

/// `Engine::decode` with the standard engine, the error as its text.
#[verifier::external_body]
fn decode_base64(text: &str) -> (r: Result<Vec<u8>, String>)
    ensures
        match r {
            Ok(bytes) => base64_bytes(text@) == Ok::<_, Seq<char>>(bytes@),
            Err(e) => base64_bytes(text@) == Err::<Seq<u8>, _>(e@),
        },
{
    match base64::engine::general_purpose::STANDARD.decode(text) {
        Ok(bytes) => Ok(bytes),
        Err(e) => Err(e.to_string()),
    }
}

pub open spec fn data_url(mime: Seq<char>, payload: Seq<char>) -> Seq<char> {
    "data:"@ + mime + ";base64,"@ + payload
}

/// What follows the first `;base64,` of a data URL.
pub open spec fn payload_of(url: Seq<char>) -> Option<Seq<char>> {
    match match_from(url, ";base64,"@, 0) {
        Some(i) => Some(url.skip(i + ";base64,"@.len())),
        None => None,
    }
}

/// The picture that a data URL carries, given its payload and what that decodes
/// as.
pub open spec fn picture(payload: Option<Seq<char>>, decoded: Result<Seq<u8>, Seq<char>>) -> Result<
    Seq<u8>,
    Seq<char>,
> {
    match payload {
        Some(_) => match decoded {
            Ok(bytes) => Ok(bytes),
            Err(e) => Err("corrupt image data: "@ + e),
        },
        None => Err("not a base64 data URL"@),
    }
}

/// The picture that a data URL carries.
pub open spec fn picture_of(url: Seq<char>) -> Result<Seq<u8>, Seq<char>> {
    picture(payload_of(url), base64_bytes(payload_of(url)->0))
}

proof fn lemma_payload(mime: Seq<char>, payload: Seq<char>)
    requires
        mime == "image/jpeg"@ || mime == "image/png"@,
    ensures
        payload_of(data_url(mime, payload)) == Some(payload),
{
    reveal_strlit("data:");
    reveal_strlit("image/jpeg");
    reveal_strlit("image/png");
    reveal_strlit(";base64,");
    let url = data_url(mime, payload);
    let mark = ";base64,"@;
    let j = ("data:"@ + mime).len() as int;
    assert(url.subrange(j, j + mark.len()) =~= mark);
    assert(occurs(url, mark, j));
    assert forall|k: int| 0 <= k < j implies !occurs(url, mark, k) by {
        assert(url[k] == ("data:"@ + mime)[k]);
        assert(url[k] != ';');
        if occurs(url, mark, k) {
            assert(url.subrange(k, k + mark.len())[0] == mark[0]);
        }
    }
    lemma_match_from_is(url, mark, 0, j);
    assert(url.skip(j + mark.len()) =~= payload);
}

/// A data URL from a media type and a payload.
pub fn data_url_text(mime: &str, payload: &str) -> (r: String)
    ensures
        r@ == data_url(mime@, payload@),
{
    let mut url: String = "data:".to_owned();
    url.append(mime);
    url.append(";base64,");
    url.append(payload);
    url
}

/// A picture as a data URL that a web view can show, the media type going by the
/// name of its file. Decoding the URL gives the bytes back.
pub fn load_image(name: &str, bytes: &[u8]) -> (r: String)
    requires
        4 * ((bytes@.len() + 2) / 3) <= isize::MAX,
    ensures
        r@ == data_url(mime_of(name@), base64_text(bytes@)),
        picture_of(r@) == Ok::<_, Seq<char>>(bytes@),
{
    let payload: String = encode_base64(bytes);
    proof {
        lemma_payload(mime_of(name@), payload@);
    }
    data_url_text(mime_for(name), payload.as_str())
}

/// The payload of a `data:<mime>;base64,<payload>` URL.
pub fn payload(url: &str) -> (r: Option<String>)
    ensures
        match r {
            Some(p) => payload_of(url@) == Some(p@),
            None => payload_of(url@) is None,
        },
{
    let chars = to_chars(url);
    let mark = to_chars(";base64,");
    match find_chars(chars.as_slice(), mark.as_slice()) {
        Some(i) => {
            assert(i + mark@.len() <= chars.len());
            let rest: &[char] = slice_subrange(chars.as_slice(), i + mark.len(), chars.len());
            assert(rest@ =~= url@.skip(i + ";base64,"@.len()));
            Some(from_chars(rest))
        },
        None => None,
    }
}

/// The picture, or why there is none, from what a payload decodes as.
pub fn decoded_image(decoded: Result<Vec<u8>, String>) -> (r: Result<Vec<u8>, String>)
    ensures
        match decoded {
            Ok(bytes) => r == Ok::<_, String>(bytes),
            Err(e) => r is Err && r->Err_0@ == "corrupt image data: "@ + e@,
        },
{
    match decoded {
        Ok(bytes) => Ok(bytes),
        Err(e) => {
            let mut m: String = "corrupt image data: ".to_owned();
            m.append(e.as_str());
            Err(m)
        },
    }
}

/// The picture that a data URL carries.
pub fn decode_data_url(url: &str) -> (r: Result<Vec<u8>, String>)
    ensures
        match r {
            Ok(bytes) => picture_of(url@) == Ok::<_, Seq<char>>(bytes@),
            Err(e) => picture_of(url@) == Err::<Seq<u8>, _>(e@),
        },
{
    match payload(url) {
        Some(p) => decoded_image(decode_base64(p.as_str())),
        None => Err("not a base64 data URL".to_owned()),
    }
}

// ---------------------------------------------------------------------------
// Query strings

/// A byte that stands for itself in a query string.
pub open spec fn unreserved(b: u8) -> bool {
    ||| 65 <= b <= 90
    ||| 97 <= b <= 122
    ||| 48 <= b <= 57
    ||| b == 45
    ||| b == 95
    ||| b == 46
    ||| b == 126
}

pub open spec fn hex_digit(d: int) -> char {
    if d < 10 {
        (48 + d) as char
    } else {
        (55 + d) as char
    }
}

/// A byte in a query string.
pub open spec fn escaped_byte(b: u8) -> Seq<char> {
    if unreserved(b) {
        seq![b as char]
    } else {
        seq!['%', hex_digit(b as int / 16), hex_digit(b as int % 16)]
    }
}

pub open spec fn escaped(bytes: Seq<u8>) -> Seq<char>
    decreases bytes.len(),
{
    if bytes.len() == 0 {
        Seq::empty()
    } else {
        escaped_byte(bytes[0]) + escaped(bytes.skip(1))
    }
}

pub open spec fn hex_value(c: char) -> int {
    if c <= '9' {
        c as int - 48
    } else {
        c as int - 55
    }
}

/// What a reader of the query string makes of it.
pub open spec fn unescaped(s: Seq<char>) -> Seq<u8>
    decreases s.len(),
{
    if s.len() == 0 {
        Seq::empty()
    } else if s[0] == '%' && s.len() >= 3 {
        seq![(hex_value(s[1]) * 16 + hex_value(s[2])) as u8] + unescaped(s.skip(3))
    } else {
        seq![s[0] as u8] + unescaped(s.skip(1))
    }
}

/// Reading a query string gives back what was written into it.
pub proof fn escaping_is_undone(bytes: Seq<u8>)
    ensures
        unescaped(escaped(bytes)) == bytes,
    decreases bytes.len(),
{
    if bytes.len() > 0 {
        let b = bytes[0];
        let rest = bytes.skip(1);
        let all = escaped(bytes);
        escaping_is_undone(rest);
        if unreserved(b) {
            assert(all[0] == b as char);
            assert(all.skip(1) =~= escaped(rest));
            assert(seq![b] + rest =~= bytes);
        } else {
            assert(all[0] == '%');
            assert(all[1] == hex_digit(b as int / 16));
            assert(all[2] == hex_digit(b as int % 16));
            assert(all.skip(3) =~= escaped(rest));
            assert(hex_value(all[1]) * 16 + hex_value(all[2]) == b);
            assert(seq![b] + rest =~= bytes);
        }
    }
}

/// Nothing but unreserved characters and percent signs is left, so nothing in a
/// path can end the query string early.
pub proof fn escaping_leaves_nothing_special(bytes: Seq<u8>, i: int)
    requires
        0 <= i < escaped(bytes).len(),
    ensures
        escaped(bytes)[i] == '%' || (escaped(bytes)[i] as int <= 255 && unreserved(
            escaped(bytes)[i] as u8,
        )),
    decreases bytes.len(),
{
    let first = escaped_byte(bytes[0]);
    if i < first.len() {
        assert(escaped(bytes)[i] == first[i]);
    } else {
        escaping_leaves_nothing_special(bytes.skip(1), i - first.len());
    }
}

fn hex_char(d: u8) -> (r: char)
    requires
        d < 16,
    ensures
        r == hex_digit(d as int),
{
    let code: u8 = if d < 10 {
        48 + d
    } else {
        55 + d
    };
    code as char
}

/// Percent-encodes everything outside the unreserved set. Paths land in a query
/// string, and `#` in particular would otherwise truncate the path silently.
pub fn urlencode(s: &str) -> (r: String)
    ensures
        r@ == escaped(encode_utf8(s@)),
{
    let bytes: &[u8] = s.as_bytes();
    let ghost all = encode_utf8(s@);
    assert(bytes@ == all);
    let mut out: String = String::new();
    let mut i: usize = 0;
    assert(all.skip(0) =~= all);
    assert(out@ + escaped(all) =~= escaped(all));
    while i < bytes.len()
        invariant
            i <= bytes@.len(),
            bytes@ == all,
            out@ + escaped(all.skip(i as int)) == escaped(all),
        decreases bytes@.len() - i,
    {
        let b: u8 = bytes[i];
        let ghost before = out@;
        if (65 <= b && b <= 90) || (97 <= b && b <= 122) || (48 <= b && b <= 57) || b == 45 || b == 95 || b
            == 46 || b == 126 {
            out.push(b as char);
        } else {
            out.push('%');
            out.push(hex_char(b / 16));
            out.push(hex_char(b % 16));
        }
        proof {
            let rest = all.skip(i as int);
            assert(rest.skip(1) =~= all.skip(i as int + 1));
            assert(rest[0] == b);
            assert(out@ =~= before + escaped_byte(b));
            assert(out@ + escaped(rest.skip(1)) =~= before + escaped(rest));
        }
        i = i + 1;
    }
    assert(escaped(all.skip(i as int)) =~= Seq::empty());
    out
}

/// The page of the editor that shows the picture at `path`.
pub fn editor_url(path: &str) -> (r: String)
    ensures
        r@ == "editor.html?path="@ + escaped(encode_utf8(path@)),
{
    let mut url: String = "editor.html?path=".to_owned();
    url.append(urlencode(path).as_str());
    url
}

// ---------------------------------------------------------------------------
// Laws

/// Two texts are the same but for the case of ASCII letters.
pub open spec fn same_but_case(a: Seq<char>, b: Seq<char>) -> bool {
    a.len() == b.len() && forall|k: int|
        0 <= k < a.len() ==> #[trigger] a[k] == b[k] || ('A' <= a[k] <= 'Z' && b[k] as int == a[k] as int + 32)
}

proof fn lemma_same_but_case(a: Seq<char>, b: Seq<char>)
    requires
        forall|k: int| 0 <= k < b.len() ==> 'a' <= #[trigger] b[k] <= 'z',
    ensures
        lowercase(a) == b <==> same_but_case(a, b),
{
    if lowercase(a) == b {
        assert forall|k: int| 0 <= k < a.len() implies #[trigger] a[k] == b[k] || ('A' <= a[k] <= 'Z' && b[k] as int
            == a[k] as int + 32) by {
            assert(lowercase(a)[k] == lower(a[k]));
            lemma_lower(a[k]);
        }
    }
    if same_but_case(a, b) {
        assert forall|k: int| 0 <= k < a.len() implies lowercase(a)[k] == b[k] by {
            assert(a[k] == b[k] || ('A' <= a[k] <= 'Z' && b[k] as int == a[k] as int + 32));
            assert('a' <= b[k] <= 'z');
            lemma_lower(a[k]);
        }
        assert(lowercase(a) =~= b);
    }
}

proof fn lemma_lower(c: char)
    ensures
        'A' <= c <= 'Z' ==> lower(c) as int == c as int + 32,
        !('A' <= c <= 'Z') ==> lower(c) == c,
{
}

proof fn lemma_extension(stem: Seq<char>, ext: Seq<char>)
    requires
        stem.len() > 0,
        !ext.contains('.'),
    ensures
        extension_dot(stem + seq!['.'] + ext) == Some(stem.len() as int),
        extension(stem + seq!['.'] + ext) == ext,
        (stem + seq!['.'] + ext).take(stem.len() as int) == stem,
{
    let name = stem + seq!['.'] + ext;
    let dot = stem.len() as int;
    assert forall|k: int| dot < k < name.len() implies name[k] != '.' by {
        assert(ext.contains(ext[k - dot - 1]));
    }
    assert(name[dot] == '.');
    crate::text::lemma_last_index_is(name, '.', name.len() as int, dot);
    assert(name.skip(dot + 1) =~= ext);
    assert(name.take(dot) =~= stem);
}

/// The type of a picture goes by what follows the last dot of its name, in
/// whatever case: `jpg` and `jpeg` are JPEG, and all else is PNG.
pub proof fn the_type_of_a_picture_goes_by_its_extension(stem: Seq<char>, ext: Seq<char>)
    requires
        stem.len() > 0,
        !ext.contains('.'),
    ensures
        mime_of(stem + seq!['.'] + ext) == (if same_but_case(ext, "jpg"@) || same_but_case(ext, "jpeg"@) {
            "image/jpeg"@
        } else {
            "image/png"@
        }),
        !stem.contains('.') ==> mime_of(stem) == "image/png"@,
{
    reveal_strlit("jpg");
    reveal_strlit("jpeg");
    lemma_extension(stem, ext);
    lemma_same_but_case(ext, "jpg"@);
    lemma_same_but_case(ext, "jpeg"@);
    if !stem.contains('.') {
        lemma_last_before(stem, '.', stem.len() as int);
        if last_index(stem, '.') is Some {
            assert(stem.contains(stem[last_index(stem, '.')->0]));
        }
        assert(lowercase(extension(stem)).len() == 0);
        assert("jpg"@.len() == 3 && "jpeg"@.len() == 4);
    }
}

/// A picture that is saved keeps its name up to the extension, and has the
/// extension `png`: one that is there in any case is kept, another gives way, and
/// where there is none it is added.
pub proof fn a_picture_is_saved_under_its_name(stem: Seq<char>, ext: Seq<char>)
    requires
        stem.len() > 0,
        !ext.contains('.'),
    ensures
        same_but_case(ext, "png"@) ==> png_name(stem + seq!['.'] + ext) == stem + seq!['.'] + ext,
        !same_but_case(ext, "png"@) ==> png_name(stem + seq!['.'] + ext) == stem + ".png"@,
        !stem.contains('.') ==> png_name(stem) == stem + ".png"@,
{
    reveal_strlit("png");
    lemma_extension(stem, ext);
    lemma_same_but_case(ext, "png"@);
    lemma_last_before(stem, '.', stem.len() as int);
    if !stem.contains('.') && last_index(stem, '.') is Some {
        assert(stem.contains(stem[last_index(stem, '.')->0]));
    }
}

/// The payload of a data URL is all that follows its mark. A text without one is
/// refused, a payload that cannot be decoded is called corrupt, and any other is
/// the picture.
pub proof fn a_data_url_carries_its_payload(
    front: Seq<char>,
    payload: Seq<char>,
    decoded: Result<Seq<u8>, Seq<char>>,
)
    requires
        !front.contains(';'),
    ensures
        payload_of(front + ";base64,"@ + payload) == Some(payload),
        payload_of(front) is None,
        picture(None, decoded) == Err::<Seq<u8>, Seq<char>>("not a base64 data URL"@),
        decoded matches Ok(bytes) ==> picture(Some(payload), decoded) == Ok::<Seq<u8>, Seq<char>>(bytes),
        decoded matches Err(e) ==> picture(Some(payload), decoded) == Err::<Seq<u8>, Seq<char>>(
            "corrupt image data: "@ + e,
        ),
        begins(data_url(front, payload), "data:"@ + front + ";base64,"@),
        MAX_INLINE_BYTES == 64 * 1024 * 1024,
{
    reveal_strlit(";base64,");
    let mark = ";base64,"@;
    let url = front + mark + payload;
    let j = front.len() as int;
    assert(url.subrange(j, j + mark.len()) =~= mark);
    assert(occurs(url, mark, j));
    assert forall|k: int| 0 <= k < j implies !occurs(url, mark, k) by {
        assert(front.contains(front[k]));
        if occurs(url, mark, k) {
            assert(url.subrange(k, k + mark.len())[0] == mark[0]);
        }
    }
    lemma_match_from_is(url, mark, 0, j);
    assert(url.skip(j + mark.len()) =~= payload);
    crate::text::lemma_match_from(front, mark, 0);
    if match_from(front, mark, 0) is Some {
        let i = match_from(front, mark, 0)->0;
        assert(front.subrange(i, i + mark.len())[0] == mark[0]);
        assert(front.contains(front[i]));
    }
    let head = "data:"@ + front + mark;
    assert(data_url(front, payload).take(head.len() as int) =~= head);
}

/// Whether a byte is a letter, a digit or one of `-`, `_`, `.`, `~` in ASCII.
pub open spec fn stands_for_itself(b: u8) -> bool {
    let c = b as char;
    ('A' <= c <= 'Z') || ('a' <= c <= 'z') || ('0' <= c <= '9') || c == '-' || c == '_' || c == '.' || c == '~'
}

/// A query string is written byte by byte: letters, digits and four signs stand
/// for themselves, and any other byte is a percent sign and its two digits to the
/// base of sixteen, in capitals.
pub proof fn bytes_are_escaped_one_by_one(a: Seq<u8>, rest: Seq<u8>, b: u8)
    ensures
        escaped(a + rest) == escaped(a) + escaped(rest),
        escaped(Seq::empty()) == Seq::<char>::empty(),
        stands_for_itself(b) ==> escaped(seq![b]) == seq![b as char],
        !stands_for_itself(b) ==> {
            let e = escaped(seq![b]);
            &&& e.len() == 3 && e[0] == '%'
            &&& ('0' <= e[1] <= '9') || ('A' <= e[1] <= 'F')
            &&& ('0' <= e[2] <= '9') || ('A' <= e[2] <= 'F')
            &&& b == 16 * sixteenth(e[1]) + sixteenth(e[2])
        },
    decreases a.len(),
{
    let none = Seq::<char>::empty();
    assert(seq![b].skip(1) =~= Seq::<u8>::empty());
    assert(escaped(Seq::<u8>::empty()) == none);
    assert(escaped(seq![b]) == escaped_byte(b) + escaped(seq![b].skip(1)));
    assert(escaped(seq![b]) =~= escaped_byte(b));
    if a.len() > 0 {
        bytes_are_escaped_one_by_one(a.skip(1), rest, b);
        assert((a + rest).skip(1) =~= a.skip(1) + rest);
        assert(escaped(a + rest) =~= escaped(a) + escaped(rest));
    } else {
        assert(a + rest =~= rest);
        assert(escaped(a + rest) =~= none + escaped(rest));
    }
}

/// What a digit to the base of sixteen counts.
pub open spec fn sixteenth(c: char) -> int {
    if '0' <= c <= '9' {
        c as int - '0' as int
    } else {
        c as int - 'A' as int + 10
    }
}

} // verus!
