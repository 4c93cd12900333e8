//! Control channel for development builds: which line asks for what, the script
//! that evaluates code in a window, and what its report answers.
//!
//! It runs arbitrary code in a privileged web view by design. The program listens
//! on it only in debug builds, and only on the loopback interface.

use crate::numbers::{dec, dec_string};
use crate::recorder::opt_slice;
use crate::text::{opt_str, same};
use vstd::prelude::*;
use vstd::string::*;

verus! {

/// How long to wait for a web view to answer, in seconds. Generous, because a
/// hidden window is throttled and its reply can be deferred for many seconds.
pub const EVAL_TIMEOUT_SECS: u64 = 25;

/// An action of the program that can be invoked by name.
#[derive(Clone, Copy, Debug, PartialEq, Eq, Structural)]
pub enum Invoked {
    Still,
    GrabText,
    RecordStart,
    RecordStop,
    Pause,
}

/// What a request asks for.
pub enum Request {
    Ping,
    State,
    Windows,
    /// Where a window is on the screen.
    Bounds(String),
    /// Evaluate code in a window: the window, and the code.
    Eval(String, String),
    Invoke(Invoked),
    /// It cannot be answered: why.
    Refused(String),
}

/// A field of a request, or what stands in for it.
pub open spec fn field_or(field: Option<Seq<char>>, otherwise: Seq<char>) -> Seq<char> {
    match field {
        Some(s) => s,
        None => otherwise,
    }
}

/// What an action's name invokes.
pub open spec fn invoked(name: Seq<char>) -> Option<Invoked> {
    if name == "still"@ {
        Some(Invoked::Still)
    } else if name == "grab_text"@ {
        Some(Invoked::GrabText)
    } else if name == "record_start"@ {
        Some(Invoked::RecordStart)
    } else if name == "record_stop"@ {
        Some(Invoked::RecordStop)
    } else if name == "pause"@ {
        Some(Invoked::Pause)
    } else {
        None
    }
}

fn find_invoked(name: &str) -> (r: Option<Invoked>)
    ensures
        r == invoked(name@),
{
    if same(name, "still") {
        Some(Invoked::Still)
    } else if same(name, "grab_text") {
        Some(Invoked::GrabText)
    } else if same(name, "record_start") {
        Some(Invoked::RecordStart)
    } else if same(name, "record_stop") {
        Some(Invoked::RecordStop)
    } else if same(name, "pause") {
        Some(Invoked::Pause)
    } else {
        None
    }
}

/// `r` is what the command `cmd` asks for.
pub open spec fn asks_for(
    cmd: Seq<char>,
    window: Seq<char>,
    js: Option<Seq<char>>,
    name: Seq<char>,
    r: Request,
) -> bool {
    if cmd == "ping"@ {
        r is Ping
    } else if cmd == "state"@ {
        r is State
    } else if cmd == "windows"@ {
        r is Windows
    } else if cmd == "bounds"@ {
        r matches Request::Bounds(w) && w@ == window
    } else if cmd == "eval"@ {
        match js {
            Some(code) => r matches Request::Eval(w, c) && w@ == window && c@ == code,
            None => r matches Request::Refused(e) && e@ == "eval needs a `js` string"@,
        }
    } else if cmd == "invoke"@ {
        match invoked(name) {
            Some(i) => r matches Request::Invoke(j) && i == j,
            None => r matches Request::Refused(e) && e@ == "unknown invoke `"@ + name + "`"@,
        }
    } else {
        r matches Request::Refused(e) && e@ == "unknown cmd `"@ + cmd + "`"@
    }
}

fn unknown(what: &str, name: &str) -> (r: String)
    ensures
        r@ == what@ + name@ + "`"@,
{
    let mut e: String = what.to_owned();
    e.append(name);
    e.append("`");
    e
}

/// What a request asks for, from its fields `cmd`, `window`, `js` and `name`, as
/// far as they are texts. The window is the main one unless another is named.
pub fn dispatch(cmd: Option<&str>, window: Option<&str>, js: Option<&str>, name: Option<&str>) -> (r:
    Request)
    ensures
        asks_for(
            field_or(opt_slice(cmd), ""@),
            field_or(opt_slice(window), "main"@),
            opt_slice(js),
            field_or(opt_slice(name), ""@),
            r,
        ),
{
    let cmd: &str = match cmd {
        Some(s) => s,
        None => "",
    };
    let window: &str = match window {
        Some(s) => s,
        None => "main",
    };
    if same(cmd, "ping") {
        Request::Ping
    } else if same(cmd, "state") {
        Request::State
    } else if same(cmd, "windows") {
        Request::Windows
    } else if same(cmd, "bounds") {
        Request::Bounds(window.to_owned())
    } else if same(cmd, "eval") {
        match js {
            Some(code) => Request::Eval(window.to_owned(), code.to_owned()),
            None => Request::Refused("eval needs a `js` string".to_owned()),
        }
    } else if same(cmd, "invoke") {
        let name: &str = match name {
            Some(s) => s,
            None => "",
        };
        match find_invoked(name) {
            Some(i) => Request::Invoke(i),
            None => Request::Refused(unknown("unknown invoke `", name)),
        }
    } else {
        Request::Refused(unknown("unknown cmd `", cmd))
    }
}

/// The error where there is no such window.
pub fn no_window(label: &str) -> (r: String)
    ensures
        r@ == "no window `"@ + label@ + "`"@,
{
    unknown("no window `", label)
}

// ---------------------------------------------------------------------------
// Reading JSON

/// A member of a JSON object: its text where it is a string, its number where it
/// is one that a `u64` holds, and the member itself written as JSON.
pub struct Member {
    pub text: Option<String>,
    pub number: Option<u64>,
    pub json: String,
}

impl View for Member {
    type V = (Option<Seq<char>>, Option<u64>, Seq<char>);

    open spec fn view(&self) -> Self::V {
        (opt_str(self.text), self.number, self.json@)
    }
}

pub open spec fn opt_member(m: Option<Member>) -> Option<(Option<Seq<char>>, Option<u64>, Seq<char>)> {
    match m {
        Some(m) => Some(m@),
        None => None,
    }
}

/// What `serde_json::from_str` makes of a text: the members of the object that it
/// holds, none where it holds another value, or the words of the error. A member
/// is given by what it is as a string, as a number, and in compact JSON.
pub uninterp spec fn json_members(text: Seq<char>) -> Result<
    Map<Seq<char>, (Option<Seq<char>>, Option<u64>, Seq<char>)>,
    Seq<char>,
>;

/// The member called `name`.
pub open spec fn member_of(
    members: Map<Seq<char>, (Option<Seq<char>>, Option<u64>, Seq<char>)>,
    name: Seq<char>,
) -> Option<(Option<Seq<char>>, Option<u64>, Seq<char>)> {
    if members.dom().contains(name) {
        Some(members[name])
    } else {
        None
    }
}

/// The text of the member called `name`, where there is one and it is a string.
pub open spec fn text_of(
    members: Map<Seq<char>, (Option<Seq<char>>, Option<u64>, Seq<char>)>,
    name: Seq<char>,
) -> Option<Seq<char>> {
    match member_of(members, name) {
        Some(m) => m.0,
        None => None,
    }
}

/// `serde_json::from_str` of a text into a `serde_json::Value`, and then
/// `Value::get` of a name, with `Value::as_str`, `Value::as_u64` and the compact
/// writing of what it finds. Whether the text is refused, and in which words,
/// does not depend on the name.
#[verifier::external_body]
fn json_member(text: &str, name: &str) -> (r: Result<Option<Member>, String>)
    ensures
        match r {
            Ok(m) => json_members(text@) is Ok && opt_member(m) == member_of(
                json_members(text@)->Ok_0,
                name@,
            ),
            Err(e) => json_members(text@) is Err && e@ == json_members(text@)->Err_0,
        },
{
    match serde_json::from_str::<serde_json::Value>(text) {
        Ok(value) => match value.get(name) {
            Some(m) => Ok(Some(Member {
                text: m.as_str().map(str::to_owned),
                number: m.as_u64(),
                json: m.to_string(),
            })),
            None => Ok(None),
        },
        Err(e) => Err(e.to_string()),
    }
}

fn json_text(text: &str, name: &str) -> (r: Result<Option<String>, String>)
    ensures
        match r {
            Ok(t) => json_members(text@) is Ok && opt_str(t) == text_of(json_members(text@)->Ok_0, name@),
            Err(e) => json_members(text@) is Err && e@ == json_members(text@)->Err_0,
        },
{
    match json_member(text, name) {
        Ok(Some(m)) => Ok(m.text),
        Ok(None) => Ok(None),
        Err(e) => Err(e),
    }
}

/// The refusal of a line that is not JSON.
pub fn bad_json(e: &str) -> (r: Request)
    ensures
        r matches Request::Refused(m) && m@ == "bad JSON: "@ + e@,
{
    let mut m: String = "bad JSON: ".to_owned();
    m.append(e);
    Request::Refused(m)
}

fn borrowed(s: &Option<String>) -> (r: Option<&str>)
    ensures
        opt_slice(r) == opt_str(*s),
{
    match s {
        Some(t) => Some(t.as_str()),
        None => None,
    }
}

/// `r` is what a line asks for, given what it holds.
pub open spec fn line_asks_for(
    line: Result<Map<Seq<char>, (Option<Seq<char>>, Option<u64>, Seq<char>)>, Seq<char>>,
    r: Request,
) -> bool {
    match line {
        Ok(members) => asks_for(
            field_or(text_of(members, "cmd"@), ""@),
            field_or(text_of(members, "window"@), "main"@),
            text_of(members, "js"@),
            field_or(text_of(members, "name"@), ""@),
            r,
        ),
        Err(e) => r matches Request::Refused(m) && m@ == "bad JSON: "@ + e,
    }
}

/// What a line of the channel asks for.
pub fn request(line: &str) -> (r: Request)
    ensures
        line_asks_for(json_members(line@), r),
{
    let cmd = match json_text(line, "cmd") {
        Ok(t) => t,
        Err(e) => return bad_json(e.as_str()),
    };
    let window = match json_text(line, "window") {
        Ok(t) => t,
        Err(e) => return bad_json(e.as_str()),
    };
    let js = match json_text(line, "js") {
        Ok(t) => t,
        Err(e) => return bad_json(e.as_str()),
    };
    let name = match json_text(line, "name") {
        Ok(t) => t,
        Err(e) => return bad_json(e.as_str()),
    };
    dispatch(borrowed(&cmd), borrowed(&window), borrowed(&js), borrowed(&name))
}

/// What a script's report answers, from its members `id` and `value`: the number
/// of the request, and the value as JSON, `null` where there is none. A report
/// without a number answers nothing.
pub open spec fn reported(
    id: Option<(Option<Seq<char>>, Option<u64>, Seq<char>)>,
    value: Option<(Option<Seq<char>>, Option<u64>, Seq<char>)>,
) -> Option<(u64, Seq<char>)> {
    match id {
        Some(m) => match m.1 {
            Some(n) => Some(
                (
                    n,
                    match value {
                        Some(v) => v.2,
                        None => "null"@,
                    },
                ),
            ),
            None => None,
        },
        None => None,
    }
}

pub open spec fn opt_report(r: Option<(u64, String)>) -> Option<(u64, Seq<char>)> {
    match r {
        Some((id, value)) => Some((id, value@)),
        None => None,
    }
}

/// What a report answers, from its two members.
pub fn report_of(id: Option<Member>, value: Option<Member>) -> (r: Option<(u64, String)>)
    ensures
        opt_report(r) == reported(opt_member(id), opt_member(value)),
{
    let n: u64 = match id {
        Some(m) => match m.number {
            Some(n) => n,
            None => return None,
        },
        None => return None,
    };
    match value {
        Some(v) => Some((n, v.json)),
        None => Some((n, "null".to_owned())),
    }
}

/// What the report of a script answers: the request's number, and the value to
/// hand back for it. A report that is not JSON answers nothing.
pub fn report(payload: &str) -> (r: Option<(u64, String)>)
    ensures
        opt_report(r) == match json_members(payload@) {
            Ok(members) => reported(member_of(members, "id"@), member_of(members, "value"@)),
            Err(_) => None,
        },
{
    match json_member(payload, "id") {
        Ok(id) => match json_member(payload, "value") {
            Ok(value) => report_of(id, value),
            Err(_) => None,
        },
        Err(_) => None,
    }
}

// ---------------------------------------------------------------------------
// Evaluating code

pub open spec fn small_hex_digit(d: int) -> char {
    if d < 10 {
        (48 + d) as char
    } else {
        (87 + d) as char
    }
}

/// A character inside a JSON string.
pub open spec fn json_char(c: char) -> Seq<char> {
    if c == '"' {
        seq!['\\', '"']
    } else if c == '\\' {
        seq!['\\', '\\']
    } else if c == '\n' {
        seq!['\\', 'n']
    } else if c == '\r' {
        seq!['\\', 'r']
    } else if c == '\t' {
        seq!['\\', 't']
    } else if c as int == 8 {
        seq!['\\', 'b']
    } else if c as int == 12 {
        seq!['\\', 'f']
    } else if (c as int) < 32 {
        seq!['\\', 'u', '0', '0', small_hex_digit(c as int / 16), small_hex_digit(c as int % 16)]
    } else {
        seq![c]
    }
}

pub open spec fn json_chars(s: Seq<char>) -> Seq<char>
    decreases s.len(),
{
    if s.len() == 0 {
        Seq::empty()
    } else {
        json_char(s[0]) + json_chars(s.skip(1))
    }
}

/// A text as a JSON string.
pub open spec fn json_string(s: Seq<char>) -> Seq<char> {
    seq!['"'] + json_chars(s) + seq!['"']
}

/// `serde_json::to_string` of a text: a JSON string, in which quotes, backslashes
/// and control characters are escaped, those without a letter of their own by
/// their number. It does not fail on a text.
#[verifier::external_body]
fn to_json(s: &str) -> (r: String)
    ensures
        r@ == json_string(s@),
{
    match serde_json::to_string(s) {
        Ok(text) => text,
        Err(_) => "\"\"".to_string(),
    }
}

/// The line that answers a request: what came of it as JSON, or the error.
pub fn answer_of(outcome: Result<String, String>) -> (r: String)
    ensures
        r@ == match outcome {
            Ok(value) => "{\"ok\":"@ + value@ + "}"@,
            Err(e) => "{\"error\":"@ + json_string(e@) + "}"@,
        },
{
    let mut line: String = match outcome {
        Ok(value) => {
            let mut s: String = "{\"ok\":".to_owned();
            s.append(value.as_str());
            s
        },
        Err(e) => {
            let mut s: String = "{\"error\":".to_owned();
            s.append(to_json(e.as_str()).as_str());
            s
        },
    };
    line.append("}");
    line
}

pub const SCRIPT_HEAD: &'static str = r#"(async () => {
  let out;
  try {
    const src = "#;

pub const SCRIPT_BODY: &'static str = r#";
    // AsyncFunction rather than Function: statement bodies routinely want
    // `await`, which a plain Function rejects as a syntax error.
    const AsyncFunction = Object.getPrototypeOf(async function () {}).constructor;
    let fn;
    try { fn = new AsyncFunction("return (" + src + "\n)"); }
    catch (_) { fn = new AsyncFunction(src); }
    const v = await fn();
    out = { ok: v === undefined ? null : JSON.parse(JSON.stringify(v)) };
  } catch (e) { out = { error: String(e) }; }
  window.__TAURI__.event.emit('devctl-result', { id: "#;

pub const SCRIPT_TAIL: &'static str = r#", value: out });
})()"#;

/// The script that evaluates `js` and reports its value under the number `id`.
///
/// The code is passed as a string and compiled by the script, so that a syntax
/// error is an exception that it can report rather than a script that never runs.
pub fn eval_script(js: &str, id: u64) -> (r: String)
    ensures
        r@ == SCRIPT_HEAD@ + json_string(js@) + SCRIPT_BODY@ + dec(id as nat) + SCRIPT_TAIL@,
{
    let mut script: String = SCRIPT_HEAD.to_owned();
    script.append(to_json(js).as_str());
    script.append(SCRIPT_BODY);
    script.append(dec_string(id).as_str());
    script.append(SCRIPT_TAIL);
    script
}

pub open spec fn small_hex_value(c: char) -> int {
    if c <= '9' {
        c as int - 48
    } else {
        c as int - 87
    }
}

/// The character that the letter of an escape stands for.
pub open spec fn escape_letter(c: char) -> char {
    if c == 'n' {
        '\n'
    } else if c == 'r' {
        '\r'
    } else if c == 't' {
        '\t'
    } else if c == 'b' {
        8 as char
    } else if c == 'f' {
        12 as char
    } else {
        c
    }
}

/// What a reader makes of the inside of a JSON string.
pub open spec fn unquoted(s: Seq<char>) -> Seq<char>
    decreases s.len(),
{
    if s.len() == 0 {
        Seq::empty()
    } else if s[0] == '\\' && s.len() >= 6 && s[1] == 'u' {
        seq![(small_hex_value(s[4]) * 16 + small_hex_value(s[5])) as char] + unquoted(s.skip(6))
    } else if s[0] == '\\' && s.len() >= 2 {
        seq![escape_letter(s[1])] + unquoted(s.skip(2))
    } else {
        seq![s[0]] + unquoted(s.skip(1))
    }
}

proof fn lemma_json_char(c: char)
    ensures
        ({
            let e = json_char(c);
            ||| e.len() == 1 && e[0] == c && c as int >= 32 && c != '"' && c != '\\'
            ||| e.len() == 2 && e[0] == '\\' && e[1] as int >= 32 && e[1] != 'u' && escape_letter(e[1]) == c
            ||| {
                &&& e.len() == 6
                &&& e[0] == '\\' && e[1] == 'u' && e[2] == '0' && e[3] == '0'
                &&& e[4] as int >= 48 && e[5] as int >= 48
                &&& small_hex_value(e[4]) * 16 + small_hex_value(e[5]) == c as int
            }
        }),
{
    let e = json_char(c);
    assert(c as int >= 0);
    if e.len() == 6 {
        assert(e[4] == small_hex_digit(c as int / 16));
        assert(e[5] == small_hex_digit(c as int % 16));
        assert(small_hex_value(e[4]) == c as int / 16);
        assert(small_hex_value(e[5]) == c as int % 16);
    }
}

/// The code that the script compiles is the code that it was given.
pub proof fn quoting_is_undone(s: Seq<char>)
    ensures
        unquoted(json_chars(s)) == s,
    decreases s.len(),
{
    if s.len() > 0 {
        let c = s[0];
        let rest = s.skip(1);
        let all = json_chars(s);
        let first = json_char(c);
        quoting_is_undone(rest);
        lemma_json_char(c);
        assert(all.skip(first.len() as int) =~= json_chars(rest));
        assert(forall|i: int| 0 <= i < first.len() ==> all[i] == first[i]);
        assert(all[0] == first[0]);
        assert(seq![c] + rest =~= s);
    }
}

/// The code cannot end the string that holds it: inside it there is no line
/// break, and every quote is behind a backslash.
pub proof fn quoting_keeps_the_string_whole(s: Seq<char>, i: int)
    requires
        0 <= i < json_chars(s).len(),
    ensures
        json_chars(s)[i] as int >= 32,
        json_chars(s)[i] == '"' ==> i > 0 && json_chars(s)[i - 1] == '\\',
    decreases s.len(),
{
    let first = json_char(s[0]);
    let rest = json_chars(s.skip(1));
    let all = json_chars(s);
    lemma_json_char(s[0]);
    assert(forall|k: int| 0 <= k < first.len() ==> all[k] == first[k]);
    if i < first.len() {
        assert(i == 0 || i == 1 || i == 2 || i == 3 || i == 4 || i == 5);
        if i > 0 {
            assert(all[i - 1] == first[i - 1]);
        }
    } else {
        let k = i - first.len();
        quoting_keeps_the_string_whole(s.skip(1), k);
        assert(all[i] == rest[k]);
        if k > 0 {
            assert(all[i - 1] == rest[k - 1]);
        }
    }
}

// ---------------------------------------------------------------------------
// Laws

/// The name by which an action is invoked.
pub open spec fn action_name(action: Invoked) -> Seq<char> {
    match action {
        Invoked::Still => "still"@,
        Invoked::GrabText => "grab_text"@,
        Invoked::RecordStart => "record_start"@,
        Invoked::RecordStop => "record_stop"@,
        Invoked::Pause => "pause"@,
    }
}

/// An action is invoked by its name, and by no other.
pub proof fn actions_go_by_their_names(action: Invoked, name: Seq<char>)
    ensures
        invoked(action_name(action)) == Some(action),
        invoked(name) matches Some(a) ==> action_name(a) == name,
{
    reveal_strlit("still");
    reveal_strlit("grab_text");
    reveal_strlit("record_start");
    reveal_strlit("record_stop");
    reveal_strlit("pause");
    assert("still"@.len() == 5 && "still"@[0] == 's' && "pause"@.len() == 5 && "pause"@[0] == 'p');
    assert("grab_text"@.len() == 9 && "record_start"@.len() == 12 && "record_stop"@.len() == 11);
}

/// What a request is, tells what was asked for: its command, its window, its code
/// or its action. A refusal quotes what is not known, and comes only where the
/// command is not known, the code is missing or the action is not known.
pub proof fn a_request_tells_what_was_asked_for(
    cmd: Seq<char>,
    window: Seq<char>,
    js: Option<Seq<char>>,
    name: Seq<char>,
    r: Request,
)
    requires
        asks_for(cmd, window, js, name, r),
    ensures
        match r {
            Request::Ping => cmd == "ping"@,
            Request::State => cmd == "state"@,
            Request::Windows => cmd == "windows"@,
            Request::Bounds(w) => cmd == "bounds"@ && w@ == window,
            Request::Eval(w, code) => cmd == "eval"@ && w@ == window && js == Some(code@),
            Request::Invoke(action) => cmd == "invoke"@ && name == action_name(action),
            Request::Refused(e) => {
                ||| cmd == "eval"@ && js is None && e@ == "eval needs a `js` string"@
                ||| cmd == "invoke"@ && invoked(name) is None && e@ == "unknown invoke `"@ + name + "`"@
                ||| {
                    &&& cmd != "ping"@ && cmd != "state"@ && cmd != "windows"@ && cmd != "bounds"@ && cmd
                        != "eval"@ && cmd != "invoke"@
                    &&& e@ == "unknown cmd `"@ + cmd + "`"@
                }
            },
        },
{
    actions_go_by_their_names(Invoked::Still, name);
}

/// The main window is meant where none is named, and a member counts as a text
/// only where it is one.
pub proof fn members_are_found_by_name(
    members: Map<Seq<char>, (Option<Seq<char>>, Option<u64>, Seq<char>)>,
    name: Seq<char>,
    other: Seq<char>,
    m: (Option<Seq<char>>, Option<u64>, Seq<char>),
)
    ensures
        member_of(members.insert(name, m), name) == Some(m),
        other != name ==> member_of(members.insert(name, m), other) == member_of(members, other),
        member_of(Map::empty(), name) is None,
        text_of(members.insert(name, m), name) == m.0,
        !members.dom().contains(name) ==> text_of(members, name) is None,
        field_or(text_of(members.insert(name, m), name), other) == (match m.0 {
            Some(t) => t,
            None => other,
        }),
        field_or(None, other) == other,
{
}

/// A report answers the request whose number it carries, with the value that it
/// carries, or with nothing where there is none. Without a number it answers
/// nothing.
pub proof fn a_report_answers_its_request(
    id: Option<(Option<Seq<char>>, Option<u64>, Seq<char>)>,
    value: Option<(Option<Seq<char>>, Option<u64>, Seq<char>)>,
)
    ensures
        reported(id, value) is Some <==> id is Some && (id->0).1 is Some,
        reported(id, value) matches Some(r) ==> (id->0).1 == Some(r.0) && match value {
            Some(v) => r.1 == v.2,
            None => r.1 == "null"@,
        },
        EVAL_TIMEOUT_SECS == 25,
{
}

/// A text member of a line, or what stands in for one that is missing or no text.
pub open spec fn said(
    members: Map<Seq<char>, (Option<Seq<char>>, Option<u64>, Seq<char>)>,
    name: Seq<char>,
    t: Seq<char>,
    otherwise: Seq<char>,
) -> bool {
    if members.dom().contains(name) && members[name].0 is Some {
        t == members[name].0->0
    } else {
        t == otherwise
    }
}

/// A line asks for what its members `cmd`, `window`, `js` and `name` say; without a
/// window the main one is meant. A line that is not JSON is refused with the reason.
pub proof fn a_line_asks_by_its_members(
    line: Result<Map<Seq<char>, (Option<Seq<char>>, Option<u64>, Seq<char>)>, Seq<char>>,
    r: Request,
)
    requires
        line_asks_for(line, r),
    ensures
        line matches Err(e) ==> r matches Request::Refused(m) && m@ == "bad JSON: "@ + e,
        line matches Ok(members) ==> match r {
            Request::Ping => said(members, "cmd"@, "ping"@, ""@),
            Request::State => said(members, "cmd"@, "state"@, ""@),
            Request::Windows => said(members, "cmd"@, "windows"@, ""@),
            Request::Bounds(w) => said(members, "cmd"@, "bounds"@, ""@) && said(members, "window"@, w@, "main"@),
            Request::Eval(w, code) => {
                &&& said(members, "cmd"@, "eval"@, ""@)
                &&& said(members, "window"@, w@, "main"@)
                &&& members.dom().contains("js"@) && members["js"@].0 == Some(code@)
            },
            Request::Invoke(action) => said(members, "cmd"@, "invoke"@, ""@) && said(
                members,
                "name"@,
                action_name(action),
                ""@,
            ),
            Request::Refused(e) => {
                &&& !said(members, "cmd"@, "ping"@, ""@)
                &&& !said(members, "cmd"@, "state"@, ""@)
                &&& !said(members, "cmd"@, "windows"@, ""@)
                &&& !said(members, "cmd"@, "bounds"@, ""@)
            },
        },
{
    if let Ok(members) = line {
        let name = field_or(text_of(members, "name"@), ""@);
        a_request_tells_what_was_asked_for(
            field_or(text_of(members, "cmd"@), ""@),
            field_or(text_of(members, "window"@), "main"@),
            text_of(members, "js"@),
            name,
            r,
        );
    }
}

/// What the contracts speak of is all that a member and a report hold.
pub proof fn members_are_seen_whole(m: Member, id: u64, value: String)
    ensures
        m@.1 == m.number && m@.2 == m.json@,
        m.text is None ==> m@.0 is None,
        m.text matches Some(t) ==> m@.0 == Some(t@),
        opt_member(Some(m)) == Some(m@),
        opt_member(None) is None,
        opt_report(Some((id, value))) == Some((id, value@)),
        opt_report(None) is None,
{
}

} // verus!
