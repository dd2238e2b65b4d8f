//! The bridge's own protocol: one line for each frame, before the stream that it
//! relays without looking at it.
//!
//! A frame is the magic word, a space and a JSON object. The digit of the magic
//! word is the protocol's major version, and a frame with another digit is
//! refused; the minor version goes up with each addition.
use crate::json::{
    add_field, fields_model, group_json, items_model, json_arr, json_obj, json_str, no_fields,
    opt_model, Json, JsonV,
};
use crate::pattern::{lossy, opt_view, text_lossy};
use crate::text::{
    begins, cat, cat3, chars_of, is_space, same, skip_space, split_words, starts_with, strip_prefix,
    trim_end, trim_end_str, trim_start, trim_start_str, views, word_end, words,
};
use vstd::prelude::*;
use vstd::string::*;

verus! {

/// The first word of every frame.
pub const MAGIC: &'static str = "BRIDGE1";

/// The magic word without its digit.
pub const MAGIC_FAMILY: &'static str = "BRIDGE";

/// The version of the protocol, major and minor.
pub const BRIDGE_PROTOCOL_VERSION: &'static str = "1.1";

/// The most bytes that a line may have.
pub const MAX_LINE_BYTES: usize = 65536;

// -------------------------------------------------------------------- framing

/// The frame that carries that JSON text.
pub fn encode_frame(json: &str) -> (res: String)
    ensures
        res@ == MAGIC@ + " "@ + json@,
{
    cat3(MAGIC, " ", json)
}

/// Why a line does not begin with the magic word.
pub open spec fn mismatch_text(line: Seq<char>) -> Seq<char> {
    let all = words(line, 0);
    if all.len() > 0 && begins(all[0], MAGIC_FAMILY@) && all[0] != MAGIC@ {
        "bridge frame protocol `"@ + all[0] + "` is not compatible with this build's `"@ + MAGIC@
            + "`: the two binaries need to match"@
    } else {
        "not a bridge frame (missing "@ + MAGIC@ + " prefix)"@
    }
}

/// Says why a line does not begin with the magic word. A frame of another major
/// version is told apart from a line that is no frame at all.
pub fn magic_mismatch(line: &str) -> (res: String)
    ensures
        res@ == mismatch_text(line@),
{
    let all: Vec<String> = split_words(line);
    proof {
        assert(views(all@).len() == all@.len());
    }
    if all.len() > 0 {
        proof {
            assert(views(all@)[0] == all@[0]@);
        }
        if starts_with(&all[0], MAGIC_FAMILY) && !same(&all[0], MAGIC) {
            let mut res: String = cat3(
                "bridge frame protocol `",
                &all[0],
                "` is not compatible with this build's `",
            );
            res.append(MAGIC);
            res.append("`: the two binaries need to match");
            return res;
        }
    }
    cat3("not a bridge frame (missing ", MAGIC, " prefix)")
}

/// Whether what follows the magic word leaves its version as it is: it does not begin
/// with one more digit.
pub open spec fn ends_magic(rest: Seq<char>) -> bool {
    rest.len() == 0 || !('0' <= rest[0] <= '9')
}

/// The JSON text that a line carries, or why it is no frame. A version with more
/// digits is another one.
pub open spec fn payload_of(line: Seq<char>) -> Result<Seq<char>, Seq<char>> {
    let rest = line.skip(MAGIC@.len() as int);
    if begins(line, MAGIC@) && ends_magic(rest) {
        Ok(trim_start(rest))
    } else {
        Err(mismatch_text(line))
    }
}

/// The JSON text that a line carries, or why it is no frame.
pub fn frame_payload(line: &str) -> (res: Result<String, String>)
    ensures
        match payload_of(line@) {
            Ok(json) => res matches Ok(j) && j@ == json,
            Err(why) => res matches Err(e) && e@ == why,
        },
{
    match strip_prefix(line, MAGIC) {
        Some(rest) => {
            let chars: Vec<char> = chars_of(&rest);
            if chars.len() == 0 || !('0' <= chars[0] && chars[0] <= '9') {
                Ok(trim_start_str(&rest))
            } else {
                Err(magic_mismatch(line))
            }
        },
        None => Err(magic_mismatch(line)),
    }
}

/// A frame gives back the JSON text that it carries.
pub proof fn law_a_frame_gives_back_its_payload(json: Seq<char>)
    requires
        json.len() > 0 ==> !is_space(json[0]),
    ensures
        payload_of(MAGIC@ + " "@ + json) == Ok::<Seq<char>, Seq<char>>(json),
{
    reveal_strlit(" ");
    let line = MAGIC@ + " "@ + json;
    let rest = line.skip(MAGIC@.len() as int);
    assert(line.subrange(0, MAGIC@.len() as int) =~= MAGIC@);
    assert(rest =~= " "@ + json);
    assert(rest[0] == ' ');
    assert(skip_space(rest, 0) == skip_space(rest, 1));
    if json.len() > 0 {
        assert(rest[1] == json[0]);
    }
    assert(skip_space(rest, 1) == 1);
    assert(rest.skip(1) =~= json);
}

/// A line that does not begin with the magic word is never taken for a frame.
pub proof fn law_other_lines_are_refused(line: Seq<char>)
    requires
        !begins(line, MAGIC@),
    ensures
        payload_of(line) is Err,
{
}

/// A frame of any other major version is refused, and what is said names both.
pub proof fn law_other_majors_are_refused(major: Seq<char>, json: Seq<char>)
    requires
        major.len() > 0,
        forall|i: int| 0 <= i < major.len() ==> '0' <= #[trigger] major[i] <= '9',
        major != "1"@,
    ensures
        payload_of(MAGIC_FAMILY@ + major + " "@ + json) == Err::<Seq<char>, Seq<char>>(
            "bridge frame protocol `"@ + (MAGIC_FAMILY@ + major)
                + "` is not compatible with this build's `"@ + MAGIC@
                + "`: the two binaries need to match"@,
        ),
{
    reveal_strlit("BRIDGE");
    reveal_strlit("BRIDGE1");
    reveal_strlit(" ");
    reveal_strlit("1");
    let word = MAGIC_FAMILY@ + major;
    let line = word + " "@ + json;
    let n = word.len() as int;
    assert forall|i: int| 0 <= i < n implies line[i] == word[i] && !is_space(#[trigger] word[i]) by {
        if i >= 6 {
            assert(word[i] == major[i - 6]);
        }
    }
    assert(line[n] == ' ');
    lemma_word_runs(line, 0, n);
    assert(skip_space(line, 0) == 0);
    assert(line.subrange(0, n) =~= word);
    assert(words(line, 0)[0] == word);
    assert(word.subrange(0, 6) =~= MAGIC_FAMILY@);
    if begins(line, MAGIC@) {
        let rest = line.skip(7);
        assert(line.subrange(0, 7) == MAGIC@);
        assert(line.subrange(0, 7)[6] == MAGIC@[6]);
        assert(major[0] == '1');
        if major.len() == 1 {
            assert(major =~= "1"@);
        }
        assert(rest[0] == major[1]);
    }
    if word == MAGIC@ {
        assert(word[6] == MAGIC@[6]);
        assert(major =~= "1"@);
    }
}

/// A word runs up to the first white space.
proof fn lemma_word_runs(s: Seq<char>, i: int, end: int)
    requires
        0 <= i <= end < s.len(),
        forall|k: int| i <= k < end ==> !is_space(#[trigger] s[k]),
        is_space(s[end]),
    ensures
        word_end(s, i) == end,
    decreases end - i,
{
    if i < end {
        lemma_word_runs(s, i + 1, end);
    }
}

/// What is wrong with a frame that could not be read.
pub fn bad_frame(detail: &str) -> (res: String)
    ensures
        res@ == "bad bridge frame: "@ + detail@,
{
    cat("bad bridge frame: ", detail)
}

// -------------------------------------------------------------- reading a line

/// A line that arrives in pieces.
pub struct LineReader {
    pub buf: Vec<u8>,
}

/// What a piece of a line leads to.
#[derive(Debug)]
pub enum LineStep {
    /// The line is not complete.
    NeedMore,
    /// The line is complete; so many bytes of the piece belong to it, its newline
    /// with them.
    Line { text: String, consumed: usize },
    /// The line is too long.
    TooLong,
    /// The stream ended before the line did.
    Closed,
}

impl LineStep {
    /// What is wrong where no line will come.
    pub fn fault(&self) -> (res: Option<&'static str>)
        ensures
            match *self {
                LineStep::Closed => res matches Some(e) && e@
                    == "connection closed before a complete line"@,
                LineStep::TooLong => res matches Some(e) && e@ == "line exceeds size limit"@,
                LineStep::NeedMore | LineStep::Line { .. } => res is None,
            },
    {
        match self {
            LineStep::Closed => Some("connection closed before a complete line"),
            LineStep::TooLong => Some("line exceeds size limit"),
            LineStep::NeedMore | LineStep::Line { .. } => None,
        }
    }
}

/// The first newline in `bytes`, from `i` on.
pub open spec fn newline_at(bytes: Seq<u8>, i: int) -> Option<int>
    decreases bytes.len() - i,
{
    if i < 0 || i >= bytes.len() {
        None
    } else if bytes[i] == 10 {
        Some(i)
    } else {
        newline_at(bytes, i + 1)
    }
}

/// What a piece of a line leads to, given what came before it.
pub enum Reading {
    /// The line is not complete; so much of it has come.
    More(Seq<u8>),
    /// The line, and how many bytes of the piece belong to it, its newline with
    /// them.
    Line(Seq<u8>, int),
    TooLong,
}

/// What a piece of a line leads to, given what came before it. No line is longer
/// than `MAX_LINE_BYTES`.
pub open spec fn reading(held: Seq<u8>, piece: Seq<u8>) -> Reading {
    match newline_at(piece, 0) {
        Some(pos) => if held.len() + pos > MAX_LINE_BYTES {
            Reading::TooLong
        } else {
            Reading::Line(held + piece.take(pos), pos + 1)
        },
        None => if held.len() + piece.len() > MAX_LINE_BYTES {
            Reading::TooLong
        } else {
            Reading::More(held + piece)
        },
    }
}

fn find_newline(bytes: &[u8]) -> (res: Option<usize>)
    ensures
        match res {
            Some(i) => newline_at(bytes@, 0) == Some(i as int) && i < bytes@.len(),
            None => newline_at(bytes@, 0) is None,
        },
{
    let mut i: usize = 0;
    while i < bytes.len()
        invariant
            i <= bytes@.len(),
            newline_at(bytes@, 0) == newline_at(bytes@, i as int),
        decreases bytes@.len() - i,
    {
        if bytes[i] == 10 {
            return Some(i);
        }
        i += 1;
    }
    None
}

fn push_bytes(buf: &mut Vec<u8>, bytes: &[u8], n: usize)
    requires
        n <= bytes@.len(),
    ensures
        final(buf)@ == old(buf)@ + bytes@.take(n as int),
{
    let ghost before = buf@;
    let mut i: usize = 0;
    proof {
        assert(before + bytes@.take(0) =~= before);
    }
    while i < n
        invariant
            i <= n <= bytes@.len(),
            buf@ == before + bytes@.take(i as int),
        decreases n - i,
    {
        buf.push(bytes[i]);
        proof {
            assert(before + bytes@.take(i + 1) =~= (before + bytes@.take(i as int)).push(
                bytes@[i as int],
            ));
        }
        i += 1;
    }
}

impl LineReader {
    /// A line of which nothing has come.
    pub fn new() -> (res: LineReader)
        ensures
            res.buf@.len() == 0,
    {
        LineReader { buf: Vec::new() }
    }

    /// Takes in a piece; an empty one means that the stream has ended. What
    /// follows the newline is left for whoever reads next.
    pub fn feed(&mut self, available: &[u8]) -> (res: LineStep)
        ensures
            line_fed(*old(self), available@, res, *final(self)),
    {
        let total: usize = available.len();
        if total == 0 {
            return LineStep::Closed;
        }
        match find_newline(available) {
            Some(pos) => {
                push_bytes(&mut self.buf, available, pos);
                if self.buf.len() > MAX_LINE_BYTES {
                    return LineStep::TooLong;
                }
                let text: String = trim_end_str(&text_lossy(&self.buf));
                LineStep::Line { text, consumed: pos + 1 }
            },
            None => {
                push_bytes(&mut self.buf, available, total);
                proof {
                    assert(available@.take(total as int) =~= available@);
                }
                if self.buf.len() > MAX_LINE_BYTES {
                    LineStep::TooLong
                } else {
                    LineStep::NeedMore
                }
            },
        }
    }
}

/// It does not matter in which pieces a line arrives: it reads the same, the same
/// bytes are left for whoever reads next, and what is too long stays so.
pub proof fn law_pieces_do_not_matter(held: Seq<u8>, first: Seq<u8>, rest: Seq<u8>)
    requires
        !(reading(held, first) is Line),
    ensures
        reading(held, first + rest) == match reading(held, first) {
            Reading::More(so_far) => match reading(so_far, rest) {
                Reading::Line(line, used) => Reading::Line(line, used + first.len()),
                other => other,
            },
            other => other,
        },
{
    lemma_newline_in_range(first, 0);
    lemma_newline_in_range(rest, 0);
    match newline_at(first, 0) {
        Some(pos) => {
            lemma_newline_stays(first, rest, 0);
        },
        None => {
            lemma_newline_skips(first, rest, 0);
            lemma_newline_shifts(first, rest, 0);
            assert((held + first) + rest =~= held + (first + rest));
            if let Some(pos) = newline_at(rest, 0) {
                assert((first + rest).take(first.len() + pos) =~= first + rest.take(pos));
                assert(held + (first + rest.take(pos)) =~= (held + first) + rest.take(pos));
            }
        },
    }
}

proof fn lemma_newline_stays(first: Seq<u8>, rest: Seq<u8>, i: int)
    requires
        0 <= i,
        newline_at(first, i) is Some,
    ensures
        newline_at(first + rest, i) == newline_at(first, i),
    decreases first.len() - i,
{
    assert((first + rest)[i] == first[i]);
    if first[i] != 10 {
        lemma_newline_stays(first, rest, i + 1);
    }
}

proof fn lemma_newline_in_range(bytes: Seq<u8>, i: int)
    requires
        0 <= i,
    ensures
        newline_at(bytes, i) matches Some(pos) ==> i <= pos < bytes.len(),
    decreases bytes.len() - i,
{
    if i < bytes.len() && bytes[i] != 10 {
        lemma_newline_in_range(bytes, i + 1);
    }
}

proof fn lemma_newline_skips(first: Seq<u8>, rest: Seq<u8>, i: int)
    requires
        0 <= i <= first.len(),
        newline_at(first, i) is None,
    ensures
        newline_at(first + rest, i) == newline_at(first + rest, first.len() as int),
    decreases first.len() - i,
{
    if i < first.len() {
        assert((first + rest)[i] == first[i]);
        lemma_newline_skips(first, rest, i + 1);
    }
}

proof fn lemma_newline_shifts(first: Seq<u8>, rest: Seq<u8>, i: int)
    requires
        0 <= i,
    ensures
        newline_at(first + rest, first.len() + i) == match newline_at(rest, i) {
            Some(pos) => Some(first.len() + pos),
            None => None,
        },
    decreases rest.len() - i,
{
    if i < rest.len() {
        assert((first + rest)[first.len() + i] == rest[i]);
        if rest[i] != 10 {
            lemma_newline_shifts(first, rest, i + 1);
        }
    }
}

// -------------------------------------------------------------------- requests

/// What a client asks of a daemon.
#[derive(Debug, PartialEq)]
pub enum Request {
    /// Start an agent with these arguments, for this connection alone.
    Spawn { args: Vec<String> },
    /// Join the agent of a session, or start one with these arguments.
    Attach { session: Option<String>, args: Vec<String> },
    /// List the sessions on the daemon's machine.
    ListSessions,
    /// Say which version is running.
    Version,
}

/// A request by its characters.
pub enum RequestV {
    Spawn { args: Seq<Seq<char>> },
    Attach { session: Option<Seq<char>>, args: Seq<Seq<char>> },
    ListSessions,
    Version,
}

/// What is wrong with the JSON of a frame.
#[derive(Debug)]
pub enum FrameFault {
    /// The operation is missing, is no string or is given twice.
    NoOp,
    /// There is no such operation.
    UnknownOp(String),
    /// A field is missing, is of the wrong kind or is given twice, or there are too
    /// many.
    BadField,
}

impl Request {
    /// The request by its characters.
    pub open spec fn model(&self) -> RequestV {
        match *self {
            Request::Spawn { args } => RequestV::Spawn { args: views(args@) },
            Request::Attach { session, args } => RequestV::Attach {
                session: opt_view(session),
                args: views(args@),
            },
            Request::ListSessions => RequestV::ListSessions,
            Request::Version => RequestV::Version,
        }
    }
}

/// A list of strings as a JSON value.
pub open spec fn strings_json(v: Seq<Seq<char>>) -> JsonV {
    JsonV::Arr(Seq::new(v.len(), |i: int| JsonV::Str(v[i])))
}

/// An optional string as a JSON value.
pub open spec fn opt_json(s: Option<Seq<char>>) -> JsonV {
    match s {
        Some(t) => JsonV::Str(t),
        None => JsonV::Null,
    }
}

/// A request as a JSON value.
pub open spec fn request_json(r: RequestV) -> JsonV {
    match r {
        RequestV::Spawn { args } => JsonV::Obj(
            seq![("op"@, JsonV::Str("spawn"@)), ("args"@, strings_json(args))],
        ),
        RequestV::Attach { session, args } => JsonV::Obj(
            seq![
                ("op"@, JsonV::Str("attach"@)),
                ("session"@, opt_json(session)),
                ("args"@, strings_json(args)),
            ],
        ),
        RequestV::ListSessions => JsonV::Obj(seq![("op"@, JsonV::Str("list_sessions"@))]),
        RequestV::Version => JsonV::Obj(seq![("op"@, JsonV::Str("version"@))]),
    }
}

/// The strings that a list of values holds, unless one is none.
pub open spec fn strings_in(values: Seq<JsonV>) -> Option<Seq<Seq<char>>>
    decreases values.len(),
{
    if values.len() == 0 {
        Some(seq![])
    } else {
        match (strings_in(values.drop_last()), values.last()) {
            (Some(earlier), JsonV::Str(s)) => Some(earlier.push(s)),
            _ => None,
        }
    }
}

/// The list of strings that a field holds; none where it is no such list.
pub open spec fn list_field(v: Option<JsonV>) -> Option<Seq<Seq<char>>> {
    match v {
        Some(JsonV::Arr(values)) => strings_in(values),
        _ => None,
    }
}

/// The optional string that a field holds, where it may be left out or null.
pub open spec fn opt_field(v: Option<JsonV>) -> Option<Option<Seq<char>>> {
    match v {
        None | Some(JsonV::Null) => Some(None),
        Some(JsonV::Str(s)) => Some(Some(s)),
        Some(_) => None,
    }
}

/// The operation that a value names: the field `op`, given once, or the first item
/// of an array.
pub open spec fn op_in(v: JsonV) -> Option<Seq<char>> {
    match v.slot("op"@, 0) {
        Some(JsonV::Str(op)) => if v.is_single("op"@) {
            Some(op)
        } else {
            None
        },
        _ => None,
    }
}

/// The request that a JSON value holds, or what is wrong with it. In an `attach`
/// both fields may be left out. The fields go by their names, or by their places
/// behind the operation.
pub open spec fn request_in(v: JsonV) -> Result<RequestV, FaultV> {
    match op_in(v) {
        None => Err(FaultV::NoOp),
        Some(op) => if op == "spawn"@ {
            match list_field(v.slot("args"@, 1)) {
                Some(args) => if v.is_record(2) && v.is_single("args"@) {
                    Ok(RequestV::Spawn { args })
                } else {
                    Err(FaultV::BadField)
                },
                None => Err(FaultV::BadField),
            }
        } else if op == "attach"@ {
            let args = if v.slot("args"@, 2) is None {
                Some(seq![])
            } else {
                list_field(v.slot("args"@, 2))
            };
            match (opt_field(v.slot("session"@, 1)), args) {
                (Some(session), Some(args)) => if v.is_record(3) && v.is_single("session"@)
                    && v.is_single("args"@) {
                    Ok(RequestV::Attach { session, args })
                } else {
                    Err(FaultV::BadField)
                },
                _ => Err(FaultV::BadField),
            }
        } else if op == "list_sessions"@ || op == "version"@ {
            if !v.is_record(1) {
                Err(FaultV::BadField)
            } else if op == "version"@ {
                Ok(RequestV::Version)
            } else {
                Ok(RequestV::ListSessions)
            }
        } else {
            Err(FaultV::UnknownOp(op))
        },
    }
}

/// What is wrong with the JSON of a frame, by characters.
pub enum FaultV {
    NoOp,
    UnknownOp(Seq<char>),
    BadField,
}

/// What is wrong with the JSON of a frame, by characters.
pub open spec fn fault_view(f: FrameFault) -> FaultV {
    match f {
        FrameFault::NoOp => FaultV::NoOp,
        FrameFault::UnknownOp(op) => FaultV::UnknownOp(op@),
        FrameFault::BadField => FaultV::BadField,
    }
}

fn strings_to_json(v: &[String]) -> (res: Json)
    ensures
        res.model() == strings_json(views(v@)),
{
    let mut items: Vec<Json> = Vec::new();
    let mut i: usize = 0;
    while i < v.len()
        invariant
            i <= v@.len(),
            items@.len() == i,
            forall|k: int| 0 <= k < i ==> #[trigger] items@[k].model() == JsonV::Str(v@[k]@),
        decreases v@.len() - i,
    {
        items.push(json_str(&v[i]));
        i += 1;
    }
    proof {
        assert forall|k: int| 0 <= k < v@.len() implies items_model(items@)[k]
            == strings_json(views(v@))->Arr_0[k] by {
            assert(items@[k].model() == JsonV::Str(v@[k]@));
        }
        assert(items_model(items@) =~= strings_json(views(v@))->Arr_0);
    }
    json_arr(items)
}

fn opt_to_json(s: &Option<String>) -> (res: Json)
    ensures
        res.model() == opt_json(opt_view(*s)),
{
    match s {
        Some(t) => json_str(t),
        None => Json::Null,
    }
}

fn read_strings(values: &Vec<Json>) -> (res: Option<Vec<String>>)
    ensures
        match strings_in(items_model(values@)) {
            Some(all) => res matches Some(v) && views(v@) == all,
            None => res is None,
        },
{
    let ghost model = items_model(values@);
    let mut out: Vec<String> = Vec::new();
    let mut i: usize = 0;
    proof {
        assert(model.take(0) =~= seq![]);
        assert(views(out@) =~= seq![]);
    }
    while i < values.len()
        invariant
            i <= values@.len(),
            model == items_model(values@),
            strings_in(model.take(i as int)) == Some(views(out@)),
        decreases values@.len() - i,
    {
        proof {
            assert(model.take(i + 1).drop_last() =~= model.take(i as int));
            assert(model.take(i + 1).last() == values@[i as int].model());
        }
        match values[i].as_str() {
            Some(s) => {
                let item: String = s.to_owned();
                proof {
                    assert(views(out@.push(item)) =~= views(out@).push(item@));
                }
                out.push(item);
            },
            None => {
                proof {
                    lemma_strings_in_prefix(model, i + 1);
                }
                return None;
            },
        }
        i += 1;
    }
    proof {
        assert(model.take(i as int) =~= model);
    }
    Some(out)
}

proof fn lemma_strings_in_prefix(values: Seq<JsonV>, n: int)
    requires
        0 <= n <= values.len(),
        strings_in(values.take(n)) is None,
    ensures
        strings_in(values) is None,
    decreases values.len() - n,
{
    if n < values.len() {
        assert(values.take(n + 1).drop_last() =~= values.take(n));
        lemma_strings_in_prefix(values, n + 1);
    } else {
        assert(values.take(n) =~= values);
    }
}

fn read_list(v: Option<&Json>) -> (res: Option<Vec<String>>)
    ensures
        match list_field(opt_model(v)) {
            Some(all) => res matches Some(list) && views(list@) == all,
            None => res is None,
        },
{
    broadcast use group_json;

    match v {
        Some(value) => match value.as_array() {
            Some(values) => read_strings(values),
            None => None,
        },
        None => None,
    }
}

fn read_opt(v: Option<&Json>) -> (res: Option<Option<String>>)
    ensures
        match opt_field(opt_model(v)) {
            Some(s) => res matches Some(r) && opt_view(r) == s,
            None => res is None,
        },
{
    match v {
        None => Some(None),
        Some(Json::Null) => Some(None),
        Some(Json::Str(s)) => Some(Some(s.clone())),
        Some(_) => None,
    }
}

impl Request {
    /// The request as a JSON value.
    pub fn to_json(&self) -> (res: Json)
        ensures
            res.model() == request_json(self.model()),
    {
        let mut fields: Vec<(String, Json)> = no_fields();
        match self {
            Request::Spawn { args } => {
                add_field(&mut fields, "op", json_str("spawn"));
                add_field(&mut fields, "args", strings_to_json(args));
            },
            Request::Attach { session, args } => {
                add_field(&mut fields, "op", json_str("attach"));
                add_field(&mut fields, "session", opt_to_json(session));
                add_field(&mut fields, "args", strings_to_json(args));
            },
            Request::ListSessions => {
                add_field(&mut fields, "op", json_str("list_sessions"));
            },
            Request::Version => {
                add_field(&mut fields, "op", json_str("version"));
            },
        }
        let res: Json = json_obj(fields);
        proof {
            assert(res.model()->Obj_0 =~= request_json(self.model())->Obj_0);
        }
        res
    }

    /// The request that a JSON value holds, or what is wrong with it.
    pub fn from_json(value: &Json) -> (res: Result<Request, FrameFault>)
        ensures
            match request_in(value.model()) {
                Ok(r) => res matches Ok(q) && q.model() == r,
                Err(f) => res matches Err(e) && fault_view(e) == f,
            },
    {
        let op: &str = match value.slot("op", 0) {
            Some(Json::Str(op)) => op,
            _ => {
                return Err(FrameFault::NoOp);
            },
        };
        if !value.is_single("op") {
            return Err(FrameFault::NoOp);
        }
        if same(op, "spawn") {
            let fits: bool = value.is_record(2) && value.is_single("args");
            return match read_list(value.slot("args", 1)) {
                Some(args) => if fits {
                    Ok(Request::Spawn { args })
                } else {
                    Err(FrameFault::BadField)
                },
                None => Err(FrameFault::BadField),
            };
        }
        if same(op, "attach") {
            if !value.is_record(3) || !value.is_single("session") || !value.is_single("args") {
                return Err(FrameFault::BadField);
            }
            let session: Option<String> = match read_opt(value.slot("session", 1)) {
                Some(s) => s,
                None => {
                    return Err(FrameFault::BadField);
                },
            };
            if value.slot("args", 2).is_none() {
                let args: Vec<String> = Vec::new();
                proof {
                    assert(views(args@) =~= seq![]);
                }
                return Ok(Request::Attach { session, args });
            }
            return match read_list(value.slot("args", 2)) {
                Some(args) => Ok(Request::Attach { session, args }),
                None => Err(FrameFault::BadField),
            };
        }
        if same(op, "list_sessions") || same(op, "version") {
            if !value.is_record(1) {
                return Err(FrameFault::BadField);
            }
            if same(op, "version") {
                return Ok(Request::Version);
            }
            return Ok(Request::ListSessions);
        }
        Err(FrameFault::UnknownOp(op.to_owned()))
    }
}

proof fn lemma_strings_round_trip(v: Seq<Seq<char>>)
    ensures
        strings_in(strings_json(v)->Arr_0) == Some(v),
    decreases v.len(),
{
    let values = strings_json(v)->Arr_0;
    if v.len() > 0 {
        lemma_strings_round_trip(v.drop_last());
        assert(values.drop_last() =~= strings_json(v.drop_last())->Arr_0);
        assert(v.drop_last().push(v.last()) =~= v);
    } else {
        assert(v =~= seq![]);
    }
}

/// A request that is written and read again is the same request.
pub proof fn law_requests_round_trip(r: RequestV)
    ensures
        request_in(request_json(r)) == Ok::<RequestV, FaultV>(r),
{
    reveal_with_fuel(crate::json::field_index, 4);
    reveal_strlit("op");
    reveal_strlit("args");
    reveal_strlit("session");
    reveal_strlit("spawn");
    reveal_strlit("attach");
    reveal_strlit("list_sessions");
    reveal_strlit("version");
    assert("op"@.len() != "args"@.len());
    assert("op"@.len() != "session"@.len());
    assert("session"@.len() != "args"@.len());
    assert("spawn"@.len() != "attach"@.len());
    assert("spawn"@.len() != "list_sessions"@.len());
    assert("spawn"@.len() != "version"@.len());
    assert("attach"@.len() != "list_sessions"@.len());
    assert("attach"@.len() != "version"@.len());
    assert("list_sessions"@.len() != "version"@.len());
    let v = request_json(r);
    assert(v->Obj_0[0].0 == "op"@);
    match r {
        RequestV::Spawn { args } => {
            lemma_strings_round_trip(args);
            assert(v->Obj_0[1].0 == "args"@);
        },
        RequestV::Attach { session, args } => {
            lemma_strings_round_trip(args);
            assert(v->Obj_0[1].0 == "session"@);
            assert(v->Obj_0[2].0 == "args"@);
        },
        _ => {},
    }
}

// --------------------------------------------------------------------- replies

/// A point in time as it is written: a whole number, a larger one, or the bits of
/// a 64-bit float.
#[derive(Clone, Copy, Debug, PartialEq, Eq, Structural)]
pub enum Stamp {
    Whole(i64),
    Big(u64),
    Real(u64),
}

/// A session as it is listed.
#[derive(Debug, PartialEq)]
pub struct SessionEntry {
    pub id: String,
    pub title: String,
    pub work_dir: String,
    pub updated_at: Stamp,
    /// Whether an agent is holding it.
    pub live: bool,
}

/// A session as it is listed, by characters.
pub struct EntryV {
    pub id: Seq<char>,
    pub title: Seq<char>,
    pub work_dir: Seq<char>,
    pub updated_at: Stamp,
    pub live: bool,
}

/// What a daemon answers.
#[derive(Debug, PartialEq)]
pub struct Reply {
    pub ok: bool,
    pub error: Option<String>,
    pub sessions: Option<Vec<SessionEntry>>,
    /// The version of the daemon's build.
    pub version: Option<String>,
    /// The version of its protocol.
    pub proto: Option<String>,
    /// The session that the relay which follows is attached to.
    pub session: Option<String>,
}

/// What a daemon answers, by characters.
pub struct ReplyV {
    pub ok: bool,
    pub error: Option<Seq<char>>,
    pub sessions: Option<Seq<EntryV>>,
    pub version: Option<Seq<char>>,
    pub proto: Option<Seq<char>>,
    pub session: Option<Seq<char>>,
}

/// A session as it is listed, by characters.
pub open spec fn entry_view(e: SessionEntry) -> EntryV {
    EntryV {
        id: e.id@,
        title: e.title@,
        work_dir: e.work_dir@,
        updated_at: e.updated_at,
        live: e.live,
    }
}

/// Sessions as they are listed, by characters.
pub open spec fn entry_views(entries: Seq<SessionEntry>) -> Seq<EntryV> {
    Seq::new(entries.len(), |i: int| entry_view(entries[i]))
}

/// An answer with nothing in it.
pub open spec fn plain_reply(ok: bool) -> ReplyV {
    ReplyV { ok, error: None, sessions: None, version: None, proto: None, session: None }
}

impl Reply {
    /// The answer by its characters.
    pub open spec fn model(&self) -> ReplyV {
        ReplyV {
            ok: self.ok,
            error: opt_view(self.error),
            sessions: match self.sessions {
                Some(entries) => Some(entry_views(entries@)),
                None => None,
            },
            version: opt_view(self.version),
            proto: opt_view(self.proto),
            session: opt_view(self.session),
        }
    }

    /// The agent is there, and the relay starts.
    pub fn spawn_ok() -> (res: Reply)
        ensures
            res.model() == plain_reply(true),
    {
        Reply { ok: true, error: None, sessions: None, version: None, proto: None, session: None }
    }

    /// These are the sessions.
    pub fn sessions(entries: Vec<SessionEntry>) -> (res: Reply)
        ensures
            res.model() == (ReplyV { sessions: Some(entry_views(entries@)), ..plain_reply(true) }),
    {
        Reply {
            ok: true,
            error: None,
            sessions: Some(entries),
            version: None,
            proto: None,
            session: None,
        }
    }

    /// This is the daemon's build, and this the protocol it speaks.
    pub fn version(version: &str) -> (res: Reply)
        ensures
            res.model() == (ReplyV {
                version: Some(version@),
                proto: Some(BRIDGE_PROTOCOL_VERSION@),
                ..plain_reply(true)
            }),
    {
        Reply {
            ok: true,
            error: None,
            sessions: None,
            version: Some(version.to_owned()),
            proto: Some(BRIDGE_PROTOCOL_VERSION.to_owned()),
            session: None,
        }
    }

    /// An agent is at the other end of the relay, and hosts this session.
    pub fn attach_ok(session: &str) -> (res: Reply)
        ensures
            res.model() == (ReplyV { session: Some(session@), ..plain_reply(true) }),
    {
        Reply {
            ok: true,
            error: None,
            sessions: None,
            version: None,
            proto: None,
            session: Some(session.to_owned()),
        }
    }

    /// Something went wrong that the client should know of.
    pub fn error(message: &str) -> (res: Reply)
        ensures
            res.model() == (ReplyV { error: Some(message@), ..plain_reply(false) }),
    {
        Reply {
            ok: false,
            error: Some(message.to_owned()),
            sessions: None,
            version: None,
            proto: None,
            session: None,
        }
    }
}

/// A point in time as a JSON value.
pub open spec fn stamp_json(t: Stamp) -> JsonV {
    match t {
        Stamp::Whole(n) => JsonV::Int(n as int),
        Stamp::Big(n) => JsonV::Big(n),
        Stamp::Real(bits) => JsonV::Real(bits),
    }
}

/// Fields with an optional string behind them, where there is one.
pub open spec fn with_opt(
    fields: Seq<(Seq<char>, JsonV)>,
    key: Seq<char>,
    value: Option<Seq<char>>,
) -> Seq<(Seq<char>, JsonV)> {
    match value {
        Some(s) => fields.push((key, JsonV::Str(s))),
        None => fields,
    }
}

/// A session as a JSON value. That no agent holds it goes without saying.
pub open spec fn entry_json(e: EntryV) -> JsonV {
    let fields = seq![
        ("id"@, JsonV::Str(e.id)),
        ("title"@, JsonV::Str(e.title)),
        ("work_dir"@, JsonV::Str(e.work_dir)),
        ("updated_at"@, stamp_json(e.updated_at)),
    ];
    JsonV::Obj(
        if e.live {
            fields.push(("live"@, JsonV::Bool(true)))
        } else {
            fields
        },
    )
}

/// Sessions as a JSON value.
pub open spec fn entries_json(entries: Seq<EntryV>) -> JsonV {
    JsonV::Arr(Seq::new(entries.len(), |i: int| entry_json(entries[i])))
}

/// An answer as a JSON value: what it does not hold is left out.
pub open spec fn reply_json(r: ReplyV) -> JsonV {
    let f1 = with_opt(seq![("ok"@, JsonV::Bool(r.ok))], "error"@, r.error);
    let f2 = match r.sessions {
        Some(entries) => f1.push(("sessions"@, entries_json(entries))),
        None => f1,
    };
    JsonV::Obj(
        with_opt(
            with_opt(with_opt(f2, "version"@, r.version), "proto"@, r.proto),
            "session"@,
            r.session,
        ),
    )
}

fn add_opt(fields: &mut Vec<(String, Json)>, key: &str, value: &Option<String>)
    ensures
        fields_model(final(fields)@) == with_opt(
            fields_model(old(fields)@),
            key@,
            opt_view(*value),
        ),
{
    if let Some(s) = value {
        add_field(fields, key, json_str(s));
    }
}

impl SessionEntry {
    /// The session as a JSON value.
    pub fn to_json(&self) -> (res: Json)
        ensures
            res.model() == entry_json(entry_view(*self)),
    {
        let stamp: Json = match self.updated_at {
            Stamp::Whole(n) => Json::Int(n),
            Stamp::Big(n) => Json::Big(n),
            Stamp::Real(bits) => Json::Real(bits),
        };
        let mut fields: Vec<(String, Json)> = no_fields();
        add_field(&mut fields, "id", json_str(&self.id));
        add_field(&mut fields, "title", json_str(&self.title));
        add_field(&mut fields, "work_dir", json_str(&self.work_dir));
        add_field(&mut fields, "updated_at", stamp);
        if self.live {
            add_field(&mut fields, "live", Json::Bool(true));
        }
        let res: Json = json_obj(fields);
        proof {
            assert(res.model()->Obj_0 =~= entry_json(entry_view(*self))->Obj_0);
        }
        res
    }
}

fn entries_to_json(entries: &Vec<SessionEntry>) -> (res: Json)
    ensures
        res.model() == entries_json(entry_views(entries@)),
{
    let mut items: Vec<Json> = Vec::new();
    let mut i: usize = 0;
    while i < entries.len()
        invariant
            i <= entries@.len(),
            items@.len() == i,
            forall|k: int|
                0 <= k < i ==> #[trigger] items@[k].model() == entry_json(entry_view(entries@[k])),
        decreases entries@.len() - i,
    {
        items.push(entries[i].to_json());
        i += 1;
    }
    proof {
        let all = entries_json(entry_views(entries@))->Arr_0;
        assert forall|k: int| 0 <= k < items@.len() implies items_model(items@)[k] == all[k] by {
            assert(items@[k].model() == entry_json(entry_view(entries@[k])));
        }
        assert(items_model(items@) =~= all);
    }
    json_arr(items)
}

impl Reply {
    /// The answer as a JSON value.
    pub fn to_json(&self) -> (res: Json)
        ensures
            res.model() == reply_json(self.model()),
    {
        let mut fields: Vec<(String, Json)> = no_fields();
        add_field(&mut fields, "ok", Json::Bool(self.ok));
        proof {
            assert(fields_model(fields@) =~= seq![("ok"@, JsonV::Bool(self.ok))]);
        }
        add_opt(&mut fields, "error", &self.error);
        if let Some(entries) = &self.sessions {
            add_field(&mut fields, "sessions", entries_to_json(entries));
        }
        add_opt(&mut fields, "version", &self.version);
        add_opt(&mut fields, "proto", &self.proto);
        add_opt(&mut fields, "session", &self.session);
        json_obj(fields)
    }
}

/// The point in time that a field holds.
pub open spec fn stamp_field(v: Option<JsonV>) -> Option<Stamp> {
    match v {
        Some(JsonV::Int(n)) => Some(Stamp::Whole(n as i64)),
        Some(JsonV::Big(n)) => Some(Stamp::Big(n)),
        Some(JsonV::Real(bits)) => Some(Stamp::Real(bits)),
        _ => None,
    }
}

/// The flag that a field holds, where it may be left out.
pub open spec fn flag_field(v: Option<JsonV>) -> Option<bool> {
    match v {
        None => Some(false),
        Some(JsonV::Bool(b)) => Some(b),
        Some(_) => None,
    }
}

/// The string that a field holds.
pub open spec fn text_field(v: Option<JsonV>) -> Option<Seq<char>> {
    match v {
        Some(JsonV::Str(s)) => Some(s),
        _ => None,
    }
}

/// Whether a value can hold a session: no field of it is given twice, and there are
/// not too many.
pub open spec fn is_entry_record(v: JsonV) -> bool {
    &&& v.is_record(5)
    &&& v.is_single("id"@) && v.is_single("title"@) && v.is_single("work_dir"@)
    &&& v.is_single("updated_at"@) && v.is_single("live"@)
}

/// The session that a JSON value holds, its fields by name or by place.
pub open spec fn entry_in(v: JsonV) -> Option<EntryV> {
    match (
        text_field(v.slot("id"@, 0)),
        text_field(v.slot("title"@, 1)),
        text_field(v.slot("work_dir"@, 2)),
        stamp_field(v.slot("updated_at"@, 3)),
        flag_field(v.slot("live"@, 4)),
    ) {
        (Some(id), Some(title), Some(work_dir), Some(updated_at), Some(live)) => if is_entry_record(
            v,
        ) {
            Some(EntryV { id, title, work_dir, updated_at, live })
        } else {
            None
        },
        _ => None,
    }
}

/// The sessions that a list of values holds, unless one is none.
pub open spec fn entries_in(values: Seq<JsonV>) -> Option<Seq<EntryV>>
    decreases values.len(),
{
    if values.len() == 0 {
        Some(seq![])
    } else {
        match (entries_in(values.drop_last()), entry_in(values.last())) {
            (Some(earlier), Some(e)) => Some(earlier.push(e)),
            _ => None,
        }
    }
}

/// The optional sessions that a field holds.
pub open spec fn sessions_field(v: Option<JsonV>) -> Option<Option<Seq<EntryV>>> {
    match v {
        None | Some(JsonV::Null) => Some(None),
        Some(JsonV::Arr(values)) => match entries_in(values) {
            Some(entries) => Some(Some(entries)),
            None => None,
        },
        Some(_) => None,
    }
}

/// Whether a value can hold an answer: no field of it is given twice, and there are
/// not too many.
pub open spec fn is_reply_record(v: JsonV) -> bool {
    &&& v.is_record(6)
    &&& v.is_single("ok"@) && v.is_single("error"@) && v.is_single("sessions"@)
    &&& v.is_single("version"@) && v.is_single("proto"@) && v.is_single("session"@)
}

/// The flag that a field has to hold.
pub open spec fn bool_field(v: Option<JsonV>) -> Option<bool> {
    match v {
        Some(JsonV::Bool(b)) => Some(b),
        _ => None,
    }
}

/// The answer that a JSON value holds, its fields by name or by place. Everything
/// but `ok` may be left out.
pub open spec fn reply_in(v: JsonV) -> Option<ReplyV> {
    match (
        bool_field(v.slot("ok"@, 0)),
        opt_field(v.slot("error"@, 1)),
        sessions_field(v.slot("sessions"@, 2)),
        opt_field(v.slot("version"@, 3)),
        opt_field(v.slot("proto"@, 4)),
        opt_field(v.slot("session"@, 5)),
    ) {
        (Some(ok), Some(error), Some(sessions), Some(version), Some(proto), Some(session)) => {
            if is_reply_record(v) {
                Some(ReplyV { ok, error, sessions, version, proto, session })
            } else {
                None
            }
        },
        _ => None,
    }
}

fn read_text(v: Option<&Json>) -> (res: Option<String>)
    ensures
        opt_view(res) == text_field(opt_model(v)),
{
    match v {
        Some(Json::Str(s)) => Some(s.clone()),
        _ => None,
    }
}

fn read_bool(v: Option<&Json>) -> (res: Option<bool>)
    ensures
        res == bool_field(opt_model(v)),
{
    match v {
        Some(Json::Bool(b)) => Some(*b),
        _ => None,
    }
}

fn read_stamp(v: Option<&Json>) -> (res: Option<Stamp>)
    ensures
        res == stamp_field(opt_model(v)),
{
    match v {
        Some(Json::Int(n)) => Some(Stamp::Whole(*n)),
        Some(Json::Big(n)) => Some(Stamp::Big(*n)),
        Some(Json::Real(bits)) => Some(Stamp::Real(*bits)),
        _ => None,
    }
}

fn read_flag(v: Option<&Json>) -> (res: Option<bool>)
    ensures
        res == flag_field(opt_model(v)),
{
    match v {
        None => Some(false),
        Some(value) => value.as_bool(),
    }
}

impl SessionEntry {
    /// The session that a JSON value holds.
    pub fn from_json(value: &Json) -> (res: Option<SessionEntry>)
        ensures
            match entry_in(value.model()) {
                Some(e) => res matches Some(s) && entry_view(s) == e,
                None => res is None,
            },
    {
        if !value.is_record(5) || !value.is_single("id") || !value.is_single("title")
            || !value.is_single("work_dir") || !value.is_single("updated_at") || !value.is_single(
            "live",
        ) {
            return None;
        }
        match (
            read_text(value.slot("id", 0)),
            read_text(value.slot("title", 1)),
            read_text(value.slot("work_dir", 2)),
            read_stamp(value.slot("updated_at", 3)),
            read_flag(value.slot("live", 4)),
        ) {
            (Some(id), Some(title), Some(work_dir), Some(updated_at), Some(live)) => Some(
                SessionEntry { id, title, work_dir, updated_at, live },
            ),
            _ => None,
        }
    }
}

proof fn lemma_entries_in_prefix(values: Seq<JsonV>, n: int)
    requires
        0 <= n <= values.len(),
        entries_in(values.take(n)) is None,
    ensures
        entries_in(values) is None,
    decreases values.len() - n,
{
    if n < values.len() {
        assert(values.take(n + 1).drop_last() =~= values.take(n));
        lemma_entries_in_prefix(values, n + 1);
    } else {
        assert(values.take(n) =~= values);
    }
}

fn read_entries(values: &Vec<Json>) -> (res: Option<Vec<SessionEntry>>)
    ensures
        match entries_in(items_model(values@)) {
            Some(all) => res matches Some(v) && entry_views(v@) == all,
            None => res is None,
        },
{
    let ghost model = items_model(values@);
    let mut out: Vec<SessionEntry> = Vec::new();
    let mut i: usize = 0;
    proof {
        assert(model.take(0) =~= seq![]);
        assert(entry_views(out@) =~= seq![]);
    }
    while i < values.len()
        invariant
            i <= values@.len(),
            model == items_model(values@),
            entries_in(model.take(i as int)) == Some(entry_views(out@)),
        decreases values@.len() - i,
    {
        proof {
            assert(model.take(i + 1).drop_last() =~= model.take(i as int));
            assert(model.take(i + 1).last() == values@[i as int].model());
        }
        match SessionEntry::from_json(&values[i]) {
            Some(entry) => {
                proof {
                    assert(entry_views(out@.push(entry)) =~= entry_views(out@).push(
                        entry_view(entry),
                    ));
                }
                out.push(entry);
            },
            None => {
                proof {
                    lemma_entries_in_prefix(model, i + 1);
                }
                return None;
            },
        }
        i += 1;
    }
    proof {
        assert(model.take(i as int) =~= model);
    }
    Some(out)
}

fn read_sessions(v: Option<&Json>) -> (res: Option<Option<Vec<SessionEntry>>>)
    ensures
        match sessions_field(opt_model(v)) {
            Some(Some(all)) => res matches Some(Some(list)) && entry_views(list@) == all,
            Some(None) => res matches Some(None),
            None => res is None,
        },
{
    broadcast use group_json;

    match v {
        None => Some(None),
        Some(Json::Null) => Some(None),
        Some(Json::Arr(values)) => match read_entries(values) {
            Some(entries) => Some(Some(entries)),
            None => None,
        },
        Some(_) => None,
    }
}

impl Reply {
    /// The answer that a JSON value holds.
    pub fn from_json(value: &Json) -> (res: Result<Reply, FrameFault>)
        ensures
            match reply_in(value.model()) {
                Some(r) => res matches Ok(q) && q.model() == r,
                None => res matches Err(FrameFault::BadField),
            },
    {
        if !value.is_record(6) || !value.is_single("ok") || !value.is_single("error")
            || !value.is_single("sessions") || !value.is_single("version") || !value.is_single(
            "proto",
        ) || !value.is_single("session") {
            return Err(FrameFault::BadField);
        }
        match (
            read_bool(value.slot("ok", 0)),
            read_opt(value.slot("error", 1)),
            read_sessions(value.slot("sessions", 2)),
            read_opt(value.slot("version", 3)),
            read_opt(value.slot("proto", 4)),
            read_opt(value.slot("session", 5)),
        ) {
            (Some(ok), Some(error), Some(sessions), Some(version), Some(proto), Some(session)) => Ok(
                Reply { ok, error, sessions, version, proto, session },
            ),
            _ => Err(FrameFault::BadField),
        }
    }
}

proof fn lemma_entry_round_trip(e: EntryV)
    ensures
        entry_in(entry_json(e)) == Some(e),
{
    reveal_with_fuel(crate::json::field_index, 6);
    reveal_strlit("id");
    reveal_strlit("title");
    reveal_strlit("work_dir");
    reveal_strlit("updated_at");
    reveal_strlit("live");
    assert("id"@.len() == 2 && "title"@.len() == 5 && "work_dir"@.len() == 8
        && "updated_at"@.len() == 10 && "live"@.len() == 4);
    let fields = entry_json(e)->Obj_0;
    assert(fields[0].0 == "id"@);
    assert(fields[1].0 == "title"@);
    assert(fields[2].0 == "work_dir"@);
    assert(fields[3].0 == "updated_at"@);
    if e.live {
        assert(fields[4].0 == "live"@);
    }
}

proof fn lemma_entries_round_trip(entries: Seq<EntryV>)
    ensures
        entries_in(entries_json(entries)->Arr_0) == Some(entries),
    decreases entries.len(),
{
    let values = entries_json(entries)->Arr_0;
    if entries.len() > 0 {
        lemma_entries_round_trip(entries.drop_last());
        lemma_entry_round_trip(entries.last());
        assert(values.drop_last() =~= entries_json(entries.drop_last())->Arr_0);
        assert(entries.drop_last().push(entries.last()) =~= entries);
    } else {
        assert(entries =~= seq![]);
    }
}

/// Where a key is not that of the added field, adding it changes nothing.
proof fn lemma_added_field(
    fields: Seq<(Seq<char>, JsonV)>,
    added: (Seq<char>, JsonV),
    key: Seq<char>,
)
    ensures
        JsonV::Obj(fields.push(added)).get(key) == match JsonV::Obj(fields).get(key) {
            Some(v) => Some(v),
            None => if added.0 == key {
                Some(added.1)
            } else {
                None
            },
        },
{
    let all = fields.push(added);
    crate::json::lemma_field_index(fields, key, 0);
    crate::json::lemma_field_index(all, key, 0);
    match crate::json::field_index(fields, key, 0) {
        Some(k) => {
            assert(all[k] == fields[k]);
            match crate::json::field_index(all, key, 0) {
                Some(j) => {
                    if j < k {
                        assert(fields[j] == all[j]);
                    }
                },
                None => {},
            }
        },
        None => {
            match crate::json::field_index(all, key, 0) {
                Some(j) => {
                    if j < fields.len() {
                        assert(fields[j] == all[j]);
                    }
                },
                None => {
                    assert(all[fields.len() as int] == added);
                },
            }
        },
    }
}

/// The value that an optional field gives to a key.
pub open spec fn opt_value(own: Seq<char>, value: Option<Seq<char>>, key: Seq<char>) -> Option<
    JsonV,
> {
    match value {
        Some(s) => if own == key {
            Some(JsonV::Str(s))
        } else {
            None
        },
        None => None,
    }
}

proof fn lemma_with_opt(
    fields: Seq<(Seq<char>, JsonV)>,
    own: Seq<char>,
    value: Option<Seq<char>>,
    key: Seq<char>,
)
    ensures
        JsonV::Obj(with_opt(fields, own, value)).get(key) == match JsonV::Obj(fields).get(key) {
            Some(v) => Some(v),
            None => opt_value(own, value, key),
        },
{
    if let Some(s) = value {
        lemma_added_field(fields, (own, JsonV::Str(s)), key);
    }
}

proof fn lemma_reply_get(r: ReplyV, key: Seq<char>)
    ensures
        reply_json(r).get(key) == (if key == "ok"@ {
            Some(JsonV::Bool(r.ok))
        } else if opt_value("error"@, r.error, key) is Some {
            opt_value("error"@, r.error, key)
        } else if key == "sessions"@ && r.sessions is Some {
            Some(entries_json(r.sessions->0))
        } else if opt_value("version"@, r.version, key) is Some {
            opt_value("version"@, r.version, key)
        } else if opt_value("proto"@, r.proto, key) is Some {
            opt_value("proto"@, r.proto, key)
        } else {
            opt_value("session"@, r.session, key)
        }),
{
    reveal_with_fuel(crate::json::field_index, 3);
    let f0 = seq![("ok"@, JsonV::Bool(r.ok))];
    assert(f0[0].0 == "ok"@);
    let f1 = with_opt(f0, "error"@, r.error);
    lemma_with_opt(f0, "error"@, r.error, key);
    let f2 = match r.sessions {
        Some(entries) => f1.push(("sessions"@, entries_json(entries))),
        None => f1,
    };
    if let Some(entries) = r.sessions {
        lemma_added_field(f1, ("sessions"@, entries_json(entries)), key);
    }
    let f3 = with_opt(f2, "version"@, r.version);
    lemma_with_opt(f2, "version"@, r.version, key);
    let f4 = with_opt(f3, "proto"@, r.proto);
    lemma_with_opt(f3, "proto"@, r.proto, key);
    lemma_with_opt(f4, "session"@, r.session, key);
}

/// A field with a new name leaves every name given once.
proof fn lemma_added_single(
    fields: Seq<(Seq<char>, JsonV)>,
    added: (Seq<char>, JsonV),
    key: Seq<char>,
)
    requires
        JsonV::Obj(fields).is_single(key),
        JsonV::Obj(fields).get(added.0) is None,
    ensures
        JsonV::Obj(fields.push(added)).is_single(key),
{
    let all = fields.push(added);
    crate::json::lemma_field_index(fields, added.0, 0);
    crate::json::lemma_field_index(fields, key, 0);
    crate::json::lemma_field_index(all, key, 0);
    if let Some(i) = crate::json::field_index(all, key, 0) {
        crate::json::lemma_field_index(all, key, i + 1);
        crate::json::lemma_field_index(fields, key, i + 1);
        if let Some(j) = crate::json::field_index(all, key, i + 1) {
            assert(fields[i] == all[i]);
            if j < fields.len() {
                assert(fields[j] == all[j]);
            }
            if let Some(k) = crate::json::field_index(fields, key, 0) {
                assert(all[k] == fields[k]);
            }
        }
    }
}

proof fn lemma_reply_single(r: ReplyV, key: Seq<char>)
    requires
        "ok"@ != "error"@ && "ok"@ != "sessions"@ && "ok"@ != "version"@ && "ok"@ != "proto"@
            && "ok"@ != "session"@,
        "error"@ != "sessions"@ && "error"@ != "version"@ && "error"@ != "proto"@ && "error"@
            != "session"@,
        "sessions"@ != "version"@ && "sessions"@ != "proto"@ && "sessions"@ != "session"@,
        "version"@ != "proto"@ && "version"@ != "session"@ && "proto"@ != "session"@,
    ensures
        reply_json(r).is_single(key),
{
    reveal_with_fuel(crate::json::field_index, 3);
    let f0 = seq![("ok"@, JsonV::Bool(r.ok))];
    assert(f0[0].0 == "ok"@);
    let f1 = with_opt(f0, "error"@, r.error);
    let f2 = match r.sessions {
        Some(entries) => f1.push(("sessions"@, entries_json(entries))),
        None => f1,
    };
    let f3 = with_opt(f2, "version"@, r.version);
    let f4 = with_opt(f3, "proto"@, r.proto);
    if let Some(s) = r.error {
        lemma_added_single(f0, ("error"@, JsonV::Str(s)), key);
    }
    assert(JsonV::Obj(f1).is_single(key));
    lemma_with_opt(f0, "error"@, r.error, "sessions"@);
    lemma_with_opt(f0, "error"@, r.error, "version"@);
    lemma_with_opt(f0, "error"@, r.error, "proto"@);
    lemma_with_opt(f0, "error"@, r.error, "session"@);
    if let Some(entries) = r.sessions {
        let added = ("sessions"@, entries_json(entries));
        lemma_added_single(f1, added, key);
        lemma_added_field(f1, added, "version"@);
        lemma_added_field(f1, added, "proto"@);
        lemma_added_field(f1, added, "session"@);
    }
    assert(JsonV::Obj(f2).is_single(key));
    if let Some(s) = r.version {
        lemma_added_single(f2, ("version"@, JsonV::Str(s)), key);
    }
    lemma_with_opt(f2, "version"@, r.version, "proto"@);
    lemma_with_opt(f2, "version"@, r.version, "session"@);
    assert(JsonV::Obj(f3).is_single(key));
    if let Some(s) = r.proto {
        lemma_added_single(f3, ("proto"@, JsonV::Str(s)), key);
    }
    lemma_with_opt(f3, "proto"@, r.proto, "session"@);
    assert(JsonV::Obj(f4).is_single(key));
    if let Some(s) = r.session {
        lemma_added_single(f4, ("session"@, JsonV::Str(s)), key);
    }
}

/// An answer that is written and read again is the same answer.
pub proof fn law_replies_round_trip(r: ReplyV)
    ensures
        reply_in(reply_json(r)) == Some(r),
{
    reveal_strlit("ok");
    reveal_strlit("error");
    reveal_strlit("sessions");
    reveal_strlit("version");
    reveal_strlit("proto");
    reveal_strlit("session");
    assert("ok"@.len() == 2 && "error"@.len() == 5 && "sessions"@.len() == 8);
    assert("version"@.len() == 7 && "proto"@.len() == 5 && "session"@.len() == 7);
    assert("error"@[0] != "proto"@[0]);
    assert("version"@[0] != "session"@[0]);
    lemma_reply_get(r, "ok"@);
    lemma_reply_get(r, "error"@);
    lemma_reply_get(r, "sessions"@);
    lemma_reply_get(r, "version"@);
    lemma_reply_get(r, "proto"@);
    lemma_reply_get(r, "session"@);
    lemma_reply_single(r, "ok"@);
    lemma_reply_single(r, "error"@);
    lemma_reply_single(r, "sessions"@);
    lemma_reply_single(r, "version"@);
    lemma_reply_single(r, "proto"@);
    lemma_reply_single(r, "session"@);
    if let Some(entries) = r.sessions {
        lemma_entries_round_trip(entries);
    }
}

/// An answer of a daemon that knows nothing of protocol versions still reads: its
/// silence is no fault.
pub proof fn law_old_replies_still_read(version: Seq<char>)
    ensures
        reply_in(
            JsonV::Obj(
                seq![("ok"@, JsonV::Bool(true)), ("version"@, JsonV::Str(version))],
            ),
        ) == Some(ReplyV { version: Some(version), ..plain_reply(true) }),
{
    let r = ReplyV { version: Some(version), ..plain_reply(true) };
    assert(reply_json(r)->Obj_0 =~= seq![
        ("ok"@, JsonV::Bool(true)),
        ("version"@, JsonV::Str(version)),
    ]);
    law_replies_round_trip(r);
}

/// What a piece of a line makes of a reader, and what it leads to; no bytes at all are the
/// end of the stream.
pub open spec fn line_fed(
    before: LineReader,
    available: Seq<u8>,
    res: LineStep,
    after: LineReader,
) -> bool {
    if available.len() == 0 {
        res is Closed && after.buf@ == before.buf@
    } else {
        match reading(before.buf@, available) {
            Reading::Line(line, used) => {
                &&& after.buf@ == line
                &&& res matches LineStep::Line { text, consumed }
                &&& text@ == trim_end(lossy(line))
                &&& consumed == used
            },
            Reading::More(so_far) => after.buf@ == so_far && res is NeedMore,
            Reading::TooLong => res is TooLong,
        }
    }
}

proof fn lemma_newline_at(bytes: Seq<u8>, i: int, pos: int)
    requires
        0 <= i <= pos < bytes.len(),
        bytes[pos] == 10,
        forall|k: int| i <= k < pos ==> #[trigger] bytes[k] != 10,
    ensures
        newline_at(bytes, i) == Some(pos),
    decreases pos - i,
{
    if i < pos {
        lemma_newline_at(bytes, i + 1, pos);
    }
}

proof fn lemma_no_newline(bytes: Seq<u8>, i: int)
    requires
        0 <= i,
        forall|k: int| i <= k < bytes.len() ==> #[trigger] bytes[k] != 10,
    ensures
        newline_at(bytes, i) is None,
    decreases bytes.len() - i,
{
    if i < bytes.len() {
        lemma_no_newline(bytes, i + 1);
    }
}

/// A line is what came up to its newline, the pieces before with it, without the white
/// space at its end; the bytes behind the newline are left. It may have 65536 bytes,
/// and one that has more is refused.
pub proof fn law_where_a_line_ends(
    before: LineReader,
    line: Seq<u8>,
    rest: Seq<u8>,
    res: LineStep,
    after: LineReader,
)
    requires
        line_fed(before, line + seq![10u8] + rest, res, after),
        forall|k: int| 0 <= k < line.len() ==> #[trigger] line[k] != 10,
    ensures
        before.buf@.len() + line.len() <= 65536 ==> (res matches LineStep::Line { text, consumed }
            && text@ == trim_end(lossy(before.buf@ + line)) && consumed == line.len() + 1),
        before.buf@.len() + line.len() > 65536 ==> res is TooLong,
{
    let piece = line + seq![10u8] + rest;
    let n = line.len() as int;
    assert forall|k: int| 0 <= k < n implies #[trigger] piece[k] != 10 by {
        assert(piece[k] == line[k]);
    }
    assert(piece[n] == 10);
    lemma_newline_at(piece, 0, n);
    assert(piece.take(n) =~= line);
}

/// A piece without a newline is kept, up to 65536 bytes with those before it; nothing more
/// to read closes the line.
pub proof fn law_a_line_goes_on_without_a_newline(
    before: LineReader,
    piece: Seq<u8>,
    res: LineStep,
    after: LineReader,
)
    requires
        line_fed(before, piece, res, after),
        forall|k: int| 0 <= k < piece.len() ==> #[trigger] piece[k] != 10,
    ensures
        piece.len() == 0 ==> res is Closed,
        piece.len() > 0 && before.buf@.len() + piece.len() <= 65536 ==> res is NeedMore
            && after.buf@ == before.buf@ + piece,
        piece.len() > 0 && before.buf@.len() + piece.len() > 65536 ==> res is TooLong,
{
    lemma_no_newline(piece, 0);
}

/// A request is written under its own word, with its arguments and its session under their
/// names.
pub proof fn law_how_a_request_is_written(request: Request, res: Json)
    requires
        call_ensures(Request::to_json, (&request,), res),
    ensures
        ({
            let v = res.model();
            match request {
                Request::Spawn { args } => v.str_at("op"@) == Some("spawn"@) && v.get("args"@)
                    == Some(strings_json(views(args@))),
                Request::Attach { session, args } => v.str_at("op"@) == Some("attach"@) && v.get(
                    "args"@,
                ) == Some(strings_json(views(args@))) && match session {
                    Some(s) => v.str_at("session"@) == Some(s@),
                    None => v.str_at("session"@) is None,
                },
                Request::ListSessions => v.str_at("op"@) == Some("list_sessions"@),
                Request::Version => v.str_at("op"@) == Some("version"@),
            }
        }),
{
    reveal_strlit("op");
    reveal_strlit("args");
    reveal_strlit("session");
    assert("op"@.len() == 2 && "args"@.len() == 4 && "session"@.len() == 7);
    reveal_with_fuel(crate::json::field_index, 4);
}

/// A request to attach may leave out its session and its arguments, one to spawn has to
/// give arguments, and a word that is none of the four is told as such.
pub proof fn law_what_a_request_may_leave_out(value: Json, res: Result<Request, FrameFault>)
    requires
        call_ensures(Request::from_json, (&value,), res),
        value.model() is Obj,
        value.model().is_single("op"@),
    ensures
        ({
            let v = value.model();
            &&& v.get("op"@) is None ==> (res matches Err(FrameFault::NoOp))
            &&& v.str_at("op"@) == Some("attach"@) && v.get("session"@) is None && v.get("args"@)
                is None && v.is_single("session"@) && v.is_single("args"@) ==> (
            res matches Ok(Request::Attach { session, args }) && session is None && args@.len()
                == 0)
            &&& v.str_at("op"@) == Some("spawn"@) && v.get("args"@) is None ==> (
            res matches Err(FrameFault::BadField))
            &&& v.str_at("op"@) matches Some(op) ==> op != "spawn"@ && op != "attach"@ && op
                != "list_sessions"@ && op != "version"@ ==> (
            res matches Err(FrameFault::UnknownOp(word)) && word@ == op)
        }),
{
    reveal_strlit("attach");
    reveal_strlit("spawn");
    reveal_strlit("list_sessions");
    reveal_strlit("version");
    assert("attach"@.len() == 6 && "spawn"@.len() == 5 && "list_sessions"@.len() == 13
        && "version"@.len() == 7);
    if let Ok(Request::Attach { session, args }) = res {
        assert(views(args@).len() == args@.len());
    }
}

/// Every answer but an error says that it went well; each carries what it is for and
/// nothing else.
pub proof fn law_what_an_answer_carries(
    entries: Vec<SessionEntry>,
    text: &str,
    spawned: Reply,
    listed: Reply,
    told: Reply,
    attached: Reply,
    refused: Reply,
)
    requires
        call_ensures(Reply::spawn_ok, (), spawned),
        call_ensures(Reply::sessions, (entries,), listed),
        call_ensures(Reply::version, (text,), told),
        call_ensures(Reply::attach_ok, (text,), attached),
        call_ensures(Reply::error, (text,), refused),
    ensures
        spawned.ok && listed.ok && told.ok && attached.ok && !refused.ok,
        refused.error is Some && refused.error->0@ == text@,
        spawned.error is None && listed.error is None && told.error is None && attached.error is None,
        listed.sessions is Some && entry_views(listed.sessions->0@) == entry_views(entries@),
        spawned.sessions is None && told.sessions is None && attached.sessions is None
            && refused.sessions is None,
        told.version is Some && told.version->0@ == text@ && told.proto is Some && told.proto->0@
            == "1.1"@,
        attached.session is Some && attached.session->0@ == text@,
        spawned.session is None && listed.session is None && told.session is None,
{
    assert(refused.model().error == Some(text@));
    assert(told.model().version == Some(text@));
    assert(told.model().proto == Some("1.1"@));
    assert(attached.model().session == Some(text@));
    assert(listed.model().sessions == Some(entry_views(entries@)));
    assert(spawned.model().error is None && spawned.model().session is None);
}

/// A frame is written as the magic word, a space and its text, and any line that does not
/// begin with that word says so.
pub proof fn law_how_a_frame_is_written(json: &str, line: &str, frame: String, res: Result<
    String,
    String,
>)
    requires
        call_ensures(encode_frame, (json,), frame),
        call_ensures(frame_payload, (line,), res),
    ensures
        frame@ == "BRIDGE1 "@ + json@,
        !begins(line@, "BRIDGE1"@) ==> res is Err,
        begins(line@, "BRIDGE1 "@) ==> res is Ok,
{
    reveal_strlit("BRIDGE1 ");
    reveal_strlit("BRIDGE1");
    reveal_strlit(" ");
    assert("BRIDGE1"@ + " "@ =~= "BRIDGE1 "@);
    if begins(line@, "BRIDGE1 "@) {
        assert(line@.subrange(0, 7) =~= line@.subrange(0, 8).subrange(0, 7));
        assert("BRIDGE1 "@.subrange(0, 7) =~= "BRIDGE1"@);
        assert(line@.skip(7)[0] == line@.subrange(0, 8)[7]);
    }
}

} // verus!
