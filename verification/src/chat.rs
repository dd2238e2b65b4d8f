//! What every chat provider has in common: token counts, errors, thinking
//! effort, and putting streamed tool calls together.
use crate::json::{Json, JsonV};
use crate::pattern::opt_view;
use crate::text::cat;
use crate::wire::{ToolCall, ToolCallFunction};
use vstd::prelude::*;
use vstd::string::*;

verus! {

// --------------------------------------------------------------------- tokens

/// The tokens of one request.
#[derive(Clone, Copy, Debug, PartialEq, Eq, Structural)]
pub struct TokenUsage {
    pub input_other: i64,
    pub output: i64,
    pub input_cache_read: i64,
    pub input_cache_creation: i64,
}

impl TokenUsage {
    /// The tokens that went in.
    pub open spec fn spec_input(self) -> int {
        self.input_other + self.input_cache_read + self.input_cache_creation
    }

    /// Whether the sums of the counts, taken in order, fit in a machine word.
    pub open spec fn fits(self) -> bool {
        &&& self.input_fits()
        &&& i64::MIN <= self.spec_input() + self.output <= i64::MAX
    }

    /// Whether the sums of the counts that went in, taken in order, fit in a machine
    /// word.
    pub open spec fn input_fits(self) -> bool {
        &&& i64::MIN <= self.input_other + self.input_cache_read <= i64::MAX
        &&& i64::MIN <= self.spec_input() <= i64::MAX
    }

    /// The tokens that went in and came out.
    pub fn total(&self) -> (res: i64)
        requires
            self.fits(),
        ensures
            res == self.spec_input() + self.output,
    {
        self.input() + self.output
    }

    /// The tokens that went in.
    pub fn input(&self) -> (res: i64)
        requires
            self.input_fits(),
        ensures
            res == self.spec_input(),
    {
        self.input_other + self.input_cache_read + self.input_cache_creation
    }
}

// --------------------------------------------------------------------- errors

/// How much a model thinks before it answers.
#[derive(Clone, Copy, Debug, PartialEq, Eq, Structural)]
pub enum ThinkingEffort {
    Off,
    Low,
    Medium,
    High,
}

/// What kind of thing went wrong.
#[derive(Clone, Copy, Debug, PartialEq, Eq, Structural)]
pub enum ChatProviderErrorKind {
    Connection,
    Timeout,
    Status(u16),
    EmptyResponse,
    Other,
}

/// What went wrong with a chat request.
#[derive(Debug)]
pub struct ChatProviderError {
    pub message: String,
    pub kind: ChatProviderErrorKind,
}

impl ChatProviderError {
    /// An error of that kind with this message.
    pub fn new(kind: ChatProviderErrorKind, message: &str) -> (res: ChatProviderError)
        ensures
            res.kind == kind,
            res.message@ == message@,
    {
        ChatProviderError { message: message.to_owned(), kind }
    }

    /// What is shown of the error.
    pub fn to_text(&self) -> (res: String)
        ensures
            res@ == self.message@,
    {
        self.message.clone()
    }
}

/// Whether `e` is an error of that kind with that message.
pub open spec fn is_chat_error(
    e: ChatProviderError,
    kind: ChatProviderErrorKind,
    message: Seq<char>,
) -> bool {
    e.kind == kind && e.message@ == message
}

// ------------------------------------------------------- streamed tool calls

/// A tool call by its characters.
pub struct CallV {
    pub kind: Seq<char>,
    pub id: Seq<char>,
    pub name: Seq<char>,
    pub arguments: Option<Seq<char>>,
}

/// A tool call by its characters.
pub open spec fn call_view(c: ToolCall) -> CallV {
    CallV {
        kind: c.kind@,
        id: c.id@,
        name: c.function.name@,
        arguments: opt_view(c.function.arguments),
    }
}

/// Tool calls by their characters.
pub open spec fn call_views(calls: Seq<ToolCall>) -> Seq<CallV> {
    Seq::new(calls.len(), |i: int| call_view(calls[i]))
}

/// A call of which nothing is known yet.
pub open spec fn blank_call() -> CallV {
    CallV { kind: "function"@, id: seq![], name: seq![], arguments: None }
}

/// The place of the call that a delta belongs to.
pub open spec fn delta_index(tc: JsonV) -> int {
    match tc.int_at("index"@) {
        Some(i) => if i > 0 {
            i
        } else {
            0
        },
        None => 0,
    }
}

/// A string where it is given and not empty, another where it is not.
pub open spec fn given_or(s: Option<Seq<char>>, other: Seq<char>) -> Seq<char> {
    match s {
        Some(t) => if t.len() > 0 {
            t
        } else {
            other
        },
        None => other,
    }
}

/// A call with a delta merged in: an id and a name replace what was known, a
/// fragment of arguments goes behind the others.
pub open spec fn with_delta(call: CallV, tc: JsonV) -> CallV {
    let known = CallV { id: given_or(tc.str_at("id"@), call.id), ..call };
    match tc.get("function"@) {
        Some(function) => CallV {
            name: given_or(function.str_at("name"@), call.name),
            arguments: match function.str_at("arguments"@) {
                Some(fragment) => match call.arguments {
                    Some(arguments) => Some(arguments + fragment),
                    None => Some(fragment),
                },
                None => call.arguments,
            },
            ..known
        },
        None => known,
    }
}

/// The call at `i`, blank where there is none yet.
pub open spec fn call_at(calls: Seq<CallV>, i: int) -> CallV {
    if 0 <= i < calls.len() {
        calls[i]
    } else {
        blank_call()
    }
}

/// The calls once a delta is merged in. Calls before its place that no delta has
/// named yet are blank.
pub open spec fn accumulated(calls: Seq<CallV>, tc: JsonV) -> Seq<CallV> {
    let index = delta_index(tc);
    let len = if calls.len() <= index {
        (index + 1) as nat
    } else {
        calls.len()
    };
    Seq::new(
        len,
        |i: int|
            if i == index {
                with_delta(call_at(calls, i), tc)
            } else {
                call_at(calls, i)
            },
    )
}

/// Merges one streamed delta into the calls, by the place it names. Going by
/// place, and not by which delta came before, no call is lost where a name comes
/// late or where the deltas of several calls are interleaved.
pub fn accumulate_tool_call_delta(acc: &mut Vec<ToolCall>, tc: &Json)
    requires
        delta_index(tc.model()) < usize::MAX,
    ensures
        call_views(final(acc)@) == accumulated(call_views(old(acc)@), tc.model()),
{
    let ghost before = call_views(acc@);
    let index: usize = match tc.int_at("index") {
        Some(i) => if i > 0 {
            i as usize
        } else {
            0
        },
        None => 0,
    };
    let ghost len = accumulated(before, tc.model()).len();
    while acc.len() <= index
        invariant
            index < usize::MAX,
            before.len() <= acc@.len(),
            acc@.len() <= len,
            len == (if before.len() <= index {
                (index + 1) as nat
            } else {
                before.len()
            }),
            forall|k: int| 0 <= k < acc@.len() ==> #[trigger] call_view(acc@[k]) == call_at(before, k),
        decreases index + 1 - acc@.len(),
    {
        let blank: ToolCall = ToolCall {
            kind: "function".to_owned(),
            id: String::new(),
            function: ToolCallFunction { name: String::new(), arguments: None },
        };
        proof {
            assert(call_view(blank).id =~= seq![]);
            assert(call_view(blank).name =~= seq![]);
            assert(call_view(blank) == blank_call());
        }
        acc.push(blank);
    }
    let ghost padded = acc@;
    proof {
        assert(call_view(padded[index as int]) == call_at(before, index as int));
    }
    if let Some(id) = tc.str_at("id") {
        if !id.is_empty() {
            acc[index].id = id.to_owned();
        }
    }
    if let Some(function) = tc.get("function") {
        if let Some(name) = function.str_at("name") {
            if !name.is_empty() {
                acc[index].function.name = name.to_owned();
            }
        }
        if let Some(fragment) = function.str_at("arguments") {
            let joined: String = match &acc[index].function.arguments {
                Some(arguments) => cat(arguments, fragment),
                None => fragment.to_owned(),
            };
            acc[index].function.arguments = Some(joined);
        }
    }
    proof {
        let after = accumulated(before, tc.model());
        assert(call_view(acc@[index as int]) == with_delta(
            call_at(before, index as int),
            tc.model(),
        ));
        assert forall|k: int| 0 <= k < acc@.len() implies call_views(acc@)[k] == after[k] by {
            if k != index {
                assert(acc@[k] == padded[k]);
                assert(call_view(padded[k]) == call_at(before, k));
            }
        }
        assert(call_views(acc@) =~= after);
    }
}

/// A delta changes only the call in its own place, with calls that no delta has named
/// yet blank before it.
pub proof fn law_a_delta_changes_its_own_call(calls: Seq<CallV>, tc: JsonV, i: int)
    requires
        0 <= i,
    ensures
        accumulated(calls, tc).len() == (if calls.len() > delta_index(tc) {
            calls.len() as int
        } else {
            delta_index(tc) + 1
        }),
        i != delta_index(tc) ==> call_at(accumulated(calls, tc), i) == call_at(calls, i),
        call_at(accumulated(calls, tc), delta_index(tc)) == with_delta(
            call_at(calls, delta_index(tc)),
            tc,
        ),
{
}

/// Deltas of different calls may come in any order.
pub proof fn law_interleaved_calls_do_not_mix(calls: Seq<CallV>, a: JsonV, b: JsonV)
    requires
        delta_index(a) != delta_index(b),
    ensures
        accumulated(accumulated(calls, a), b) == accumulated(accumulated(calls, b), a),
{
    let ab = accumulated(accumulated(calls, a), b);
    let ba = accumulated(accumulated(calls, b), a);
    assert(ab.len() == ba.len());
    assert forall|i: int| 0 <= i < ab.len() implies ab[i] == ba[i] by {
        assert(call_at(accumulated(calls, a), i) == if i == delta_index(a) {
            with_delta(call_at(calls, i), a)
        } else {
            call_at(calls, i)
        });
        assert(call_at(accumulated(calls, b), i) == if i == delta_index(b) {
            with_delta(call_at(calls, i), b)
        } else {
            call_at(calls, i)
        });
    }
    assert(ab =~= ba);
}

/// A name that comes after the first fragment of arguments is not lost, and the
/// fragments stay in order.
pub proof fn law_a_late_name_is_kept(call: CallV, first: JsonV, second: JsonV, name: Seq<char>)
    requires
        first.get("function"@) matches Some(f) && f.str_at("name"@) is None,
        second.get("function"@) matches Some(f) && f.str_at("name"@) == Some(name)
            && f.str_at("arguments"@) is None,
        name.len() > 0,
    ensures
        with_delta(with_delta(call, first), second).name == name,
        with_delta(with_delta(call, first), second).arguments == with_delta(call, first).arguments,
{
}

/// A delta gives its call the id and the name that it holds, where they are not empty, and
/// puts its fragment of arguments behind those that came before; what it does not hold
/// stays.
pub proof fn law_a_delta_adds_to_its_call(call: CallV, tc: JsonV, function: JsonV)
    ensures
        ({
            let after = with_delta(call, tc);
            &&& after.kind == call.kind
            &&& tc.get("id"@) matches Some(JsonV::Str(id)) ==> if id.len() > 0 {
                after.id == id
            } else {
                after.id == call.id
            }
            &&& !(tc.get("id"@) matches Some(JsonV::Str(_))) ==> after.id == call.id
            &&& tc.get("function"@) is None ==> after.name == call.name && after.arguments
                == call.arguments
            &&& tc.get("function"@) == Some(function) ==> {
                &&& function.get("name"@) matches Some(JsonV::Str(name)) ==> if name.len() > 0 {
                    after.name == name
                } else {
                    after.name == call.name
                }
                &&& !(function.get("name"@) matches Some(JsonV::Str(_))) ==> after.name == call.name
                &&& function.get("arguments"@) matches Some(JsonV::Str(fragment))
                    ==> after.arguments is Some && after.arguments->0 == (match call.arguments {
                    Some(arguments) => arguments,
                    None => seq![],
                }) + fragment
                &&& !(function.get("arguments"@) matches Some(JsonV::Str(_))) ==> after.arguments
                    == call.arguments
            }
        }),
{
    if let Some(JsonV::Str(fragment)) = function.get("arguments"@) {
        assert(Seq::<char>::empty() + fragment =~= fragment);
    }
}

/// A delta goes to the call at its index, the first where it names none or a negative one.
pub proof fn law_a_delta_goes_to_its_index(tc: JsonV, i: int)
    ensures
        tc.get("index"@) == Some(JsonV::Int(i)) && i >= 0 ==> delta_index(tc) == i,
        tc.get("index"@) == Some(JsonV::Int(i)) && i < 0 ==> delta_index(tc) == 0,
        tc.get("index"@) is None ==> delta_index(tc) == 0,
{
}

/// The input of a usage is all that went in, cached or not, and the total is that and what
/// came out.
pub proof fn law_what_a_usage_adds_up_to(usage: TokenUsage, input: i64, total: i64)
    requires
        call_ensures(TokenUsage::input, (&usage,), input),
        call_ensures(TokenUsage::total, (&usage,), total),
    ensures
        input == usage.input_other + usage.input_cache_read + usage.input_cache_creation,
        total == input + usage.output,
{
}

} // verus!
