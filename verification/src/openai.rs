//! The OpenAI-compatible chat provider: what it asks of the API, and how it
//! reads the answer, whole or streamed.
use crate::chat::{
    accumulate_tool_call_delta, accumulated, call_view, call_views, delta_index, is_chat_error,
    CallV, ChatProviderError, ChatProviderErrorKind, ThinkingEffort, TokenUsage,
};
use crate::headers::{
    header_contents, header_failure, header_views, insert_headers, new_headers, no_headers,
    put_header, with_headers, MAX_HEADERS,
};
use crate::json::{
    add_field, add_item, field_index, fields_model, group_json, items_model, json_arr, json_obj,
    json_parsed, json_str, lemma_field_index, no_fields, set_field, with_field, Json, JsonV,
};
use crate::pattern::{lossy, opt_view, text_lossy};
use crate::session::lowered;
use crate::text::{
    begins, cat, cat3, chars_of, ends, ends_with, find, find_from, lemma_find_from, occurs_at,
    same, starts_with, string_of, strip_prefix, trim, trim_str,
};
use crate::wire::{ContentPart, ToolCall, ToolCallFunction};
use reqwest::header::HeaderMap;
use vstd::prelude::*;
use vstd::string::*;

verus! {

// ----------------------------------------------------------------------- usage

/// How many of the prompt's tokens came out of a cache.
pub open spec fn cached_tokens(v: JsonV) -> int {
    match v.int_at("cached_tokens"@) {
        Some(n) => n,
        None => match v.get("prompt_tokens_details"@) {
            Some(details) => match details.int_at("cached_tokens"@) {
                Some(n) => n,
                None => 0,
            },
            None => 0,
        },
    }
}

/// The token counts that a value gives, as they are stated and with the cached
/// ones taken out of the prompt's.
pub open spec fn usage_in(v: JsonV) -> Option<(int, int, int)> {
    match (v.int_at("prompt_tokens"@), v.int_at("completion_tokens"@)) {
        (Some(prompt), Some(completion)) => {
            let cached = cached_tokens(v);
            Some(
                (
                    if prompt >= cached {
                        prompt - cached
                    } else {
                        0
                    },
                    completion,
                    cached,
                ),
            )
        },
        _ => None,
    }
}

/// Whether the counts of a value fit in machine words.
pub open spec fn usage_fits(v: JsonV) -> bool {
    usage_in(v) matches Some((other, _, _)) ==> other <= i64::MAX
}

/// Whether the counts of a value fit in machine words.
pub fn check_usage(value: &Json) -> (res: bool)
    ensures
        res == usage_fits(value.model()),
{
    let prompt: i64 = match value.int_at("prompt_tokens") {
        Some(n) => n,
        None => {
            return true;
        },
    };
    if value.int_at("completion_tokens").is_none() {
        return true;
    }
    let cached: i64 = cached_of(value);
    prompt < cached || cached >= 0 || prompt <= i64::MAX + cached
}

fn cached_of(value: &Json) -> (res: i64)
    ensures
        res == cached_tokens(value.model()),
{
    if let Some(n) = value.int_at("cached_tokens") {
        return n;
    }
    if let Some(details) = value.get("prompt_tokens_details") {
        if let Some(n) = details.int_at("cached_tokens") {
            return n;
        }
    }
    0
}

/// Reads token counts. Without a prompt's and a completion's count there are
/// none.
pub fn parse_usage(value: &Json) -> (res: Option<TokenUsage>)
    requires
        usage_fits(value.model()),
    ensures
        is_usage(res, usage_in(value.model())),
{
    let prompt: i64 = match value.int_at("prompt_tokens") {
        Some(n) => n,
        None => {
            return None;
        },
    };
    let completion: i64 = match value.int_at("completion_tokens") {
        Some(n) => n,
        None => {
            return None;
        },
    };
    let cached: i64 = cached_of(value);
    let input_other: i64 = if prompt >= cached {
        prompt - cached
    } else {
        0
    };
    Some(
        TokenUsage {
            input_other,
            output: completion,
            input_cache_read: cached,
            input_cache_creation: 0,
        },
    )
}

/// The tokens that are read, cached ones with them, are the prompt's.
pub proof fn law_input_is_the_prompt(v: JsonV, prompt: int)
    requires
        v.int_at("prompt_tokens"@) == Some(prompt),
        v.int_at("completion_tokens"@) is Some,
        0 <= cached_tokens(v) <= prompt,
    ensures
        usage_in(v) matches Some((other, _, cached)) && other + cached == prompt && cached
            == cached_tokens(v),
{
}

// ----------------------------------------------------------------------- parts

/// A part of a message as it arrives.
#[derive(Debug)]
pub enum StreamedMessagePart {
    Content(ContentPart),
    ToolCall(ToolCall),
}

/// A part by its characters.
pub enum PartV {
    Think(Seq<char>),
    Text(Seq<char>),
    Image(Seq<char>),
    Audio(Seq<char>),
    Video(Seq<char>),
    Call(CallV),
}

/// A part by its characters.
pub open spec fn part_view(p: StreamedMessagePart) -> PartV {
    match p {
        StreamedMessagePart::Content(ContentPart::Think(t)) => PartV::Think(t@),
        StreamedMessagePart::Content(ContentPart::Text(t)) => PartV::Text(t@),
        StreamedMessagePart::Content(ContentPart::ImageUrl(url)) => PartV::Image(url@),
        StreamedMessagePart::Content(ContentPart::AudioUrl(url)) => PartV::Audio(url@),
        StreamedMessagePart::Content(ContentPart::VideoUrl(url)) => PartV::Video(url@),
        StreamedMessagePart::ToolCall(c) => PartV::Call(call_view(c)),
    }
}

/// Parts by their characters.
pub open spec fn part_views(parts: Seq<StreamedMessagePart>) -> Seq<PartV> {
    Seq::new(parts.len(), |i: int| part_view(parts[i]))
}

/// The thought and the text that a value holds, each where it is not empty.
pub open spec fn content_parts(v: JsonV) -> Seq<PartV> {
    let think = match v.str_at("reasoning_content"@) {
        Some(t) => if t.len() > 0 {
            seq![PartV::Think(t)]
        } else {
            seq![]
        },
        None => seq![],
    };
    let text = match v.str_at("content"@) {
        Some(t) => if t.len() > 0 {
            seq![PartV::Text(t)]
        } else {
            seq![]
        },
        None => seq![],
    };
    think + text
}

fn push_part(parts: &mut Vec<StreamedMessagePart>, part: StreamedMessagePart)
    ensures
        part_views(final(parts)@) == part_views(old(parts)@).push(part_view(part)),
{
    let ghost before = parts@;
    parts.push(part);
    proof {
        assert(part_views(parts@) =~= part_views(before).push(part_view(part)));
    }
}

/// Adds the thought and the text that a delta holds. Its tool calls are put
/// together elsewhere.
pub fn ingest_delta(delta: &Json, parts: &mut Vec<StreamedMessagePart>)
    ensures
        part_views(final(parts)@) == part_views(old(parts)@) + content_parts(delta.model()),
{
    let ghost before = part_views(parts@);
    if let Some(reasoning) = delta.str_at("reasoning_content") {
        if !reasoning.is_empty() {
            push_part(parts, StreamedMessagePart::Content(ContentPart::Think(reasoning.to_owned())));
        }
    }
    if let Some(content) = delta.str_at("content") {
        if !content.is_empty() {
            push_part(parts, StreamedMessagePart::Content(ContentPart::Text(content.to_owned())));
        }
    }
    proof {
        assert(part_views(parts@) =~= before + content_parts(delta.model()));
    }
}

// ------------------------------------------------------------ whole responses

/// `uuid::Uuid::new_v4`, written out: 36 characters, which differ from call to
/// call.
#[verifier::external_body]
fn fresh_id() -> (res: String)
    ensures
        res@.len() == 36,
{
    uuid::Uuid::new_v4().to_string()
}

/// The tool call that a value holds. One without an id gets `fresh`.
pub open spec fn tool_call_in(v: JsonV, fresh: Seq<char>) -> Option<CallV> {
    match v.get("function"@) {
        Some(function) => match function.str_at("name"@) {
            Some(name) => Some(
                CallV {
                    kind: "function"@,
                    id: match v.str_at("id"@) {
                        Some(id) => id,
                        None => fresh,
                    },
                    name,
                    arguments: function.str_at("arguments"@),
                },
            ),
            None => None,
        },
        None => None,
    }
}

/// Reads a tool call. One without an id gets `fresh`.
pub fn parse_tool_call(tool_call: &Json, fresh: String) -> (res: Option<ToolCall>)
    ensures
        match tool_call_in(tool_call.model(), fresh@) {
            Some(call) => res matches Some(c) && call_view(c) == call,
            None => res is None,
        },
{
    let function: &Json = match tool_call.get("function") {
        Some(f) => f,
        None => {
            return None;
        },
    };
    let name: String = match function.str_at("name") {
        Some(n) => n.to_owned(),
        None => {
            return None;
        },
    };
    let arguments: Option<String> = match function.str_at("arguments") {
        Some(a) => Some(a.to_owned()),
        None => None,
    };
    let id: String = match tool_call.str_at("id") {
        Some(i) => i.to_owned(),
        None => fresh,
    };
    Some(
        ToolCall { kind: "function".to_owned(), id, function: ToolCallFunction { name, arguments } },
    )
}

/// Whether `parts` are the tool calls among `values`, in order, where one
/// without an id has some fresh one.
pub open spec fn are_tool_calls(parts: Seq<PartV>, values: Seq<JsonV>) -> bool
    decreases values.len(),
{
    if values.len() == 0 {
        parts.len() == 0
    } else if tool_call_in(values.last(), seq![]) is None {
        are_tool_calls(parts, values.drop_last())
    } else {
        &&& parts.len() > 0
        &&& are_tool_calls(parts.drop_last(), values.drop_last())
        &&& exists|fresh: Seq<char>|
            fresh.len() == 36 && parts.last() == PartV::Call(
                #[trigger] tool_call_in(values.last(), fresh)->0,
            )
    }
}

/// Adds the tool calls among `values`.
fn push_tool_calls(values: &Vec<Json>, parts: &mut Vec<StreamedMessagePart>)
    ensures
        part_views(old(parts)@).is_prefix_of(part_views(final(parts)@)),
        are_tool_calls(
            part_views(final(parts)@).skip(old(parts)@.len() as int),
            items_model(values@),
        ),
{
    let ghost before = part_views(parts@);
    let ghost model = items_model(values@);
    let mut i: usize = 0;
    proof {
        assert(model.take(0) =~= seq![]);
        assert(before.skip(before.len() as int) =~= seq![]);
        assert(before.is_prefix_of(before));
    }
    while i < values.len()
        invariant
            i <= values@.len(),
            model == items_model(values@),
            before == part_views(old(parts)@),
            before.is_prefix_of(part_views(parts@)),
            are_tool_calls(
                part_views(parts@).skip(before.len() as int),
                model.take(i as int),
            ),
        decreases values@.len() - i,
    {
        let fresh: String = fresh_id();
        proof {
            assert(model.take(i + 1).drop_last() =~= model.take(i as int));
            assert(model.take(i + 1).last() == values@[i as int].model());
        }
        let ghost now = part_views(parts@);
        if let Some(call) = parse_tool_call(&values[i], fresh) {
            push_part(parts, StreamedMessagePart::ToolCall(call));
            proof {
                let added = part_views(parts@).skip(before.len() as int);
                assert(added.drop_last() =~= now.skip(before.len() as int));
                assert(added.last() == PartV::Call(
                    tool_call_in(values@[i as int].model(), fresh@)->0,
                ));
                assert(before.is_prefix_of(part_views(parts@))) by {
                    assert(part_views(parts@).subrange(0, before.len() as int) =~= before);
                }
            }
        }
        i += 1;
    }
    proof {
        assert(model.take(i as int) =~= model);
    }
}

/// The message of a response that is read whole.
pub struct WholeResponse {
    pub parts: Vec<StreamedMessagePart>,
    pub id: Option<String>,
    pub usage: Option<TokenUsage>,
}

/// What is wrong with a whole response, if anything.
pub open spec fn response_failure(v: JsonV) -> Option<(ChatProviderErrorKind, Seq<char>)> {
    match v.get("choices"@) {
        Some(JsonV::Arr(choices)) => if choices.len() == 0 {
            Some(
                (ChatProviderErrorKind::EmptyResponse, "The API returned an empty response."@),
            )
        } else if choices[0].get("message"@) is None {
            Some((ChatProviderErrorKind::Other, "Missing message in response"@))
        } else {
            None
        },
        _ => Some((ChatProviderErrorKind::Other, "Missing choices in response"@)),
    }
}

/// The token counts of an optional value.
pub open spec fn usage_of(v: Option<JsonV>) -> Option<(int, int, int)> {
    match v {
        Some(u) => usage_in(u),
        None => None,
    }
}

/// Whether `usage` holds those counts.
pub open spec fn is_usage(usage: Option<TokenUsage>, counts: Option<(int, int, int)>) -> bool {
    match counts {
        Some((other, output, cached)) => usage matches Some(u) && u.input_other == other && u.output
            == output && u.input_cache_read == cached && u.input_cache_creation == 0,
        None => usage is None,
    }
}

/// The tool calls that a message lists.
pub open spec fn listed_calls(message: JsonV) -> Seq<JsonV> {
    match message.get("tool_calls"@) {
        Some(JsonV::Arr(values)) => values,
        _ => seq![],
    }
}

/// Reads a response that came whole.
pub fn parse_non_stream_response(value: &Json) -> (res: Result<WholeResponse, ChatProviderError>)
    requires
        value.model().get("usage"@) matches Some(u) ==> usage_fits(u),
    ensures
        match response_failure(value.model()) {
            Some((kind, message)) => res matches Err(e) && is_chat_error(e, kind, message),
            None => {
                let message = value.model().get("choices"@)->0->Arr_0[0].get("message"@)->0;
                let content = content_parts(message);
                &&& res matches Ok(r)
                &&& opt_view(r.id) == value.model().str_at("id"@)
                &&& is_usage(r.usage, usage_of(value.model().get("usage"@)))
                &&& content.is_prefix_of(part_views(r.parts@))
                &&& are_tool_calls(
                    part_views(r.parts@).skip(content.len() as int),
                    listed_calls(message),
                )
            },
        },
{
    broadcast use group_json;

    let id: Option<String> = match value.str_at("id") {
        Some(s) => Some(s.to_owned()),
        None => None,
    };
    let usage: Option<TokenUsage> = match value.get("usage") {
        Some(u) => parse_usage(u),
        None => None,
    };
    let choices: &Vec<Json> = match value.get("choices") {
        Some(c) => match c.as_array() {
            Some(items) => items,
            None => {
                return Err(
                    ChatProviderError::new(
                        ChatProviderErrorKind::Other,
                        "Missing choices in response",
                    ),
                );
            },
        },
        None => {
            return Err(
                ChatProviderError::new(ChatProviderErrorKind::Other, "Missing choices in response"),
            );
        },
    };
    if choices.len() == 0 {
        return Err(
            ChatProviderError::new(
                ChatProviderErrorKind::EmptyResponse,
                "The API returned an empty response.",
            ),
        );
    }
    let message: &Json = match choices[0].get("message") {
        Some(m) => m,
        None => {
            return Err(
                ChatProviderError::new(ChatProviderErrorKind::Other, "Missing message in response"),
            );
        },
    };
    let mut parts: Vec<StreamedMessagePart> = Vec::new();
    ingest_delta(message, &mut parts);
    let ghost content = content_parts(message.model());
    proof {
        assert(part_views(parts@) =~= content);
        assert(content.len() == parts@.len());
        assert(content.skip(content.len() as int) =~= seq![]);
        assert(content.is_prefix_of(content));
    }
    if let Some(calls) = message.get("tool_calls") {
        if let Some(values) = calls.as_array() {
            push_tool_calls(values, &mut parts);
        }
    }
    Ok(WholeResponse { parts, id, usage })
}

// ----------------------------------------------------------- streamed responses

/// A response that arrives piece by piece.
pub struct OpenAiCompatibleStreamedMessage {
    /// Whether more bytes may come.
    pub open: bool,
    /// What has come and holds no whole line yet.
    pub buffer: String,
    /// The parts that wait to be taken.
    pub parts: Vec<StreamedMessagePart>,
    pub id: Option<String>,
    pub usage: Option<TokenUsage>,
    /// Whether the provider said that the response is complete. Where the bytes
    /// end before it did, the connection was cut and the response is not whole.
    pub finished: bool,
    /// The tool calls, put together by their places.
    pub tool_acc: Vec<ToolCall>,
    pub tools_flushed: bool,
}

/// The tool calls that a choice's delta brings.
pub open spec fn choice_calls(choice: JsonV) -> Seq<JsonV> {
    match choice.get("delta"@) {
        Some(delta) => listed_calls(delta),
        None => seq![],
    }
}

/// The calls once `deltas` are merged in, one after the other.
pub open spec fn all_accumulated(calls: Seq<CallV>, deltas: Seq<JsonV>) -> Seq<CallV>
    decreases deltas.len(),
{
    if deltas.len() == 0 {
        calls
    } else {
        accumulated(all_accumulated(calls, deltas.drop_last()), deltas.last())
    }
}

/// The calls once the deltas of `choices` are merged in.
pub open spec fn choices_accumulated(calls: Seq<CallV>, choices: Seq<JsonV>) -> Seq<CallV>
    decreases choices.len(),
{
    if choices.len() == 0 {
        calls
    } else {
        all_accumulated(
            choices_accumulated(calls, choices.drop_last()),
            choice_calls(choices.last()),
        )
    }
}

/// The thoughts and texts that `choices` bring.
pub open spec fn choices_parts(choices: Seq<JsonV>) -> Seq<PartV>
    decreases choices.len(),
{
    if choices.len() == 0 {
        seq![]
    } else {
        choices_parts(choices.drop_last()) + match choices.last().get("delta"@) {
            Some(delta) => content_parts(delta),
            None => seq![],
        }
    }
}

/// Whether a choice says why the response ended.
pub open spec fn ends_response(choice: JsonV) -> bool {
    choice.get("finish_reason"@) matches Some(reason) && !(reason is Null)
}

/// The choices of a chunk.
pub open spec fn choices_in(v: JsonV) -> Seq<JsonV> {
    match v.get("choices"@) {
        Some(JsonV::Arr(choices)) => choices,
        _ => seq![],
    }
}

/// The usage that a chunk gives, of itself or in its first choice.
pub open spec fn chunk_usage(v: JsonV) -> Option<JsonV> {
    match v.get("usage"@) {
        Some(u) => Some(u),
        None => if choices_in(v).len() > 0 {
            choices_in(v)[0].get("usage"@)
        } else {
            None
        },
    }
}

/// Whether all places in the deltas of a choice are within reach.
pub open spec fn places_fit(choice: JsonV) -> bool {
    forall|i: int|
        0 <= i < choice_calls(choice).len() ==> delta_index(#[trigger] choice_calls(choice)[i])
            < usize::MAX
}

/// Whether the numbers of a chunk fit in machine words.
pub open spec fn chunk_fits(v: JsonV) -> bool {
    &&& chunk_usage(v) matches Some(u) ==> usage_fits(u)
    &&& forall|i: int| 0 <= i < choices_in(v).len() ==> places_fit(#[trigger] choices_in(v)[i])
}

/// The first non-empty list of choices a chunk has.
fn choices_of(value: &Json) -> (res: Option<&Vec<Json>>)
    ensures
        match res {
            Some(items) => items_model(items@) == choices_in(value.model()),
            None => choices_in(value.model()).len() == 0,
        },
{
    broadcast use group_json;

    match value.get("choices") {
        Some(c) => c.as_array(),
        None => None,
    }
}

fn usage_in_chunk(value: &Json) -> (res: Option<&Json>)
    ensures
        match res {
            Some(u) => chunk_usage(value.model()) == Some(u.model()),
            None => chunk_usage(value.model()) is None,
        },
{
    match value.get("usage") {
        Some(u) => Some(u),
        None => match choices_of(value) {
            Some(choices) => if choices.len() > 0 {
                proof {
                    assert(items_model(choices@)[0] == choices@[0].model());
                }
                choices[0].get("usage")
            } else {
                None
            },
            None => None,
        },
    }
}

/// The calls that a choice's delta brings.
fn calls_of(choice: &Json) -> (res: Option<&Vec<Json>>)
    ensures
        match res {
            Some(items) => items_model(items@) == choice_calls(choice.model()),
            None => choice_calls(choice.model()).len() == 0,
        },
{
    broadcast use group_json;

    match choice.get("delta") {
        Some(delta) => match delta.get("tool_calls") {
            Some(calls) => calls.as_array(),
            None => None,
        },
        None => None,
    }
}

/// Whether the numbers of a chunk fit in machine words.
pub fn check_chunk(value: &Json) -> (res: bool)
    ensures
        res == chunk_fits(value.model()),
{
    if let Some(u) = usage_in_chunk(value) {
        if !check_usage(u) {
            return false;
        }
    }
    if let Some(choices) = choices_of(value) {
        let mut i: usize = 0;
        while i < choices.len()
            invariant
                i <= choices@.len(),
                items_model(choices@) == choices_in(value.model()),
                forall|k: int|
                    0 <= k < i ==> places_fit(#[trigger] choices_in(value.model())[k]),
            decreases choices@.len() - i,
        {
            proof {
                assert(items_model(choices@)[i as int] == choices@[i as int].model());
            }
            if !check_places(&choices[i]) {
                return false;
            }
            i += 1;
        }
    }
    true
}

fn check_places(choice: &Json) -> (res: bool)
    ensures
        res == places_fit(choice.model()),
{
    if let Some(calls) = calls_of(choice) {
        let mut i: usize = 0;
        while i < calls.len()
            invariant
                i <= calls@.len(),
                items_model(calls@) == choice_calls(choice.model()),
                forall|k: int|
                    0 <= k < i ==> delta_index(#[trigger] choice_calls(choice.model())[k])
                        < usize::MAX,
            decreases calls@.len() - i,
        {
            proof {
                assert(items_model(calls@)[i as int] == calls@[i as int].model());
            }
            if let Some(index) = calls[i].int_at("index") {
                if index > 0 && index as u64 >= usize::MAX as u64 {
                    proof {
                        assert(!(delta_index(choice_calls(choice.model())[i as int])
                            < usize::MAX));
                    }
                    return false;
                }
            }
            i += 1;
        }
    }
    true
}

/// Merges the deltas of a choice into the calls.
fn accumulate_calls(acc: &mut Vec<ToolCall>, choice: &Json)
    requires
        places_fit(choice.model()),
    ensures
        call_views(final(acc)@) == all_accumulated(
            call_views(old(acc)@),
            choice_calls(choice.model()),
        ),
{
    let ghost before = call_views(acc@);
    let ghost deltas = choice_calls(choice.model());
    if let Some(calls) = calls_of(choice) {
        let mut i: usize = 0;
        proof {
            assert(deltas.take(0) =~= seq![]);
        }
        while i < calls.len()
            invariant
                i <= calls@.len(),
                items_model(calls@) == deltas,
                deltas == choice_calls(choice.model()),
                places_fit(choice.model()),
                call_views(acc@) == all_accumulated(before, deltas.take(i as int)),
            decreases calls@.len() - i,
        {
            proof {
                assert(deltas[i as int] == calls@[i as int].model());
                assert(delta_index(choice_calls(choice.model())[i as int]) < usize::MAX);
                assert(deltas.take(i + 1).drop_last() =~= deltas.take(i as int));
            }
            accumulate_tool_call_delta(acc, &calls[i]);
            i += 1;
        }
        proof {
            assert(deltas.take(i as int) =~= deltas);
        }
    }
}

/// What a chunk makes of a streamed response.
pub open spec fn chunk_ingested(
    before: OpenAiCompatibleStreamedMessage,
    v: JsonV,
    after: OpenAiCompatibleStreamedMessage,
) -> bool {
    &&& after.open == before.open
    &&& after.buffer == before.buffer
    &&& after.tools_flushed == before.tools_flushed
    &&& match v.str_at("id"@) {
        Some(id) => opt_view(after.id) == Some(id),
        None => after.id == before.id,
    }
    &&& match usage_of(chunk_usage(v)) {
        Some(counts) => is_usage(after.usage, Some(counts)),
        None => after.usage == before.usage,
    }
    &&& after.finished == (before.finished || exists|i: int|
        0 <= i < choices_in(v).len() && ends_response(#[trigger] choices_in(v)[i]))
    &&& part_views(after.parts@) == part_views(before.parts@) + choices_parts(choices_in(v))
    &&& call_views(after.tool_acc@) == choices_accumulated(
        call_views(before.tool_acc@),
        choices_in(v),
    )
}

/// The calls that have a name.
pub open spec fn named_calls(calls: Seq<CallV>) -> Seq<CallV>
    decreases calls.len(),
{
    if calls.len() == 0 {
        seq![]
    } else if calls.last().name.len() > 0 {
        named_calls(calls.drop_last()).push(calls.last())
    } else {
        named_calls(calls.drop_last())
    }
}

/// Whether `part` is the finished form of `call`: the call itself, with some
/// fresh id where it has none.
pub open spec fn is_finished_call(part: PartV, call: CallV) -> bool {
    part matches PartV::Call(c) && c.kind == call.kind && c.name == call.name && c.arguments
        == call.arguments && (if call.id.len() > 0 {
        c.id == call.id
    } else {
        c.id.len() == 36
    })
}

/// Whether `parts` are the finished forms of `calls`, in order.
pub open spec fn are_finished_calls(parts: Seq<PartV>, calls: Seq<CallV>) -> bool {
    &&& parts.len() == calls.len()
    &&& forall|i: int| 0 <= i < calls.len() ==> is_finished_call(#[trigger] parts[i], calls[i])
}

/// What the reader of a streamed response gets next.
pub enum StreamStep {
    /// This part.
    Part(StreamedMessagePart),
    /// Nothing more: the response is complete.
    End,
    /// The response was cut short.
    Fail(ChatProviderError),
    /// More bytes are needed.
    NeedBytes,
}

/// What a line of a streamed response asks for.
pub enum LineStep {
    /// Parse this JSON text and ingest it.
    Parse(String),
    /// The provider said that the response is complete.
    Done,
    /// No whole line is left.
    NeedMore,
}

/// What became of a line of a streamed response.
pub enum LineRead {
    /// It held a chunk, which was taken in.
    Chunk(String),
    /// The provider said that the response is complete.
    Done,
    /// No whole line is left.
    NeedMore,
}

/// The data that a line carries, if any.
pub open spec fn line_data(line: Seq<char>) -> Option<Seq<char>> {
    let text = trim(line);
    if begins(text, "data: "@) {
        Some(text.skip("data: "@.len() as int))
    } else {
        None
    }
}

/// The next line of `buffer` that carries data, with what is left behind it.
pub open spec fn next_data(buffer: Seq<char>) -> Option<(Seq<char>, Seq<char>)>
    decreases buffer.len(),
{
    match find_from(buffer, seq!['\n'], 0) {
        Some(nl) => if 0 <= nl < buffer.len() {
            match line_data(buffer.take(nl)) {
                Some(data) => Some((data, buffer.skip(nl + 1))),
                None => next_data(buffer.skip(nl + 1)),
            }
        } else {
            None
        },
        None => None,
    }
}

/// What is left of `buffer` once its lines without data are gone.
pub open spec fn rest_without_data(buffer: Seq<char>) -> Seq<char>
    decreases buffer.len(),
{
    match find_from(buffer, seq!['\n'], 0) {
        Some(nl) => if 0 <= nl < buffer.len() {
            rest_without_data(buffer.skip(nl + 1))
        } else {
            buffer
        },
        None => buffer,
    }
}

/// What is said of a response whose bytes end too soon.
pub open spec fn cut_short_text() -> Seq<char> {
    "stream ended before completion (no finish_reason or [DONE]); connection closed early"@
}

/// What taking the next line that carries data makes of a streamed response, and
/// what comes of it.
pub open spec fn line_taken(
    before: OpenAiCompatibleStreamedMessage,
    res: LineStep,
    after: OpenAiCompatibleStreamedMessage,
) -> bool {
    match next_data(before.buffer@) {
        Some((data, rest)) => {
            &&& after.buffer@ == rest
            &&& if trim(data) == "[DONE]"@ {
                res is Done && after == (OpenAiCompatibleStreamedMessage {
                    buffer: after.buffer,
                    finished: true,
                    open: false,
                    ..before
                })
            } else {
                (res matches LineStep::Parse(text) && text@ == data) && after == (
                OpenAiCompatibleStreamedMessage {
                    buffer: after.buffer,
                    ..before
                })
            }
        },
        None => res is NeedMore && after == (OpenAiCompatibleStreamedMessage {
            buffer: after.buffer,
            ..before
        }) && after.buffer@ == rest_without_data(before.buffer@),
    }
}

/// What is said of a chunk whose numbers do not fit in machine words.
pub open spec fn out_of_range_text() -> Seq<char> {
    "numbers out of range in response"@
}

/// What reading the next line that carries data makes of a streamed response, and
/// what comes of it: a chunk is taken in, and data that is no chunk is an error.
pub open spec fn line_read(
    before: OpenAiCompatibleStreamedMessage,
    res: Result<LineRead, ChatProviderError>,
    after: OpenAiCompatibleStreamedMessage,
) -> bool {
    let moved = OpenAiCompatibleStreamedMessage { buffer: after.buffer, ..before };
    match next_data(before.buffer@) {
        Some((data, rest)) => {
            &&& after.buffer@ == rest
            &&& if trim(data) == "[DONE]"@ {
                (res matches Ok(LineRead::Done)) && after == (OpenAiCompatibleStreamedMessage {
                    finished: true,
                    open: false,
                    ..moved
                })
            } else {
                match json_parsed(data) {
                    Err(why) => (res matches Err(e) && is_chat_error(
                        e,
                        ChatProviderErrorKind::Other,
                        why,
                    )) && after == moved,
                    Ok(v) => if chunk_fits(v) {
                        (res matches Ok(LineRead::Chunk(text)) && text@ == data) && chunk_ingested(
                            moved,
                            v,
                            after,
                        )
                    } else {
                        (res matches Err(e) && is_chat_error(
                            e,
                            ChatProviderErrorKind::Other,
                            out_of_range_text(),
                        )) && after == moved
                    },
                }
            }
        },
        None => (res matches Ok(LineRead::NeedMore)) && after == moved && after.buffer@
            == rest_without_data(before.buffer@),
    }
}

/// What bytes make of a streamed response: they go behind what has come, and the
/// whole lines are read one after the other, through `states`, the chunks from
/// `texts` with them, up to the mark of the end, the end of the lines or an error.
pub open spec fn bytes_read(
    before: OpenAiCompatibleStreamedMessage,
    bytes: Seq<u8>,
    states: Seq<OpenAiCompatibleStreamedMessage>,
    texts: Seq<String>,
    res: Result<(), ChatProviderError>,
    after: OpenAiCompatibleStreamedMessage,
) -> bool {
    &&& states.len() == texts.len() + 1
    &&& states[0] == OpenAiCompatibleStreamedMessage { buffer: states[0].buffer, ..before }
    &&& states[0].buffer@ == before.buffer@ + lossy(bytes)
    &&& forall|i: int|
        0 <= i < texts.len() ==> line_read(
            states[i],
            Ok(LineRead::Chunk(#[trigger] texts[i])),
            states[i + 1],
        )
    &&& match res {
        Ok(_) => line_read(states.last(), Ok(LineRead::Done), after) || line_read(
            states.last(),
            Ok(LineRead::NeedMore),
            after,
        ),
        Err(e) => line_read(states.last(), Err(e), after),
    }
}

/// What is left behind a line is shorter.
proof fn lemma_next_data(buffer: Seq<char>)
    ensures
        next_data(buffer) matches Some((data, rest)) ==> rest.len() < buffer.len(),
    decreases buffer.len(),
{
    if let Some(nl) = find_from(buffer, seq!['\n'], 0) {
        if 0 <= nl < buffer.len() {
            lemma_next_data(buffer.skip(nl + 1));
        }
    }
}

/// What taking the next part makes of a streamed response, and what comes of it.
pub open spec fn part_taken(
    before: OpenAiCompatibleStreamedMessage,
    res: StreamStep,
    after: OpenAiCompatibleStreamedMessage,
) -> bool {
    &&& before.parts@.len() > 0 ==> {
        &&& res matches StreamStep::Part(p) && p == before.parts@[0]
        &&& after.parts@ == before.parts@.skip(1)
        &&& after == (OpenAiCompatibleStreamedMessage {
            parts: after.parts,
            ..before
        })
    }
    &&& before.parts@.len() == 0 && !before.finished ==> {
        &&& after == before
        &&& if before.open {
            res is NeedBytes
        } else {
            res matches StreamStep::Fail(e) && is_chat_error(
                e,
                ChatProviderErrorKind::Connection,
                cut_short_text(),
            )
        }
    }
    &&& before.parts@.len() == 0 && before.finished && before.tools_flushed ==> {
        &&& res is End
        &&& after == (OpenAiCompatibleStreamedMessage { open: false, ..before })
    }
    &&& before.parts@.len() == 0 && before.finished && !before.tools_flushed ==> {
        let calls = named_calls(call_views(before.tool_acc@));
        &&& after.tools_flushed && after.finished
        &&& after.tool_acc@.len() == 0
        &&& after.id == before.id && after.usage == before.usage
        &&& after.buffer == before.buffer
        &&& if calls.len() == 0 {
            res is End && after.parts@.len() == 0 && !after.open
        } else {
            &&& after.open == before.open
            &&& res matches StreamStep::Part(p)
            &&& are_finished_calls(
                seq![part_view(p)] + part_views(after.parts@),
                calls,
            )
        }
    }
}

impl OpenAiCompatibleStreamedMessage {
    /// A response of which nothing has come.
    pub fn new_stream() -> (res: Self)
        ensures
            res.open && !res.finished && !res.tools_flushed,
            res.buffer@.len() == 0 && res.parts@.len() == 0 && res.tool_acc@.len() == 0,
            res.id is None && res.usage is None,
    {
        OpenAiCompatibleStreamedMessage {
            open: true,
            buffer: String::new(),
            parts: Vec::new(),
            id: None,
            usage: None,
            finished: false,
            tool_acc: Vec::new(),
            tools_flushed: false,
        }
    }

    /// A response that came whole.
    pub fn new_parts(
        parts: Vec<StreamedMessagePart>,
        id: Option<String>,
        usage: Option<TokenUsage>,
    ) -> (res: Self)
        ensures
            !res.open && res.finished && res.tools_flushed,
            res.buffer@.len() == 0 && res.tool_acc@.len() == 0,
            res.parts == parts && res.id == id && res.usage == usage,
    {
        OpenAiCompatibleStreamedMessage {
            open: false,
            buffer: String::new(),
            parts,
            id,
            usage,
            finished: true,
            tool_acc: Vec::new(),
            tools_flushed: true,
        }
    }

    /// Turns the calls that were put together into parts. A place that was never
    /// named is left out, and a call without an id gets a fresh one.
    fn flush_tool_calls(&mut self)
        ensures
            final(self).tool_acc@.len() == 0,
            *final(self) == (OpenAiCompatibleStreamedMessage {
                tool_acc: final(self).tool_acc,
                parts: final(self).parts,
                ..*old(self)
            }),
            part_views(old(self).parts@).is_prefix_of(part_views(final(self).parts@)),
            are_finished_calls(
                part_views(final(self).parts@).skip(old(self).parts@.len() as int),
                named_calls(call_views(old(self).tool_acc@)),
            ),
    {
        let ghost before = part_views(self.parts@);
        let mut calls: Vec<ToolCall> = Vec::new();
        std::mem::swap(&mut calls, &mut self.tool_acc);
        let ghost all = call_views(calls@);
        let ghost mut taken: int = 0;
        proof {
            assert(all == call_views(old(self).tool_acc@));
            assert(all.take(0) =~= seq![]);
            assert(before.skip(before.len() as int) =~= seq![]);
            assert(call_views(calls@) =~= all.skip(0));
        }
        while calls.len() > 0
            invariant
                before == part_views(old(self).parts@),
                all == call_views(old(self).tool_acc@),
                0 <= taken <= all.len(),
                call_views(calls@) == all.skip(taken),
                self.tool_acc@.len() == 0,
                *self == (OpenAiCompatibleStreamedMessage {
                    tool_acc: self.tool_acc,
                    parts: self.parts,
                    ..*old(self)
                }),
                before.is_prefix_of(part_views(self.parts@)),
                are_finished_calls(
                    part_views(self.parts@).skip(before.len() as int),
                    named_calls(all.take(taken)),
                ),
            decreases calls@.len(),
        {
            let ghost rest = calls@;
            let mut call: ToolCall = calls.remove(0);
            let ghost known = call_view(call);
            proof {
                assert(call_views(rest).len() == rest.len());
                assert(call_views(rest)[0] == known);
                assert(all.skip(taken)[0] == all[taken]);
                assert(all.take(taken + 1).drop_last() =~= all.take(taken));
                assert(all.take(taken + 1).last() == known);
                assert(call_views(calls@) =~= call_views(rest).skip(1));
                assert(all.skip(taken).skip(1) =~= all.skip(taken + 1));
                taken = taken + 1;
            }
            if call.function.name.as_str().is_empty() {
                continue;
            }
            if call.id.as_str().is_empty() {
                call.id = fresh_id();
            }
            let ghost now = part_views(self.parts@);
            push_part(&mut self.parts, StreamedMessagePart::ToolCall(call));
            proof {
                let n = before.len() as int;
                let added = part_views(self.parts@).skip(n);
                assert(added =~= now.skip(n).push(PartV::Call(call_view(call))));
                assert(before.is_prefix_of(part_views(self.parts@))) by {
                    assert(part_views(self.parts@).subrange(0, n) =~= before);
                }
            }
        }
        proof {
            assert(all.take(taken) =~= all);
        }
    }

    /// Takes in a chunk of the response.
    pub fn ingest_chunk(&mut self, value: &Json)
        requires
            chunk_fits(value.model()),
        ensures
            chunk_ingested(*old(self), value.model(), *final(self)),
    {
        if let Some(id) = value.str_at("id") {
            self.id = Some(id.to_owned());
        }
        if let Some(u) = usage_in_chunk(value) {
            if let Some(usage) = parse_usage(u) {
                self.usage = Some(usage);
            }
        }
        let ghost v = value.model();
        let ghost parts = part_views(self.parts@);
        let ghost calls = call_views(self.tool_acc@);
        let ghost choices = choices_in(v);
        proof {
            assert(choices.take(0) =~= seq![]);
            assert(parts + choices_parts(choices.take(0)) =~= parts);
        }
        match choices_of(value) {
            Some(items) => {
                let mut i: usize = 0;
                while i < items.len()
                    invariant
                        i <= items@.len(),
                        v == value.model(),
                        choices == choices_in(v),
                        items_model(items@) == choices,
                        chunk_fits(v),
                        *self == (OpenAiCompatibleStreamedMessage {
                            id: self.id,
                            usage: self.usage,
                            finished: self.finished,
                            parts: self.parts,
                            tool_acc: self.tool_acc,
                            ..*old(self)
                        }),
                        match v.str_at("id"@) {
                            Some(id) => opt_view(self.id) == Some(id),
                            None => self.id == old(self).id,
                        },
                        match usage_of(chunk_usage(v)) {
                            Some(counts) => is_usage(self.usage, Some(counts)),
                            None => self.usage == old(self).usage,
                        },
                        self.finished == (old(self).finished || exists|k: int|
                            0 <= k < i && ends_response(#[trigger] choices[k])),
                        part_views(self.parts@) == parts + choices_parts(choices.take(i as int)),
                        call_views(self.tool_acc@) == choices_accumulated(
                            calls,
                            choices.take(i as int),
                        ),
                    decreases items@.len() - i,
                {
                    let choice: &Json = &items[i];
                    proof {
                        assert(choices[i as int] == choice.model());
                        assert(choices.take(i + 1).drop_last() =~= choices.take(i as int));
                        assert(places_fit(choices_in(v)[i as int]));
                    }
                    if let Some(reason) = choice.get("finish_reason") {
                        if !reason.is_null() {
                            self.finished = true;
                        }
                    }
                    let ghost now = part_views(self.parts@);
                    if let Some(delta) = choice.get("delta") {
                        ingest_delta(delta, &mut self.parts);
                        accumulate_calls(&mut self.tool_acc, choice);
                    }
                    proof {
                        assert(part_views(self.parts@) =~= parts + choices_parts(
                            choices.take(i + 1),
                        ));
                        assert(ends_response(choices[i as int]) ==> self.finished);
                    }
                    i += 1;
                }
                proof {
                    assert(choices.take(i as int) =~= choices);
                }
            },
            None => {
                proof {
                    assert(choices =~= choices.take(0));
                }
            },
        }
    }

    /// Takes in bytes.
    pub fn push_bytes(&mut self, bytes: &[u8])
        ensures
            *final(self) == (OpenAiCompatibleStreamedMessage {
                buffer: final(self).buffer,
                ..*old(self)
            }),
            final(self).buffer@ == old(self).buffer@ + lossy(bytes@),
    {
        let text: String = text_lossy(bytes);
        self.buffer.append(&text);
    }

    /// Takes note that no more bytes will come.
    pub fn close(&mut self)
        ensures
            *final(self) == (OpenAiCompatibleStreamedMessage { open: false, ..*old(self) }),
    {
        self.open = false;
    }

    /// Takes the next line that carries data off the buffer. The mark `[DONE]`
    /// completes the response, and closes it.
    pub fn next_line(&mut self) -> (res: LineStep)
        ensures
            line_taken(*old(self), res, *final(self)),
    {
        let newline: Vec<char> = vec!['\n'];
        let v: Vec<char> = chars_of(&self.buffer);
        let total: usize = v.len();
        let mut from: usize = 0;
        proof {
            assert(v@.skip(0) =~= v@);
        }
        loop
            invariant
                v@ == old(self).buffer@,
                total == v@.len(),
                from <= total,
                newline@ == seq!['\n'],
                *self == *old(self),
                next_data(v@.skip(from as int)) == next_data(v@),
                rest_without_data(v@.skip(from as int)) == rest_without_data(v@),
            decreases total - from,
        {
            proof {
                lemma_find_skip(v@, newline@, from as int);
            }
            match find(&v, &newline, from) {
                None => {
                    self.buffer = string_of(&v, from, total);
                    return LineStep::NeedMore;
                },
                Some(nl) => {
                    proof {
                        lemma_find_from(v@, newline@, from as int);
                    }
                    let line: String = string_of(&v, from, nl);
                    proof {
                        let rest = v@.skip(from as int);
                        assert(rest.take(nl - from) =~= line@);
                        assert(rest.skip(nl - from + 1) =~= v@.skip(nl + 1));
                    }
                    let trimmed: String = trim_str(&line);
                    if let Some(data) = strip_prefix(&trimmed, "data: ") {
                        self.buffer = string_of(&v, nl + 1, total);
                        if same(&trim_str(&data), "[DONE]") {
                            self.finished = true;
                            self.open = false;
                            return LineStep::Done;
                        }
                        return LineStep::Parse(data);
                    }
                    from = nl + 1;
                },
            }
        }
    }

    /// Reads the next line that carries data: takes the chunk in that it holds.
    pub fn take_line(&mut self) -> (res: Result<LineRead, ChatProviderError>)
        ensures
            line_read(*old(self), res, *final(self)),
    {
        let data: String = match self.next_line() {
            LineStep::NeedMore => {
                return Ok(LineRead::NeedMore);
            },
            LineStep::Done => {
                return Ok(LineRead::Done);
            },
            LineStep::Parse(data) => data,
        };
        let value: Json = match Json::from_text(&data) {
            Ok(value) => value,
            Err(why) => {
                return Err(ChatProviderError::new(ChatProviderErrorKind::Other, &why));
            },
        };
        if !check_chunk(&value) {
            return Err(
                ChatProviderError::new(
                    ChatProviderErrorKind::Other,
                    "numbers out of range in response",
                ),
            );
        }
        self.ingest_chunk(&value);
        Ok(LineRead::Chunk(data))
    }

    /// Takes in bytes, and reads the lines that are whole with them.
    pub fn take_bytes(&mut self, bytes: &[u8]) -> (res: Result<(), ChatProviderError>)
        ensures
            exists|
                states: Seq<OpenAiCompatibleStreamedMessage>,
                texts: Seq<String>,
            | #[trigger]
                bytes_read(*old(self), bytes@, states, texts, res, *final(self)),
    {
        self.push_bytes(bytes);
        let ghost mut states = seq![*self];
        let ghost mut texts: Seq<String> = seq![];
        loop
            invariant
                states.len() == texts.len() + 1,
                states.last() == *self,
                states[0] == (OpenAiCompatibleStreamedMessage {
                    buffer: states[0].buffer,
                    ..*old(self)
                }),
                states[0].buffer@ == old(self).buffer@ + lossy(bytes@),
                forall|i: int|
                    0 <= i < texts.len() ==> line_read(
                        states[i],
                        Ok(LineRead::Chunk(#[trigger] texts[i])),
                        states[i + 1],
                    ),
            decreases self.buffer@.len(),
        {
            proof {
                lemma_next_data(self.buffer@);
            }
            let step: Result<LineRead, ChatProviderError> = self.take_line();
            match step {
                Ok(LineRead::Chunk(text)) => {
                    proof {
                        let before = states;
                        let known = texts;
                        states = states.push(*self);
                        texts = texts.push(text);
                        assert forall|i: int| 0 <= i < texts.len() implies line_read(
                            states[i],
                            Ok(LineRead::Chunk(#[trigger] texts[i])),
                            states[i + 1],
                        ) by {
                            if i < known.len() {
                                assert(known[i] == texts[i]);
                                assert(before[i] == states[i] && before[i + 1] == states[i + 1]);
                            }
                        }
                    }
                },
                Ok(_) => {
                    proof {
                        assert(bytes_read(*old(self), bytes@, states, texts, Ok(()), *self));
                    }
                    return Ok(());
                },
                Err(e) => {
                    proof {
                        assert(bytes_read(*old(self), bytes@, states, texts, Err(e), *self));
                    }
                    return Err(e);
                },
            }
        }
    }

    /// What the reader gets next: the parts that wait, then, once the provider
    /// said that the response is complete, its tool calls, then the end. A
    /// response that is closed before that was cut short, and must not be taken
    /// for whole.
    pub fn next_part(&mut self) -> (res: StreamStep)
        ensures
            part_taken(*old(self), res, *final(self)),
    {
        if self.parts.len() == 0 && self.finished && !self.tools_flushed {
            self.tools_flushed = true;
            self.flush_tool_calls();
            proof {
                let now = part_views(self.parts@);
                assert(now.skip(0) =~= now);
                assert(now.len() == self.parts@.len());
            }
        }
        if self.parts.len() > 0 {
            let ghost before = self.parts@;
            let part: StreamedMessagePart = self.parts.remove(0);
            proof {
                assert(self.parts@ =~= before.skip(1));
                assert(part_views(before) =~= seq![part_view(part)] + part_views(self.parts@));
            }
            return StreamStep::Part(part);
        }
        if self.finished {
            self.open = false;
            return StreamStep::End;
        }
        if !self.open {
            return StreamStep::Fail(
                ChatProviderError::new(
                    ChatProviderErrorKind::Connection,
                    "stream ended before completion (no finish_reason or [DONE]); connection closed early",
                ),
            );
        }
        StreamStep::NeedBytes
    }

    /// The response's id.
    pub fn id(&self) -> (res: Option<String>)
        ensures
            res == self.id,
    {
        match &self.id {
            Some(id) => Some(id.clone()),
            None => None,
        }
    }

    /// The response's token counts.
    pub fn usage(&self) -> (res: Option<TokenUsage>)
        ensures
            res == self.usage,
    {
        self.usage
    }
}

/// One step in the life of a streamed response.
pub enum StreamMove {
    /// Bytes come.
    Bytes(Seq<u8>),
    /// No more bytes will come.
    Close,
    /// A line is taken, with this outcome.
    Line(LineStep),
    /// A chunk is taken in.
    Chunk(JsonV),
    /// A line is read, with this outcome.
    Read(Result<LineRead, ChatProviderError>),
    /// The reader asks for the next part, and gets this.
    Next(StreamStep),
}

/// Whether a step leads from one state of a streamed response to another.
pub open spec fn moves_to(
    before: OpenAiCompatibleStreamedMessage,
    step: StreamMove,
    after: OpenAiCompatibleStreamedMessage,
) -> bool {
    match step {
        StreamMove::Bytes(bytes) => after == (OpenAiCompatibleStreamedMessage {
            buffer: after.buffer,
            ..before
        }) && after.buffer@ == before.buffer@ + lossy(bytes),
        StreamMove::Close => after == (OpenAiCompatibleStreamedMessage { open: false, ..before }),
        StreamMove::Line(res) => line_taken(before, res, after),
        StreamMove::Chunk(v) => chunk_ingested(before, v, after),
        StreamMove::Read(res) => line_read(before, res, after),
        StreamMove::Next(res) => part_taken(before, res, after),
    }
}

/// Whether `steps` lead through `states`, from a response of which nothing has come.
pub open spec fn is_stream_run(
    states: Seq<OpenAiCompatibleStreamedMessage>,
    steps: Seq<StreamMove>,
) -> bool {
    &&& states.len() == steps.len() + 1
    &&& !states[0].finished
    &&& states[0].parts@.len() == 0
    &&& forall|i: int|
        0 <= i < steps.len() ==> moves_to(states[i], #[trigger] steps[i], states[i + 1])
}

/// Whether a choice of a chunk says why the response ended.
pub open spec fn chunk_ends_response(v: JsonV) -> bool {
    exists|i: int| 0 <= i < choices_in(v).len() && ends_response(#[trigger] choices_in(v)[i])
}

/// Whether a step tells that the response is complete: the mark for it stands in the
/// line that is taken, or a choice of the chunk says why the response ended.
pub open spec fn completes(before: OpenAiCompatibleStreamedMessage, step: StreamMove) -> bool {
    match step {
        StreamMove::Line(_) => next_data(before.buffer@) matches Some((data, rest)) && trim(data)
            == "[DONE]"@,
        StreamMove::Chunk(v) => chunk_ends_response(v),
        StreamMove::Read(_) => next_data(before.buffer@) matches Some((data, rest)) && (trim(data)
            == "[DONE]"@ || (json_parsed(data) matches Ok(v) && chunk_ends_response(v))),
        _ => false,
    }
}

/// The thoughts and texts of the chunks that `steps` take in.
pub open spec fn parts_brought(steps: Seq<StreamMove>) -> Seq<PartV>
    decreases steps.len(),
{
    if steps.len() == 0 {
        seq![]
    } else {
        parts_brought(steps.drop_last()) + match steps.last() {
            StreamMove::Chunk(v) => choices_parts(choices_in(v)),
            StreamMove::Read(Ok(LineRead::Chunk(text))) => match json_parsed(text@) {
                Ok(v) => choices_parts(choices_in(v)),
                Err(_) => seq![],
            },
            _ => seq![],
        }
    }
}

/// The parts that the reader gets in `steps`.
pub open spec fn parts_read(steps: Seq<StreamMove>) -> Seq<PartV>
    decreases steps.len(),
{
    if steps.len() == 0 {
        seq![]
    } else {
        parts_read(steps.drop_last()) + match steps.last() {
            StreamMove::Next(StreamStep::Part(p)) => seq![part_view(p)],
            _ => seq![],
        }
    }
}

proof fn lemma_choices_bring_no_call(choices: Seq<JsonV>)
    ensures
        forall|i: int|
            0 <= i < choices_parts(choices).len() ==> !(
            #[trigger] choices_parts(choices)[i] is Call),
    decreases choices.len(),
{
    if choices.len() > 0 {
        lemma_choices_bring_no_call(choices.drop_last());
    }
}

/// A response that nothing told to be complete is never taken for a complete one,
/// however its reader, its bytes and its chunks take turns: the reader gets the
/// thoughts and texts of the chunks in their order and no tool call; once the bytes
/// have ended and those parts are read, it gets a connection error, and never the
/// end.
pub proof fn law_a_cut_response_never_ends(
    states: Seq<OpenAiCompatibleStreamedMessage>,
    steps: Seq<StreamMove>,
)
    requires
        is_stream_run(states, steps),
        forall|i: int| 0 <= i < steps.len() ==> !completes(states[i], #[trigger] steps[i]),
    ensures
        parts_read(steps) + part_views(states.last().parts@) == parts_brought(steps),
        forall|i: int|
            0 <= i < parts_brought(steps).len() ==> !(#[trigger] parts_brought(steps)[i] is Call),
        forall|i: int|
            0 <= i < steps.len() ==> (#[trigger] steps[i] matches StreamMove::Next(step) ==> {
                &&& !(step is End)
                &&& states[i].parts@.len() == 0 && !states[i].open ==> {
                    step matches StreamStep::Fail(e) && is_chat_error(
                        e,
                        ChatProviderErrorKind::Connection,
                        cut_short_text(),
                    )
                }
                &&& states[i].parts@.len() > 0 ==> step is Part
            }),
        !states.last().finished,
    decreases steps.len(),
{
    if steps.len() == 0 {
        assert(part_views(states.last().parts@) =~= seq![]);
    } else {
        let front = steps.drop_last();
        let past = states.drop_last();
        let n = front.len() as int;
        assert forall|i: int| 0 <= i < front.len() implies moves_to(
            past[i],
            #[trigger] front[i],
            past[i + 1],
        ) && !completes(past[i], front[i]) by {
            assert(front[i] == steps[i]);
        }
        law_a_cut_response_never_ends(past, front);
        let before = states[n];
        let after = states[n + 1];
        assert(past.last() == before);
        assert(states.last() == after);
        assert(steps.last() == steps[n]);
        assert(moves_to(before, steps[n], after));
        assert(!completes(before, steps[n]));
        assert forall|i: int| 0 <= i < steps.len() implies (
        #[trigger] steps[i] matches StreamMove::Next(step) ==> {
            &&& !(step is End)
            &&& states[i].parts@.len() == 0 && !states[i].open ==> {
                step matches StreamStep::Fail(e) && is_chat_error(
                    e,
                    ChatProviderErrorKind::Connection,
                    cut_short_text(),
                )
            }
            &&& states[i].parts@.len() > 0 ==> step is Part
        }) by {
            if i < n {
                assert(front[i] == steps[i]);
                assert(past[i] == states[i]);
            }
        }
        let read = parts_read(front);
        let brought = parts_brought(front);
        let chunk = match steps[n] {
            StreamMove::Chunk(v) => Some(v),
            StreamMove::Read(Ok(LineRead::Chunk(text))) => match json_parsed(text@) {
                Ok(v) => Some(v),
                Err(_) => None,
            },
            _ => None,
        };
        match (chunk, steps[n]) {
            (Some(v), _) => {
                let added = choices_parts(choices_in(v));
                lemma_choices_bring_no_call(choices_in(v));
                assert(read + seq![] + part_views(after.parts@) =~= read + part_views(before.parts@)
                    + added);
                assert forall|i: int| 0 <= i < parts_brought(steps).len() implies !(
                #[trigger] parts_brought(steps)[i] is Call) by {
                    if i < brought.len() {
                        assert(parts_brought(steps)[i] == brought[i]);
                    } else {
                        assert(parts_brought(steps)[i] == added[i - brought.len()]);
                    }
                }
            },
            (None, StreamMove::Next(StreamStep::Part(p))) => {
                assert(part_views(before.parts@) =~= seq![part_view(p)] + part_views(
                    after.parts@,
                ));
                assert(brought + seq![] =~= brought);
                assert(read + seq![part_view(p)] + part_views(after.parts@) =~= read + part_views(
                    before.parts@,
                ));
            },
            _ => {
                assert(brought + seq![] =~= brought);
                assert(read + seq![] =~= read);
                assert(after.parts == before.parts);
            },
        }
    }
}

/// Looking in the rest of a text finds what looking from there on in the whole
/// finds.
proof fn lemma_find_skip(s: Seq<char>, needle: Seq<char>, from: int)
    requires
        0 <= from <= s.len(),
    ensures
        find_from(s.skip(from), needle, 0) == match find_from(s, needle, from) {
            Some(i) => Some(i - from),
            None => None,
        },
{
    lemma_find_skip_at(s, needle, from, 0);
}

proof fn lemma_find_skip_at(s: Seq<char>, needle: Seq<char>, from: int, at: int)
    requires
        0 <= from <= s.len(),
        0 <= at,
    ensures
        find_from(s.skip(from), needle, at) == match find_from(s, needle, from + at) {
            Some(i) => Some(i - from),
            None => None,
        },
    decreases s.len() + 1 - from - at,
{
    let rest = s.skip(from);
    if at + needle.len() <= rest.len() {
        assert(rest.subrange(at, at + needle.len()) =~= s.subrange(
            from + at,
            from + at + needle.len(),
        ));
        if rest.subrange(at, at + needle.len()) != needle {
            lemma_find_skip_at(s, needle, from, at + 1);
        }
    }
}

/// The error for a request that did not come through.
pub fn map_transport_error(is_timeout: bool, is_connect: bool, message: &str) -> (res:
    ChatProviderError)
    ensures
        is_chat_error(
            res,
            if is_timeout {
                ChatProviderErrorKind::Timeout
            } else if is_connect {
                ChatProviderErrorKind::Connection
            } else {
                ChatProviderErrorKind::Other
            },
            message@,
        ),
{
    let kind: ChatProviderErrorKind = if is_timeout {
        ChatProviderErrorKind::Timeout
    } else if is_connect {
        ChatProviderErrorKind::Connection
    } else {
        ChatProviderErrorKind::Other
    };
    ChatProviderError::new(kind, message)
}

/// The error for a response that the API refused.
pub fn status_error(code: u16, status: &str, text: &str) -> (res: ChatProviderError)
    ensures
        is_chat_error(
            res,
            ChatProviderErrorKind::Status(code),
            "API error ("@ + status@ + "): "@ + text@,
        ),
{
    let message: String = cat(&cat3("API error (", status, "): "), text);
    ChatProviderError::new(ChatProviderErrorKind::Status(code), &message)
}

// ------------------------------------------------------------------ the request

/// `base` with each of `adds` set, one after the other.
pub open spec fn merged(base: Seq<(Seq<char>, JsonV)>, adds: Seq<(Seq<char>, JsonV)>) -> Seq<
    (Seq<char>, JsonV),
>
    decreases adds.len(),
{
    if adds.len() == 0 {
        base
    } else {
        with_field(merged(base, adds.drop_last()), adds.last().0, adds.last().1)
    }
}

/// `fields` without `key`.
pub open spec fn without(fields: Seq<(Seq<char>, JsonV)>, key: Seq<char>) -> Seq<
    (Seq<char>, JsonV),
> {
    match field_index(fields, key, 0) {
        Some(i) => fields.remove(i),
        None => fields,
    }
}

/// Sets each of `adds` in `base`.
fn merge_fields(base: &mut Vec<(String, Json)>, adds: &Vec<(String, Json)>)
    ensures
        fields_model(final(base)@) == merged(fields_model(old(base)@), fields_model(adds@)),
{
    let ghost before = fields_model(base@);
    let ghost model = fields_model(adds@);
    let mut i: usize = 0;
    proof {
        assert(model.take(0) =~= seq![]);
    }
    while i < adds.len()
        invariant
            i <= adds@.len(),
            model == fields_model(adds@),
            fields_model(base@) == merged(before, model.take(i as int)),
        decreases adds@.len() - i,
    {
        proof {
            assert(model.take(i + 1).drop_last() =~= model.take(i as int));
            assert(model.take(i + 1).last() == (adds@[i as int].0@, adds@[i as int].1.model()));
        }
        let value: Json = adds[i].1.copy();
        set_field(base, &adds[i].0, value);
        i += 1;
    }
    proof {
        assert(model.take(i as int) =~= model);
    }
}

/// Takes `key` out of the fields.
fn take_field(fields: &mut Vec<(String, Json)>, key: &str) -> (res: Option<Json>)
    ensures
        fields_model(final(fields)@) == without(fields_model(old(fields)@), key@),
        match res {
            Some(v) => JsonV::Obj(fields_model(old(fields)@)).get(key@) == Some(v.model()),
            None => JsonV::Obj(fields_model(old(fields)@)).get(key@) is None,
        },
{
    let ghost model = fields_model(fields@);
    let mut i: usize = 0;
    while i < fields.len()
        invariant
            i <= fields@.len(),
            fields@ == old(fields)@,
            model == fields_model(fields@),
            field_index(model, key@, 0) == field_index(model, key@, i as int),
        decreases fields@.len() - i,
    {
        proof {
            assert(model[i as int] == (fields@[i as int].0@, fields@[i as int].1.model()));
        }
        if same(&fields[i].0, key) {
            let (_, value): (String, Json) = fields.remove(i);
            proof {
                assert(fields_model(fields@) =~= model.remove(i as int));
            }
            return Some(value);
        }
        i += 1;
    }
    None
}

proof fn lemma_merged_get(
    base: Seq<(Seq<char>, JsonV)>,
    adds: Seq<(Seq<char>, JsonV)>,
    key: Seq<char>,
)
    requires
        forall|i: int, j: int| 0 <= i < j < adds.len() ==> (#[trigger] adds[i]).0 != (
        #[trigger] adds[j]).0,
    ensures
        JsonV::Obj(merged(base, adds)).get(key) == match JsonV::Obj(adds).get(key) {
            Some(v) => Some(v),
            None => JsonV::Obj(base).get(key),
        },
    decreases adds.len(),
{
    if adds.len() == 0 {
        lemma_field_index(adds, key, 0);
    } else {
        let front = adds.drop_last();
        assert forall|i: int, j: int| 0 <= i < j < front.len() implies (#[trigger] front[i]).0 != (
        #[trigger] front[j]).0 by {
            assert(front[i] == adds[i] && front[j] == adds[j]);
        }
        lemma_merged_get(base, front, key);
        let last = adds.last();
        crate::json::law_set_field_is_read_back(merged(base, front), last.0, last.1, key);
        lemma_field_index(adds, key, 0);
        lemma_field_index(front, key, 0);
        if key == last.0 {
            assert(adds[adds.len() - 1].0 == key);
            match field_index(adds, key, 0) {
                Some(k) => {
                    if k < adds.len() - 1 {
                        assert(adds[k].0 != adds[adds.len() - 1].0);
                    }
                },
                None => {},
            }
        } else {
            assert forall|k: int| 0 <= k < front.len() implies front[k] == adds[k] by {}
            match (field_index(adds, key, 0), field_index(front, key, 0)) {
                (Some(a), Some(b)) => {
                    assert(front[a] == adds[a]);
                },
                (Some(a), None) => {
                    assert(front[a] == adds[a]);
                },
                (None, Some(b)) => {
                    assert(adds[b] == front[b]);
                },
                (None, None) => {},
            }
        }
    }
}

/// What is set later wins: a field that was added reads as it was added, every
/// other one as it was before.
pub proof fn law_later_settings_win(
    base: Seq<(Seq<char>, JsonV)>,
    adds: Seq<(Seq<char>, JsonV)>,
    key: Seq<char>,
)
    requires
        forall|i: int, j: int| 0 <= i < j < adds.len() ==> (#[trigger] adds[i]).0 != (
        #[trigger] adds[j]).0,
    ensures
        JsonV::Obj(merged(base, adds)).get(key) == match JsonV::Obj(adds).get(key) {
            Some(v) => Some(v),
            None => JsonV::Obj(base).get(key),
        },
{
    lemma_merged_get(base, adds, key);
}

/// The normal form of a URL, or why a text is none, as the `url` crate says it.
pub uninterp spec fn url_parsed(text: Seq<char>) -> Result<Seq<char>, Seq<char>>;

/// A URL with a relative one resolved against it, as the `url` crate does it.
pub uninterp spec fn url_joined(base: Seq<char>, rest: Seq<char>) -> Result<Seq<char>, Seq<char>>;

/// A result by its characters.
pub open spec fn result_view(r: Result<String, String>) -> Result<Seq<char>, Seq<char>> {
    match r {
        Ok(s) => Ok(s@),
        Err(e) => Err(e@),
    }
}

/// `reqwest::Url::parse`: the URL written out again, or the display form of the
/// error.
#[verifier::external_body]
fn parse_url(text: &str) -> (res: Result<String, String>)
    ensures
        result_view(res) == url_parsed(text@),
{
    reqwest::Url::parse(text).map(|url| url.to_string()).map_err(|err| err.to_string())
}

/// `reqwest::Url::join`: the resolved URL written out, or the display form of the
/// error.
#[verifier::external_body]
fn join_url(base: &str, rest: &str) -> (res: Result<String, String>)
    requires
        url_parsed(base@) is Ok,
    ensures
        result_view(res) == url_joined(base@, rest@),
{
    reqwest::Url::parse(base).unwrap().join(rest).map(|url| url.to_string()).map_err(|err| err.to_string())
}

/// The headers of every request: the fixed ones, then `extra`, which take the place
/// of those of the same name.
pub open spec fn request_headers(extra: Seq<(Seq<char>, Seq<char>)>) -> Map<Seq<char>, Seq<char>> {
    with_headers(
        no_headers().insert(lowered("content-type"@), "application/json"@).insert(
            lowered("user-agent"@),
            "KimiCLI"@,
        ),
        extra,
    )
}

proof fn lemma_fixed_headers()
    ensures
        header_failure("content-type"@, "application/json"@) is None,
        header_failure("user-agent"@, "KimiCLI"@) is None,
{
    reveal_strlit("content-type");
    reveal_strlit("application/json");
    reveal_strlit("user-agent");
    reveal_strlit("KimiCLI");
}

/// The headers of every request.
pub fn default_headers(extra: &[(String, String)]) -> (res: HeaderMap)
    requires
        extra@.len() + 2 <= MAX_HEADERS,
    ensures
        header_contents(res) == request_headers(header_views(extra@)),
{
    proof {
        lemma_fixed_headers();
    }
    let mut res: HeaderMap = new_headers();
    put_header(&mut res, "content-type", "application/json");
    put_header(&mut res, "user-agent", "KimiCLI");
    insert_headers(&mut res, extra);
    res
}

/// A tool as it is offered to a model.
pub struct Tool {
    pub name: String,
    pub description: String,
    pub parameters: Json,
}

/// How a tool is described to the API: one whose name begins with a dollar is
/// built in, and its name is all that is said of it.
pub open spec fn tool_def(name: Seq<char>, description: Seq<char>, parameters: JsonV) -> JsonV {
    if begins(name, "$"@) {
        JsonV::Obj(
            seq![
                ("type"@, JsonV::Str("builtin_function"@)),
                ("function"@, JsonV::Obj(seq![("name"@, JsonV::Str(name))])),
            ],
        )
    } else {
        JsonV::Obj(
            seq![
                ("type"@, JsonV::Str("function"@)),
                (
                    "function"@,
                    JsonV::Obj(
                        seq![
                            ("name"@, JsonV::Str(name)),
                            ("description"@, JsonV::Str(description)),
                            ("parameters"@, parameters),
                        ],
                    ),
                ),
            ],
        )
    }
}

/// Describes a tool to the API.
pub fn convert_tool(tool: &Tool) -> (res: Json)
    ensures
        res.model() == tool_def(tool.name@, tool.description@, tool.parameters.model()),
{
    let builtin: bool = starts_with(&tool.name, "$");
    let mut function: Vec<(String, Json)> = no_fields();
    add_field(&mut function, "name", json_str(&tool.name));
    if !builtin {
        add_field(&mut function, "description", json_str(&tool.description));
        add_field(&mut function, "parameters", tool.parameters.copy());
    }
    let function: Json = json_obj(function);
    let mut fields: Vec<(String, Json)> = no_fields();
    add_field(
        &mut fields,
        "type",
        json_str(
            if builtin {
                "builtin_function"
            } else {
                "function"
            },
        ),
    );
    add_field(&mut fields, "function", function);
    let res: Json = json_obj(fields);
    proof {
        let def = tool_def(tool.name@, tool.description@, tool.parameters.model());
        assert(function.model()->Obj_0 =~= def->Obj_0[1].1->Obj_0);
        assert(res.model()->Obj_0 =~= def->Obj_0);
    }
    res
}

/// `v` without the fields that are null, at any depth of objects and arrays.
pub open spec fn without_nulls(v: JsonV) -> JsonV
    decreases v,
{
    match v {
        JsonV::Obj(fields) => JsonV::Obj(fields_without_nulls(fields)),
        JsonV::Arr(items) => JsonV::Arr(
            Seq::new(
                items.len(),
                |i: int|
                    if 0 <= i < items.len() {
                        without_nulls(items[i])
                    } else {
                        JsonV::Null
                    },
            ),
        ),
        other => other,
    }
}

/// `fields` without those that are null, and what is left without nulls too.
pub open spec fn fields_without_nulls(fields: Seq<(Seq<char>, JsonV)>) -> Seq<(Seq<char>, JsonV)>
    decreases fields,
{
    if fields.len() == 0 {
        seq![]
    } else {
        let before = fields_without_nulls(fields.drop_last());
        if fields.last().1 is Null {
            before
        } else {
            before.push((fields.last().0, without_nulls(fields.last().1)))
        }
    }
}

/// Whether no field of `v` is null, at any depth of objects and arrays.
pub open spec fn has_no_null_field(v: JsonV) -> bool
    decreases v,
{
    match v {
        JsonV::Obj(fields) => forall|i: int|
            0 <= i < fields.len() ==> !((#[trigger] fields[i]).1 is Null) && has_no_null_field(
                fields[i].1,
            ),
        JsonV::Arr(items) => forall|i: int|
            0 <= i < items.len() ==> has_no_null_field(#[trigger] items[i]),
        _ => true,
    }
}

/// No null field is left in a value, at any depth.
pub proof fn law_no_null_field_is_left(v: JsonV)
    ensures
        has_no_null_field(without_nulls(v)),
    decreases v,
{
    match v {
        JsonV::Obj(fields) => {
            lemma_no_null_field_is_left(fields);
        },
        JsonV::Arr(items) => {
            assert forall|i: int| 0 <= i < items.len() implies has_no_null_field(
                without_nulls(#[trigger] items[i]),
            ) by {
                law_no_null_field_is_left(items[i]);
            }
            let stripped = without_nulls(v)->Arr_0;
            assert forall|i: int| 0 <= i < stripped.len() implies has_no_null_field(
                #[trigger] stripped[i],
            ) by {
                assert(stripped[i] == without_nulls(items[i]));
            }
        },
        _ => {},
    }
}

proof fn lemma_no_null_field_is_left(fields: Seq<(Seq<char>, JsonV)>)
    ensures
        has_no_null_field(JsonV::Obj(fields_without_nulls(fields))),
    decreases fields,
{
    if fields.len() > 0 {
        let before = fields_without_nulls(fields.drop_last());
        let all = fields_without_nulls(fields);
        lemma_no_null_field_is_left(fields.drop_last());
        assert(has_no_null_field(JsonV::Obj(before)));
        if !(fields.last().1 is Null) {
            law_no_null_field_is_left(fields.last().1);
            assert forall|i: int| 0 <= i < all.len() implies !((#[trigger] all[i]).1 is Null)
                && has_no_null_field(all[i].1) by {
                if i < before.len() {
                    assert(all[i] == before[i]);
                }
            }
        }
    }
}

/// Takes the null fields out of a value.
pub fn strip_nulls(value: &Json) -> (res: Json)
    ensures
        res.model() == without_nulls(value.model()),
    decreases *value,
{
    broadcast use group_json;

    match value {
        Json::Obj(fields) => {
            let ghost model = fields_model(fields@);
            let mut out: Vec<(String, Json)> = no_fields();
            let mut i: usize = 0;
            proof {
                assert(model.take(0) =~= seq![]);
            }
            while i < fields.len()
                invariant
                    i <= fields@.len(),
                    *value == Json::Obj(*fields),
                    model == fields_model(fields@),
                    fields_model(out@) == fields_without_nulls(model.take(i as int)),
                decreases fields@.len() - i,
            {
                proof {
                    assert(value->Obj_0 == *fields);
                    assert(decreases_to!(fields@ => fields@[i as int]));
                    assert(model.take(i + 1).drop_last() =~= model.take(i as int));
                    assert(model.take(i + 1).last() == (
                        fields@[i as int].0@,
                        fields@[i as int].1.model(),
                    ));
                }
                if !fields[i].1.is_null() {
                    let kept: Json = strip_nulls(&fields[i].1);
                    add_field(&mut out, &fields[i].0, kept);
                }
                i += 1;
            }
            proof {
                assert(model.take(i as int) =~= model);
            }
            Json::Obj(out)
        },
        Json::Arr(items) => {
            let ghost model = items_model(items@);
            let mut out: Vec<Json> = Vec::new();
            let mut i: usize = 0;
            while i < items.len()
                invariant
                    i <= items@.len(),
                    out@.len() == i,
                    *value == Json::Arr(*items),
                    model == items_model(items@),
                    forall|k: int|
                        0 <= k < i ==> #[trigger] out@[k].model() == without_nulls(model[k]),
                decreases items@.len() - i,
            {
                proof {
                    assert(value->Arr_0 == *items);
                    assert(decreases_to!(items@ => items@[i as int]));
                }
                let kept: Json = strip_nulls(&items[i]);
                out.push(kept);
                i += 1;
            }
            proof {
                let theirs = without_nulls(value.model())->Arr_0;
                assert forall|k: int| 0 <= k < out@.len() implies items_model(out@)[k]
                    == theirs[k] by {
                    assert(out@[k].model() == without_nulls(model[k]));
                }
                assert(items_model(out@) =~= theirs);
            }
            Json::Arr(out)
        },
        Json::Null => Json::Null,
        Json::Bool(b) => Json::Bool(*b),
        Json::Int(n) => Json::Int(*n),
        Json::Big(n) => Json::Big(*n),
        Json::Real(bits) => Json::Real(*bits),
        Json::Str(text) => Json::Str(text.clone()),
    }
}

/// The thoughts among `parts`, one after the other.
pub open spec fn thoughts(parts: Seq<ContentPart>) -> Seq<char>
    decreases parts.len(),
{
    if parts.len() == 0 {
        seq![]
    } else {
        match parts.last() {
            ContentPart::Think(t) => thoughts(parts.drop_last()) + t@,
            _ => thoughts(parts.drop_last()),
        }
    }
}

/// Those of `parts` that are no thoughts.
pub open spec fn spoken(parts: Seq<ContentPart>) -> Seq<ContentPart>
    decreases parts.len(),
{
    if parts.len() == 0 {
        seq![]
    } else {
        match parts.last() {
            ContentPart::Think(_) => spoken(parts.drop_last()),
            part => spoken(parts.drop_last()).push(part),
        }
    }
}

/// Parts a message's content into its thoughts and the rest.
pub fn split_thoughts(parts: Vec<ContentPart>) -> (res: (String, Vec<ContentPart>))
    ensures
        res.0@ == thoughts(parts@),
        res.1@ == spoken(parts@),
{
    let ghost all = parts@;
    let mut parts: Vec<ContentPart> = parts;
    let mut reasoning: String = String::new();
    let mut rest: Vec<ContentPart> = Vec::new();
    let ghost mut taken: int = 0;
    proof {
        assert(all.take(0) =~= seq![]);
        assert(reasoning@ =~= seq![]);
        assert(all.skip(0) =~= all);
    }
    while parts.len() > 0
        invariant
            0 <= taken <= all.len(),
            parts@ == all.skip(taken),
            reasoning@ == thoughts(all.take(taken)),
            rest@ == spoken(all.take(taken)),
        decreases parts@.len(),
    {
        proof {
            assert(parts@[0] == all[taken]);
            assert(all.take(taken + 1).drop_last() =~= all.take(taken));
            assert(parts@.remove(0) =~= all.skip(taken + 1));
            taken = taken + 1;
        }
        match parts.remove(0) {
            ContentPart::Think(t) => {
                reasoning.append(&t);
            },
            part => {
                rest.push(part);
            },
        }
    }
    proof {
        assert(all.take(taken) =~= all);
    }
    (reasoning, rest)
}

/// What is sent for a message: its fields without nulls and, where it holds
/// thoughts, these in a field of their own.
pub open spec fn message_payload(payload: JsonV, reasoning: Seq<char>) -> JsonV {
    match without_nulls(payload) {
        JsonV::Obj(fields) => if reasoning.len() > 0 {
            JsonV::Obj(with_field(fields, "reasoning_content"@, JsonV::Str(reasoning)))
        } else {
            JsonV::Obj(fields)
        },
        other => other,
    }
}

/// Finishes a message for sending. `payload` is the message without its thoughts.
pub fn finish_message(payload: &Json, reasoning: &str) -> (res: Json)
    ensures
        res.model() == message_payload(payload.model(), reasoning@),
{
    broadcast use group_json;

    match strip_nulls(payload) {
        Json::Obj(fields) => {
            let mut fields: Vec<(String, Json)> = fields;
            if !reasoning.is_empty() {
                set_field(&mut fields, "reasoning_content", json_str(reasoning));
            }
            Json::Obj(fields)
        },
        other => other,
    }
}

/// A provider that speaks the API of OpenAI's chat completions.
pub struct OpenAiCompatible {
    pub model: String,
    pub api_key: String,
    pub base_url: String,
    pub stream: bool,
    pub generation_kwargs: Vec<(String, Json)>,
    pub user_agent: String,
}

/// The first of two that is given.
pub open spec fn either(a: Option<String>, b: Option<String>) -> Option<String> {
    if a is Some {
        a
    } else {
        b
    }
}

/// `url` with a slash at its end.
pub open spec fn slashed(url: Seq<char>) -> Seq<char> {
    if ends(url, "/"@) {
        url
    } else {
        url.push('/')
    }
}

/// The base URL that a provider uses.
pub open spec fn chosen_base(base_url: Option<String>, env_url: Option<String>) -> Seq<char> {
    slashed(
        match either(base_url, env_url) {
            Some(url) => url@,
            None => "https://api.openai.com/v1"@,
        },
    )
}

/// How the API calls a thinking effort.
pub open spec fn effort_value(effort: ThinkingEffort) -> JsonV {
    match effort {
        ThinkingEffort::Off => JsonV::Null,
        ThinkingEffort::Low => JsonV::Str("low"@),
        ThinkingEffort::Medium => JsonV::Str("medium"@),
        ThinkingEffort::High => JsonV::Str("high"@),
    }
}

/// The thinking effort that the settings ask for. Where they ask for none, or for
/// one that is not known, it is off.
pub open spec fn effort_in(settings: JsonV) -> ThinkingEffort {
    match settings.str_at("reasoning_effort"@) {
        Some(value) => if value == "low"@ {
            ThinkingEffort::Low
        } else if value == "medium"@ {
            ThinkingEffort::Medium
        } else if value == "high"@ {
            ThinkingEffort::High
        } else {
            ThinkingEffort::Off
        },
        None => ThinkingEffort::Off,
    }
}

/// The fields of an object, none where it is something else.
pub open spec fn object_fields(v: Option<JsonV>) -> Seq<(Seq<char>, JsonV)> {
    match v {
        Some(JsonV::Obj(fields)) => fields,
        _ => seq![],
    }
}

/// The messages of a request: the system prompt where it is not empty, then the
/// conversation.
pub open spec fn request_messages(system_prompt: Seq<char>, history: Seq<JsonV>) -> Seq<JsonV> {
    if system_prompt.len() > 0 {
        seq![
            JsonV::Obj(
                seq![("role"@, JsonV::Str("system"@)), ("content"@, JsonV::Str(system_prompt))],
            ),
        ] + history
    } else {
        history
    }
}

/// The tools of a request.
pub open spec fn tool_defs(tools: Seq<Tool>) -> Seq<JsonV> {
    Seq::new(
        tools.len(),
        |i: int| tool_def(tools[i].name@, tools[i].description@, tools[i].parameters.model()),
    )
}

/// The fields of a request before the settings.
pub open spec fn plain_body(
    model: Seq<char>,
    messages: Seq<JsonV>,
    tools: Seq<JsonV>,
    stream: bool,
) -> Seq<(Seq<char>, JsonV)> {
    let head = seq![("model"@, JsonV::Str(model)), ("messages"@, JsonV::Arr(messages))];
    let with_tools = if tools.len() > 0 {
        head.push(("tools"@, JsonV::Arr(tools)))
    } else {
        head
    };
    let with_stream = with_tools.push(("stream"@, JsonV::Bool(stream)));
    if stream {
        with_stream.push(
            ("stream_options"@, JsonV::Obj(seq![("include_usage"@, JsonV::Bool(true))])),
        )
    } else {
        with_stream
    }
}

/// The body of a request: the plain fields, then the settings over them, then the
/// fields of `extra_body` over both.
pub open spec fn full_body(
    plain: Seq<(Seq<char>, JsonV)>,
    settings: Seq<(Seq<char>, JsonV)>,
) -> Seq<(Seq<char>, JsonV)> {
    let all = merged(seq![("max_tokens"@, JsonV::Int(32768))], settings);
    merged(
        merged(plain, without(all, "extra_body"@)),
        object_fields(JsonV::Obj(all).get("extra_body"@)),
    )
}

/// A copy of fields.
fn copy_fields(fields: &Vec<(String, Json)>) -> (res: Vec<(String, Json)>)
    ensures
        fields_model(res@) == fields_model(fields@),
{
    let mut res: Vec<(String, Json)> = no_fields();
    let mut i: usize = 0;
    proof {
        assert(fields_model(fields@).take(0) =~= seq![]);
    }
    while i < fields.len()
        invariant
            i <= fields@.len(),
            fields_model(res@) == fields_model(fields@).take(i as int),
        decreases fields@.len() - i,
    {
        let value: Json = fields[i].1.copy();
        add_field(&mut res, &fields[i].0, value);
        proof {
            let all = fields_model(fields@);
            assert(all.take(i + 1) =~= all.take(i as int).push(all[i as int]));
        }
        i += 1;
    }
    proof {
        assert(fields_model(fields@).take(i as int) =~= fields_model(fields@));
    }
    res
}

impl OpenAiCompatible {
    /// The settings as mathematical values.
    pub open spec fn settings(&self) -> Seq<(Seq<char>, JsonV)> {
        fields_model(self.generation_kwargs@)
    }

    /// The base URL is one.
    pub open spec fn wf(&self) -> bool {
        url_parsed(self.base_url@) is Ok
    }

    /// A provider for that model. The key and the base URL fall back to those of
    /// the environment, the URL then to OpenAI's own.
    pub fn new(
        model: String,
        api_key: Option<String>,
        env_api_key: Option<String>,
        base_url: Option<String>,
        env_base_url: Option<String>,
    ) -> (res: Result<OpenAiCompatible, ChatProviderError>)
        ensures
            match either(api_key, env_api_key) {
                None => res matches Err(e) && is_chat_error(
                    e,
                    ChatProviderErrorKind::Other,
                    "The api_key client option or the OPENAI_API_KEY environment variable is not set"@,
                ),
                Some(key) => match url_parsed(chosen_base(base_url, env_base_url)) {
                    Err(why) => res matches Err(e) && is_chat_error(
                        e,
                        ChatProviderErrorKind::Other,
                        "Invalid base URL: "@ + why,
                    ),
                    Ok(_) => {
                        &&& res matches Ok(p)
                        &&& p.wf()
                        &&& p.model == model && p.api_key == key
                        &&& p.base_url@ == chosen_base(base_url, env_base_url)
                        &&& p.stream
                        &&& p.settings() == Seq::<(Seq<char>, JsonV)>::empty()
                        &&& p.user_agent@ == "KimiCLI"@
                    },
                },
            },
    {
        let api_key: String = match api_key {
            Some(key) => key,
            None => match env_api_key {
                Some(key) => key,
                None => {
                    return Err(
                        ChatProviderError::new(
                            ChatProviderErrorKind::Other,
                            "The api_key client option or the OPENAI_API_KEY environment variable is not set",
                        ),
                    );
                },
            },
        };
        let mut base: String = match base_url {
            Some(url) => url,
            None => match env_base_url {
                Some(url) => url,
                None => "https://api.openai.com/v1".to_owned(),
            },
        };
        if !ends_with(&base, "/") {
            base.push('/');
        }
        if let Err(why) = parse_url(&base) {
            return Err(
                ChatProviderError::new(
                    ChatProviderErrorKind::Other,
                    &cat("Invalid base URL: ", &why),
                ),
            );
        }
        Ok(
            OpenAiCompatible {
                model,
                api_key,
                base_url: base,
                stream: true,
                generation_kwargs: no_fields(),
                user_agent: "KimiCLI".to_owned(),
            },
        )
    }

    /// The provider, streaming its responses or not.
    pub fn with_stream(self, stream: bool) -> (res: OpenAiCompatible)
        ensures
            res == (OpenAiCompatible { stream, ..self }),
    {
        OpenAiCompatible { stream, ..self }
    }

    /// The provider with more settings, which replace those of the same name.
    pub fn with_generation_kwargs(self, kwargs: &Vec<(String, Json)>) -> (res: OpenAiCompatible)
        ensures
            res == (OpenAiCompatible { generation_kwargs: res.generation_kwargs, ..self }),
            res.settings() == merged(self.settings(), fields_model(kwargs@)),
    {
        let mut settings: Vec<(String, Json)> = self.generation_kwargs;
        merge_fields(&mut settings, kwargs);
        OpenAiCompatible { generation_kwargs: settings, ..self }
    }

    /// The provider with more fields for the body of its requests. They join
    /// those that were given before.
    pub fn with_extra_body(self, extra_body: &Json) -> (res: OpenAiCompatible)
        ensures
            res == (OpenAiCompatible { generation_kwargs: res.generation_kwargs, ..self }),
            res.settings() == with_field(
                self.settings(),
                "extra_body"@,
                JsonV::Obj(
                    merged(
                        object_fields(JsonV::Obj(self.settings()).get("extra_body"@)),
                        object_fields(Some(extra_body.model())),
                    ),
                ),
            ),
    {
        broadcast use group_json;

        let mut settings: Vec<(String, Json)> = self.generation_kwargs;
        let mut given: Vec<(String, Json)> = copy_fields(&settings);
        let mut all: Vec<(String, Json)> = match take_field(&mut given, "extra_body") {
            Some(Json::Obj(fields)) => fields,
            _ => no_fields(),
        };
        if let Json::Obj(extra) = extra_body {
            merge_fields(&mut all, extra);
        }
        proof {
            assert(fields_model(all@) == merged(
                object_fields(JsonV::Obj(self.settings()).get("extra_body"@)),
                object_fields(Some(extra_body.model())),
            ));
        }
        set_field(&mut settings, "extra_body", json_obj(all));
        OpenAiCompatible { generation_kwargs: settings, ..self }
    }

    /// The provider under another user agent.
    pub fn with_user_agent(self, user_agent: String) -> (res: OpenAiCompatible)
        ensures
            res == (OpenAiCompatible { user_agent, ..self }),
    {
        OpenAiCompatible { user_agent, ..self }
    }

    /// The settings with which the model is called, the base URL among them.
    pub fn model_parameters(&self) -> (res: Vec<(String, Json)>)
        requires
            self.wf(),
        ensures
            fields_model(res@) == merged(
                seq![("base_url"@, JsonV::Str(url_parsed(self.base_url@)->Ok_0))],
                self.settings(),
            ),
    {
        let mut res: Vec<(String, Json)> = no_fields();
        if let Ok(url) = parse_url(&self.base_url) {
            add_field(&mut res, "base_url", json_str(&url));
        }
        proof {
            assert(fields_model(res@) =~= seq![
                ("base_url"@, JsonV::Str(url_parsed(self.base_url@)->Ok_0)),
            ]);
        }
        merge_fields(&mut res, &self.generation_kwargs);
        res
    }

    /// The provider's name.
    pub fn name(&self) -> (res: &str)
        ensures
            res@ == "openai_compatible"@,
    {
        "openai_compatible"
    }

    /// The model's name.
    pub fn model_name(&self) -> (res: &str)
        ensures
            res@ == self.model@,
    {
        self.model.as_str()
    }

    /// How much the model is asked to think.
    pub fn thinking_effort(&self) -> (res: Option<ThinkingEffort>)
        ensures
            res == Some(effort_in(JsonV::Obj(self.settings()))),
    {
        broadcast use group_json;

        let settings: Json = Json::Obj(copy_fields(&self.generation_kwargs));
        let effort: ThinkingEffort = match settings.str_at("reasoning_effort") {
            Some(value) => if same(value, "low") {
                ThinkingEffort::Low
            } else if same(value, "medium") {
                ThinkingEffort::Medium
            } else if same(value, "high") {
                ThinkingEffort::High
            } else {
                ThinkingEffort::Off
            },
            None => ThinkingEffort::Off,
        };
        Some(effort)
    }

    /// A provider like this one that thinks that much.
    pub fn with_thinking(&self, effort: ThinkingEffort) -> (res: OpenAiCompatible)
        ensures
            res.model == self.model && res.api_key == self.api_key && res.base_url == self.base_url
                && res.stream == self.stream && res.user_agent == self.user_agent,
            res.settings() == with_field(
                self.settings(),
                "reasoning_effort"@,
                effort_value(effort),
            ),
    {
        let mut settings: Vec<(String, Json)> = copy_fields(&self.generation_kwargs);
        let value: Json = match effort {
            ThinkingEffort::Off => Json::Null,
            ThinkingEffort::Low => json_str("low"),
            ThinkingEffort::Medium => json_str("medium"),
            ThinkingEffort::High => json_str("high"),
        };
        set_field(&mut settings, "reasoning_effort", value);
        OpenAiCompatible {
            model: self.model.clone(),
            api_key: self.api_key.clone(),
            base_url: self.base_url.clone(),
            stream: self.stream,
            generation_kwargs: settings,
            user_agent: self.user_agent.clone(),
        }
    }

    /// Where requests go.
    pub fn endpoint(&self) -> (res: Result<String, ChatProviderError>)
        requires
            self.wf(),
        ensures
            match url_joined(self.base_url@, "chat/completions"@) {
                Ok(url) => res matches Ok(u) && u@ == url,
                Err(why) => res matches Err(e) && is_chat_error(
                    e,
                    ChatProviderErrorKind::Other,
                    why,
                ),
            },
    {
        match join_url(&self.base_url, "chat/completions") {
            Ok(url) => Ok(url),
            Err(why) => Err(ChatProviderError::new(ChatProviderErrorKind::Other, &why)),
        }
    }

    /// What authorizes a request.
    pub fn authorization(&self) -> (res: String)
        ensures
            res@ == "Bearer "@ + self.api_key@,
    {
        cat("Bearer ", &self.api_key)
    }

    /// The body of a request. `history` are the messages of the conversation, each
    /// finished for sending.
    pub fn request_body(&self, system_prompt: &str, tools: &Vec<Tool>, history: Vec<Json>) -> (res:
        Json)
        ensures
            res.model() == JsonV::Obj(
                full_body(
                    plain_body(
                        self.model@,
                        request_messages(system_prompt@, items_model(history@)),
                        tool_defs(tools@),
                        self.stream,
                    ),
                    self.settings(),
                ),
            ),
    {
        let mut messages: Vec<Json> = Vec::new();
        proof {
            assert(items_model(messages@) =~= seq![]);
        }
        if !system_prompt.is_empty() {
            let mut system: Vec<(String, Json)> = no_fields();
            add_field(&mut system, "role", json_str("system"));
            add_field(&mut system, "content", json_str(system_prompt));
            let system: Json = json_obj(system);
            proof {
                assert(system.model()->Obj_0 =~= seq![
                    ("role"@, JsonV::Str("system"@)),
                    ("content"@, JsonV::Str(system_prompt@)),
                ]);
            }
            add_item(&mut messages, system);
        }
        let ghost head = items_model(messages@);
        let ghost said = items_model(history@);
        let mut history: Vec<Json> = history;
        let ghost tail = history@;
        messages.append(&mut history);
        proof {
            assert(items_model(messages@) =~= head + said);
            assert(items_model(messages@) =~= request_messages(system_prompt@, said));
        }
        let mut defs: Vec<Json> = Vec::new();
        let mut i: usize = 0;
        while i < tools.len()
            invariant
                i <= tools@.len(),
                defs@.len() == i,
                forall|k: int|
                    0 <= k < i ==> #[trigger] defs@[k].model() == tool_defs(tools@)[k],
            decreases tools@.len() - i,
        {
            defs.push(convert_tool(&tools[i]));
            i += 1;
        }
        proof {
            assert forall|k: int| 0 <= k < defs@.len() implies items_model(defs@)[k] == tool_defs(
                tools@,
            )[k] by {
                assert(defs@[k].model() == tool_defs(tools@)[k]);
            }
            assert(items_model(defs@) =~= tool_defs(tools@));
        }
        let mut body: Vec<(String, Json)> = no_fields();
        add_field(&mut body, "model", json_str(&self.model));
        add_field(&mut body, "messages", json_arr(messages));
        if defs.len() > 0 {
            add_field(&mut body, "tools", json_arr(defs));
        }
        add_field(&mut body, "stream", Json::Bool(self.stream));
        if self.stream {
            let mut options: Vec<(String, Json)> = no_fields();
            add_field(&mut options, "include_usage", Json::Bool(true));
            let options: Json = json_obj(options);
            proof {
                assert(options.model()->Obj_0 =~= seq![("include_usage"@, JsonV::Bool(true))]);
            }
            add_field(&mut body, "stream_options", options);
        }
        proof {
            let plain = plain_body(
                self.model@,
                request_messages(system_prompt@, said),
                tool_defs(tools@),
                self.stream,
            );
            assert(fields_model(body@) =~= plain);
        }
        let mut settings: Vec<(String, Json)> = no_fields();
        add_field(&mut settings, "max_tokens", Json::Int(32768));
        proof {
            assert(fields_model(settings@) =~= seq![("max_tokens"@, JsonV::Int(32768))]);
        }
        merge_fields(&mut settings, &self.generation_kwargs);
        let extra: Option<Json> = take_field(&mut settings, "extra_body");
        merge_fields(&mut body, &settings);
        proof {
            crate::json::lemma_obj_model(body);
        }
        match extra {
            Some(Json::Obj(fields)) => {
                proof {
                    crate::json::lemma_obj_model(fields);
                }
                merge_fields(&mut body, &fields);
            },
            _ => {},
        }
        json_obj(body)
    }
}

/// A provider thinks as much as it was told to.
pub proof fn law_thinking_is_read_back(
    settings: Seq<(Seq<char>, JsonV)>,
    effort: ThinkingEffort,
)
    ensures
        effort_in(
            JsonV::Obj(with_field(settings, "reasoning_effort"@, effort_value(effort))),
        ) == effort,
{
    crate::json::law_set_field_is_read_back(
        settings,
        "reasoning_effort"@,
        effort_value(effort),
        "reasoning_effort"@,
    );
    reveal_strlit("low");
    reveal_strlit("medium");
    reveal_strlit("high");
    assert("low"@.len() != "medium"@.len());
    assert("low"@.len() != "high"@.len());
    assert("medium"@.len() != "high"@.len());
}

/// A chunk's parts come out of the response in the order in which they came.
pub proof fn law_parts_keep_their_order(
    before: OpenAiCompatibleStreamedMessage,
    first: JsonV,
    between: OpenAiCompatibleStreamedMessage,
    second: JsonV,
    after: OpenAiCompatibleStreamedMessage,
)
    requires
        chunk_ingested(before, first, between),
        chunk_ingested(between, second, after),
    ensures
        part_views(after.parts@) == part_views(before.parts@) + choices_parts(choices_in(first))
            + choices_parts(choices_in(second)),
{
}

/// What the texts of `parts` say, one after the other.
pub open spec fn text_in(parts: Seq<PartV>) -> Seq<char>
    decreases parts.len(),
{
    if parts.len() == 0 {
        seq![]
    } else {
        text_in(parts.drop_last()) + match parts.last() {
            PartV::Text(t) => t,
            _ => seq![],
        }
    }
}

/// What the thoughts of `parts` say, one after the other.
pub open spec fn thoughts_in(parts: Seq<PartV>) -> Seq<char>
    decreases parts.len(),
{
    if parts.len() == 0 {
        seq![]
    } else {
        thoughts_in(parts.drop_last()) + match parts.last() {
            PartV::Think(t) => t,
            _ => seq![],
        }
    }
}

/// The string that `v` holds under `key`; the empty one where it holds none.
pub open spec fn string_under(v: JsonV, key: Seq<char>) -> Seq<char> {
    match v.get(key) {
        Some(JsonV::Str(t)) => t,
        _ => seq![],
    }
}

/// The strings under `key` in the deltas of `choices`, one after the other.
pub open spec fn delta_strings(choices: Seq<JsonV>, key: Seq<char>) -> Seq<char>
    decreases choices.len(),
{
    if choices.len() == 0 {
        seq![]
    } else {
        delta_strings(choices.drop_last(), key) + match choices.last().get("delta"@) {
            Some(delta) => string_under(delta, key),
            None => seq![],
        }
    }
}

proof fn lemma_text_added(a: Seq<PartV>, b: Seq<PartV>)
    ensures
        text_in(a + b) == text_in(a) + text_in(b),
        thoughts_in(a + b) == thoughts_in(a) + thoughts_in(b),
    decreases b.len(),
{
    if b.len() == 0 {
        assert(a + b =~= a);
        assert(text_in(a) + text_in(b) =~= text_in(a));
        assert(thoughts_in(a) + thoughts_in(b) =~= thoughts_in(a));
    } else {
        lemma_text_added(a, b.drop_last());
        assert((a + b).drop_last() =~= a + b.drop_last());
        assert((a + b).last() == b.last());
        assert(text_in(a + b) =~= text_in(a) + text_in(b));
        assert(thoughts_in(a + b) =~= thoughts_in(a) + thoughts_in(b));
    }
}

/// The text that a delta adds is its content, every character of it, and the thought
/// that it adds is its reasoning; it adds nothing else, and the thought first.
pub proof fn law_a_delta_adds_what_it_says(delta: JsonV)
    ensures
        text_in(content_parts(delta)) == string_under(delta, "content"@),
        thoughts_in(content_parts(delta)) == string_under(delta, "reasoning_content"@),
        forall|i: int|
            0 <= i < content_parts(delta).len() ==> #[trigger] content_parts(delta)[i] is Think
                || content_parts(delta)[i] is Text,
        forall|i: int, j: int|
            0 <= i < j < content_parts(delta).len() ==> #[trigger] content_parts(delta)[i] is Think
                && #[trigger] content_parts(delta)[j] is Text,
{
    reveal_with_fuel(text_in, 3);
    reveal_with_fuel(thoughts_in, 3);
    let parts = content_parts(delta);
    let text = string_under(delta, "content"@);
    let thought = string_under(delta, "reasoning_content"@);
    assert(delta.str_at("content"@) == match delta.get("content"@) {
        Some(JsonV::Str(t)) => Some(t),
        _ => None::<Seq<char>>,
    });
    if text.len() == 0 {
        assert(text =~= seq![]);
    }
    if thought.len() == 0 {
        assert(thought =~= seq![]);
    }
    let thinks = if thought.len() > 0 {
        seq![PartV::Think(thought)]
    } else {
        seq![]
    };
    let texts = if text.len() > 0 {
        seq![PartV::Text(text)]
    } else {
        seq![]
    };
    assert(parts =~= thinks + texts);
    lemma_text_added(thinks, texts);
    assert(thinks.len() == 1 ==> thinks.drop_last() =~= seq![]);
    assert(texts.len() == 1 ==> texts.drop_last() =~= seq![]);
    assert(text_in(parts) =~= text);
    assert(thoughts_in(parts) =~= thought);
}

proof fn lemma_choices_say(choices: Seq<JsonV>)
    ensures
        text_in(choices_parts(choices)) == delta_strings(choices, "content"@),
        thoughts_in(choices_parts(choices)) == delta_strings(choices, "reasoning_content"@),
    decreases choices.len(),
{
    if choices.len() > 0 {
        let front = choices.drop_last();
        lemma_choices_say(front);
        match choices.last().get("delta"@) {
            Some(delta) => {
                law_a_delta_adds_what_it_says(delta);
                lemma_text_added(choices_parts(front), content_parts(delta));
            },
            None => {
                assert(choices_parts(front) + seq![] =~= choices_parts(front));
                assert(delta_strings(front, "content"@) + seq![] =~= delta_strings(
                    front,
                    "content"@,
                ));
                assert(delta_strings(front, "reasoning_content"@) + seq![] =~= delta_strings(
                    front,
                    "reasoning_content"@,
                ));
            },
        }
    }
}

/// What a chunk adds to the text of a response is the content of its choices' deltas,
/// in order, and to its thoughts their reasoning. It tells that the response is
/// complete where one of the choices gives a reason that is not null.
pub proof fn law_a_chunk_adds_what_its_deltas_say(
    before: OpenAiCompatibleStreamedMessage,
    v: JsonV,
    choices: Seq<JsonV>,
    after: OpenAiCompatibleStreamedMessage,
)
    requires
        chunk_ingested(before, v, after),
        v.get("choices"@) == Some(JsonV::Arr(choices)),
    ensures
        text_in(part_views(after.parts@)) == text_in(part_views(before.parts@)) + delta_strings(
            choices,
            "content"@,
        ),
        thoughts_in(part_views(after.parts@)) == thoughts_in(part_views(before.parts@))
            + delta_strings(choices, "reasoning_content"@),
        after.finished <==> before.finished || exists|i: int|
            0 <= i < choices.len() && (#[trigger] choices[i]).get("finish_reason"@) is Some
                && choices[i].get("finish_reason"@) != Some(JsonV::Null),
{
    lemma_choices_say(choices);
    lemma_text_added(part_views(before.parts@), choices_parts(choices));
    assert(choices_in(v) == choices);
    assert forall|i: int| 0 <= i < choices.len() implies ends_response(choices_in(v)[i]) == (
    (#[trigger] choices[i]).get("finish_reason"@) is Some && choices[i].get("finish_reason"@)
        != Some(JsonV::Null)) by {}
}

/// A chunk without choices adds nothing to what is said, and completes nothing.
pub proof fn law_a_chunk_without_choices_says_nothing(
    before: OpenAiCompatibleStreamedMessage,
    v: JsonV,
    after: OpenAiCompatibleStreamedMessage,
)
    requires
        chunk_ingested(before, v, after),
        !(v.get("choices"@) matches Some(JsonV::Arr(_))),
    ensures
        part_views(after.parts@) == part_views(before.parts@),
        call_views(after.tool_acc@) == call_views(before.tool_acc@),
        after.finished == before.finished,
{
    assert(part_views(before.parts@) + seq![] =~= part_views(before.parts@));
}

/// What the content of the chunks says that `steps` take in.
pub open spec fn contents_said(steps: Seq<StreamMove>, key: Seq<char>) -> Seq<char>
    decreases steps.len(),
{
    if steps.len() == 0 {
        seq![]
    } else {
        contents_said(steps.drop_last(), key) + match steps.last() {
            StreamMove::Chunk(v) => match v.get("choices"@) {
                Some(JsonV::Arr(choices)) => delta_strings(choices, key),
                _ => seq![],
            },
            StreamMove::Read(Ok(LineRead::Chunk(text))) => match json_parsed(text@) {
                Ok(v) => match v.get("choices"@) {
                    Some(JsonV::Arr(choices)) => delta_strings(choices, key),
                    _ => seq![],
                },
                Err(_) => seq![],
            },
            _ => seq![],
        }
    }
}

proof fn lemma_calls_say_nothing(parts: Seq<PartV>)
    requires
        forall|i: int| 0 <= i < parts.len() ==> #[trigger] parts[i] is Call,
    ensures
        text_in(parts) == Seq::<char>::empty(),
        thoughts_in(parts) == Seq::<char>::empty(),
    decreases parts.len(),
{
    if parts.len() > 0 {
        lemma_calls_say_nothing(parts.drop_last());
        assert(parts[parts.len() - 1] is Call);
        assert(text_in(parts) =~= Seq::<char>::empty());
        assert(thoughts_in(parts) =~= Seq::<char>::empty());
    }
}

/// However its bytes come, a streamed response says what the content of its chunks
/// says, in order and every character of it: what the reader has got and what waits
/// for it together.
pub proof fn law_a_stream_says_what_its_chunks_say(
    states: Seq<OpenAiCompatibleStreamedMessage>,
    steps: Seq<StreamMove>,
)
    requires
        is_stream_run(states, steps),
    ensures
        text_in(parts_read(steps) + part_views(states.last().parts@)) == contents_said(
            steps,
            "content"@,
        ),
        thoughts_in(parts_read(steps) + part_views(states.last().parts@)) == contents_said(
            steps,
            "reasoning_content"@,
        ),
    decreases steps.len(),
{
    if steps.len() == 0 {
        assert(parts_read(steps) + part_views(states.last().parts@) =~= seq![]);
    } else {
        let front = steps.drop_last();
        let past = states.drop_last();
        let n = front.len() as int;
        assert forall|i: int| 0 <= i < front.len() implies moves_to(
            past[i],
            #[trigger] front[i],
            past[i + 1],
        ) by {
            assert(front[i] == steps[i]);
        }
        law_a_stream_says_what_its_chunks_say(past, front);
        let before = states[n];
        let after = states[n + 1];
        assert(past.last() == before);
        assert(states.last() == after);
        assert(steps.last() == steps[n]);
        assert(moves_to(before, steps[n], after));
        let read = parts_read(front);
        let waiting = part_views(before.parts@);
        let now = part_views(after.parts@);
        let said = contents_said(front, "content"@);
        let thought = contents_said(front, "reasoning_content"@);
        assert(said + seq![] =~= said);
        assert(thought + seq![] =~= thought);
        assert(read + seq![] =~= read);
        let chunk = match steps[n] {
            StreamMove::Chunk(v) => Some(v),
            StreamMove::Read(Ok(LineRead::Chunk(text))) => match json_parsed(text@) {
                Ok(v) => Some(v),
                Err(_) => None,
            },
            _ => None,
        };
        match (chunk, steps[n]) {
            (Some(v), _) => {
                let added = choices_parts(choices_in(v));
                lemma_choices_say(choices_in(v));
                lemma_text_added(read + waiting, added);
                assert(read + now =~= read + waiting + added);
            },
            (None, StreamMove::Next(StreamStep::Part(p))) => {
                if before.parts@.len() > 0 {
                    assert(waiting =~= seq![part_view(p)] + now);
                    assert(read + seq![part_view(p)] + now =~= read + waiting);
                } else {
                    let calls = named_calls(call_views(before.tool_acc@));
                    let flushed = seq![part_view(p)] + now;
                    assert(are_finished_calls(flushed, calls));
                    assert forall|i: int| 0 <= i < flushed.len() implies #[trigger] flushed[i]
                        is Call by {
                        assert(is_finished_call(flushed[i], calls[i]));
                    }
                    lemma_calls_say_nothing(flushed);
                    assert(waiting =~= seq![]);
                    assert(read + waiting =~= read);
                    lemma_text_added(read, flushed);
                    assert(read + seq![part_view(p)] + now =~= read + flushed);
                    assert(text_in(read) + seq![] =~= text_in(read));
                    assert(thoughts_in(read) + seq![] =~= thoughts_in(read));
                }
            },
            _ => {
                assert(now =~= waiting);
            },
        }
    }
}

/// Once a response is complete and its parts are read, its tool calls follow: those
/// that have a name, in the order of their places, and then the end.
pub proof fn law_the_named_calls_follow(
    before: OpenAiCompatibleStreamedMessage,
    res: StreamStep,
    after: OpenAiCompatibleStreamedMessage,
)
    requires
        part_taken(before, res, after),
        before.parts@.len() == 0,
        before.finished,
        !before.tools_flushed,
    ensures
        ({
            let calls = call_views(before.tool_acc@).filter(|c: CallV| c.name.len() > 0);
            if calls.len() == 0 {
                res is End
            } else {
                &&& res matches StreamStep::Part(p)
                &&& after.parts@.len() == calls.len() - 1
                &&& forall|i: int|
                    0 <= i < calls.len() ==> {
                        let part = if i == 0 {
                            part_view(p)
                        } else {
                            part_view(after.parts@[i - 1])
                        };
                        &&& part matches PartV::Call(c)
                        &&& c.name == (#[trigger] calls[i]).name
                        &&& c.arguments == calls[i].arguments
                        &&& calls[i].id.len() > 0 ==> c.id == calls[i].id
                    }
            }
        }),
{
    lemma_named_calls(call_views(before.tool_acc@));
    let calls = named_calls(call_views(before.tool_acc@));
    if calls.len() > 0 {
        let p = res->Part_0;
        let all = seq![part_view(p)] + part_views(after.parts@);
        assert(are_finished_calls(all, calls));
        assert(part_views(after.parts@).len() == after.parts@.len());
        assert forall|i: int| 0 <= i < calls.len() implies is_finished_call(
            if i == 0 {
                part_view(p)
            } else {
                part_view(after.parts@[i - 1])
            },
            #[trigger] calls[i],
        ) by {
            assert(is_finished_call(all[i], calls[i]));
        }
    }
}

proof fn lemma_named_calls(calls: Seq<CallV>)
    ensures
        named_calls(calls) == calls.filter(|c: CallV| c.name.len() > 0),
    decreases calls.len(),
{
    reveal(Seq::filter);
    if calls.len() > 0 {
        lemma_named_calls(calls.drop_last());
    }
}

/// A line of a stream carries what follows `data: ` in it, white space at its ends
/// aside; any other line carries nothing, and the next one is looked at.
pub proof fn law_a_line_carries_its_data(line: Seq<char>, rest: Seq<char>)
    requires
        !line.contains('\n'),
    ensures
        next_data(line + seq!['\n'] + rest) == if trim(line).len() >= 6 && trim(line).subrange(0, 6)
            == "data: "@ {
            Some((trim(line).subrange(6, trim(line).len() as int), rest))
        } else {
            next_data(rest)
        },
{
    reveal_strlit("data: ");
    let buffer = line + seq!['\n'] + rest;
    let n = line.len() as int;
    lemma_find_from(buffer, seq!['\n'], 0);
    assert(buffer[n] == '\n');
    assert(buffer.subrange(n, n + 1) =~= seq!['\n']);
    assert(occurs_at(buffer, seq!['\n'], n));
    let nl = find_from(buffer, seq!['\n'], 0)->0;
    if nl < n {
        assert(occurs_at(buffer, seq!['\n'], nl));
        assert(buffer.subrange(nl, nl + 1)[0] == buffer[nl]);
        assert(seq!['\n'][0] == buffer[nl]);
        assert(line[nl] == '\n');
    }
    assert(nl == n);
    assert(buffer.take(n) =~= line);
    assert(buffer.skip(n + 1) =~= rest);
    let text = trim(line);
    if text.len() >= 6 {
        assert(text.skip(6) =~= text.subrange(6, text.len() as int));
    }
}

/// A usage counts the prompt's tokens, those out of a cache apart, and the answer's.
/// The cached ones are given on their own or among the prompt's details.
pub proof fn law_a_usage_counts_tokens(v: JsonV, prompt: int, completion: int)
    requires
        v.int_at("prompt_tokens"@) == Some(prompt),
        v.int_at("completion_tokens"@) == Some(completion),
    ensures
        ({
            let cached = match v.int_at("cached_tokens"@) {
                Some(n) => n,
                None => match v.get("prompt_tokens_details"@) {
                    Some(details) => match details.int_at("cached_tokens"@) {
                        Some(n) => n,
                        None => 0,
                    },
                    None => 0,
                },
            };
            usage_in(v) matches Some((other, output, read)) && read == cached && output
                == completion && (prompt >= cached ==> other + read == prompt) && (prompt < cached
                ==> other == 0)
        }),
{
}

/// Whether no two of `fields` have one name.
pub open spec fn named_once(fields: Seq<(Seq<char>, JsonV)>) -> bool {
    forall|i: int, j: int|
        0 <= i < j < fields.len() ==> (#[trigger] fields[i]).0 != (#[trigger] fields[j]).0
}

proof fn lemma_set_once(fields: Seq<(Seq<char>, JsonV)>, key: Seq<char>, value: JsonV)
    requires
        named_once(fields),
    ensures
        named_once(with_field(fields, key, value)),
{
    lemma_field_index(fields, key, 0);
    let after = with_field(fields, key, value);
    assert forall|i: int, j: int| 0 <= i < j < after.len() implies (#[trigger] after[i]).0 != (
    #[trigger] after[j]).0 by {
        if i < fields.len() {
            assert(after[i].0 == fields[i].0);
        }
        if j < fields.len() {
            assert(after[j].0 == fields[j].0);
        }
    }
}

proof fn lemma_merged_once(base: Seq<(Seq<char>, JsonV)>, adds: Seq<(Seq<char>, JsonV)>)
    requires
        named_once(base),
    ensures
        named_once(merged(base, adds)),
    decreases adds.len(),
{
    if adds.len() > 0 {
        lemma_merged_once(base, adds.drop_last());
        lemma_set_once(merged(base, adds.drop_last()), adds.last().0, adds.last().1);
    }
}

proof fn lemma_taken_out(fields: Seq<(Seq<char>, JsonV)>, gone: Seq<char>, key: Seq<char>)
    requires
        named_once(fields),
    ensures
        named_once(without(fields, gone)),
        JsonV::Obj(without(fields, gone)).get(key) == if key == gone {
            None
        } else {
            JsonV::Obj(fields).get(key)
        },
{
    let rest = without(fields, gone);
    lemma_field_index(fields, gone, 0);
    lemma_field_index(fields, key, 0);
    lemma_field_index(rest, key, 0);
    match field_index(fields, gone, 0) {
        Some(g) => {
            assert forall|k: int| 0 <= k < rest.len() implies #[trigger] rest[k] == fields[if k < g {
                k
            } else {
                k + 1
            }] by {}
            match field_index(fields, key, 0) {
                Some(k) => {
                    if k < g {
                        assert(rest[k] == fields[k]);
                    } else if k > g {
                        assert(rest[k - 1] == fields[k]);
                    }
                },
                None => {},
            }
        },
        None => {},
    }
}

/// The body of a request names the model, holds the system prompt, where there is
/// one, and then the conversation, and says whether the response is streamed, with
/// the usage at the end if it is. Up to 32768 tokens may come back. What the settings
/// say comes before all that, and the fields of `extra_body`, which is not sent
/// itself, before the settings.
pub proof fn law_what_a_request_says(
    provider: OpenAiCompatible,
    system_prompt: &str,
    tools: Vec<Tool>,
    history: Vec<Json>,
    key: Seq<char>,
    res: Json,
)
    requires
        call_ensures(
            OpenAiCompatible::request_body,
            (&provider, system_prompt, &tools, history),
            res,
        ),
        named_once(provider.settings()),
        JsonV::Obj(provider.settings()).get("extra_body"@) matches Some(JsonV::Obj(extra))
            ==> named_once(extra),
    ensures
        ({
            let settings = JsonV::Obj(provider.settings());
            let extra = match settings.get("extra_body"@) {
                Some(more) => more.get(key),
                None => None,
            };
            let said = res.model().get(key);
            if extra is Some {
                said == extra
            } else if key == "extra_body"@ {
                said is None
            } else if settings.get(key) is Some {
                said == settings.get(key)
            } else if key == "model"@ {
                said == Some(JsonV::Str(provider.model@))
            } else if key == "messages"@ {
                said matches Some(JsonV::Arr(messages)) && if system_prompt@.len() == 0 {
                    messages == items_model(history@)
                } else {
                    &&& messages.len() == history@.len() + 1
                    &&& messages[0].get("role"@) == Some(JsonV::Str("system"@))
                    &&& messages[0].get("content"@) == Some(JsonV::Str(system_prompt@))
                    &&& forall|i: int|
                        0 <= i < history@.len() ==> #[trigger] messages[i + 1]
                            == history@[i].model()
                }
            } else if key == "tools"@ {
                if tools@.len() == 0 {
                    said is None
                } else {
                    said matches Some(JsonV::Arr(defs)) && defs.len() == tools@.len()
                }
            } else if key == "stream"@ {
                said == Some(JsonV::Bool(provider.stream))
            } else if key == "stream_options"@ {
                if provider.stream {
                    said matches Some(options) && options.get("include_usage"@) == Some(
                        JsonV::Bool(true),
                    )
                } else {
                    said is None
                }
            } else if key == "max_tokens"@ {
                said == Some(JsonV::Int(32768))
            } else {
                said is None
            }
        }),
{
    let messages = request_messages(system_prompt@, items_model(history@));
    let plain = plain_body(provider.model@, messages, tool_defs(tools@), provider.stream);
    let settings = provider.settings();
    let limit = seq![("max_tokens"@, JsonV::Int(32768))];
    let all = merged(limit, settings);
    lemma_merged_once(limit, settings);
    lemma_merged_get(limit, settings, key);
    lemma_merged_get(limit, settings, "extra_body"@);
    lemma_taken_out(all, "extra_body"@, key);
    lemma_request_names();
    lemma_field_index(limit, "extra_body"@, 0);
    lemma_field_index(limit, key, 0);
    assert(limit[0].0 == "max_tokens"@);
    let extra = object_fields(JsonV::Obj(all).get("extra_body"@));
    assert(named_once(extra));
    assert(JsonV::Obj(all).get("extra_body"@) == JsonV::Obj(settings).get("extra_body"@));
    let rest = without(all, "extra_body"@);
    lemma_merged_get(plain, rest, key);
    lemma_merged_get(merged(plain, rest), extra, key);
    lemma_plain_fields(provider.model@, messages, tool_defs(tools@), provider.stream, key);
    lemma_system_message(system_prompt@);
    lemma_field_index(extra, key, 0);
    let usage = seq![("include_usage"@, JsonV::Bool(true))];
    lemma_field_index(usage, "include_usage"@, 0);
    assert(usage[0].0 == "include_usage"@);
    if system_prompt@.len() > 0 {
        assert forall|i: int| 0 <= i < history@.len() implies #[trigger] messages[i + 1]
            == history@[i].model() by {}
    } else {
        assert(system_prompt@ =~= seq![]);
    }
}

proof fn lemma_request_names()
    ensures
        "max_tokens"@ != "extra_body"@ && "model"@ != "extra_body"@ && "messages"@ != "extra_body"@
            && "tools"@ != "extra_body"@ && "stream"@ != "extra_body"@ && "stream_options"@
            != "extra_body"@,
        "model"@ != "messages"@ && "model"@ != "tools"@ && "model"@ != "stream"@ && "model"@
            != "stream_options"@ && "model"@ != "max_tokens"@,
        "messages"@ != "tools"@ && "messages"@ != "stream"@ && "messages"@ != "stream_options"@
            && "messages"@ != "max_tokens"@,
        "tools"@ != "stream"@ && "tools"@ != "stream_options"@ && "tools"@ != "max_tokens"@,
        "stream"@ != "stream_options"@ && "stream"@ != "max_tokens"@,
        "stream_options"@ != "max_tokens"@,
{
    reveal_strlit("max_tokens");
    reveal_strlit("extra_body");
    reveal_strlit("model");
    reveal_strlit("messages");
    reveal_strlit("tools");
    reveal_strlit("stream");
    reveal_strlit("stream_options");
    assert("max_tokens"@[0] == 'm' && "extra_body"@[0] == 'e');
    assert("model"@[0] == 'm' && "tools"@[0] == 't');
    assert("model"@.len() == 5 && "messages"@.len() == 8 && "tools"@.len() == 5);
    assert("stream"@.len() == 6 && "stream_options"@.len() == 14 && "max_tokens"@.len() == 10);
    assert("extra_body"@.len() == 10);
}

proof fn lemma_plain_fields(
    model: Seq<char>,
    messages: Seq<JsonV>,
    tools: Seq<JsonV>,
    stream: bool,
    key: Seq<char>,
)
    ensures
        JsonV::Obj(plain_body(model, messages, tools, stream)).get(key) == if key == "model"@ {
            Some(JsonV::Str(model))
        } else if key == "messages"@ {
            Some(JsonV::Arr(messages))
        } else if key == "tools"@ && tools.len() > 0 {
            Some(JsonV::Arr(tools))
        } else if key == "stream"@ {
            Some(JsonV::Bool(stream))
        } else if key == "stream_options"@ && stream {
            Some(JsonV::Obj(seq![("include_usage"@, JsonV::Bool(true))]))
        } else {
            None
        },
{
    let fields = plain_body(model, messages, tools, stream);
    lemma_request_names();
    lemma_field_index(fields, key, 0);
    let at: int = if tools.len() > 0 {
        3
    } else {
        2
    };
    assert(fields[0] == ("model"@, JsonV::Str(model)));
    assert(fields[1] == ("messages"@, JsonV::Arr(messages)));
    assert(tools.len() > 0 ==> fields[2] == ("tools"@, JsonV::Arr(tools)));
    assert(fields[at] == ("stream"@, JsonV::Bool(stream)));
    assert(stream ==> fields[at + 1] == (
        "stream_options"@,
        JsonV::Obj(seq![("include_usage"@, JsonV::Bool(true))]),
    ));
    assert(fields.len() == at + (if stream {
        2int
    } else {
        1int
    }));
}

proof fn lemma_system_message(prompt: Seq<char>)
    ensures
        ({
            let system = JsonV::Obj(
                seq![("role"@, JsonV::Str("system"@)), ("content"@, JsonV::Str(prompt))],
            );
            system.get("role"@) == Some(JsonV::Str("system"@)) && system.get("content"@) == Some(
                JsonV::Str(prompt),
            )
        }),
{
    reveal_strlit("role");
    reveal_strlit("content");
    assert("role"@.len() != "content"@.len());
    let fields = seq![("role"@, JsonV::Str("system"@)), ("content"@, JsonV::Str(prompt))];
    lemma_field_index(fields, "role"@, 0);
    lemma_field_index(fields, "content"@, 0);
    assert(fields[0] == ("role"@, JsonV::Str("system"@)));
    assert(fields[1] == ("content"@, JsonV::Str(prompt)));
}

/// A tool is offered by its name, its description and what it takes, a tool that is
/// built in, whose name begins with a dollar, by its name alone.
pub proof fn law_how_a_tool_is_offered(tool: Tool, res: Json)
    requires
        call_ensures(convert_tool, (&tool,), res),
    ensures
        ({
            let builtin = tool.name@.len() > 0 && tool.name@[0] == '$';
            &&& res.model().get("type"@) == Some(
                JsonV::Str(
                    if builtin {
                        "builtin_function"@
                    } else {
                        "function"@
                    },
                ),
            )
            &&& res.model().get("function"@) matches Some(f) && f.get("name"@) == Some(
                JsonV::Str(tool.name@),
            ) && f.get("description"@) == (if builtin {
                None
            } else {
                Some(JsonV::Str(tool.description@))
            }) && f.get("parameters"@) == (if builtin {
                None
            } else {
                Some(tool.parameters.model())
            })
        }),
{
    reveal_strlit("$");
    reveal_strlit("type");
    reveal_strlit("function");
    reveal_strlit("name");
    reveal_strlit("description");
    reveal_strlit("parameters");
    assert("type"@.len() != "function"@.len());
    assert("description"@.len() != "parameters"@.len());
    let builtin = tool.name@.len() > 0 && tool.name@[0] == '$';
    if tool.name@.len() > 0 {
        assert(tool.name@.subrange(0, 1)[0] == tool.name@[0]);
        assert("$"@[0] == '$');
        if builtin {
            assert(tool.name@.subrange(0, 1) =~= "$"@);
        }
    }
    assert(begins(tool.name@, "$"@) == builtin);
    let fields = res.model()->Obj_0;
    let inner = fields[1].1->Obj_0;
    lemma_field_index(fields, "type"@, 0);
    lemma_field_index(fields, "function"@, 0);
    lemma_field_index(inner, "name"@, 0);
    lemma_field_index(inner, "description"@, 0);
    lemma_field_index(inner, "parameters"@, 0);
    assert(fields[0].0 == "type"@ && fields[1].0 == "function"@);
    assert(inner[0].0 == "name"@);
    if !builtin {
        assert(inner[1].0 == "description"@ && inner[2].0 == "parameters"@);
    }
}

/// A provider has the key and the URL it is given, those of the environment where it
/// is given none, and needs a key. Its URL ends in a slash.
pub proof fn law_whose_key_and_url_are_used(
    model: String,
    api_key: Option<String>,
    env_api_key: Option<String>,
    base_url: Option<String>,
    env_base_url: Option<String>,
    res: Result<OpenAiCompatible, ChatProviderError>,
)
    requires
        call_ensures(
            OpenAiCompatible::new,
            (model, api_key, env_api_key, base_url, env_base_url),
            res,
        ),
    ensures
        api_key is None && env_api_key is None ==> res is Err,
        res matches Ok(p) ==> {
            let url = match (base_url, env_base_url) {
                (Some(given), _) => given@,
                (None, Some(set)) => set@,
                (None, None) => "https://api.openai.com/v1"@,
            };
            &&& p.model == model
            &&& p.stream
            &&& api_key matches Some(key) ==> p.api_key == key
            &&& api_key is None ==> env_api_key == Some(p.api_key)
            &&& p.base_url@.len() > 0 && p.base_url@.last() == '/'
            &&& p.base_url@ == url || p.base_url@.drop_last() == url
            &&& url.len() > 0 && url.last() == '/' ==> p.base_url@ == url
        },
{
    reveal_strlit("/");
    if let Ok(p) = res {
        let url = match (base_url, env_base_url) {
            (Some(given), _) => given@,
            (None, Some(set)) => set@,
            (None, None) => "https://api.openai.com/v1"@,
        };
        assert("/"@[0] == '/');
        if url.len() > 0 {
            let end = url.subrange(url.len() - 1, url.len() as int);
            assert(end[0] == url.last());
            if url.last() == '/' {
                assert(end =~= "/"@);
            }
        }
        assert(url.push('/').drop_last() =~= url);
    }
}

/// A provider's efforts differ for the API: off is no effort at all.
pub proof fn law_an_effort_is_asked_for(
    provider: OpenAiCompatible,
    effort: ThinkingEffort,
    other: Seq<char>,
    res: OpenAiCompatible,
)
    requires
        call_ensures(OpenAiCompatible::with_thinking, (&provider, effort), res),
    ensures
        JsonV::Obj(res.settings()).get("reasoning_effort"@) == Some(
            match effort {
                ThinkingEffort::Off => JsonV::Null,
                ThinkingEffort::Low => JsonV::Str("low"@),
                ThinkingEffort::Medium => JsonV::Str("medium"@),
                ThinkingEffort::High => JsonV::Str("high"@),
            },
        ),
        other != "reasoning_effort"@ ==> JsonV::Obj(res.settings()).get(other) == JsonV::Obj(
            provider.settings(),
        ).get(other),
        res.model == provider.model && res.api_key == provider.api_key && res.base_url
            == provider.base_url && res.stream == provider.stream,
{
    crate::json::law_set_field_is_read_back(
        provider.settings(),
        "reasoning_effort"@,
        effort_value(effort),
        other,
    );
}

/// A message's thoughts are sent apart from what it says: no thought is left among
/// its parts, and a message without thoughts stays as it is.
pub proof fn law_thoughts_are_sent_apart(
    parts: Vec<ContentPart>,
    res: (String, Vec<ContentPart>),
)
    requires
        call_ensures(split_thoughts, (parts,), res),
    ensures
        forall|i: int| 0 <= i < res.1@.len() ==> !(#[trigger] res.1@[i] is Think),
        res.1@ == parts@.filter(|part: ContentPart| !(part is Think)),
        (forall|i: int| 0 <= i < parts@.len() ==> !(#[trigger] parts@[i] is Think)) ==> res.0@
            == Seq::<char>::empty() && res.1@ == parts@,
        forall|i: int|
            0 <= i < parts@.len() && (#[trigger] parts@[i] matches ContentPart::Think(t))
                ==> exists|at: int|
                0 <= at && at + parts@[i]->Think_0@.len() <= res.0@.len() && #[trigger] res.0@.subrange(
                    at,
                    at + parts@[i]->Think_0@.len(),
                ) == parts@[i]->Think_0@,
{
    lemma_thoughts_apart(parts@);
}

proof fn lemma_thoughts_apart(parts: Seq<ContentPart>)
    ensures
        forall|i: int| 0 <= i < spoken(parts).len() ==> !(#[trigger] spoken(parts)[i] is Think),
        spoken(parts) == parts.filter(|part: ContentPart| !(part is Think)),
        (forall|i: int| 0 <= i < parts.len() ==> !(#[trigger] parts[i] is Think)) ==> thoughts(
            parts,
        ) == Seq::<char>::empty() && spoken(parts) == parts,
        forall|i: int|
            0 <= i < parts.len() && (#[trigger] parts[i] matches ContentPart::Think(t))
                ==> exists|at: int|
                0 <= at && at + parts[i]->Think_0@.len() <= thoughts(parts).len()
                    && #[trigger] thoughts(parts).subrange(at, at + parts[i]->Think_0@.len())
                    == parts[i]->Think_0@,
    decreases parts.len(),
{
    reveal(Seq::filter);
    if parts.len() > 0 {
        let front = parts.drop_last();
        lemma_thoughts_apart(front);
        assert(parts =~= front.push(parts.last()));
        if forall|i: int| 0 <= i < parts.len() ==> !(#[trigger] parts[i] is Think) {
            assert forall|i: int| 0 <= i < front.len() implies !(#[trigger] front[i] is Think) by {
                assert(front[i] == parts[i]);
            }
        }
        let before = thoughts(front);
        let all = thoughts(parts);
        assert forall|i: int|
            0 <= i < parts.len() && (#[trigger] parts[i] matches ContentPart::Think(
                t,
            )) implies exists|at: int|
            0 <= at && at + parts[i]->Think_0@.len() <= all.len() && #[trigger] all.subrange(
                at,
                at + parts[i]->Think_0@.len(),
            ) == parts[i]->Think_0@ by {
            let text = parts[i]->Think_0@;
            if i < front.len() {
                assert(front[i] == parts[i]);
                let at = choose|at: int|
                    0 <= at && at + text.len() <= before.len() && #[trigger] before.subrange(
                        at,
                        at + text.len(),
                    ) == text;
                assert(all.subrange(at, at + text.len()) =~= before.subrange(at, at + text.len()));
            } else {
                assert(all.subrange(before.len() as int, (before.len() + text.len()) as int) =~= text);
            }
        }
    } else {
        assert(spoken(parts) =~= parts);
    }
}

/// A status that is no success is an error of that status, and says it.
pub proof fn law_what_failed_is_told_apart(
    code: u16,
    status: &str,
    text: &str,
    is_timeout: bool,
    is_connect: bool,
    message: &str,
    answered: ChatProviderError,
    unsent: ChatProviderError,
)
    requires
        call_ensures(status_error, (code, status, text), answered),
        call_ensures(map_transport_error, (is_timeout, is_connect, message), unsent),
    ensures
        answered.kind == ChatProviderErrorKind::Status(code),
        (unsent.kind is Timeout) == is_timeout,
        (unsent.kind is Connection) == (is_connect && !is_timeout),
        (unsent.kind is Other) == (!is_connect && !is_timeout),
        unsent.message@ == message@,
{
}

/// A message is sent with its thoughts, where it has any, under a name of their own,
/// and without its nulls; everything else in it is sent as it is.
pub proof fn law_a_message_is_sent_without_nulls(
    payload: Json,
    reasoning: &str,
    i: int,
    res: Json,
)
    requires
        call_ensures(finish_message, (&payload, reasoning), res),
        payload.model() is Obj,
        named_once(payload.model()->Obj_0),
        0 <= i < payload.model()->Obj_0.len(),
    ensures
        ({
            let (key, value) = payload.model()->Obj_0[i];
            let said = res.model().get(key);
            &&& reasoning@.len() > 0 ==> res.model().get("reasoning_content"@) == Some(
                JsonV::Str(reasoning@),
            )
            &&& (reasoning@.len() == 0 || key != "reasoning_content"@) ==> if value is Null {
                said is None
            } else {
                said == Some(without_nulls(value))
            }
            &&& (reasoning@.len() == 0 || key != "reasoning_content"@) ==> (value matches JsonV::Str(
                _,
            ) ==> said == Some(value))
        }),
{
    let fields = payload.model()->Obj_0;
    let key = fields[i].0;
    lemma_sent_fields(fields, i);
    crate::json::law_set_field_is_read_back(
        fields_without_nulls(fields),
        "reasoning_content"@,
        JsonV::Str(reasoning@),
        key,
    );
}

proof fn lemma_kept_names(fields: Seq<(Seq<char>, JsonV)>, k: int)
    requires
        0 <= k < fields_without_nulls(fields).len(),
    ensures
        exists|j: int|
            0 <= j < fields.len() && fields_without_nulls(fields)[k] == (
                (#[trigger] fields[j]).0,
                without_nulls(fields[j].1),
            ) && !(fields[j].1 is Null),
    decreases fields.len(),
{
    let front = fields.drop_last();
    let before = fields_without_nulls(front);
    if k < before.len() {
        lemma_kept_names(front, k);
        let j = choose|j: int|
            0 <= j < front.len() && before[k] == ((#[trigger] front[j]).0, without_nulls(
                front[j].1,
            )) && !(front[j].1 is Null);
        assert(fields[j] == front[j]);
    } else {
        let j = fields.len() - 1;
        assert(fields[j] == fields.last());
    }
}

proof fn lemma_kept_field(fields: Seq<(Seq<char>, JsonV)>, i: int)
    requires
        0 <= i < fields.len(),
        !(fields[i].1 is Null),
    ensures
        exists|k: int|
            0 <= k < fields_without_nulls(fields).len() && #[trigger] fields_without_nulls(
                fields,
            )[k] == (fields[i].0, without_nulls(fields[i].1)),
    decreases fields.len(),
{
    let front = fields.drop_last();
    let before = fields_without_nulls(front);
    let all = fields_without_nulls(fields);
    if i < front.len() {
        assert(front[i] == fields[i]);
        lemma_kept_field(front, i);
        let k = choose|k: int|
            0 <= k < before.len() && #[trigger] before[k] == (
                front[i].0,
                without_nulls(front[i].1),
            );
        assert(all[k] == before[k]);
    } else {
        assert(all[before.len() as int] == (fields[i].0, without_nulls(fields[i].1)));
    }
}

proof fn lemma_sent_fields(fields: Seq<(Seq<char>, JsonV)>, i: int)
    requires
        named_once(fields),
        0 <= i < fields.len(),
    ensures
        JsonV::Obj(fields_without_nulls(fields)).get(fields[i].0) == if fields[i].1 is Null {
            None
        } else {
            Some(without_nulls(fields[i].1))
        },
{
    let key = fields[i].0;
    let sent = fields_without_nulls(fields);
    lemma_field_index(sent, key, 0);
    if let Some(k) = field_index(sent, key, 0) {
        lemma_kept_names(fields, k);
        let j = choose|j: int|
            0 <= j < fields.len() && sent[k] == ((#[trigger] fields[j]).0, without_nulls(
                fields[j].1,
            )) && !(fields[j].1 is Null);
        if j < i {
            assert(fields[j].0 != fields[i].0);
        } else if i < j {
            assert(fields[i].0 != fields[j].0);
        }
    }
    if !(fields[i].1 is Null) {
        lemma_kept_field(fields, i);
    }
}

/// A tool call has the name and the arguments of its function, and the id it comes
/// with or, where it has none, a fresh one. Without a name there is no call.
pub proof fn law_what_a_tool_call_holds(value: Json, fresh: String, res: Option<ToolCall>)
    requires
        call_ensures(parse_tool_call, (&value, fresh), res),
    ensures
        ({
            let function = value.model().get("function"@);
            &&& res is Some <==> function is Some && function->0.get("name"@) is Some
                && function->0.get("name"@)->0 is Str
            &&& res matches Some(call) ==> {
                &&& call.kind@ == "function"@
                &&& function->0.get("name"@) == Some(JsonV::Str(call.function.name@))
                &&& value.model().get("id"@) is Some && value.model().get("id"@)->0 is Str
                    ==> value.model().get("id"@) == Some(JsonV::Str(call.id@))
                &&& !(value.model().get("id"@) is Some && value.model().get("id"@)->0 is Str)
                    ==> call.id@ == fresh@
                &&& match function->0.get("arguments"@) {
                    Some(JsonV::Str(text)) => call.function.arguments matches Some(a) && a@ == text,
                    _ => call.function.arguments is None,
                }
            }
        }),
{
}

/// A line that says `[DONE]` ends the response, and no other line does.
pub proof fn law_a_response_ends_when_done(
    before: OpenAiCompatibleStreamedMessage,
    data: Seq<char>,
    rest: Seq<char>,
    res: LineStep,
    after: OpenAiCompatibleStreamedMessage,
)
    requires
        next_data(before.buffer@) == Some((data, rest)),
        line_taken(before, res, after),
    ensures
        after.buffer@ == rest,
        trim(data) == seq!['[', 'D', 'O', 'N', 'E', ']'] ==> res is Done && after.finished
            && !after.open,
        trim(data) != seq!['[', 'D', 'O', 'N', 'E', ']'] ==> (res matches LineStep::Parse(text)
            && text@ == data) && after.finished == before.finished && after.open == before.open,
        after.parts == before.parts && after.id == before.id && after.usage == before.usage,
{
    reveal_strlit("[DONE]");
    assert("[DONE]"@ =~= seq!['[', 'D', 'O', 'N', 'E', ']']);
}

} // verus!
