use dvadva::chat::{
    accumulate_tool_call_delta, ChatProviderError, ChatProviderErrorKind, ThinkingEffort,
    TokenUsage,
};
use dvadva::config::{
    load_serve, parse_serve, path, resolve_agent_bin, resolve_listen, resolve_work_dir, source,
    ConfigRead, ServeConfig,
};
use dvadva::edit::{ParamsError, StrReplaceParams};
use dvadva::json::Json;
use dvadva::openai::{
    check_chunk, convert_tool, default_headers, finish_message, map_transport_error, parse_non_stream_response,
    parse_usage, split_thoughts, status_error, strip_nulls, LineRead, LineStep,
    OpenAiCompatible, OpenAiCompatibleStreamedMessage, StreamStep, StreamedMessagePart, Tool,
};
use dvadva::proto::{
    bad_frame, encode_frame, frame_payload, FrameFault, LineReader, Reply, Request, SessionEntry, Stamp,
    BRIDGE_PROTOCOL_VERSION, MAGIC, MAX_LINE_BYTES,
};
use dvadva::proto::LineStep as Step;
use dvadva::remote::{handshake_message, read_handshake};
use dvadva::wire::ContentPart;

fn text_of(json: &Json) -> String {
    match json {
        Json::Null => "null".to_string(),
        Json::Bool(b) => b.to_string(),
        Json::Int(i) => i.to_string(),
        Json::Big(u) => u.to_string(),
        Json::Real(bits) => serde_json::to_string(&f64::from_bits(*bits)).unwrap(),
        Json::Str(s) => serde_json::to_string(s).unwrap(),
        Json::Arr(items) => {
            let parts: Vec<String> = items.iter().map(text_of).collect();
            format!("[{}]", parts.join(","))
        }
        Json::Obj(fields) => {
            let parts: Vec<String> = fields
                .iter()
                .map(|(k, v)| format!("{}:{}", serde_json::to_string(k).unwrap(), text_of(v)))
                .collect();
            format!("{{{}}}", parts.join(","))
        }
    }
}

fn json(text: &str) -> Json {
    Json::from_text(text).expect("JSON")
}

fn encode(json: Json) -> String {
    encode_frame(&text_of(&json))
}

fn decode_value(line: &str) -> Result<Json, String> {
    let payload = frame_payload(line)?;
    Json::from_text(&payload).map_err(|err| bad_frame(&err))
}

fn decode_request(line: &str) -> Result<Request, String> {
    Request::from_json(&decode_value(line)?).map_err(|fault| bad_frame(&format!("{fault:?}")))
}

fn decode_reply(line: &str) -> Result<Reply, String> {
    Reply::from_json(&decode_value(line)?).map_err(|fault| bad_frame(&format!("{fault:?}")))
}

#[test]
fn flat_shape_single_edit() {
    let raw = r#"{"path": "foo.txt", "old": "a", "new": "b"}"#;
    let params = StrReplaceParams::from_json(&json(raw)).unwrap();
    assert_eq!(params.path, "foo.txt");
    assert_eq!(params.edit.len(), 1);
    assert_eq!(params.edit[0].old, "a");
    assert_eq!(params.edit[0].new, "b");
    assert!(!params.edit[0].replace_all);
    assert!(!params.edit[0].regex);
}

#[test]
fn flat_shape_with_flags() {
    let raw =
        r#"{"path": "foo.txt", "old": "a", "new": "b", "replace_all": true, "regex": true}"#;
    let params = StrReplaceParams::from_json(&json(raw)).unwrap();
    assert!(params.edit[0].replace_all);
    assert!(params.edit[0].regex);
}

#[test]
fn wrapper_shape_still_works() {
    let raw = r#"{"path": "foo.txt", "edit": {"old": "a", "new": "b"}}"#;
    let params = StrReplaceParams::from_json(&json(raw)).unwrap();
    assert_eq!(params.path, "foo.txt");
    assert_eq!(params.edit.len(), 1);
    assert_eq!(params.edit[0].old, "a");
    assert_eq!(params.edit[0].new, "b");
}

#[test]
fn edit_arguments_that_are_none_are_refused() {
    let fault = |raw: &str| StrReplaceParams::from_json(&json(raw)).unwrap_err();
    assert_eq!(fault(r#"{"old": "a", "new": "b"}"#), ParamsError::PathRequired);
    assert_eq!(fault(r#"{"path": "f"}"#), ParamsError::EditRequired);
    assert_eq!(fault(r#"{"path": "f", "old": "a"}"#), ParamsError::NewRequired);
    assert_eq!(fault(r#"{"path": "f", "edit": {"old": "a"}}"#), ParamsError::BadEdit);
    assert_eq!(fault(r#"{"path": "f", "edit": null}"#), ParamsError::BadEdit);
    assert_eq!(
        ParamsError::NewRequired.message(""),
        "`new` is required when `old` is provided"
    );
    let raw = r#"{"path": "f", "edit": [{"old": "a", "new": "b", "regex": true}, ["c", "d"]]}"#;
    let params = StrReplaceParams::from_json(&json(raw)).unwrap();
    assert_eq!(params.edit.len(), 2);
    assert!(params.edit[0].regex);
    assert_eq!(params.edit[1].new, "d");
}

#[test]
fn test_accumulate_tool_call_delta_by_index() {
    let mut acc = Vec::new();
    accumulate_tool_call_delta(
        &mut acc,
        &json(
            r#"{"index": 0, "id": "call_1", "function": {"name": "test_func", "arguments": "{\"a\":"}}"#,
        ),
    );
    accumulate_tool_call_delta(
        &mut acc,
        &json(r#"{"index": 0, "function": {"arguments": "1}"}}"#),
    );
    assert_eq!(acc.len(), 1);
    assert_eq!(acc[0].id, "call_1");
    assert_eq!(acc[0].function.name, "test_func");
    assert_eq!(acc[0].function.arguments.as_deref(), Some("{\"a\":1}"));
}

#[test]
fn test_accumulate_tool_call_delta_late_name() {
    // The name does not arrive in the first fragment.
    let mut acc = Vec::new();
    accumulate_tool_call_delta(
        &mut acc,
        &json(r#"{"index": 0, "function": {"arguments": "{}"}}"#),
    );
    accumulate_tool_call_delta(
        &mut acc,
        &json(r#"{"index": 0, "id": "call_2", "function": {"name": "late"}}"#),
    );
    assert_eq!(acc.len(), 1);
    assert_eq!(acc[0].function.name, "late");
    assert_eq!(acc[0].function.arguments.as_deref(), Some("{}"));
}

#[test]
fn test_parse_usage() {
    let usage = json(r#"{"prompt_tokens": 100, "completion_tokens": 50}"#);
    let result = parse_usage(&usage);
    assert!(result.is_some());
    let token_usage = result.unwrap();
    assert_eq!(token_usage.input(), 100);
    assert_eq!(token_usage.output, 50);
    assert_eq!(token_usage.total(), 150);
}

#[test]
fn interleaved_calls_do_not_mix() {
    let a = json(r#"{"index": 2, "id": "a", "function": {"name": "f", "arguments": "x"}}"#);
    let b = json(r#"{"index": 0, "function": {"arguments": "y"}}"#);
    let mut one = Vec::new();
    accumulate_tool_call_delta(&mut one, &a);
    accumulate_tool_call_delta(&mut one, &b);
    let mut other = Vec::new();
    accumulate_tool_call_delta(&mut other, &b);
    accumulate_tool_call_delta(&mut other, &a);
    assert_eq!(one, other);
    assert_eq!(one.len(), 3);
    assert_eq!(one[1].function.name, "");
    assert_eq!(one[2].id, "a");
}

#[test]
fn cached_tokens_are_taken_out_of_the_prompts() {
    let usage = parse_usage(&json(
        r#"{"prompt_tokens": 100, "completion_tokens": 7, "prompt_tokens_details": {"cached_tokens": 30}}"#,
    ))
    .unwrap();
    assert_eq!(
        usage,
        TokenUsage {
            input_other: 70,
            output: 7,
            input_cache_read: 30,
            input_cache_creation: 0
        }
    );
    let usage = parse_usage(&json(
        r#"{"prompt_tokens": 10, "completion_tokens": 7, "cached_tokens": 30}"#,
    ))
    .unwrap();
    assert_eq!((usage.input_other, usage.input_cache_read), (0, 30));
    assert!(parse_usage(&json(r#"{"prompt_tokens": 1.5, "completion_tokens": 7}"#)).is_none());
}

#[test]
fn a_whole_response_is_read() {
    let response = json(
        r#"{"id": "r1", "usage": {"prompt_tokens": 3, "completion_tokens": 4}, "choices": [
            {"message": {"reasoning_content": "hm", "content": "hi", "tool_calls": [
                {"id": "c1", "function": {"name": "f", "arguments": "{}"}},
                {"function": {}},
                {"function": {"name": "g"}}]}}]}"#,
    );
    let whole = parse_non_stream_response(&response).ok().unwrap();
    assert_eq!(whole.id.as_deref(), Some("r1"));
    assert_eq!(whole.usage.unwrap().total(), 7);
    assert_eq!(whole.parts.len(), 4);
    match &whole.parts[0] {
        StreamedMessagePart::Content(part) => {
            assert_eq!(*part, ContentPart::Think("hm".into()));
        }
        _ => panic!("a thought expected"),
    }
    match (&whole.parts[2], &whole.parts[3]) {
        (StreamedMessagePart::ToolCall(a), StreamedMessagePart::ToolCall(b)) => {
            assert_eq!(a.id, "c1");
            assert_eq!(b.function.name, "g");
            assert_eq!(b.id.len(), 36);
            assert_eq!(b.function.arguments, None);
        }
        _ => panic!("two calls expected"),
    }
    let fault = |text: &str| parse_non_stream_response(&json(text)).err().unwrap();
    assert_eq!(fault("{}").message, "Missing choices in response");
    assert_eq!(fault(r#"{"choices": []}"#).kind, ChatProviderErrorKind::EmptyResponse);
    assert_eq!(fault(r#"{"choices": [{}]}"#).message, "Missing message in response");
}

fn pump(message: &mut OpenAiCompatibleStreamedMessage, bytes: &[u8]) {
    message.push_bytes(bytes);
    loop {
        match message.next_line() {
            LineStep::Parse(text) => {
                let value = json(&text);
                assert!(check_chunk(&value));
                message.ingest_chunk(&value);
            }
            _ => break,
        }
    }
}

#[test]
fn a_streamed_response_is_put_together() {
    let mut message = OpenAiCompatibleStreamedMessage::new_stream();
    assert!(matches!(message.next_part(), StreamStep::NeedBytes));
    pump(
        &mut message,
        b": ping\ndata: {\"id\":\"m\",\"choices\":[{\"delta\":{\"reasoning_content\":\"a\",\"content\":\"b\"}}]}\n\ndata: {\"cho",
    );
    pump(
        &mut message,
        b"ices\":[{\"delta\":{\"tool_calls\":[{\"index\":1,\"function\":{\"name\":\"g\"}}]}}]}\n",
    );
    assert_eq!(message.id().as_deref(), Some("m"));
    let mut texts = Vec::new();
    while let StreamStep::Part(StreamedMessagePart::Content(part)) = message.next_part() {
        texts.push(part);
    }
    assert_eq!(texts, vec![ContentPart::Think("a".into()), ContentPart::Text("b".into())]);
    pump(
        &mut message,
        b"data: {\"choices\":[{\"finish_reason\":\"stop\",\"usage\":{\"prompt_tokens\":1,\"completion_tokens\":2}}]}\ndata: [DONE]\n",
    );
    assert_eq!(message.usage().unwrap().total(), 3);
    match message.next_part() {
        StreamStep::Part(StreamedMessagePart::ToolCall(call)) => {
            assert_eq!(call.function.name, "g");
            assert_eq!(call.id.len(), 36);
        }
        _ => panic!("a call expected"),
    }
    assert!(matches!(message.next_part(), StreamStep::End));
}

#[test]
fn a_response_that_is_cut_short_is_an_error() {
    let mut message = OpenAiCompatibleStreamedMessage::new_stream();
    pump(&mut message, b"data: {\"choices\":[{\"delta\":{\"content\":\"b\"}}]}\n");
    message.close();
    assert!(matches!(message.next_part(), StreamStep::Part(_)));
    match message.next_part() {
        StreamStep::Fail(err) => assert_eq!(err.kind, ChatProviderErrorKind::Connection),
        _ => panic!("a failure expected"),
    }
    let mut whole = OpenAiCompatibleStreamedMessage::new_parts(vec![], None, None);
    assert!(matches!(whole.next_part(), StreamStep::End));
}

fn provider() -> OpenAiCompatible {
    OpenAiCompatible::new("m".into(), Some("k".into()), None, Some("http://H:1/v1".into()), None)
        .ok()
        .unwrap()
}

#[test]
fn a_provider_takes_its_key_and_url_from_options_or_environment() {
    let err = OpenAiCompatible::new("m".into(), None, None, None, None).err().unwrap();
    assert!(err.message.contains("OPENAI_API_KEY"));
    let err = OpenAiCompatible::new("m".into(), None, Some("k".into()), Some("nope".into()), None)
        .err()
        .unwrap();
    assert!(err.message.starts_with("Invalid base URL: "));
    let p = OpenAiCompatible::new("m".into(), None, Some("k".into()), None, None).ok().unwrap();
    assert_eq!(p.endpoint().ok().unwrap(), "https://api.openai.com/v1/chat/completions");
    assert_eq!(p.authorization(), "Bearer k");
    assert_eq!(provider().endpoint().ok().unwrap(), "http://h:1/v1/chat/completions");
    let parameters = Json::Obj(provider().model_parameters());
    assert_eq!(text_of(&parameters), r#"{"base_url":"http://h:1/v1/"}"#);
    assert_eq!(provider().name(), "openai_compatible");
    assert_eq!(provider().model_name(), "m");
}

#[test]
fn requests_carry_the_fixed_headers_and_the_extra_ones() {
    let extra = [("User-Agent", "me"), ("X-A", "é"), ("bad name", "1")];
    let extra: Vec<(String, String)> =
        extra.iter().map(|(k, v)| (k.to_string(), v.to_string())).collect();
    let headers = default_headers(&extra);
    assert_eq!(headers.len(), 3);
    assert_eq!(headers["content-type"], "application/json");
    assert_eq!(headers["user-agent"], "me");
    assert_eq!(headers["x-a"].as_bytes(), "é".as_bytes());
    assert_eq!(default_headers(&[])["user-agent"], "KimiCLI");
}

#[test]
fn a_provider_thinks_as_much_as_it_was_told_to() {
    for effort in [
        ThinkingEffort::Off,
        ThinkingEffort::Low,
        ThinkingEffort::Medium,
        ThinkingEffort::High,
    ] {
        assert_eq!(provider().with_thinking(effort).thinking_effort(), Some(effort));
    }
    assert_eq!(provider().thinking_effort(), Some(ThinkingEffort::Off));
    let odd = provider()
        .with_generation_kwargs(&vec![("reasoning_effort".into(), Json::Str("max".into()))]);
    assert_eq!(odd.thinking_effort(), Some(ThinkingEffort::Off));
}

#[test]
fn later_settings_win_in_the_body() {
    let p = provider()
        .with_generation_kwargs(&vec![
            ("temperature".into(), Json::Int(0)),
            ("stream".into(), Json::Str("odd".into())),
        ])
        .with_extra_body(&json(r#"{"a": 1}"#))
        .with_extra_body(&json(r#"{"temperature": 2}"#))
        .with_user_agent("ua".into());
    assert_eq!(p.user_agent, "ua");
    let tools = vec![
        Tool { name: "$web".into(), description: "d".into(), parameters: Json::Null },
        Tool { name: "f".into(), description: "d".into(), parameters: json("{}") },
    ];
    let body = p.request_body("sys", &tools, vec![json(r#"{"role":"user"}"#)]);
    assert_eq!(
        text_of(&body),
        concat_lines(&[
            r#"{"model":"m","messages":[{"role":"system","content":"sys"},{"role":"user"}],"#,
            r#""tools":[{"type":"builtin_function","function":{"name":"$web"}},"#,
            r#"{"type":"function","function":{"name":"f","description":"d","parameters":{}}}],"#,
            r#""stream":"odd","stream_options":{"include_usage":true},"max_tokens":32768,"#,
            r#""temperature":2,"a":1}"#,
        ])
    );
    let quiet = provider().with_stream(false).request_body("", &vec![], vec![]);
    assert_eq!(
        text_of(&quiet),
        r#"{"model":"m","messages":[],"stream":false,"max_tokens":32768}"#
    );
    assert_eq!(
        text_of(&convert_tool(&tools[0])),
        r#"{"type":"builtin_function","function":{"name":"$web"}}"#
    );
}

fn concat_lines(lines: &[&str]) -> String {
    lines.concat()
}

#[test]
fn messages_lose_their_nulls_and_keep_their_thoughts() {
    let (reasoning, rest) = split_thoughts(vec![
        ContentPart::Think("a".into()),
        ContentPart::Text("t".into()),
        ContentPart::Think("b".into()),
    ]);
    assert_eq!(reasoning, "ab");
    assert_eq!(rest, vec![ContentPart::Text("t".into())]);
    let payload = json(r#"{"role":"assistant","name":null,"content":[null,{"x":null}]}"#);
    assert_eq!(
        text_of(&strip_nulls(&payload)),
        r#"{"content":[null,{}],"role":"assistant"}"#
    );
    assert_eq!(
        text_of(&finish_message(&json(r#"{"role":"assistant"}"#), "ab")),
        r#"{"role":"assistant","reasoning_content":"ab"}"#
    );
    assert_eq!(text_of(&finish_message(&json("[1]"), "ab")), "[1]");
}

#[test]
fn transport_errors_keep_their_kind() {
    assert_eq!(map_transport_error(true, true, "t").kind, ChatProviderErrorKind::Timeout);
    assert_eq!(map_transport_error(false, true, "c").kind, ChatProviderErrorKind::Connection);
    assert_eq!(map_transport_error(false, false, "o").kind, ChatProviderErrorKind::Other);
    let err = status_error(404, "404 Not Found", "gone");
    assert_eq!(err.kind, ChatProviderErrorKind::Status(404));
    assert_eq!(err.to_text(), "API error (404 Not Found): gone");
    assert_eq!(ChatProviderError::new(ChatProviderErrorKind::Other, "x").message, "x");
}

#[test]
fn frames_round_trip() {
    let spawn = Request::Spawn {
        args: vec!["-w".into(), "/srv".into()],
    };
    let encoded = encode(spawn.to_json());
    assert!(encoded.starts_with("BRIDGE1 "), "magic prefix: {encoded}");
    assert_eq!(decode_request(&encoded).unwrap(), spawn);

    let list = encode(Request::ListSessions.to_json());
    assert_eq!(decode_request(&list).unwrap(), Request::ListSessions);

    let version = encode(Request::Version.to_json());
    assert_eq!(version, r#"BRIDGE1 {"op":"version"}"#);
    assert_eq!(decode_request(&version).unwrap(), Request::Version);
}

#[test]
fn an_attach_frame_carries_a_session_or_asks_for_a_new_one() {
    let resume = Request::Attach {
        session: Some("abc".into()),
        args: vec!["--session".into(), "abc".into()],
    };
    let encoded = encode(resume.to_json());
    assert_eq!(decode_request(&encoded).unwrap(), resume);

    // A fresh session names no id: the agent mints one and the ack reports it.
    let fresh = decode_request(r#"BRIDGE1 {"op":"attach"}"#).unwrap();
    assert_eq!(
        fresh,
        Request::Attach {
            session: None,
            args: Vec::new()
        }
    );

    let ack = Reply::attach_ok("abc");
    assert_eq!(encode(ack.to_json()), r#"BRIDGE1 {"ok":true,"session":"abc"}"#);
    assert_eq!(decode_reply(&encode(ack.to_json())).unwrap(), ack);
}

#[test]
fn a_listing_says_which_sessions_are_live_and_stays_quiet_about_the_rest() {
    let cold = SessionEntry {
        id: "a".into(),
        title: "t".into(),
        work_dir: "/w".into(),
        updated_at: Stamp::Real(1.5f64.to_bits()),
        live: false,
    };
    let encoded = encode(Reply::sessions(vec![cold]).to_json());
    assert!(!encoded.contains("live"), "{encoded}");

    let live = decode_reply(
        r#"BRIDGE1 {"ok":true,"sessions":[{"id":"a","title":"t","work_dir":"/w","updated_at":1.5,"live":true}]}"#,
    )
    .unwrap();
    assert!(live.sessions.unwrap()[0].live);

    let old = decode_reply(
        r#"BRIDGE1 {"ok":true,"sessions":[{"id":"a","title":"t","work_dir":"/w","updated_at":1.5}]}"#,
    )
    .unwrap();
    assert!(!old.sessions.unwrap()[0].live);
}

#[test]
fn replies_round_trip() {
    let ok = encode(Reply::spawn_ok().to_json());
    assert_eq!(decode_reply(&ok).unwrap(), Reply::spawn_ok());

    let sessions = Reply::sessions(vec![SessionEntry {
        id: "abc".into(),
        title: "t (abc)".into(),
        work_dir: "/w".into(),
        updated_at: Stamp::Real(1.5f64.to_bits()),
        live: true,
    }]);
    let encoded = encode(sessions.to_json());
    assert_eq!(decode_reply(&encoded).unwrap(), sessions);

    let error = Reply::error("boom");
    assert_eq!(decode_reply(&encode(error.to_json())).unwrap(), error);

    let version = Reply::version("1.8.0");
    assert_eq!(
        encode(version.to_json()),
        r#"BRIDGE1 {"ok":true,"version":"1.8.0","proto":"1.1"}"#
    );
    assert_eq!(decode_reply(&encode(version.to_json())).unwrap(), version);
}

#[test]
fn a_version_reply_separates_the_build_from_the_protocol() {
    let reply = Reply::version("9.9.9");
    assert_eq!(reply.version.as_deref(), Some("9.9.9"));
    assert_eq!(reply.proto.as_deref(), Some(BRIDGE_PROTOCOL_VERSION));
    assert!(
        MAGIC.ends_with(BRIDGE_PROTOCOL_VERSION.split('.').next().unwrap()),
        "the magic's digit is the frame protocol's major"
    );
}

#[test]
fn a_reply_from_before_the_proto_field_still_decodes() {
    let old = r#"BRIDGE1 {"ok":true,"version":"1.8.0"}"#;
    let reply = decode_reply(old).unwrap();
    assert_eq!(reply.version.as_deref(), Some("1.8.0"));
    assert_eq!(reply.proto, None);
}

#[test]
fn a_foreign_magic_is_reported_as_a_version_mismatch() {
    let err = decode_reply(r#"BRIDGE2 {"ok":true}"#).unwrap_err();
    assert!(err.contains("BRIDGE2"), "{err}");
    assert!(err.contains(MAGIC), "{err}");
    assert!(err.contains("not compatible"), "{err}");

    // Something that is not a bridge at all still reads as before.
    let plain = decode_reply(r#"{"ok":true}"#).unwrap_err();
    assert!(plain.contains("not a bridge frame"), "{plain}");
}

#[test]
fn unknown_op_and_missing_magic_are_errors() {
    assert!(decode_request("BRIDGE1 {\"op\":\"dance\"}").is_err());
    assert!(decode_request(r#"{"op":"spawn","args":[]}"#).is_err());
    assert!(decode_request("BRIDGE1 not json").is_err());
    // Wire-protocol JSON (what an agent would send) must never parse as a bridge
    // frame.
    assert!(decode_request(r#"{"jsonrpc":"2.0","method":"initialize"}"#).is_err());
}

#[test]
fn frames_with_faults_say_which() {
    let fault = |raw: &str| Request::from_json(&json(raw)).unwrap_err();
    assert!(matches!(fault(r#"{"op":"dance"}"#), FrameFault::UnknownOp(op) if op == "dance"));
    assert!(matches!(fault("{}"), FrameFault::NoOp));
    assert!(matches!(fault(r#"{"op":"spawn"}"#), FrameFault::BadField));
    assert!(decode_request("BRIDGE1 {}").unwrap_err().starts_with("bad bridge frame: "));
    assert!(decode_request(r#"BRIDGE1 {"op":"spawn"}"#).is_err());
    assert!(decode_request(r#"BRIDGE1 {"op":"spawn","args":[1]}"#).is_err());
    assert!(decode_reply(r#"BRIDGE1 {"version":"1"}"#).is_err());
    assert_eq!(
        frame_payload("BRIDGE1   {}").unwrap(),
        "{}"
    );
}

#[test]
fn lines_are_capped_and_leave_what_follows() {
    let mut reader = LineReader::new();
    assert!(matches!(reader.feed(b"BRIDGE1 "), Step::NeedMore));
    match reader.feed(b"{} \r\n{\"jsonrpc\"") {
        Step::Line { text, consumed } => {
            assert_eq!(text, "BRIDGE1 {}");
            assert_eq!(consumed, 5);
        }
        _ => panic!("a line expected"),
    }
    let mut reader = LineReader::new();
    assert!(matches!(reader.feed(&vec![b'x'; MAX_LINE_BYTES]), Step::NeedMore));
    assert!(matches!(reader.feed(b"x"), Step::TooLong));
    assert!(matches!(LineReader::new().feed(b""), Step::Closed));
    let mut whole = vec![b'x'; MAX_LINE_BYTES];
    whole.push(b'\n');
    assert!(matches!(LineReader::new().feed(&whole), Step::Line { .. }));
    whole.insert(0, b'x');
    assert!(matches!(LineReader::new().feed(&whole), Step::TooLong));
    assert_eq!(Step::TooLong.fault(), Some("line exceeds size limit"));
    assert_eq!(Step::Closed.fault(), Some("connection closed before a complete line"));
    assert_eq!(Step::NeedMore.fault(), None);
}

#[test]
fn it_does_not_matter_in_which_pieces_a_line_arrives() {
    let bytes = b"BRIDGE1 {\"op\":\"version\"}\r\nrest";
    for cut in 1..20 {
        let mut reader = LineReader::new();
        assert!(matches!(reader.feed(&bytes[..cut]), Step::NeedMore));
        match reader.feed(&bytes[cut..]) {
            Step::Line { text, consumed } => {
                assert_eq!(text, r#"BRIDGE1 {"op":"version"}"#);
                assert_eq!(&bytes[cut + consumed..], b"rest");
            }
            _ => panic!("a line expected"),
        }
    }
}

#[test]
fn an_agents_handshake_is_read() {
    assert_eq!(
        text_of(&handshake_message(" secret\n", "1.8.0")),
        r#"{"auth":"secret","client":"dvadva-bridge 1.8.0"}"#
    );
    let reply = read_handshake(&json(r#"{"auth":"ok","session":"abc"}"#)).unwrap();
    assert_eq!(reply.auth, "ok");
    assert_eq!(reply.session.as_deref(), Some("abc"));
    assert_eq!(read_handshake(&json("{}")).unwrap().auth, "");
    assert!(read_handshake(&json(r#"{"auth":1}"#)).is_none());
    assert!(read_handshake(&json("3")).is_none());
}

fn from_toml(value: &toml::Value) -> Json {
    match value {
        toml::Value::String(s) => Json::Str(s.clone()),
        toml::Value::Integer(i) => Json::Int(*i),
        toml::Value::Float(f) => Json::Real(f.to_bits()),
        toml::Value::Boolean(b) => Json::Bool(*b),
        toml::Value::Datetime(d) => Json::Str(d.to_string()),
        toml::Value::Array(items) => Json::Arr(items.iter().map(from_toml).collect()),
        toml::Value::Table(table) => {
            Json::Obj(table.iter().map(|(k, v)| (k.clone(), from_toml(v))).collect())
        }
    }
}

fn parse_text(text: &str) -> Result<ServeConfig, String> {
    let table: toml::Table = toml::from_str(text).map_err(|err| err.to_string())?;
    parse_serve(&from_toml(&toml::Value::Table(table))).ok_or_else(|| "shape".to_string())
}

#[test]
fn reads_the_serve_section_and_ignores_the_other_half() {
    let config = parse_text(
        r#"
            [serve]
            listen = "127.0.0.1:9100"
            work_dir = "/home/kimi"

            [[remotes]]
            name = "vps"
            endpoint = "127.0.0.1:9000"
            "#,
    )
    .expect("parses");
    assert_eq!(config.listen.as_deref(), Some("127.0.0.1:9100"));
    assert_eq!(config.work_dir.as_deref(), Some("/home/kimi"));
    assert_eq!(config.agent_bin, None);
}

#[test]
fn every_shape_of_empty_means_defaults() {
    assert_eq!(parse_text("").unwrap(), ServeConfig::default());
    assert_eq!(parse_text("[serve]").unwrap(), ServeConfig::default());
    // A file that only configures the frontends' half.
    assert_eq!(
        parse_text("[[remotes]]\nname = \"vps\"\nendpoint = \"h:1\"").unwrap(),
        ServeConfig::default()
    );
}

#[test]
fn a_missing_file_is_not_an_error_but_a_broken_one_is() {
    let missing = "this/does/not/exist/bridge.toml";
    assert_eq!(
        load_serve(missing, ConfigRead::Missing, "").unwrap(),
        ServeConfig::default()
    );
    assert!(parse_text("[serve]\nlisten = ").is_err());
}

#[test]
fn a_file_of_the_wrong_shape_is_an_error() {
    assert!(parse_text("[serve]\nlisten = 3").is_err());
    assert!(parse_text("serve = true").is_err());
    assert_eq!(
        load_serve("/f", ConfigRead::Unreadable("denied".into()), "").unwrap_err(),
        "failed to read /f: denied"
    );
    assert_eq!(
        load_serve("/f", ConfigRead::Malformed("no".into()), "").unwrap_err(),
        "/f: invalid bridge config: no"
    );
    let table = ConfigRead::Table(json(r#"{"serve":{"listen":3}}"#));
    assert_eq!(
        load_serve("/f", table, "odd").unwrap_err(),
        "/f: invalid bridge config: odd"
    );
    assert_eq!(path("/s"), "/s/bridge.toml");
}

#[test]
fn a_flag_beats_the_file_and_the_file_the_default() {
    assert_eq!(source(true, true), "flag");
    assert_eq!(source(false, true), "config");
    assert_eq!(source(false, false), "default");
    assert_eq!(resolve_listen(Some("a".into()), Some("b".into())), "a");
    assert_eq!(resolve_listen(None, None), "127.0.0.1:9000");
    assert_eq!(
        resolve_agent_bin(None, None, Some(String::new()), Some("/sib".into())),
        "/sib"
    );
    assert_eq!(resolve_agent_bin(None, Some("c".into()), Some("e".into()), None), "c");
    assert_eq!(resolve_agent_bin(None, None, None, None), "kimi-agent");
    assert_eq!(
        resolve_work_dir(Some("/x".into()), false, None).unwrap_err(),
        "--work-dir `/x` is not an existing directory"
    );
    assert_eq!(resolve_work_dir(None, false, Some("/h".into())), Ok(Some("/h".into())));
}

#[test]
fn every_other_major_is_refused() {
    for line in ["BRIDGE10 {\"op\":\"version\"}", "BRIDGE2 {}", "BRIDGE12x {}", "BRIDGE11"] {
        let why = frame_payload(line).unwrap_err();
        let word = line.split(' ').next().unwrap();
        assert!(why.contains(word) && why.contains(MAGIC) && why.contains("not compatible"), "{why}");
    }
    assert_eq!(frame_payload("BRIDGE1{}").unwrap(), "{}");
    assert_eq!(frame_payload("BRIDGE1 [1]").unwrap(), "[1]");
    assert_eq!(frame_payload("BRIDGE1").unwrap(), "");
    assert_eq!(frame_payload("BRIDGE1\"a\"").unwrap(), "\"a\"");
    assert!(decode_request("BRIDGE1x {}").unwrap_err().starts_with("bad bridge frame: "));
}

#[test]
fn frames_may_be_arrays_and_name_no_field_twice() {
    let request = |raw: &str| Request::from_json(&json(raw));
    assert!(matches!(request(r#"["spawn",["-w","/x"]]"#), Ok(Request::Spawn { args })
        if args == vec!["-w", "/x"]));
    assert!(matches!(request(r#"["attach","s",[]]"#), Ok(Request::Attach { session: Some(s), .. })
        if s == "s"));
    assert!(matches!(request(r#"["spawn",["a"],1]"#), Err(FrameFault::BadField)));
    let twice = Json::Obj(vec![
        ("op".to_string(), Json::Str("spawn".to_string())),
        ("args".to_string(), Json::Arr(vec![])),
        ("args".to_string(), Json::Arr(vec![])),
    ]);
    assert!(matches!(Request::from_json(&twice), Err(FrameFault::BadField)));
    let reply = Reply::from_json(&json(r#"[false,"no"]"#)).unwrap();
    assert_eq!((reply.ok, reply.error.as_deref()), (false, Some("no")));
    let twice = Json::Obj(vec![
        ("ok".to_string(), Json::Bool(true)),
        ("ok".to_string(), Json::Bool(true)),
    ]);
    assert!(Reply::from_json(&twice).is_err());
    assert!(Reply::from_json(&json("[true,null,null,null,null,null,null]")).is_err());
}

#[test]
fn a_response_that_is_cut_short_never_ends() {
    let mut message = OpenAiCompatibleStreamedMessage::new_stream();
    message.ingest_chunk(&json(
        r#"{"choices":[{"delta":{"content":"a","tool_calls":[{"index":0,"id":"c","function":{"name":"f","arguments":"{}"}}]}}]}"#,
    ));
    message.ingest_chunk(&json(r#"{"choices":[{"delta":{"content":"b"},"finish_reason":null}]}"#));
    let mut said = String::new();
    for _ in 0..2 {
        match message.next_part() {
            StreamStep::Part(StreamedMessagePart::Content(ContentPart::Text(part))) => {
                said.push_str(&part);
            }
            _ => panic!("a text expected"),
        }
    }
    assert_eq!(said, "ab");
    assert!(matches!(message.next_part(), StreamStep::NeedBytes));
    message.close();
    for _ in 0..3 {
        match message.next_part() {
            StreamStep::Fail(err) => assert_eq!(err.kind, ChatProviderErrorKind::Connection),
            _ => panic!("a failure expected"),
        }
    }
}

#[test]
fn the_input_is_counted_without_the_output() {
    let usage = TokenUsage {
        input_other: 5,
        output: i64::MAX,
        input_cache_read: 2,
        input_cache_creation: 0,
    };
    assert_eq!(usage.input(), 7);
}

#[test]
fn streamed_bytes_are_read_line_by_line() {
    let mut message = OpenAiCompatibleStreamedMessage::new_stream();
    message.take_bytes(b": ping\n\ndata: {\"id\":\"m\",\"choices\":[{\"delta\":{\"conte").unwrap();
    assert!(matches!(message.next_part(), StreamStep::NeedBytes));
    message.take_bytes(b"nt\":\"hi\"}}]}\ndata: {\"choices\":[{\"delta\":{\"content\":\"!\"}}]}\n").unwrap();
    assert_eq!(message.id().as_deref(), Some("m"));
    assert_eq!(message.parts.len(), 2);
    let err = message.take_bytes(b"data: nonsense\ndata: [DONE]\nrest").unwrap_err();
    assert_eq!(err.kind, ChatProviderErrorKind::Other);
    assert_eq!(err.message, "expected ident at line 1 column 2");
    assert!(!message.finished);
    assert!(matches!(message.take_line(), Ok(LineRead::Done)));
    assert!(message.finished && !message.open && message.buffer == "rest");
    assert!(matches!(message.take_line(), Ok(LineRead::NeedMore)));
    let wide = r#"data: {"usage":{"prompt_tokens":9223372036854775807,"completion_tokens":1,"cached_tokens":-1}}"#;
    let mut message = OpenAiCompatibleStreamedMessage::new_stream();
    let err = message.take_bytes(format!("{wide}\n").as_bytes()).unwrap_err();
    assert_eq!(err.message, "numbers out of range in response");
}

#[test]
fn texts_are_read_and_written_as_values() {
    let text = r#"{"b":[null,true,-1,18446744073709551615,2.5],"a":"\u00e9\n"}"#;
    let value = json(text);
    assert_eq!(value.to_text(), "{\"a\":\"\u{e9}\\n\",\"b\":[null,true,-1,18446744073709551615,2.5]}");
    assert_eq!(Json::Real(f64::NAN.to_bits()).to_text(), "null");
    assert_eq!(Json::from_text("[1,]").unwrap_err(), "trailing comma at line 1 column 4");
    let deep = format!("{}{}", "[".repeat(200), "]".repeat(200));
    assert!(Json::from_text(&deep).unwrap_err().starts_with("recursion limit exceeded"));
}
