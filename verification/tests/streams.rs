use millie::chat_stream::render_incomplete_tool_call;
use millie::chat_stream::tool_call_arguments_complete;
use millie::chat_stream::ChatProgress;
use millie::chat_stream::ChatStream;
use millie::chat_stream::RepeatStop;
use millie::conversation::ResponseItem;
use millie::events::OutputItem;
use millie::events::StreamEvent;
use millie::json::parse;
use millie::prompt::ToolTypes;
use millie::raw_stream::calls_of_completion;
use millie::raw_stream::close;
use millie::raw_stream::interrupted_text;
use millie::raw_stream::is_turn_start;
use millie::raw_stream::parse_final_items;
use millie::raw_stream::token_usage_from_final;
use millie::raw_stream::ItemIds;
use millie::raw_stream::RawStream;
use millie::raw_stream::StreamProgress;
use millie::regions::split_think_block;
use millie::regions::RegionDelta;
use millie::regions::RegionSplitter;
use millie::repetition::RepeatStopParams;
use millie::request::completion_endpoint;
use millie::request::chat_endpoint;
use millie::sse::SseBuffer;

#[derive(Clone, Copy, Debug)]
enum Transport {
    Raw,
    Chat,
    Vllm,
}
const TRANSPORTS: [Transport; 3] = [Transport::Raw, Transport::Chat, Transport::Vllm];

fn ids() -> ItemIds {
    ItemIds { reasoning: "rs_1".to_string(), message: "msg_1".to_string() }
}

fn drive(transport: Transport, body: &str, stop: Option<RepeatStop>) -> (Vec<StreamEvent>, Option<String>) {
    let mut out = Vec::new();
    match transport {
        Transport::Raw => {
            let mut stream = RawStream::new(ids());
            for chunk in body.as_bytes().chunks(7) {
                match stream.on_bytes(chunk, &mut out) {
                    StreamProgress::Running => {}
                    StreamProgress::Failed(error) => return (out, Some(error)),
                    StreamProgress::Finished(last) => {
                        stream.flush(&mut out);
                        let raw = stream.raw_content();
                        let extracted = calls_of_completion(&raw);
                        let floats = extracted
                            .tool_calls
                            .iter()
                            .map(|c| c.arguments.iter().map(|_| None).collect())
                            .collect();
                        let types: Vec<ToolTypes> = Vec::new();
                        let (items, _) =
                            parse_final_items(&raw, &extracted, &types, &floats, &ids(), 1);
                        close(items, &last, &mut out);
                        return (out, None);
                    }
                }
            }
            (out, Some(interrupted_text()))
        }
        Transport::Chat | Transport::Vllm => {
            let mut stream = ChatStream::new(ids(), stop);
            for chunk in body.as_bytes().chunks(7) {
                match stream.on_bytes(chunk, &mut out) {
                    ChatProgress::Running => {}
                    ChatProgress::Failed(error) => return (out, Some(error)),
                    ChatProgress::Ended => break,
                }
            }
            match stream.state.close(&ids(), 1, &mut out) {
                Ok(_) => (out, None),
                Err(error) => (out, Some(error)),
            }
        }
    }
}

fn partial(transport: Transport) -> String {
    let chunk = match transport {
        Transport::Raw => {
            r#"{"content":"thinking</think>partial answer <tool_call>{\"name\":\"shell\",\"arguments\":{}}","stop":false}"#
        }
        Transport::Chat | Transport::Vllm => {
            r#"{"choices":[{"delta":{"content":"partial answer","tool_calls":[{"index":0,"id":"call_1","function":{"name":"shell","arguments":"{}"}}]},"finish_reason":null}]}"#
        }
    };
    format!("data: {chunk}\n\n")
}

fn terminal(transport: Transport, reason: &str) -> String {
    match transport {
        Transport::Raw => format!(
            "data: {{\"content\":\"\",\"stop\":true,\"stop_type\":\"{reason}\",\"tokens_evaluated\":10,\"tokens_predicted\":2}}\n\n"
        ),
        Transport::Chat | Transport::Vllm => format!(
            "data: {{\"choices\":[{{\"delta\":{{}},\"finish_reason\":\"{reason}\"}}]}}\n\ndata: [DONE]\n\n"
        ),
    }
}

fn is_call(event: &StreamEvent) -> bool {
    matches!(event, StreamEvent::Done(OutputItem::FunctionCall { .. }))
}

fn completion(events: &[StreamEvent]) -> Option<(String, bool)> {
    events.iter().find_map(|event| match event {
        StreamEvent::Completed { finish_reason, end_turn, .. } => {
            Some((finish_reason.clone(), *end_turn))
        }
        _ => None,
    })
}

#[test]
fn errors_and_premature_eof_never_complete_or_finalize_tools() {
    for transport in TRANSPORTS {
        for tail in [
            "",
            "data: {\"error\":{\"message\":\"generation failed\"}}\n\n",
            "data: [DONE]\n\n",
            "data: {\"choices\":[{\"delta\":{},\"finish_reason\":\"stop\"}]}\n\n",
        ] {
            let body = format!("{}{tail}", partial(transport));
            let (events, error) = drive(transport, &body, None);
            for event in &events {
                assert!(
                    !matches!(event, StreamEvent::Completed { .. } | StreamEvent::Done(_)),
                    "{transport:?} finalized an interrupted stream"
                );
            }
            let error = error.unwrap_or_else(|| panic!("{transport:?} hid the failure"));
            assert!(error.contains("llama-server"), "{error}");
        }
    }
}

#[test]
fn valid_completion_and_stop_reasons_survive_with_trailing_api_slash() {
    for transport in TRANSPORTS {
        let reasons = if matches!(transport, Transport::Raw) {
            [("eos", "stop", true), ("limit", "length", false), ("repetition", "repetition", false)]
        } else {
            [("stop", "stop", true), ("length", "length", false), ("repetition", "repetition", false)]
        };
        for (stop, expected, ended) in reasons {
            let body = format!("{}{}", partial(transport), terminal(transport, stop))
                .replace('\n', "\r\n");
            let (events, error) = drive(transport, &body, None);
            assert_eq!(error, None);
            assert_eq!(completion(&events), Some((expected.to_string(), ended)));
            if matches!(transport, Transport::Raw) && !ended {
                assert!(!events.iter().any(is_call), "truncated raw response executed a tool");
            }
        }
    }
    assert_eq!(completion_endpoint("http://h:1/v1/"), "http://h:1/completion");
    assert_eq!(chat_endpoint("http://h:1/v1/"), "http://h:1/v1/chat/completions");
}

#[test]
fn intentional_vllm_repetition_stop_does_not_require_server_done() {
    let body: String = (0..24)
        .map(|i| {
            let unit = ["a", "b", "c"][i % 3];
            format!("data: {{\"choices\":[{{\"delta\":{{\"content\":\"{unit}\"}},\"finish_reason\":null}}]}}\n\n")
        })
        .collect();
    let extra = parse(
        r#"{"windows":[12],"min_tokens":12,"min_repeats":3,"coverage":0.8,"stride":1}"#,
    )
    .unwrap();
    let params = RepeatStopParams::from_json(&extra);
    let coverage: f32 = params.coverage.parse::<f64>().unwrap() as f32;
    let enough = (0..=12usize)
        .map(|w| (0..=w).find(|&c| c as f32 / w as f32 >= coverage).unwrap_or(w + 1))
        .collect();
    let (events, error) = drive(Transport::Vllm, &body, Some(RepeatStop { params, enough }));
    assert_eq!(error, None);
    assert_eq!(completion(&events), Some(("repetition".to_string(), false)));
}

#[test]
fn capped_and_repeated_chat_batches_never_finalize_tools() {
    for transport in [Transport::Chat, Transport::Vllm] {
        for reason in ["length", "repetition"] {
            let body = format!("{}{}", partial(transport), terminal(transport, reason));
            let (events, error) = drive(transport, &body, None);
            assert_eq!(error, None);
            assert!(!events.iter().any(is_call), "truncated tool call finalized");
            assert_eq!(completion(&events).map(|(_, ended)| ended), Some(false));
        }
    }
}

#[test]
fn whole_calls_are_handed_on() {
    for transport in TRANSPORTS {
        let stop = if matches!(transport, Transport::Raw) { "eos" } else { "stop" };
        let body = format!("{}{}", partial(transport), terminal(transport, stop));
        let (events, _) = drive(transport, &body, None);
        let calls: Vec<&StreamEvent> = events.iter().filter(|e| is_call(e)).collect();
        assert_eq!(calls.len(), 1, "{transport:?}");
        match calls[0] {
            StreamEvent::Done(OutputItem::FunctionCall { name, arguments, call_id, .. }) => {
                assert_eq!(name, "shell");
                assert_eq!(arguments, "{}");
                assert_eq!(call_id, "call_1");
            }
            other => panic!("{other:?}"),
        }
    }
}

#[test]
fn text_comes_in_pieces_and_then_whole() {
    let body = format!("{}{}", partial(Transport::Raw), terminal(Transport::Raw, "eos"));
    let (events, _) = drive(Transport::Raw, &body, None);
    let shown: String = events
        .iter()
        .filter_map(|e| match e {
            StreamEvent::TextDelta(t) => Some(t.as_str()),
            _ => None,
        })
        .collect();
    assert!(shown.starts_with("partial answer"), "{shown}");
    assert!(events.contains(&StreamEvent::Done(OutputItem::Reasoning {
        id: "rs_1".to_string(),
        text: "thinking".to_string()
    })));
}

#[test]
fn malformed_arguments_end_the_completion_without_a_call() {
    let body = concat_body(&[
        r#"{"choices":[{"delta":{"tool_calls":[{"index":0,"id":"c","function":{"name":"shell","arguments":"{\"a\":"}}]},"finish_reason":null}]}"#,
        r#"{"choices":[{"delta":{},"finish_reason":"tool_calls"}]}"#,
    ]);
    let (events, error) = drive(Transport::Chat, &body, None);
    assert_eq!(error, None);
    assert!(!events.iter().any(is_call));
    assert_eq!(completion(&events), Some(("malformed_tool_call".to_string(), false)));
}

fn concat_body(chunks: &[&str]) -> String {
    let mut body: String = chunks.iter().map(|c| format!("data: {c}\n\n")).collect();
    body.push_str("data: [DONE]\n\n");
    body
}

#[test]
fn complete_json_arguments_pass() {
    assert!(tool_call_arguments_complete(r#"{"path":"a.py","old_str":"x","new_str":"y"}"#));
    assert!(tool_call_arguments_complete("{}"));
}

#[test]
fn truncated_arguments_fail() {
    assert!(!tool_call_arguments_complete(r#"{"path":"a.py","old_str":"def f():\n    retu"#));
    assert!(!tool_call_arguments_complete(""));
    assert!(!tool_call_arguments_complete(r#"{"path":"#));
}

#[test]
fn incomplete_call_rendering_names_the_tool_and_keeps_the_text() {
    let r = render_incomplete_tool_call("str_replace", r#"{"path":"a"#);
    assert!(r.contains("str_replace"));
    assert!(r.contains(r#"{"path":"a"#));
    assert!(r.contains("not executed"));
}

fn msg(role: &str) -> ResponseItem {
    ResponseItem::Message { role: role.to_string(), content: Vec::new() }
}

fn call() -> ResponseItem {
    ResponseItem::FunctionCall {
        id: None,
        name: "read_file".to_string(),
        namespace: None,
        arguments: "{}".to_string(),
        call_id: "c1".to_string(),
    }
}

#[test]
fn user_message_last_is_turn_start() {
    assert!(is_turn_start(&vec![msg("user")]));
}

#[test]
fn context_items_after_user_message_still_turn_start() {
    assert!(is_turn_start(&vec![msg("user"), msg("developer"), ResponseItem::Other]));
}

#[test]
fn mid_tool_loop_is_not_turn_start() {
    assert!(!is_turn_start(&vec![msg("user"), msg("assistant"), call()]));
}

#[test]
fn assistant_reply_after_user_is_not_turn_start() {
    assert!(!is_turn_start(&vec![msg("user"), msg("assistant")]));
}

#[test]
fn tool_call_then_context_item_is_not_turn_start() {
    assert!(!is_turn_start(&vec![msg("user"), call(), ResponseItem::Other]));
}

#[test]
fn no_user_message_is_not_turn_start() {
    assert!(!is_turn_start(&vec![msg("developer")]));
    assert!(!is_turn_start(&Vec::new()));
}

#[test]
fn events_do_not_depend_on_how_bytes_arrive() {
    let body = "data: {\"a\":1}\n\ndata: one\ndata: two\n\n: comment\n\ndata: rest";
    let mut whole = SseBuffer::new();
    let expected = whole.feed(body.as_bytes());
    assert_eq!(expected, vec![" {\"a\":1}", " one", " two"]);
    for size in 1..9 {
        let mut buffer = SseBuffer::new();
        let mut got = Vec::new();
        for chunk in body.as_bytes().chunks(size) {
            got.extend(buffer.feed(chunk));
        }
        assert_eq!(got, expected);
        assert_eq!(buffer.buf, b"data: rest");
    }
}

#[test]
fn completions_do_not_depend_on_how_bytes_arrive() {
    for end in ["\n\n", "\r\n\r\n"] {
        let chat = format!("{}{}", partial(Transport::Chat), terminal(Transport::Chat, "stop"));
        let chat = chat.replace("\n\n", end);
        let raw = format!("{}{}", partial(Transport::Raw), terminal(Transport::Raw, "eos"));
        let raw = raw.replace("\n\n", end);
        let mut whole_chat = ChatStream::new(ids(), None);
        let mut chat_events = Vec::new();
        let ended = whole_chat.on_bytes(chat.as_bytes(), &mut chat_events);
        assert!(matches!(ended, ChatProgress::Ended));
        let mut whole_raw = RawStream::new(ids());
        let mut raw_events = Vec::new();
        let ended = whole_raw.on_bytes(raw.as_bytes(), &mut raw_events);
        assert!(matches!(ended, StreamProgress::Finished(_)));
        for size in 1..20 {
            let mut stream = ChatStream::new(ids(), None);
            let mut events = Vec::new();
            for chunk in chat.as_bytes().chunks(size) {
                if !matches!(stream.on_bytes(chunk, &mut events), ChatProgress::Running) {
                    break;
                }
            }
            assert_eq!(events, chat_events);
            assert_eq!(stream.state.content, "partial answer");
            let mut stream = RawStream::new(ids());
            let mut events = Vec::new();
            for chunk in raw.as_bytes().chunks(size) {
                if !matches!(stream.on_bytes(chunk, &mut events), StreamProgress::Running) {
                    break;
                }
            }
            assert_eq!(events, raw_events);
        }
    }
}

#[test]
fn bytes_that_are_no_text_are_replaced() {
    let mut buffer = SseBuffer::new();
    let got = buffer.feed(b"data: a\xffb\n\n");
    assert_eq!(got, vec![" a\u{fffd}b"]);
}

#[test]
fn thoughts_are_split_from_the_answer() {
    let (thought, answer) = split_think_block("<think>\nhm\n</think>\n\nyes");
    assert!(thought.iter().collect::<String>().contains("hm"));
    assert!(answer.iter().collect::<String>().contains("yes"));
    let (thought, answer) = split_think_block("no marker at all");
    let both = format!(
        "{}{}",
        thought.iter().collect::<String>(),
        answer.iter().collect::<String>()
    );
    assert!(both.contains("no marker at all"));
}

#[test]
fn half_a_marker_is_held_back() {
    let mut splitter = RegionSplitter::new();
    let mut out = Vec::new();
    splitter.push("why</thi", &mut out);
    assert_eq!(out, vec![RegionDelta::Reasoning("why".to_string())]);
    splitter.push("nk>answer<tool", &mut out);
    splitter.push("box", &mut out);
    splitter.finish(&mut out);
    let text: String = out
        .iter()
        .filter_map(|d| match d {
            RegionDelta::Text(t) => Some(t.as_str()),
            _ => None,
        })
        .collect();
    assert_eq!(text, "answer<toolbox");
}

fn shown_in(chunks: &[&str]) -> (String, String) {
    let mut splitter = RegionSplitter::new();
    let mut out = Vec::new();
    for chunk in chunks {
        splitter.push(chunk, &mut out);
    }
    splitter.finish(&mut out);
    let (mut reasoning, mut text) = (String::new(), String::new());
    for delta in out {
        match delta {
            RegionDelta::Reasoning(s) => reasoning.push_str(&s),
            RegionDelta::Text(s) => text.push_str(&s),
        }
    }
    (reasoning, text)
}

#[test]
fn any_chunks_show_the_same() {
    let all = " <think>why</thin</think>an</think>swer<tool<tool_call>\nx</think>y";
    let expected = ("why</thin".to_string(), "an</think>swer<tool".to_string());
    for i in 2..all.len() {
        for j in i..all.len() {
            assert_eq!(shown_in(&[&all[..i], &all[i..j], &all[j..]]), expected, "{i} {j}");
        }
    }
    assert_eq!(
        shown_in(&[&all[..1], &all[1..]]),
        (" <think>why</thin".to_string(), expected.1)
    );
    assert_eq!(shown_in(&["<thi"]), ("<thi".to_string(), String::new()));
    assert_eq!(shown_in(&["a</th", "ink"]), ("a</think".to_string(), String::new()));
    assert_eq!(shown_in(&[]), (String::new(), String::new()));
}

#[test]
fn token_usage_is_read_from_the_last_chunk() {
    let last = parse(r#"{"tokens_evaluated":10,"tokens_predicted":2}"#).unwrap();
    let usage = token_usage_from_final(&last);
    assert_eq!(usage.input_tokens, 10);
    assert_eq!(usage.output_tokens, 2);
    assert_eq!(usage.total_tokens, 12);
}
