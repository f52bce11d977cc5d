use millie::json::parse;
use millie::json::Json;
use millie::model_call_log::configure;
use millie::model_call_log::enabled;
use millie::model_call_log::env_flag;
use millie::model_call_log::path;
use millie::model_call_log::LogEnv;
use millie::model_call_log::ModelCall;
use millie::model_call_log::ModelCallKey;
use millie::model_call_log::ModelCallLog;
use millie::model_call_log::ToolCallNote;
use millie::redaction::headers_to_json;
use millie::redaction::redact_url;
use millie::redaction::should_log_url;
use millie::redaction::should_redact_header;
use millie::redaction::HeaderText;
use millie::redaction::LoggedHeader;
use millie::traffic_log::bytes_body;
use millie::traffic_log::default_run_id;
use millie::traffic_log::env_enabled;
use millie::traffic_log::error_record;
use millie::traffic_log::extract_usage;
use millie::traffic_log::http_request_record;
use millie::traffic_log::http_response_body_record;
use millie::traffic_log::http_response_headers_record;
use millie::traffic_log::http_stream_response_recorder;
use millie::traffic_log::log_dir;
use millie::traffic_log::metadata_from_headers;
use millie::traffic_log::next_exchange_id;
use millie::traffic_log::output_text_from_stream_body;
use millie::traffic_log::output_text_from_value;
use millie::traffic_log::request_body;
use millie::traffic_log::run_id;
use millie::traffic_log::safe_file_component;
use millie::traffic_log::sanitize_for_clean_log;
use millie::traffic_log::stamped;
use millie::traffic_log::stream_aborted_record;
use millie::traffic_log::stream_body;
use millie::traffic_log::text_body;
use millie::traffic_log::websocket_connect_record;
use millie::traffic_log::websocket_connected_record;
use millie::traffic_log::websocket_outgoing_record;
use millie::traffic_log::websocket_response_recorder;
use millie::traffic_log::CleanLog;
use millie::traffic_log::FinishedExchange;
use millie::traffic_log::RequestBody;
use millie::traffic_log::TurnIndices;

fn header(name: &str, value: &str) -> LoggedHeader {
    LoggedHeader { name: name.to_string(), value: HeaderText::Text(value.to_string()) }
}

fn value(text: &str) -> Json {
    parse(text).expect("JSON")
}

#[test]
fn redacts_sensitive_headers() {
    let headers = vec![
        header("authorization", "Bearer secret"),
        header("cookie", "session=secret"),
        header("x-safe", "visible"),
    ];
    let value = headers_to_json(&headers);
    assert_eq!(value.str_at("authorization"), Some("[REDACTED]"));
    assert_eq!(value.str_at("cookie"), Some("[REDACTED]"));
    assert_eq!(value.str_at("x-safe"), Some("visible"));
}

#[test]
fn redacts_sensitive_query_params() {
    let redacted = redact_url("https://example.test/v1/responses?api_key=secret&safe=value");
    assert_eq!(
        redacted,
        "https://example.test/v1/responses?api_key=[REDACTED]&safe=value"
    );
}

#[test]
fn only_secret_parts_are_kept_out() {
    assert_eq!(redact_url("https://h.test/a"), "https://h.test/a");
    assert_eq!(redact_url("u?SIG=a=b&key&Token="), "u?SIG=[REDACTED]&key&Token=[REDACTED]");
    assert_eq!(redact_url("u?design=1"), "u?design=1");
    assert!(should_redact_header("X-Api-Key"));
    assert!(should_redact_header("Set-Cookie"));
    assert!(!should_redact_header("cookies"));
    let odd = vec![LoggedHeader { name: "x".to_string(), value: HeaderText::Binary(3) }];
    assert_eq!(headers_to_json(&odd).to_text(), r#"{"x":"<non-utf8: 3 bytes>"}"#);
    assert!(should_log_url("https://h.test/v1/responses"));
}

#[test]
fn bodies_are_logged_as_values() {
    assert_eq!(text_body("{\"a\":1}").to_text(), "{\"a\":1}");
    assert_eq!(text_body("no json").to_text(), "\"no json\"");
    assert_eq!(bytes_body(b"[true]").to_text(), "[true]");
    assert_eq!(
        bytes_body(&[0xff, 0xfe]).to_text(),
        r#"{"encoding":"binary","bytes":2}"#
    );
    assert_eq!(
        stream_body(b"event: x\ndata: {\"a\":1}\n\ndata: plain\ndata: [DONE]\n").to_text(),
        r#"[{"a":1},"plain"]"#
    );
    assert_eq!(stream_body(b"data: [DONE]\n").to_text(), "\"data: [DONE]\\n\"");
    assert_eq!(request_body(&RequestBody::Empty).to_text(), "null");
    assert_eq!(request_body(&RequestBody::Raw(b"x".to_vec())).to_text(), "\"x\"");
}

#[test]
fn output_text_is_gathered() {
    let all = value(
        r#"{"output_text":"a","type":"response.output_text.delta","delta":"b","choices":[{"delta":{"content":"c"},"message":{"content":"d"},"text":"e"}],"output":[{"content":[{"text":"f"}]}]}"#,
    );
    assert_eq!(output_text_from_value(&all), "abcdef");
    let done = value(r#"{"output_text":"a","type":"response.output_text.done","text":"t"}"#);
    assert_eq!(output_text_from_value(&done), "t");
    let stream = b"data: {\"type\":\"response.output_text.delta\",\"delta\":\"x\"}\ndata: {\"type\":\"response.output_text.done\",\"text\":\"whole\"}\n";
    assert_eq!(output_text_from_stream_body(stream), "whole");
    assert_eq!(output_text_from_stream_body(&[0xff]), "");
}

#[test]
fn records_name_their_exchange() {
    let mut counter = 7u64;
    assert_eq!(next_exchange_id(&mut counter), 7);
    assert_eq!(next_exchange_id(&mut counter), 8);
    let mut last = u64::MAX;
    assert_eq!(next_exchange_id(&mut last), u64::MAX);
    assert_eq!(next_exchange_id(&mut last), 0);
    let headers = vec![header("x-safe", "v")];
    assert_eq!(
        http_request_record(1, "POST", "u?key=k", &headers, &Json::Null).to_text(),
        r#"{"type":"llm_request","id":1,"transport":"http","method":"POST","url":"u?key=[REDACTED]","headers":{"x-safe":"v"},"request":null}"#
    );
    assert_eq!(
        http_response_headers_record(1, 200, &headers).to_text(),
        r#"{"type":"llm_http_response_headers","id":1,"status":200,"headers":{"x-safe":"v"}}"#
    );
    let (record, response, text) = http_response_body_record(2, br#"{"output_text":"hi"}"#);
    assert_eq!(
        record.to_text(),
        r#"{"type":"llm_response","id":2,"transport":"http","response":{"output_text":"hi"},"output_text":"hi"}"#
    );
    assert_eq!(response.to_text(), r#"{"output_text":"hi"}"#);
    assert_eq!(text, "hi");
    assert_eq!(
        stream_aborted_record(3, "cut").to_text(),
        r#"{"type":"llm_response","id":3,"transport":"http_stream","error":"cut"}"#
    );
    assert_eq!(
        error_record(4, "bad").to_text(),
        r#"{"type":"llm_error","id":4,"error":"bad"}"#
    );
    assert_eq!(
        websocket_connect_record(5, "u", &headers).to_text(),
        r#"{"type":"llm_connection","id":5,"transport":"websocket","phase":"connect","url":"u","headers":{"x-safe":"v"}}"#
    );
    assert_eq!(
        websocket_connected_record(5, 101, &headers).to_text(),
        r#"{"type":"llm_connection","id":5,"transport":"websocket","phase":"connected","status":101,"headers":{"x-safe":"v"}}"#
    );
    let (record, request) = websocket_outgoing_record(6, "{\"a\":1}");
    assert_eq!(
        record.to_text(),
        r#"{"type":"llm_request","id":6,"transport":"websocket","request":{"a":1}}"#
    );
    assert_eq!(request.to_text(), r#"{"a":1}"#);
    assert_eq!(
        stamped(error_record(4, "bad"), "run", 9).to_text(),
        r#"{"type":"llm_error","id":4,"error":"bad","run_id":"run","ts_ms":9}"#
    );
}

#[test]
fn streams_are_recorded_when_they_end() {
    let mut recorder = http_stream_response_recorder(3);
    recorder.append(b"data: {\"output_text\":");
    recorder.append(b"\"hi\"}\n");
    let (record, body, text) = recorder.finish();
    assert_eq!(text, "hi");
    assert_eq!(body.to_text(), r#"[{"output_text":"hi"}]"#);
    assert_eq!(
        record.to_text(),
        r#"{"type":"llm_response","id":3,"transport":"http_stream","response":[{"output_text":"hi"}],"output_text":"hi"}"#
    );

    let mut socket = websocket_response_recorder(4);
    socket.ingest("not json");
    socket.ingest(r#"{"type":"response.output_text.delta","delta":"a"}"#);
    socket.ingest(r#"{"type":"response.output_item.done","item":{"k":1}}"#);
    socket.ingest(r#"{"type":"response.completed","response":{}}"#);
    let (record, completed, text, items) = socket.finish();
    assert_eq!(
        record.to_text(),
        r#"{"type":"llm_response","id":4,"transport":"websocket","output_text":"a","output_items":[{"k":1}],"completed":{"response":{},"type":"response.completed"}}"#
    );
    assert!(completed.is_some());
    assert_eq!(text, "a");
    assert_eq!(items.to_text(), r#"[{"k":1}]"#);
    socket.ingest(r#"{"type":"response.output_text.done","text":"whole"}"#);
    socket.abort("gone");
    let (_, completed, text, _) = socket.finish();
    assert_eq!(text, "whole");
    assert_eq!(completed.unwrap().to_text(), r#"{"type":"error","error":"gone"}"#);
}

#[test]
fn turns_are_numbered_per_conversation() {
    let mut turns = TurnIndices::new();
    assert_eq!(turns.take_index("c", "t1"), 0);
    assert_eq!(turns.take_index("c", "t2"), 1);
    assert_eq!(turns.take_index("c", "t1"), 0);
    assert_eq!(turns.take_index("d", "t1"), 0);
    let enriched = turns.enrich_turn_metadata(value(r#"{"thread_id":"c","turn_id":"t3"}"#));
    assert_eq!(enriched.str_at("conversation_id"), Some("c"));
    assert_eq!(enriched.i64_at("turn_index"), Some(2));
    let bare = turns.enrich_turn_metadata(value(r#"{"turn_id":"t3"}"#));
    assert_eq!(bare.to_text(), r#"{"turn_id":"t3"}"#);
    let blank = turns.enrich_turn_metadata(value(r#"{"session_id":"c","turn_id":""}"#));
    assert!(blank.get("turn_index").is_none());
}

#[test]
fn metadata_is_taken_from_its_header() {
    let headers = vec![header("a", "b"), header("x-codex-turn-metadata", r#"{"turn_id":"t"}"#)];
    assert_eq!(
        metadata_from_headers(&headers).unwrap().to_text(),
        r#"{"turn_id":"t"}"#
    );
    assert!(metadata_from_headers(&vec![header("x-codex-turn-metadata", "{")]).is_none());
    assert!(metadata_from_headers(&Vec::new()).is_none());
}

#[test]
fn exchanges_are_logged_whole() {
    let mut log = CleanLog::new("run".to_string());
    log.remember_request(1, &value(r#"{"model":"m","encrypted_content":"abc"}"#));
    log.remember_exchange_metadata(1, Some(value(r#"{"thread_id":"c","turn_id":"t"}"#)));
    let done = FinishedExchange {
        transport: "http".to_string(),
        response: Some(value(r#"{"usage":{"n":1}}"#)),
        output_text: Some("hi".to_string()),
        output_items: None,
        error: None,
    };
    let record = log.finish_exchange(1, &done, 5).unwrap();
    assert_eq!(record.str_at("type"), Some("model_call"));
    assert_eq!(record.str_at("model"), Some("m"));
    assert_eq!(
        record.get("request").unwrap().str_at("encrypted_content"),
        Some("[omitted encrypted_content: 3 chars]")
    );
    assert_eq!(record.get("metadata").unwrap().i64_at("turn_index"), Some(0));
    let response = record.get("response").unwrap();
    assert_eq!(response.str_at("output_text"), Some("hi"));
    assert_eq!(response.get("usage").unwrap().to_text(), r#"{"n":1}"#);
    assert!(matches!(record.get("error"), Some(Json::Null)));
    let nothing = FinishedExchange {
        transport: "unknown".to_string(),
        response: None,
        output_text: Some("x".to_string()),
        output_items: None,
        error: None,
    };
    assert!(log.finish_exchange(1, &nothing, 6).is_none());
}

#[test]
fn encrypted_content_is_left_out_of_the_clean_log() {
    assert_eq!(
        sanitize_for_clean_log(&value(r#"[{"encrypted_content":[1,2],"k":{"encrypted_content":"é"}}]"#))
            .to_text(),
        r#"[{"encrypted_content":"[omitted encrypted_content: 5 chars]","k":{"encrypted_content":"[omitted encrypted_content: 2 chars]"}}]"#
    );
    assert_eq!(extract_usage(&value(r#"{"response":{"usage":2}}"#)).unwrap().to_text(), "2");
    assert_eq!(
        extract_usage(&value(r#"{"completed":{"response":{"usage":3}}}"#)).unwrap().to_text(),
        "3"
    );
    assert!(extract_usage(&value("[]")).is_none());
}

#[test]
fn log_files_are_named_after_the_run() {
    for on in ["1", " TRUE ", "yes", "On"] {
        assert!(env_enabled(Some(on)));
    }
    assert!(!env_enabled(Some("2")));
    assert!(!env_enabled(None));
    assert_eq!(log_dir(Some("a"), Some("b"), Some("/h"), "/t"), "a");
    assert_eq!(log_dir(None, Some("b"), Some("/h"), "/t"), "b");
    assert_eq!(log_dir(None, None, Some("/h"), "/t"), "/h/.millie/llm-traffic");
    assert_eq!(log_dir(None, None, None, "/t"), "/t");
    assert_eq!(default_run_id(12, 34), "12-p34");
    assert_eq!(safe_file_component("/a b.c_d-/", "x"), "a-b.c_d");
    assert_eq!(safe_file_component("//", "x"), "x");
    assert_eq!(run_id(Some(" my run "), "x"), "my-run");
    assert_eq!(run_id(Some("  "), "x"), "x");
    assert_eq!(run_id(None, "x"), "x");
}

fn key(ordinal: u64) -> ModelCallKey {
    ModelCallKey { thread_id: "t".into(), turn_id: "u".into(), call_ordinal: ordinal }
}

#[test]
fn key_json_has_all_parts() {
    let k = ModelCallKey { thread_id: "t".into(), turn_id: "u".into(), call_ordinal: 3 };
    let v = k.to_json();
    assert_eq!(v.str_at("thread_id"), Some("t"));
    assert_eq!(v.str_at("turn_id"), Some("u"));
    assert_eq!(v.i64_at("call_ordinal"), Some(3));
}

#[test]
fn env_flag_parses_common_spellings() {
    assert_eq!(env_flag(Some("off")), Some(false));
    assert_eq!(env_flag(Some("1")), Some(true));
    assert_eq!(env_flag(None), None);
}

#[test]
fn unknown_spellings_switch_the_log_on() {
    assert_eq!(env_flag(Some(" maybe ")), Some(true));
    assert_eq!(env_flag(Some("  ")), Some(false));
    assert_eq!(env_flag(Some("OFF")), Some(true));
}

fn no_env() -> LogEnv {
    LogEnv { enabled: None, dir: None, millie_home: None, home: None }
}

fn call() -> ModelCall {
    ModelCall {
        transport: "raw".to_string(),
        request: Json::Null,
        raw_generation: Some("gen".to_string()),
        reasoning: "why".to_string(),
        content: "what".to_string(),
        tool_calls: Vec::new(),
        finish_reason: Some("stop".to_string()),
        usage: None,
        error: None,
    }
}

#[test]
fn the_environment_wins_over_the_configuration() {
    let mut log = ModelCallLog::new();
    assert_eq!(log.wanted_dir(&no_env()), None);
    configure(&mut log, true, "/cfg".to_string());
    configure(&mut log, false, "/later".to_string());
    assert_eq!(log.wanted_dir(&no_env()).as_deref(), Some("/cfg"));
    let off = LogEnv { enabled: Some("0".to_string()), ..no_env() };
    assert_eq!(log.wanted_dir(&off), None);
    let elsewhere = LogEnv { dir: Some("/env".to_string()), ..no_env() };
    assert_eq!(log.wanted_dir(&elsewhere).as_deref(), Some("/env"));
    let fresh = ModelCallLog::new();
    let home = LogEnv {
        enabled: Some("1".to_string()),
        home: Some("/h".to_string()),
        ..no_env()
    };
    assert_eq!(fresh.wanted_dir(&home).as_deref(), Some("/h/.millie/model-calls"));
}

#[test]
fn calls_are_recorded_once_the_log_is_open() {
    let mut log = ModelCallLog::new();
    assert!(log.record_model_call(&key(0), &call(), 1).is_empty());
    log.start(Some("/logs"), "run".to_string());
    assert!(enabled(&log));
    assert_eq!(path(&log).as_deref(), Some("/logs/model-calls-run.jsonl"));
    let records = log.record_model_call(&key(0), &call(), 1);
    assert_eq!(
        records[0].to_text(),
        r#"{"key":{"thread_id":"t","turn_id":"u","call_ordinal":0},"transport":"raw","request":null,"raw_generation":"gen","response":{"reasoning":"why","content":"what","tool_calls":[],"finish_reason":"stop","usage":null},"error":null,"type":"model_call","run_id":"run","ts_ms":1}"#
    );
    assert_eq!(records.len(), 1);
    let again = log.record_model_call(&key(0), &call(), 2);
    assert_eq!(again.len(), 2);
    assert_eq!(again[0].str_at("type"), Some("anomaly"));
    assert_eq!(log.record_model_call(&key(1), &call(), 3).len(), 1);
    let note = ToolCallNote {
        call_id: "c".to_string(),
        tool_name: "shell".to_string(),
        arguments: "{}".to_string(),
        output_preview: "ok".to_string(),
        success: true,
        aborted: false,
    };
    assert_eq!(
        log.record_tool_call(&key(0), &note, 4).unwrap().to_text(),
        r#"{"key":{"thread_id":"t","turn_id":"u","call_ordinal":0},"call_id":"c","tool":"shell","arguments":"{}","output_preview":"ok","success":true,"aborted":false,"type":"tool_call","run_id":"run","ts_ms":4}"#
    );
    assert_eq!(
        log.record_event("note", &key(0), &None, &Json::Bool(true), 5).unwrap().to_text(),
        r#"{"key":{"thread_id":"t","turn_id":"u","call_ordinal":0},"call_id":null,"payload":true,"type":"note","run_id":"run","ts_ms":5}"#
    );
}

#[test]
fn a_log_that_cannot_be_opened_stays_off() {
    let mut log = ModelCallLog::new();
    log.start(None, "run".to_string());
    log.start(Some("/logs"), "run".to_string());
    assert!(!enabled(&log));
    assert_eq!(path(&log), None);
    assert!(log.record_event("k", &key(0), &None, &Json::Null, 1).is_none());
}
