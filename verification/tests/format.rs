use millie::prompt::marker_text;
use millie::chat::build_chat_messages;
use millie::chat::chat_tools_json;
use millie::conversation::ContentItem;
use millie::conversation::FunctionCallOutputBody;
use millie::conversation::FunctionCallOutputContentItem;
use millie::conversation::ReasoningItemContent;
use millie::conversation::ResponseItem;
use millie::conversation::ResponsesApiTool;
use millie::conversation::ToolSpec;
use millie::grammar::tool_call_grammar;
use millie::json::ordered_object_pairs;
use millie::json::parse;
use millie::json::Json;
use millie::prompt::collect_media;
use millie::prompt::flatten_tool_name;
use millie::prompt::unflatten_tool_name;
use millie::prompt::tool_param_types;
use millie::render::render_prompt;
use millie::render::serialize_tool_calls;
use millie::render::FlatToolCall;
use millie::render::RenderOptions;
use millie::tool_call::arguments_to_json_string;
use millie::tool_call::coerce_param_value;
use millie::tool_call::extract_tool_calls;
use millie::tool_call::FloatReading;
use millie::tool_call::ParsedToolCall;
use millie::tool_specs::create_create_file_tool;
use millie::tool_specs::create_delete_file_tool;
use millie::tool_specs::create_str_replace_tool;

#[test]
fn no_function_prefix_is_plain_content() {
    let result = extract_tool_calls("just a normal answer, no tools here");
    assert!(!result.tools_called);
    assert_eq!(result.content.as_deref(), Some("just a normal answer, no tools here"));
}

#[test]
fn parses_single_tool_call_with_content_before() {
    let output = "Let me check that.\n\n<tool_call>\n<function=fetch_url>\n<parameter=url>\nhttps://example.com\n</parameter>\n</function>\n</tool_call>";
    let result = extract_tool_calls(output);
    assert!(result.tools_called);
    assert_eq!(result.tool_calls.len(), 1);
    assert_eq!(result.tool_calls[0].name, "fetch_url");
    assert_eq!(
        result.tool_calls[0].arguments,
        vec![("url".to_string(), "https://example.com".to_string())]
    );
    assert_eq!(result.content.as_deref(), Some("Let me check that.\n\n"));
}

#[test]
fn parses_multiple_parallel_tool_calls() {
    let output = "<tool_call>\n<function=a>\n<parameter=x>\n1\n</parameter>\n</function>\n</tool_call>\n<tool_call>\n<function=b>\n<parameter=y>\n2\n</parameter>\n</function>\n</tool_call>";
    let result = extract_tool_calls(output);
    assert_eq!(result.tool_calls.len(), 2);
    assert_eq!(result.tool_calls[0].name, "a");
    assert_eq!(result.tool_calls[1].name, "b");
}

#[test]
fn multiline_parameter_value_is_preserved() {
    let output = "<tool_call>\n<function=write>\n<parameter=content>\nline one\nline two\n</parameter>\n</function>\n</tool_call>";
    let result = extract_tool_calls(output);
    assert_eq!(
        result.tool_calls[0].arguments,
        vec![("content".to_string(), "line one\nline two".to_string())]
    );
}

#[test]
fn unclosed_trailing_tool_call_still_parses() {
    let output = "<tool_call>\n<function=fetch_url>\n<parameter=url>\nhttps://x.test\n</parameter>\n</function>\n</tool_call";
    let result = extract_tool_calls(output);
    assert!(result.tools_called);
    assert_eq!(result.tool_calls[0].name, "fetch_url");
}

#[test]
fn coerces_types_per_schema() {
    assert_eq!(coerce_param_value("42", Some("integer"), &None).to_text(), "42");
    assert_eq!(coerce_param_value("true", Some("boolean"), &None).to_text(), "true");
    assert_eq!(
        coerce_param_value("not a bool", Some("boolean"), &None).to_text(),
        "\"not a bool\""
    );
    assert_eq!(coerce_param_value("hello", None, &None).to_text(), "\"hello\"");
}

#[test]
fn integers_are_read_exactly_or_left_alone() {
    for (raw, expected) in [
        ("3.0", "3"),
        (" -3.000 ", "-3"),
        ("+7", "7"),
        ("1e3", "1000"),
        ("1.5e1", "15"),
        ("120e-1", "12"),
        (".0", "0"),
        ("5.", "5"),
        ("-0.0", "0"),
        ("0e99999999999999999999999999999999999999999", "0"),
        ("9007199254740993.0", "9007199254740993"),
        ("9223372036854775807.0", "9223372036854775807"),
        ("-9223372036854775808", "-9223372036854775808"),
        ("9223372036854775808", "\"9223372036854775808\""),
        ("1e30", "\"1e30\""),
        ("1e99999999999999999999999999999999999999999", "\"1e99999999999999999999999999999999999999999\""),
        ("1e-400", "\"1e-400\""),
        ("1.5", "\"1.5\""),
        (" x ", "\" x \""),
        ("1e", "\"1e\""),
        (".", "\".\""),
        ("", "\"\""),
        ("1.2.3", "\"1.2.3\""),
        ("inf", "\"inf\""),
    ] {
        assert_eq!(coerce_param_value(raw, Some("integer"), &None).to_text(), expected, "{raw}");
    }
}

#[test]
fn fractions_are_read_by_the_caller() {
    let half = Some(FloatReading { whole: None, json: Some("0.5".to_string()) });
    assert_eq!(coerce_param_value("0.5", Some("number"), &half).to_text(), "0.5");
    let two = Some(FloatReading { whole: Some(2), json: Some("2.0".to_string()) });
    assert_eq!(coerce_param_value("2.0", Some("number"), &two).to_text(), "2");
    assert_eq!(coerce_param_value("x", Some("number"), &None).to_text(), "\"x\"");
    assert_eq!(
        coerce_param_value("{\"a\": [1, 2]}", Some("object"), &None).to_text(),
        "{\"a\":[1,2]}"
    );
}

#[test]
fn json_form_tool_call_parses() {
    let out = "I'll write the file.\n<tool_call>\n{\"name\": \"shell\", \"arguments\": {\"cmd\": \"printf '14' > out.txt\"}}\n</tool_call>";
    let ex = extract_tool_calls(out);
    assert!(ex.tools_called);
    assert_eq!(ex.tool_calls.len(), 1);
    assert_eq!(ex.tool_calls[0].name, "shell");
    assert_eq!(ex.tool_calls[0].arguments[0].1, "printf '14' > out.txt");
}

#[test]
fn json_form_arguments_keep_their_order() {
    let pair = |k: &str, v: &str| (k.to_string(), v.to_string());
    for out in [
        "<tool_call>{\"name\": \"t\", \"arguments\": {\"z\": \"1\", \"a\": {\"y\": 1}, \"m\": 2}, \"call_id\": \"c\"}</tool_call>",
        "<tool_call>{\"arguments\": \"{\\\"z\\\": \\\"1\\\", \\\"a\\\": {\\\"y\\\": 1}, \\\"m\\\": 2}\", \"call_id\": \"c\", \"name\": \"t\"}</tool_call>",
    ] {
        let ex = extract_tool_calls(out);
        assert_eq!(ex.tool_calls[0].call_id.as_deref(), Some("c"));
        assert_eq!(
            ex.tool_calls[0].arguments,
            vec![pair("z", "1"), pair("a", "{\"y\":1}"), pair("m", "2")]
        );
    }
    let twice = extract_tool_calls("<tool_call>{\"name\":\"t\",\"arguments\":{\"b\":1,\"a\":2,\"b\":3}}</tool_call>");
    assert_eq!(twice.tool_calls[0].arguments, vec![pair("b", "3"), pair("a", "2")]);
}

#[test]
fn hybrid_garbage_does_not_mint_a_call() {
    let out = "<tool_call><function=exec_command\",\"arguments\":{\"cmd\":\"printf '14' > out.txt\"}}</function></tool_call>";
    let ex = extract_tool_calls(out);
    assert!(ex.tool_calls.iter().all(|c| !c.name.contains('"')));
}

#[test]
fn xml_form_still_parses() {
    let out = "<tool_call>\n<function=shell>\n<parameter=cmd>\nls\n</parameter>\n</function>\n</tool_call>";
    let ex = extract_tool_calls(out);
    assert!(ex.tools_called);
    assert_eq!(ex.tool_calls[0].name, "shell");
}

#[test]
fn arguments_string_preserves_generation_order() {
    let call = ParsedToolCall {
        name: "create_file".to_string(),
        arguments: vec![
            ("path".to_string(), "a.txt".to_string()),
            ("content".to_string(), "hello".to_string()),
        ],
        call_id: None,
    };
    let types = vec![
        ("path".to_string(), "string".to_string()),
        ("content".to_string(), "string".to_string()),
    ];
    let s = arguments_to_json_string(&call, &types, &vec![None, None]);
    assert_eq!(s, "{\"path\":\"a.txt\",\"content\":\"hello\"}");
}

#[test]
fn ordered_pairs_preserve_document_order() {
    let pairs = ordered_object_pairs("{\"zeta\":\"1\",\"alpha\":\"2\"}").unwrap();
    let keys: Vec<&str> = pairs.iter().map(|(k, _)| k.as_str()).collect();
    assert_eq!(keys, vec!["zeta", "alpha"]);
}

#[test]
fn ordered_pairs_none_on_non_object() {
    assert!(ordered_object_pairs("[1,2]").is_none());
    assert!(ordered_object_pairs("not json").is_none());
}

#[test]
fn ordered_pairs_keep_nested_values() {
    let pairs = ordered_object_pairs(" { \"b\" : [1, {\"c\": null}] , \"a\":\"x\\n\" } ").unwrap();
    assert_eq!(pairs[0].1.to_text(), "[1,{\"c\":null}]");
    assert_eq!(pairs[1].1.as_str(), Some("x\n"));
    assert!(ordered_object_pairs("{\"a\":1,}").is_none());
    assert!(ordered_object_pairs("{\"a\":1} x").is_none());
    assert!(ordered_object_pairs("{} x").is_none());
    assert_eq!(ordered_object_pairs("{\"a\":1} \n").unwrap().len(), 1);
    assert_eq!(ordered_object_pairs("{}").unwrap().len(), 0);
    let nested = |n: usize| format!("{{\"a\":{}{}}}", "[".repeat(n), "]".repeat(n));
    assert_eq!(ordered_object_pairs(&nested(126)).unwrap().len(), 1);
    assert!(ordered_object_pairs(&nested(127)).is_none());
    let called = |n: usize| {
        let arguments = Json::text(&nested(n)).to_text();
        let text = format!("<tool_call>{{\"name\":\"f\",\"arguments\":{arguments}}}</tool_call>");
        extract_tool_calls(&text).tool_calls[0].arguments.len()
    };
    assert_eq!(called(126), 1);
    assert_eq!(called(127), 0);
}

#[test]
fn calls_come_back_from_what_the_model_is_shown() {
    let calls = vec![
        FlatToolCall {
            name: "write".to_string(),
            arguments: vec![
                ("path".to_string(), Json::text("a.txt")),
                ("lines".to_string(), parse("[1,2]").unwrap()),
                ("content".to_string(), Json::text("\none\n\n<tool_call>\n")),
            ],
        },
        FlatToolCall { name: "done".to_string(), arguments: Vec::new() },
    ];
    for content in ["", "  \n", "Some words."] {
        let text = format!("{content}{}", serialize_tool_calls(&calls, !content.trim().is_empty()));
        let ex = extract_tool_calls(&text);
        assert_eq!(ex.tool_calls.len(), 2);
        assert_eq!(ex.tool_calls[0].name, "write");
        assert_eq!(ex.tool_calls[0].arguments[0].1, "a.txt");
        assert_eq!(ex.tool_calls[0].arguments[1].1, "[1,2]");
        assert_eq!(ex.tool_calls[0].arguments[2].1, "\none\n\n<tool_call>\n");
        assert_eq!(ex.tool_calls[1].name, "done");
        assert!(ex.tool_calls[1].arguments.is_empty());
    }
}

fn shell_tools() -> Vec<Json> {
    vec![parse(
        r#"{"name": "shell", "parameters": {"properties": {"cmd": {"type": "string"}, "timeout": {"type": "number"}}}}"#,
    )
    .unwrap()]
}

#[test]
fn builds_rules_for_each_tool_and_param() {
    let g = tool_call_grammar(&shell_tools()).unwrap();
    assert!(g.contains("root ::="));
    assert!(g.contains("func-shell ::= \"<function=shell>"));
    assert!(g.contains("param-shell-cmd ::= \"<parameter=cmd>"));
    assert!(g.contains("param-shell-timeout"));
}

#[test]
fn names_in_rules_are_escaped() {
    let tools = vec![parse(
        r#"{"name": "a\"b\\c", "parameters": {"properties": {"p\nq\"": {"type": "string"}}}}"#,
    )
    .unwrap()];
    let g = tool_call_grammar(&tools).unwrap();
    assert!(g.contains("::= \"<function=a\\\"b\\\\c>"), "{g}");
    assert!(g.contains("::= \"<parameter=p\\nq\\\">"), "{g}");
}

#[test]
fn no_tools_no_grammar() {
    assert!(tool_call_grammar(&Vec::new()).is_none());
}

fn user(text: &str) -> ResponseItem {
    ResponseItem::Message {
        role: "user".to_string(),
        content: vec![ContentItem::InputText { text: text.to_string() }],
    }
}

fn function_call(name: &str, arguments: &str, call_id: &str) -> ResponseItem {
    ResponseItem::FunctionCall {
        id: None,
        name: name.to_string(),
        namespace: None,
        arguments: arguments.to_string(),
        call_id: call_id.to_string(),
    }
}

fn output(call_id: &str, text: &str, success: Option<bool>) -> ResponseItem {
    ResponseItem::FunctionCallOutput {
        call_id: call_id.to_string(),
        body: FunctionCallOutputBody::Text(text.to_string()),
        success,
    }
}

fn first_call(message: &Json) -> &Json {
    &message.array_at("tool_calls").unwrap()[0]
}

#[test]
fn call_and_result_round_trip_with_original_argument_bytes() {
    let args = "{\"cmd\":\"ls\",\"workdir\":\"/workspace\"}";
    let input = vec![
        user("do it"),
        function_call("exec_command", args, "call_1"),
        output("call_1", "done", Some(true)),
    ];
    let msgs = build_chat_messages("SYS", &input, false);
    assert_eq!(msgs[0].str_at("role"), Some("system"));
    assert_eq!(msgs[1].str_at("role"), Some("user"));
    let call_msg = &msgs[2];
    assert_eq!(call_msg.str_at("role"), Some("assistant"));
    assert!(matches!(call_msg.get("content"), Some(Json::Null)));
    let call = first_call(call_msg);
    assert_eq!(call.get("function").unwrap().str_at("arguments"), Some(args));
    assert_eq!(call.str_at("id"), Some("call_1"));
    let tool_msg = &msgs[3];
    assert_eq!(tool_msg.str_at("role"), Some("tool"));
    assert_eq!(tool_msg.str_at("tool_call_id"), Some("call_1"));
    assert_eq!(tool_msg.str_at("content"), Some("done"));
}

#[test]
fn primer_present_regardless_of_history_for_stable_prefix() {
    let input = vec![user("hi")];
    let msgs = build_chat_messages("SYS", &input, true);
    assert_eq!(msgs.len(), 6);
    assert_eq!(msgs[1].str_at("role"), Some("user"));
    assert_eq!(first_call(&msgs[2]).str_at("id"), Some("call_formatPrimer0001"));

    let seeded = vec![user("hi"), function_call("exec_command", "{}", "call_9")];
    let msgs = build_chat_messages("SYS", &seeded, true);
    assert!(msgs.iter().any(|m| {
        m.array_at("tool_calls")
            .is_some_and(|c| c[0].str_at("id") == Some("call_formatPrimer0001"))
    }));
}

#[test]
fn reasoning_folds_into_following_call() {
    let input = vec![
        user("go"),
        ResponseItem::Reasoning {
            content: Some(vec![ReasoningItemContent::ReasoningText {
                text: "thinking...".to_string(),
            }]),
        },
        function_call("exec_command", "{}", "call_2"),
    ];
    let msgs = build_chat_messages("SYS", &input, false);
    let a = &msgs[2];
    assert_eq!(a.str_at("role"), Some("assistant"));
    assert_eq!(a.str_at("reasoning_content"), Some("thinking..."));
    assert_eq!(first_call(a).str_at("id"), Some("call_2"));
}

fn plain() -> RenderOptions {
    RenderOptions { tools_block: false, format_primer: false }
}

#[test]
fn images_render_markers_and_collect_media_in_order() {
    let png = "data:image/png;base64,AAAA";
    let jpg = "data:image/jpeg;base64,BBBB";
    let input = vec![
        ResponseItem::Message {
            role: "user".to_string(),
            content: vec![
                ContentItem::InputText { text: "look: ".to_string() },
                ContentItem::InputImage { image_url: png.to_string(), detail: None },
            ],
        },
        ResponseItem::FunctionCallOutput {
            call_id: "c1".to_string(),
            body: FunctionCallOutputBody::ContentItems(vec![
                FunctionCallOutputContentItem::InputText { text: "shot:".to_string() },
                FunctionCallOutputContentItem::InputImage {
                    image_url: jpg.to_string(),
                    detail: None,
                },
            ]),
            success: Some(true),
        },
    ];
    let prompt = render_prompt("sys", &input, &Vec::new(), &plain());
    assert_eq!(prompt.matches("<__media__>").count(), 2, "{prompt}");
    let media = collect_media("sys", &input);
    assert_eq!(media, vec!["AAAA".to_string(), "BBBB".to_string()]);
}

#[test]
fn only_images_that_the_prompt_marks_are_collected() {
    let picture = |role: &str, payload: &str| ResponseItem::Message {
        role: role.to_string(),
        content: vec![
            ContentItem::InputText { text: "see ".to_string() },
            ContentItem::InputImage {
                image_url: format!("data:image/png;base64,{payload}"),
                detail: None,
            },
        ],
    };
    let input = vec![
        ResponseItem::Other,
        picture("system", "AAAA"),
        picture("user", "BBBB"),
        picture("system", "CCCC"),
        picture("assistant", "DDDD"),
    ];
    for (instructions, expected) in [("sys", vec!["BBBB", "DDDD"]), (" ", vec!["AAAA", "BBBB", "DDDD"])] {
        let prompt = render_prompt(instructions, &input, &Vec::new(), &plain());
        assert_eq!(prompt.matches("<__media__>").count(), expected.len(), "{prompt}");
        assert_eq!(collect_media(instructions, &input), expected);
    }
    let later = vec![picture("user", "BBBB"), picture("system", "CCCC")];
    let prompt = render_prompt("", &later, &Vec::new(), &plain());
    assert_eq!(prompt.matches("<__media__>").count(), 1, "{prompt}");
    assert_eq!(collect_media("", &later), vec!["BBBB"]);
}

#[test]
fn markers_stand_where_their_payloads_are() {
    let image = |payload: &str| ContentItem::InputImage {
        image_url: format!("data:image/png;base64,{payload}"),
        detail: None,
    };
    let said = |text: &str| ContentItem::InputText { text: text.to_string() };
    let message = |role: &str, content: Vec<ContentItem>| ResponseItem::Message {
        role: role.to_string(),
        content,
    };
    let input = vec![
        message("user", vec![said("one <__media__>"), image("AAAA"), said("__>"), image("BBBB")]),
        ResponseItem::Reasoning { content: None },
        message("assistant", vec![said("two"), image("CCCC")]),
        message("user", vec![image("none"), said("three")]),
    ];
    let tools = vec![ToolSpec::Function(ResponsesApiTool {
        name: "f".to_string(),
        description: "d".to_string(),
        strict: false,
        parameters: parse("{}").unwrap(),
    })];
    let options = RenderOptions { tools_block: true, format_primer: true };
    let prompt = render_prompt("sys", &input, &tools, &options);
    let media = collect_media("sys", &input);
    assert_eq!(media, vec!["AAAA", "BBBB", "CCCC", "none"]);
    assert_eq!(prompt.matches(marker_text()).count(), media.len(), "{prompt}");
    let before = |text: &str| prompt[..prompt.find(text).unwrap()].matches(marker_text()).count();
    assert_eq!(before("one <_media_>"), 0);
    assert_eq!(before("two"), 2);
    assert_eq!(before("three"), 4);
    let split = vec![message("user", vec![said("<__media"), said("__>")])];
    let prompt = render_prompt("sys", &split, &Vec::new(), &plain());
    assert_eq!(prompt.matches(marker_text()).count(), 1);
    assert!(collect_media("sys", &split).is_empty());
}

#[test]
fn renders_tools_block_and_trailing_assistant_marker() {
    let tools = vec![ToolSpec::Function(ResponsesApiTool {
        name: "fetch_url".to_string(),
        description: "Fetch a URL.".to_string(),
        strict: false,
        parameters: parse(
            r#"{"type": "object", "properties": {"url": {"type": "string"}}, "required": ["url"]}"#,
        )
        .unwrap(),
    })];
    let input = vec![user("hello")];
    let options = RenderOptions { tools_block: true, format_primer: false };
    let rendered = render_prompt("You are helpful.", &input, &tools, &options);
    assert!(rendered.starts_with("<|im_start|>system\n# Tools"));
    assert!(rendered.contains("\"name\":\"fetch_url\""));
    assert!(rendered.contains("You are helpful."));
    assert!(rendered.contains("<|im_start|>user\nhello<|im_end|>\n"));
    assert!(rendered.ends_with("<|im_start|>assistant\n<think>\n"));
}

#[test]
fn render_matches_native_xml_shape() {
    let items = vec![
        function_call("exec_command", "{\"cmd\":\"ls\"}", "call_x"),
        output("call_x", "ok", None),
    ];
    let out = render_prompt("sys", &items, &Vec::new(), &plain());
    assert!(
        out.contains(
            "<tool_call>\n<function=exec_command>\n<parameter=cmd>\nls\n</parameter>\n</function>\n</tool_call>"
        ),
        "call render: {out}"
    );
    assert!(
        out.contains("<|im_start|>user\n<tool_response>\nok\n</tool_response><|im_end|>"),
        "result render: {out}"
    );
    assert!(!out.contains("call_id"), "no call_id in the native format: {out}");
}

#[test]
fn batches_consecutive_tool_results_into_one_user_block() {
    let input = vec![
        user("do two things"),
        function_call("a", "{}", "1"),
        function_call("b", "{}", "2"),
        output("1", "result a", Some(true)),
        output("2", "result b", Some(true)),
    ];
    let rendered = render_prompt("", &input, &Vec::new(), &plain());
    let user_blocks = rendered.matches("<|im_start|>user").count();
    assert_eq!(user_blocks, 2);
    assert!(rendered.contains(
        "<|im_start|>user\n<tool_response>\nresult a\n</tool_response>\n<tool_response>\nresult b\n</tool_response><|im_end|>\n"
    ));
}

#[test]
fn namespaces_are_flattened_and_taken_apart() {
    assert_eq!(flatten_tool_name("mcp", "read"), "mcp__read");
    assert_eq!(
        unflatten_tool_name("mcp__read"),
        Some(("mcp".to_string(), "read".to_string()))
    );
    assert_eq!(unflatten_tool_name("plain"), None);
}

fn parameters(tool: &ToolSpec) -> (String, String, String) {
    match tool {
        ToolSpec::Function(f) => (f.name.clone(), f.description.clone(), f.parameters.to_text()),
        other => panic!("{other:?}"),
    }
}

#[test]
fn str_replace_tool_schemas_preserve_names_and_parameters() {
    let (name, description, schema) = parameters(&create_create_file_tool());
    assert_eq!(name, "create_file");
    assert_eq!(
        description,
        "Create a new file with the given content. Fails if the file already exists."
    );
    assert_eq!(
        schema,
        r#"{"type":"object","properties":{"content":{"type":"string"},"path":{"type":"string"}},"required":["path","content"]}"#
    );
    let (name, description, schema) = parameters(&create_str_replace_tool());
    assert_eq!(name, "str_replace");
    assert_eq!(
        description,
        "Replace one exact occurrence of old_str in the file with new_str. old_str must match character-for-character and appear exactly once."
    );
    assert_eq!(
        schema,
        r#"{"type":"object","properties":{"new_str":{"type":"string"},"old_str":{"type":"string"},"path":{"type":"string"}},"required":["path","old_str","new_str"]}"#
    );
    let (name, description, schema) = parameters(&create_delete_file_tool());
    assert_eq!(name, "delete_file");
    assert_eq!(description, "Delete the file at path.");
    assert_eq!(
        schema,
        r#"{"type":"object","properties":{"path":{"type":"string"}},"required":["path"]}"#
    );
}

#[test]
fn tools_are_offered_with_their_types() {
    let tools = vec![create_str_replace_tool(), create_delete_file_tool()];
    let types = tool_param_types(&tools);
    assert_eq!(types.len(), 2);
    assert_eq!(types[1].name, "delete_file");
    assert_eq!(types[1].params, vec![("path".to_string(), "string".to_string())]);
    let offered = chat_tools_json(&tools);
    assert_eq!(offered[0].str_at("type"), Some("function"));
    assert_eq!(offered[0].get("function").unwrap().str_at("name"), Some("str_replace"));
}
