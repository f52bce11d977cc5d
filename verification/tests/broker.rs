use millie::broker::append_broker_messages;
use millie::broker::broker_tool_from_value;
use millie::broker::broker_tools_from_values;
use millie::broker::prepare_call;
use millie::broker::requested_model;
use millie::broker::BrokerEvent;
use millie::broker::BrokerOutput;
use millie::broker::ModelBrokerCall;
use millie::broker::ModelBrokerImage;
use millie::broker::ModelBrokerImageDetail;
use millie::broker::ModelBrokerMessage;
use millie::broker::ModelDefaults;
use millie::broker::Prompt;
use millie::broker::SessionDefaults;
use millie::conversation::ContentItem;
use millie::conversation::ImageDetail;
use millie::conversation::ResponseItem;
use millie::conversation::ToolSpec;
use millie::events::TokenUsage;
use millie::json::parse;
use millie::json::Json;

fn value(text: &str) -> Json {
    parse(text).expect("JSON")
}

fn message(role: &str, content: &str) -> ModelBrokerMessage {
    ModelBrokerMessage { role: role.to_string(), content: content.to_string(), images: Vec::new() }
}

fn call() -> ModelBrokerCall {
    ModelBrokerCall {
        id: Some("1".to_string()),
        instructions: None,
        messages: Vec::new(),
        model: None,
        reasoning_effort: None,
        reasoning_summary: None,
        service_tier: None,
        output_schema: None,
        tools: Vec::new(),
        tool_choice: None,
        parallel_tool_calls: None,
        previous_response_id: None,
        replay_items: Vec::new(),
        input_items: Vec::new(),
    }
}

fn session() -> SessionDefaults {
    SessionDefaults {
        model: "session-model".to_string(),
        base_instructions: "base".to_string(),
        personality: None,
        reasoning_effort: None,
        reasoning_summary: None,
        service_tier: Some("flex".to_string()),
    }
}

fn model() -> ModelDefaults {
    ModelDefaults {
        reasoning_level: Some("medium".to_string()),
        reasoning_summary: "auto".to_string(),
    }
}

#[test]
fn tools_are_read_in_both_shapes() {
    for text in [
        r#"{"type":"function","name":"f","strict":true}"#,
        r#"{"type":"function","function":{"name":"f","strict":true}}"#,
    ] {
        match broker_tool_from_value(&value(text), &None).unwrap() {
            ToolSpec::Function(f) => {
                assert_eq!(f.name, "f");
                assert_eq!(f.description, "");
                assert!(f.strict);
                assert_eq!(f.parameters.to_text(), r#"{"type":"object","properties":{}}"#);
            }
            other => panic!("{other:?}"),
        }
    }
}

#[test]
fn bad_tools_are_refused() {
    let refusal = |text: &str, error: Option<&str>| {
        broker_tool_from_value(&value(text), &error.map(str::to_string)).unwrap_err()
    };
    assert_eq!(refusal("[]", None), "broker tool must be an object");
    assert_eq!(
        refusal(r#"{"type":"web"}"#, None),
        "model broker currently supports only function tools"
    );
    assert_eq!(refusal(r#"{"type":"function"}"#, None), "function tool missing name");
    assert_eq!(
        refusal(r#"{"type":"function","name":"f","parameters":1}"#, Some("bad")),
        "invalid parameters for function tool f: bad"
    );
    let tools = vec![value(r#"{"type":"function","name":"f"}"#), value("1")];
    assert_eq!(
        broker_tools_from_values(&tools, &vec![None, None]).unwrap_err(),
        "broker tool must be an object"
    );
}

#[test]
fn messages_become_instructions_and_items() {
    let mut user = message("user", "look");
    user.images.push(ModelBrokerImage {
        image_url: "data:x".to_string(),
        detail: Some(ModelBrokerImageDetail::High),
    });
    let messages = vec![
        message("system", "rule"),
        message("developer", "  "),
        user,
        message("assistant", "seen"),
    ];
    let (instructions, items) = append_broker_messages("base".to_string(), &messages).unwrap();
    assert_eq!(instructions, "base\n\nrule");
    assert_eq!(items.len(), 2);
    match &items[0] {
        ResponseItem::Message { role, content } => {
            assert_eq!(role, "user");
            assert!(matches!(&content[0], ContentItem::InputText { text } if text == "look"));
            assert!(matches!(
                &content[1],
                ContentItem::InputImage { detail: Some(ImageDetail::High), .. }
            ));
        }
        other => panic!("{other:?}"),
    }
    assert_eq!(
        append_broker_messages(String::new(), &vec![message("tool", "")]).unwrap_err(),
        "unsupported model broker message role: tool"
    );
}

#[test]
fn a_call_falls_back_to_the_session_and_the_model() {
    assert_eq!(requested_model(&call(), &session()), "session-model");
    let own = ModelBrokerCall { model: Some("m".to_string()), ..call() };
    assert_eq!(requested_model(&own, &session()), "m");
    let turn = prepare_call(call(), &session(), &model(), &Vec::new()).unwrap();
    assert_eq!(turn.id.as_deref(), Some("1"));
    assert_eq!(turn.prompt.base_instructions, "base");
    assert!(!turn.prompt.parallel_tool_calls);
    assert!(turn.prompt.output_schema_strict);
    assert_eq!(turn.reasoning_effort.as_deref(), Some("medium"));
    assert_eq!(turn.reasoning_summary, "auto");
    assert_eq!(turn.service_tier.as_deref(), Some("flex"));
    let asked = ModelBrokerCall {
        instructions: Some("own".to_string()),
        reasoning_effort: Some("high".to_string()),
        service_tier: Some(None),
        messages: vec![message("user", "hi")],
        replay_items: vec![ResponseItem::Other],
        input_items: vec![ResponseItem::ToolActivity],
        ..call()
    };
    let turn = prepare_call(asked, &session(), &model(), &Vec::new()).unwrap();
    assert_eq!(turn.prompt.base_instructions, "own");
    assert_eq!(turn.reasoning_effort.as_deref(), Some("high"));
    assert_eq!(turn.service_tier, None);
    assert!(matches!(turn.prompt.input[0], ResponseItem::Message { .. }));
    assert!(matches!(turn.prompt.input[1], ResponseItem::Other));
    assert!(matches!(turn.prompt.input[2], ResponseItem::ToolActivity));
    assert!(Prompt::default().output_schema_strict);
}

fn answer(text: &str) -> ResponseItem {
    ResponseItem::Message {
        role: "assistant".to_string(),
        content: vec![ContentItem::OutputText { text: text.to_string() }],
    }
}

#[test]
fn what_was_streamed_is_the_answer() {
    let usage = TokenUsage {
        input_tokens: 1,
        cached_input_tokens: 0,
        output_tokens: 2,
        reasoning_output_tokens: 0,
        total_tokens: 3,
    };
    let mut output = BrokerOutput::new();
    output.on_event(BrokerEvent::TextDelta("he".to_string()));
    output.on_event(BrokerEvent::TextDelta("y".to_string()));
    output.on_event(BrokerEvent::Other);
    output.on_event(BrokerEvent::ItemDone(answer("whole")));
    output.on_event(BrokerEvent::ItemDone(ResponseItem::FunctionCall {
        id: None,
        name: "f".to_string(),
        namespace: None,
        arguments: "{}".to_string(),
        call_id: "c".to_string(),
    }));
    output.on_event(BrokerEvent::Completed {
        response_id: "r".to_string(),
        usage: Some(usage),
    });
    let result = output.finish(Some("1".to_string()), "m".to_string());
    assert_eq!(result.text, "hey");
    assert_eq!(result.response_id.as_deref(), Some("r"));
    assert_eq!(result.token_usage, Some(usage));
    assert_eq!(result.output_items.len(), 2);
    assert_eq!(result.function_calls.len(), 1);
    assert_eq!(result.function_calls[0].call_id, "c");
    let mut silent = BrokerOutput::new();
    silent.on_event(BrokerEvent::ItemDone(answer("whole")));
    assert_eq!(silent.finish(None, "m".to_string()).text, "whole");
}
