//! The conversation as the `messages` of a chat-completions request. The
//! arguments of a call go through as the JSON text that the model produced.

use crate::conversation::ContentItem;
use crate::conversation::ResponseItem;
use crate::conversation::ToolSpec;
use crate::json;
use crate::json::Json;
use crate::json::JsonModel;
use crate::prompt;
use crate::render;
use crate::text;
use vstd::prelude::*;
use vstd::string::*;

verus! {

// ---------------------------------------------------------------------------
// Objects.

fn one(key: &str, value: Json) -> (r: Json)
    ensures
        r@ == JsonModel::Object(seq![(key@, value@)]),
{
    let mut members: Vec<(String, Json)> = Vec::new();
    let ghost v = value@;
    members.push((key.to_string(), value));
    proof {
        json::object_model(members);
        assert(json::member_models(members@) =~= seq![(key@, v)]);
    }
    Json::Object(members)
}

pub(crate) fn two(k1: &str, v1: Json, k2: &str, v2: Json) -> (r: Json)
    ensures
        r@ == JsonModel::Object(seq![(k1@, v1@), (k2@, v2@)]),
{
    let mut members: Vec<(String, Json)> = Vec::new();
    let ghost (a, b) = (v1@, v2@);
    members.push((k1.to_string(), v1));
    members.push((k2.to_string(), v2));
    proof {
        json::object_model(members);
        assert(json::member_models(members@) =~= seq![(k1@, a), (k2@, b)]);
    }
    Json::Object(members)
}

pub(crate) fn three(k1: &str, v1: Json, k2: &str, v2: Json, k3: &str, v3: Json) -> (r: Json)
    ensures
        r@ == JsonModel::Object(seq![(k1@, v1@), (k2@, v2@), (k3@, v3@)]),
{
    let mut members: Vec<(String, Json)> = Vec::new();
    let ghost (a, b, c) = (v1@, v2@, v3@);
    members.push((k1.to_string(), v1));
    members.push((k2.to_string(), v2));
    members.push((k3.to_string(), v3));
    proof {
        json::object_model(members);
        assert(json::member_models(members@) =~= seq![(k1@, a), (k2@, b), (k3@, c)]);
    }
    Json::Object(members)
}

pub(crate) fn array(items: Vec<Json>) -> (r: Json)
    ensures
        r@ == JsonModel::Array(json::models(items@)),
{
    proof {
        json::array_model(items);
    }
    Json::Array(items)
}

// ---------------------------------------------------------------------------
// Messages.

/// A message with text content.
pub open spec fn text_message(role: Seq<char>, content: Seq<char>) -> JsonModel {
    JsonModel::Object(
        seq![("content"@, JsonModel::Text(content)), ("role"@, JsonModel::Text(role))],
    )
}

fn message(role: &str, content: &str) -> (r: Json)
    ensures
        r@ == text_message(role@, content@),
{
    two("content", Json::text(content), "role", Json::text(role))
}

/// One call of an assistant message.
pub open spec fn call_json(id: Seq<char>, name: Seq<char>, arguments: Seq<char>) -> JsonModel {
    JsonModel::Object(
        seq![
            (
                "function"@,
                JsonModel::Object(
                    seq![
                        ("arguments"@, JsonModel::Text(arguments)),
                        ("name"@, JsonModel::Text(name)),
                    ],
                ),
            ),
            ("id"@, JsonModel::Text(id)),
            ("type"@, JsonModel::Text("function"@)),
        ],
    )
}

fn call_to_json(id: &str, name: &str, arguments: &str) -> (r: Json)
    ensures
        r@ == call_json(id@, name@, arguments@),
{
    let function = two("arguments", Json::text(arguments), "name", Json::text(name));
    three("function", function, "id", Json::text(id), "type", Json::text("function"))
}

/// A tool's answer.
pub open spec fn tool_message(call_id: Seq<char>, content: Seq<char>) -> JsonModel {
    JsonModel::Object(
        seq![
            ("content"@, JsonModel::Text(content)),
            ("role"@, JsonModel::Text("tool"@)),
            ("tool_call_id"@, JsonModel::Text(call_id)),
        ],
    )
}

fn tool_to_json(call_id: &str, content: &str) -> (r: Json)
    ensures
        r@ == tool_message(call_id@, content@),
{
    three(
        "content",
        Json::text(content),
        "role",
        Json::text("tool"),
        "tool_call_id",
        Json::text(call_id),
    )
}

/// An assistant message that is being put together.
#[derive(Debug)]
pub struct AssistantMsg {
    pub content: String,
    pub reasoning: Option<String>,
    pub tool_calls: Vec<Json>,
}

pub struct AssistantModel {
    pub content: Seq<char>,
    pub reasoning: Option<Seq<char>>,
    pub tool_calls: Seq<JsonModel>,
}

impl View for AssistantMsg {
    type V = AssistantModel;

    open spec fn view(&self) -> AssistantModel {
        AssistantModel {
            content: self.content@,
            reasoning: match self.reasoning {
                Some(r) => Some(r@),
                None => None,
            },
            tool_calls: json::models(self.tool_calls@),
        }
    }
}

pub open spec fn pending_model(p: Option<AssistantMsg>) -> Option<AssistantModel> {
    match p {
        Some(a) => Some(a@),
        None => None,
    }
}

/// An assistant message. Its content is null where it is blank and there are
/// calls.
pub open spec fn assistant_json(a: AssistantModel) -> JsonModel {
    let content = if text::is_blank(a.content) && a.tool_calls.len() > 0 {
        JsonModel::Null
    } else {
        JsonModel::Text(a.content)
    };
    let start = match a.reasoning {
        Some(r) => seq![
            ("content"@, content),
            ("reasoning_content"@, JsonModel::Text(r)),
            ("role"@, JsonModel::Text("assistant"@)),
        ],
        None => seq![("content"@, content), ("role"@, JsonModel::Text("assistant"@))],
    };
    JsonModel::Object(
        if a.tool_calls.len() > 0 {
            start.push(("tool_calls"@, JsonModel::Array(a.tool_calls)))
        } else {
            start
        },
    )
}

impl AssistantMsg {
    /// The message as JSON.
    pub fn into_json(self) -> (r: Json)
        ensures
            r@ == assistant_json(self@),
    {
        let ghost whole = self@;
        let AssistantMsg { content, reasoning, tool_calls } = self;
        let mut members: Vec<(String, Json)> = Vec::new();
        assert(whole.tool_calls.len() == tool_calls@.len());
        if text::str_blank(content.as_str()) && tool_calls.len() > 0 {
            members.push(("content".to_string(), Json::Null));
        } else {
            members.push(("content".to_string(), Json::Text(content)));
        }
        match reasoning {
            Some(r) => {
                members.push(("reasoning_content".to_string(), Json::Text(r)));
            },
            None => {},
        }
        members.push(("role".to_string(), Json::text("assistant")));
        if tool_calls.len() > 0 {
            let calls = array(tool_calls);
            members.push(("tool_calls".to_string(), calls));
        }
        proof {
            json::object_model(members);
            assert(json::member_models(members@) =~= assistant_json(whole)->Object_0);
        }
        Json::Object(members)
    }
}

/// A text part of a message with images.
pub open spec fn text_part(t: Seq<char>) -> JsonModel {
    JsonModel::Object(seq![("text"@, JsonModel::Text(t)), ("type"@, JsonModel::Text("text"@))])
}

/// An image part of a message.
pub open spec fn image_part(url: Seq<char>) -> JsonModel {
    JsonModel::Object(
        seq![
            ("image_url"@, JsonModel::Object(seq![("url"@, JsonModel::Text(url))])),
            ("type"@, JsonModel::Text("image_url"@)),
        ],
    )
}

/// The parts of the first `n` items of a message with images, and the text that
/// is not yet in a part. Text between images is one part.
pub open spec fn chat_parts(items: Seq<ContentItem>, n: int) -> (Seq<JsonModel>, Seq<char>)
    decreases n,
{
    if n <= 0 {
        (Seq::empty(), Seq::empty())
    } else {
        let (parts, open) = chat_parts(items, n - 1);
        match items[n - 1] {
            ContentItem::InputText { text } => (parts, open + text@),
            ContentItem::OutputText { text } => (parts, open + text@),
            ContentItem::InputImage { image_url, .. } => if prompt::payload_of(
                image_url@,
            ) is None {
                (parts, open)
            } else if open.len() > 0 {
                (parts.push(text_part(open)).push(image_part(image_url@)), Seq::empty())
            } else {
                (parts.push(image_part(image_url@)), Seq::empty())
            },
        }
    }
}

/// Whether any of the first `n` items is an image that can be shipped.
pub open spec fn has_image(items: Seq<ContentItem>, n: int) -> bool {
    exists|i: int|
        0 <= i < n && (#[trigger] items[i] matches ContentItem::InputImage { image_url, .. }
            && prompt::payload_of(image_url@) is Some)
}

/// The content of a user message: text, or parts where it carries images.
pub open spec fn chat_content(items: Seq<ContentItem>) -> JsonModel {
    if !has_image(items, items.len() as int) {
        JsonModel::Text(prompt::plain_text(items, items.len() as int))
    } else {
        let (parts, open) = chat_parts(items, items.len() as int);
        JsonModel::Array(
            if open.len() > 0 {
                parts.push(text_part(open))
            } else {
                parts
            },
        )
    }
}

fn any_image(items: &Vec<ContentItem>) -> (r: bool)
    ensures
        r == has_image(items@, items@.len() as int),
{
    let mut i: usize = 0;
    while i < items.len()
        invariant
            i <= items@.len(),
            !has_image(items@, i as int),
        decreases items@.len() - i,
    {
        match &items[i] {
            ContentItem::InputImage { image_url, .. } => {
                if prompt::media_payload(image_url.as_str()).is_some() {
                    assert(has_image(items@, items@.len() as int)) by {
                        assert(items@[i as int] matches ContentItem::InputImage { image_url, .. }
                            && prompt::payload_of(image_url@) is Some);
                    }
                    return true;
                }
            },
            _ => {},
        }
        i += 1;
    }
    false
}

/// The content of a user message.
pub fn content_to_chat_value(items: &Vec<ContentItem>) -> (r: Json)
    ensures
        r@ == chat_content(items@),
{
    if !any_image(items) {
        let t = prompt::content_items_to_text_plain(items);
        return Json::Text(t);
    }
    let mut parts: Vec<Json> = Vec::new();
    let mut open = String::new();
    let mut i: usize = 0;
    assert(json::models(parts@) =~= Seq::empty());
    while i < items.len()
        invariant
            i <= items@.len(),
            (json::models(parts@), open@) == chat_parts(items@, i as int),
        decreases items@.len() - i,
    {
        let ghost before = json::models(parts@);
        match &items[i] {
            ContentItem::InputText { text } => {
                open.append(text.as_str());
            },
            ContentItem::OutputText { text } => {
                open.append(text.as_str());
            },
            ContentItem::InputImage { image_url, .. } => {
                if prompt::media_payload(image_url.as_str()).is_some() {
                    if !open.as_str().is_empty() {
                        let part = two("text", Json::Text(open), "type", Json::text("text"));
                        parts.push(part);
                        assert(json::models(parts@) =~= before.push(part@));
                        open = String::new();
                    }
                    let ghost now = json::models(parts@);
                    let part = two(
                        "image_url",
                        one("url", Json::text(image_url.as_str())),
                        "type",
                        Json::text("image_url"),
                    );
                    parts.push(part);
                    assert(json::models(parts@) =~= now.push(part@));
                    assert(open@ =~= Seq::empty());
                }
            },
        }
        i += 1;
    }
    if !open.as_str().is_empty() {
        let ghost before = json::models(parts@);
        let part = two("text", Json::Text(open), "type", Json::text("text"));
        parts.push(part);
        assert(json::models(parts@) =~= before.push(part@));
    }
    array(parts)
}

// ---------------------------------------------------------------------------
// The conversation.

/// `done` with the pending message behind it.
pub open spec fn flushed(done: Seq<JsonModel>, pending: Option<AssistantModel>) -> Seq<JsonModel> {
    match pending {
        Some(a) => done.push(assistant_json(a)),
        None => done,
    }
}

/// The messages so far and the assistant message that may still grow, after one
/// item more. Calls join the pending message.
pub open spec fn with_chat_item(
    state: (Seq<JsonModel>, Option<AssistantModel>),
    item: ResponseItem,
) -> (Seq<JsonModel>, Option<AssistantModel>) {
    let (done, pending) = state;
    match item {
        ResponseItem::Message { role, content } => if role@ == "system"@ {
            (flushed(done, pending), None)
        } else if role@ == "assistant"@ {
            (
                flushed(done, pending),
                Some(
                    AssistantModel {
                        content: prompt::plain_text(content@, content@.len() as int),
                        reasoning: None,
                        tool_calls: Seq::empty(),
                    },
                ),
            )
        } else {
            (
                flushed(done, pending).push(
                    JsonModel::Object(
                        seq![
                            ("content"@, chat_content(content@)),
                            ("role"@, JsonModel::Text("user"@)),
                        ],
                    ),
                ),
                None,
            )
        },
        ResponseItem::Reasoning { content } => (
            flushed(done, pending),
            Some(
                AssistantModel {
                    content: Seq::empty(),
                    reasoning: Some(render::reasoning_text(content)),
                    tool_calls: Seq::empty(),
                },
            ),
        ),
        ResponseItem::FunctionCall { name, namespace, arguments, call_id, .. } => {
            let call = call_json(
                call_id@,
                render::offered_name(name@, namespace),
                arguments@,
            );
            match pending {
                Some(a) => (
                    done,
                    Some(AssistantModel { tool_calls: a.tool_calls.push(call), ..a }),
                ),
                None => (
                    done,
                    Some(
                        AssistantModel {
                            content: Seq::empty(),
                            reasoning: None,
                            tool_calls: seq![call],
                        },
                    ),
                ),
            }
        },
        ResponseItem::FunctionCallOutput { call_id, body, .. } => (
            flushed(done, pending).push(tool_message(call_id@, prompt::output_text(body))),
            None,
        ),
        ResponseItem::ToolActivity | ResponseItem::Other => state,
    }
}

/// The messages and the pending message after the first `n` items, begun with
/// `start`.
pub open spec fn chat_state(start: Seq<JsonModel>, input: Seq<ResponseItem>, n: int) -> (
    Seq<JsonModel>,
    Option<AssistantModel>,
)
    decreases n,
{
    if n <= 0 {
        (start, None)
    } else {
        with_chat_item(chat_state(start, input, n - 1), input[n - 1])
    }
}

/// The text of a leading system message.
pub open spec fn leading_system(input: Seq<ResponseItem>) -> Seq<char> {
    if input.len() > 0 {
        match input[0] {
            ResponseItem::Message { role, content } if role@ == "system"@ => prompt::plain_text(
                content@,
                content@.len() as int,
            ),
            _ => Seq::empty(),
        }
    } else {
        Seq::empty()
    }
}

/// The fixed example of a tool call.
pub open spec fn primer_messages() -> Seq<JsonModel> {
    seq![
        text_message("user"@, "Before we start: confirm the working directory."@),
        JsonModel::Object(
            seq![
                ("content"@, JsonModel::Null),
                ("role"@, JsonModel::Text("assistant"@)),
                (
                    "tool_calls"@,
                    JsonModel::Array(
                        seq![
                            call_json(
                                "call_formatPrimer0001"@,
                                "exec_command"@,
                                "{\"cmd\":\"pwd\"}"@,
                            ),
                        ],
                    ),
                ),
            ],
        ),
        tool_message("call_formatPrimer0001"@, "(working directory confirmed)"@),
        text_message("assistant"@, "Working directory confirmed."@),
    ]
}

/// What comes before the conversation: the system message, where there is one,
/// and the example, where it is wanted.
pub open spec fn opening_messages(system: Seq<char>, format_primer: bool) -> Seq<JsonModel> {
    (if system.len() > 0 {
        seq![text_message("system"@, system)]
    } else {
        Seq::empty()
    }) + if format_primer {
        primer_messages()
    } else {
        Seq::empty()
    }
}

/// The system text: the instructions, or where those are blank a leading system
/// message.
pub open spec fn system_text(instructions: Seq<char>, input: Seq<ResponseItem>) -> Seq<char> {
    if !text::is_blank(instructions) {
        text::trim(instructions)
    } else {
        leading_system(input)
    }
}

/// All messages of a request.
pub open spec fn chat_messages(
    instructions: Seq<char>,
    input: Seq<ResponseItem>,
    format_primer: bool,
) -> Seq<JsonModel> {
    let start = opening_messages(system_text(instructions, input), format_primer);
    let (done, pending) = chat_state(start, input, input.len() as int);
    flushed(done, pending)
}

fn flush(pending: &mut Option<AssistantMsg>, messages: &mut Vec<Json>)
    ensures
        json::models(final(messages)@) == flushed(
            json::models(old(messages)@),
            pending_model(*old(pending)),
        ),
        *final(pending) is None,
{
    let ghost before = json::models(messages@);
    match pending.take() {
        Some(a) => {
            let ghost m = a@;
            let j = a.into_json();
            messages.push(j);
            assert(json::models(messages@) =~= before.push(j@));
        },
        None => {},
    }
}

fn push_primer(messages: &mut Vec<Json>)
    ensures
        json::models(final(messages)@) == json::models(old(messages)@) + primer_messages(),
{
    let ghost before = json::models(messages@);
    let mut calls: Vec<Json> = Vec::new();
    let call = call_to_json("call_formatPrimer0001", "exec_command", "{\"cmd\":\"pwd\"}");
    let ghost c = call@;
    calls.push(call);
    assert(json::models(calls@) =~= seq![c]);
    messages.push(message("user", "Before we start: confirm the working directory."));
    messages.push(
        three(
            "content",
            Json::Null,
            "role",
            Json::text("assistant"),
            "tool_calls",
            array(calls),
        ),
    );
    messages.push(tool_to_json("call_formatPrimer0001", "(working directory confirmed)"));
    messages.push(message("assistant", "Working directory confirmed."));
    assert(json::models(messages@) =~= before + primer_messages());
}

/// Adds a call to the pending message, or begins one with it.
fn add_call(pending: &mut Option<AssistantMsg>, call: Json)
    ensures
        pending_model(*final(pending)) == Some(
            match pending_model(*old(pending)) {
                Some(a) => (AssistantModel { tool_calls: a.tool_calls.push(call@), ..a }),
                None => AssistantModel {
                    content: Seq::empty(),
                    reasoning: None,
                    tool_calls: seq![call@],
                },
            },
        ),
{
    let ghost c = call@;
    match pending.take() {
        Some(a) => {
            let ghost had = json::models(a.tool_calls@);
            let AssistantMsg { content, reasoning, tool_calls } = a;
            let mut calls = tool_calls;
            calls.push(call);
            assert(json::models(calls@) =~= had.push(c));
            *pending = Some(AssistantMsg { content, reasoning, tool_calls: calls });
        },
        None => {
            let mut calls: Vec<Json> = Vec::new();
            calls.push(call);
            assert(json::models(calls@) =~= seq![c]);
            *pending = Some(
                AssistantMsg { content: String::new(), reasoning: None, tool_calls: calls },
            );
        },
    }
}

fn fresh(content: String, reasoning: Option<String>) -> (r: AssistantMsg)
    ensures
        r@ == (AssistantModel {
            content: content@,
            reasoning: match reasoning {
                Some(t) => Some(t@),
                None => None,
            },
            tool_calls: Seq::empty(),
        }),
{
    let calls: Vec<Json> = Vec::new();
    assert(json::models(calls@) =~= Seq::empty());
    AssistantMsg { content, reasoning, tool_calls: calls }
}

/// Builds the `messages` of a chat-completions request.
pub fn build_chat_messages(instructions: &str, input: &Vec<ResponseItem>, format_primer: bool) -> (r:
    Vec<Json>)
    ensures
        json::models(r@) == chat_messages(instructions@, input@, format_primer),
{
    let mut messages: Vec<Json> = Vec::new();
    let system: String = if !text::str_blank(instructions) {
        text::str_trim(instructions)
    } else if input.len() > 0 {
        match &input[0] {
            ResponseItem::Message { role, content } => if text::same_text(
                role.as_str(),
                "system",
            ) {
                prompt::content_items_to_text_plain(content)
            } else {
                String::new()
            },
            _ => String::new(),
        }
    } else {
        String::new()
    };
    assert(system@ == system_text(instructions@, input@));
    if !system.as_str().is_empty() {
        messages.push(message("system", system.as_str()));
    }
    if format_primer {
        push_primer(&mut messages);
    }
    let ghost start = opening_messages(system@, format_primer);
    assert(json::models(messages@) =~= start);
    let mut pending: Option<AssistantMsg> = None;
    let mut i: usize = 0;
    while i < input.len()
        invariant
            i <= input@.len(),
            (json::models(messages@), pending_model(pending)) == chat_state(
                start,
                input@,
                i as int,
            ),
        decreases input@.len() - i,
    {
        match &input[i] {
            ResponseItem::Message { role, content } => {
                flush(&mut pending, &mut messages);
                if text::same_text(role.as_str(), "system") {
                } else if text::same_text(role.as_str(), "assistant") {
                    pending = Some(fresh(prompt::content_items_to_text_plain(content), None));
                } else {
                    let ghost before = json::models(messages@);
                    let m = two(
                        "content",
                        content_to_chat_value(content),
                        "role",
                        Json::text("user"),
                    );
                    messages.push(m);
                    assert(json::models(messages@) =~= before.push(m@));
                }
            },
            ResponseItem::Reasoning { content } => {
                flush(&mut pending, &mut messages);
                let t = render::reasoning_to_text(content);
                pending = Some(fresh(String::new(), Some(t)));
            },
            ResponseItem::FunctionCall { name, namespace, arguments, call_id, .. } => {
                let flat = render::name_offered(name, namespace);
                let call = call_to_json(call_id.as_str(), flat.as_str(), arguments.as_str());
                add_call(&mut pending, call);
            },
            ResponseItem::FunctionCallOutput { call_id, body, .. } => {
                flush(&mut pending, &mut messages);
                let ghost before = json::models(messages@);
                let content = prompt::function_call_output_text(body);
                let m = tool_to_json(call_id.as_str(), content.as_str());
                messages.push(m);
                assert(json::models(messages@) =~= before.push(m@));
            },
            ResponseItem::ToolActivity | ResponseItem::Other => {},
        }
        i += 1;
    }
    flush(&mut pending, &mut messages);
    messages
}

/// The tools of a chat-completions request.
pub open spec fn chat_tools(flat: Seq<JsonModel>) -> Seq<JsonModel> {
    flat.map_values(
        |t: JsonModel|
            JsonModel::Object(
                seq![("function"@, t), ("type"@, JsonModel::Text("function"@))],
            ),
    )
}

/// Builds the `tools` of a chat-completions request.
pub fn chat_tools_json(tools: &Vec<ToolSpec>) -> (r: Vec<Json>)
    ensures
        json::models(r@) == chat_tools(prompt::flattened(tools@, tools@.len() as int)),
{
    let flat = prompt::flattened_tools_json(tools);
    let ghost all = chat_tools(json::models(flat@));
    let mut out: Vec<Json> = Vec::new();
    let mut i: usize = 0;
    while i < flat.len()
        invariant
            i <= flat@.len(),
            all == chat_tools(json::models(flat@)),
            json::models(out@) == all.take(i as int),
        decreases flat@.len() - i,
    {
        let ghost before = json::models(out@);
        let j = two("function", flat[i].clone(), "type", Json::text("function"));
        out.push(j);
        assert(json::models(out@) =~= before.push(j@));
        assert(all.take(i + 1) =~= all.take(i as int).push(all[i as int]));
        i += 1;
    }
    assert(all.take(all.len() as int) =~= all);
    out
}

// ---------------------------------------------------------------------------
// Laws.

/// The opening messages come first whatever the conversation holds, so that the
/// server's cache of them stays valid.
pub proof fn opening_comes_first(start: Seq<JsonModel>, input: Seq<ResponseItem>, n: int)
    requires
        0 <= n <= input.len(),
    ensures
        chat_state(start, input, n).0.len() >= start.len(),
        chat_state(start, input, n).0.take(start.len() as int) == start,
    decreases n,
{
    if n > 0 {
        opening_comes_first(start, input, n - 1);
        let (done, pending) = chat_state(start, input, n - 1);
        let (after, _) = chat_state(start, input, n);
        assert(after.take(done.len() as int) =~= done);
        assert(after.take(start.len() as int) =~= done.take(start.len() as int));
    } else {
        assert(start.take(start.len() as int) =~= start);
    }
}

proof fn keys_are_told_apart()
    ensures
        "content"@.len() == 7,
        "role"@.len() == 4 && "role"@[0] == 'r',
        "reasoning_content"@.len() == 17,
        "tool_calls"@.len() == 10,
        "tool_call_id"@.len() == 12,
        "function"@.len() == 8,
        "id"@.len() == 2,
        "type"@.len() == 4 && "type"@[0] == 't' && "type"@[1] == 'y',
        "text"@.len() == 4 && "text"@[0] == 't' && "text"@[1] == 'e',
        "arguments"@.len() == 9 && "arguments"@[0] == 'a',
        "name"@.len() == 4 && "name"@[0] == 'n',
        "image_url"@.len() == 9 && "image_url"@[0] == 'i',
        "url"@.len() == 3,
{
    reveal_strlit("content");
    reveal_strlit("role");
    reveal_strlit("reasoning_content");
    reveal_strlit("tool_calls");
    reveal_strlit("tool_call_id");
    reveal_strlit("function");
    reveal_strlit("id");
    reveal_strlit("type");
    reveal_strlit("text");
    reveal_strlit("arguments");
    reveal_strlit("name");
    reveal_strlit("image_url");
    reveal_strlit("url");
}

/// Whether a message is one of the assistant that says this: content is null only where
/// there is nothing but blanks to say.
pub open spec fn assistant_says(m: JsonModel, content: Seq<char>, reasoning: Option<Seq<char>>) -> bool {
    &&& m.at("role"@) == Some(JsonModel::Text("assistant"@))
    &&& !text::is_blank(content) ==> m.at("content"@) == Some(JsonModel::Text(content))
    &&& m.at("content"@) == Some(JsonModel::Text(content)) || m.at("content"@) == Some(
        JsonModel::Null,
    )
    &&& m.at("content"@) == Some(JsonModel::Null) ==> m.at("tool_calls"@) is Some
    &&& m.at("reasoning_content"@) == match reasoning {
        Some(r) => Some(JsonModel::Text(r)),
        None => None,
    }
}

/// Whether a message makes these calls, and none where there are none.
pub open spec fn assistant_calls(m: JsonModel, calls: Seq<JsonModel>) -> bool {
    m.at("tool_calls"@) == if calls.len() > 0 {
        Some(JsonModel::Array(calls))
    } else {
        None
    }
}

proof fn assistant_message_says(a: AssistantModel)
    ensures
        assistant_says(assistant_json(a), a.content, a.reasoning),
        assistant_calls(assistant_json(a), a.tool_calls),
{
    keys_are_told_apart();
    let members = assistant_json(a)->Object_0;
    json::members_are_found(members, "content"@);
    json::members_are_found(members, "role"@);
    json::members_are_found(members, "reasoning_content"@);
    json::members_are_found(members, "tool_calls"@);
    assert(members[0].0 == "content"@);
    let k: int = match a.reasoning {
        Some(r) => {
            assert(members[1] == ("reasoning_content"@, JsonModel::Text(r)));
            2
        },
        None => 1,
    };
    assert(members[k] == ("role"@, JsonModel::Text("assistant"@)));
    if a.tool_calls.len() > 0 {
        assert(members[k + 1] == ("tool_calls"@, JsonModel::Array(a.tool_calls)));
        assert(members.len() == k + 2);
    } else {
        assert(members.len() == k + 1);
    }
}

/// How many messages are complete before the item at `n` is taken up.
pub open spec fn messages_before(start: Seq<JsonModel>, input: Seq<ResponseItem>, n: int) -> int {
    let (done, pending) = chat_state(start, input, n);
    flushed(done, pending).len() as int
}

/// The message at `k` as far as it is known behind `n` items: an assistant message that may
/// still grow, or one that is done.
spec fn is_kept(
    state: (Seq<JsonModel>, Option<AssistantModel>),
    k: int,
    content: Seq<char>,
    reasoning: Option<Seq<char>>,
    calls: Seq<JsonModel>,
) -> bool {
    exists|a: AssistantModel|
        {
            &&& a.content == content
            &&& a.reasoning == reasoning
            &&& calls.is_prefix_of(a.tool_calls)
            &&& (state.0.len() == k && state.1 == Some(a)) || (state.0.len() > k && state.0[k]
                == #[trigger] assistant_json(a))
        }
}

proof fn kept_stays(
    start: Seq<JsonModel>,
    input: Seq<ResponseItem>,
    n: int,
    m: int,
    k: int,
    content: Seq<char>,
    reasoning: Option<Seq<char>>,
    calls: Seq<JsonModel>,
)
    requires
        0 <= n <= m <= input.len(),
        0 <= k,
        is_kept(chat_state(start, input, n), k, content, reasoning, calls),
    ensures
        is_kept(chat_state(start, input, m), k, content, reasoning, calls),
    decreases m,
{
    if n < m {
        kept_stays(start, input, n, m - 1, k, content, reasoning, calls);
        let before = chat_state(start, input, m - 1);
        let after = chat_state(start, input, m);
        let a = choose|a: AssistantModel|
            {
                &&& a.content == content
                &&& a.reasoning == reasoning
                &&& calls.is_prefix_of(a.tool_calls)
                &&& (before.0.len() == k && before.1 == Some(a)) || (before.0.len() > k
                    && before.0[k] == #[trigger] assistant_json(a))
            };
        if before.0.len() > k {
            assert(after.0.len() > k && after.0[k] == assistant_json(a));
        } else {
            match input[m - 1] {
                ResponseItem::FunctionCall { .. } => {
                    let b = after.1.unwrap();
                    let t = assistant_json(b);
                    assert(calls.is_prefix_of(b.tool_calls));
                    assert(after.0.len() == k && after.1 == Some(b));
                },
                ResponseItem::ToolActivity | ResponseItem::Other => {
                    assert(after == before);
                },
                _ => {
                    assert(after.0.len() > k && after.0[k] == assistant_json(a));
                },
            }
        }
    }
}

proof fn kept_is_sent(
    instructions: Seq<char>,
    input: Seq<ResponseItem>,
    format_primer: bool,
    n: int,
    k: int,
    content: Seq<char>,
    reasoning: Option<Seq<char>>,
    calls: Seq<JsonModel>,
)
    requires
        0 <= n <= input.len(),
        0 <= k,
        is_kept(
            chat_state(
                opening_messages(system_text(instructions, input), format_primer),
                input,
                n,
            ),
            k,
            content,
            reasoning,
            calls,
        ),
    ensures
        ({
            let all = chat_messages(instructions, input, format_primer);
            &&& k < all.len()
            &&& assistant_says(all[k], content, reasoning)
            &&& calls.len() > 0 ==> exists|made: Seq<JsonModel>|
                calls.is_prefix_of(made) && #[trigger] assistant_calls(all[k], made)
        }),
{
    let start = opening_messages(system_text(instructions, input), format_primer);
    let m = input.len() as int;
    kept_stays(start, input, n, m, k, content, reasoning, calls);
    let state = chat_state(start, input, m);
    let a = choose|a: AssistantModel|
        {
            &&& a.content == content
            &&& a.reasoning == reasoning
            &&& calls.is_prefix_of(a.tool_calls)
            &&& (state.0.len() == k && state.1 == Some(a)) || (state.0.len() > k && state.0[k]
                == #[trigger] assistant_json(a))
        };
    let all = chat_messages(instructions, input, format_primer);
    assert(all[k] == assistant_json(a));
    assistant_message_says(a);
    assert(assistant_calls(all[k], a.tool_calls));
}

/// What comes before the conversation in a request.
pub open spec fn start_of(instructions: Seq<char>, input: Seq<ResponseItem>, format_primer: bool) -> Seq<
    JsonModel,
> {
    opening_messages(system_text(instructions, input), format_primer)
}

/// No text of the assistant is lost: each of its messages, and each of its thoughts, is a
/// message of its own that says just that, whether or not calls join it.
pub proof fn what_the_assistant_says_is_sent(
    instructions: Seq<char>,
    input: Seq<ResponseItem>,
    format_primer: bool,
    n: int,
)
    requires
        0 <= n < input.len(),
    ensures
        ({
            let all = chat_messages(instructions, input, format_primer);
            let k = messages_before(start_of(instructions, input, format_primer), input, n);
            match input[n] {
                ResponseItem::Message { role, content } => role@ == "assistant"@ ==> k < all.len()
                    && assistant_says(
                    all[k],
                    prompt::plain_text(content@, content@.len() as int),
                    None,
                ),
                ResponseItem::Reasoning { content } => k < all.len() && assistant_says(
                    all[k],
                    Seq::empty(),
                    Some(render::reasoning_text(content)),
                ),
                _ => true,
            }
        }),
{
    let start = start_of(instructions, input, format_primer);
    reveal_strlit("system");
    reveal_strlit("assistant");
    assert("system"@.len() == 6 && "assistant"@.len() == 9);
    let state = chat_state(start, input, n);
    let next = chat_state(start, input, n + 1);
    let k = messages_before(start, input, n);
    let none = Seq::<JsonModel>::empty();
    match input[n] {
        ResponseItem::Message { role, content } => {
            if role@ == "assistant"@ {
                let a = next.1.unwrap();
                let t = assistant_json(a);
                assert(none.is_prefix_of(a.tool_calls));
                assert(is_kept(next, k, a.content, None, none));
                kept_is_sent(
                    instructions,
                    input,
                    format_primer,
                    n + 1,
                    k,
                    a.content,
                    None,
                    none,
                );
            }
        },
        ResponseItem::Reasoning { content } => {
            let a = next.1.unwrap();
            let t = assistant_json(a);
            assert(none.is_prefix_of(a.tool_calls));
            assert(is_kept(next, k, a.content, a.reasoning, none));
            kept_is_sent(
                instructions,
                input,
                format_primer,
                n + 1,
                k,
                a.content,
                a.reasoning,
                none,
            );
        },
        _ => {},
    }
}

/// Whether a call is sent as this: its id, its name and its arguments as the text that they
/// came in.
pub open spec fn is_sent_call(j: JsonModel, id: Seq<char>, name: Seq<char>, arguments: Seq<char>) -> bool {
    &&& j.at("id"@) == Some(JsonModel::Text(id))
    &&& j.at("type"@) == Some(JsonModel::Text("function"@))
    &&& j.at("function"@) matches Some(f) && f.at("name"@) == Some(JsonModel::Text(name)) && f.at(
        "arguments"@,
    ) == Some(JsonModel::Text(arguments))
}

proof fn call_is_sent(id: Seq<char>, name: Seq<char>, arguments: Seq<char>)
    ensures
        is_sent_call(call_json(id, name, arguments), id, name, arguments),
{
    keys_are_told_apart();
    let members = call_json(id, name, arguments)->Object_0;
    json::members_are_found(members, "id"@);
    json::members_are_found(members, "type"@);
    json::members_are_found(members, "function"@);
    assert(members[0].0 == "function"@ && members[1].0 == "id"@ && members[2].0 == "type"@);
    let inner = members[0].1->Object_0;
    json::members_are_found(inner, "name"@);
    json::members_are_found(inner, "arguments"@);
    assert(inner[0].0 == "arguments"@ && inner[1].0 == "name"@);
}

/// Every call is sent, with its id, the name under which the function was offered and its
/// arguments letter for letter: in the assistant message that is open, behind the calls
/// that it has, or in one of its own.
pub proof fn every_call_is_sent(
    instructions: Seq<char>,
    input: Seq<ResponseItem>,
    format_primer: bool,
    n: int,
)
    requires
        0 <= n < input.len(),
        input[n] is FunctionCall,
    ensures
        ({
            let all = chat_messages(instructions, input, format_primer);
            let (done, pending) = chat_state(
                start_of(instructions, input, format_primer),
                input,
                n,
            );
            let k = done.len() as int;
            let at = match pending {
                Some(a) => a.tool_calls.len() as int,
                None => 0,
            };
            &&& k < all.len()
            &&& exists|made: Seq<JsonModel>|
                #[trigger] assistant_calls(all[k], made) && at < made.len() && is_sent_call(
                    made[at],
                    input[n]->FunctionCall_call_id@,
                    match input[n]->namespace {
                        Some(ns) => ns@ + "__"@ + input[n]->name@,
                        None => input[n]->name@,
                    },
                    input[n]->arguments@,
                )
            &&& assistant_says(
                all[k],
                match pending {
                    Some(a) => a.content,
                    None => Seq::empty(),
                },
                match pending {
                    Some(a) => a.reasoning,
                    None => None,
                },
            )
        }),
{
    let start = start_of(instructions, input, format_primer);
    let (done, pending) = chat_state(start, input, n);
    let next = chat_state(start, input, n + 1);
    let k = done.len() as int;
    let a = next.1.unwrap();
    let t = assistant_json(a);
    assert(a.tool_calls.is_prefix_of(a.tool_calls));
    assert(is_kept(next, k, a.content, a.reasoning, a.tool_calls));
    kept_is_sent(
        instructions,
        input,
        format_primer,
        n + 1,
        k,
        a.content,
        a.reasoning,
        a.tool_calls,
    );
    let all = chat_messages(instructions, input, format_primer);
    let made = choose|made: Seq<JsonModel>|
        a.tool_calls.is_prefix_of(made) && #[trigger] assistant_calls(all[k], made);
    let at = a.tool_calls.len() - 1;
    assert(made[at] == a.tool_calls[at]);
    match input[n] {
        ResponseItem::FunctionCall { name, namespace, arguments, call_id, .. } => {
            call_is_sent(call_id@, render::offered_name(name@, namespace), arguments@);
        },
        _ => {},
    }
}

proof fn done_stays(start: Seq<JsonModel>, input: Seq<ResponseItem>, n: int, m: int)
    requires
        0 <= n <= m <= input.len(),
    ensures
        chat_state(start, input, n).0.is_prefix_of(chat_state(start, input, m).0),
    decreases m,
{
    if n < m {
        done_stays(start, input, n, m - 1);
    }
}

/// What the user says and what a tool answers is sent, each as a message of its own; an
/// answer names the call that it answers.
pub proof fn what_users_and_tools_say_is_sent(
    instructions: Seq<char>,
    input: Seq<ResponseItem>,
    format_primer: bool,
    n: int,
)
    requires
        0 <= n < input.len(),
    ensures
        ({
            let all = chat_messages(instructions, input, format_primer);
            let k = messages_before(start_of(instructions, input, format_primer), input, n);
            match input[n] {
                ResponseItem::Message { role, content } => {
                    &&& role@ != "system"@ && role@ != "assistant"@ ==> {
                        &&& k < all.len()
                        &&& all[k].at("role"@) == Some(JsonModel::Text("user"@))
                        &&& all[k].at("content"@) == Some(chat_content(content@))
                    }
                    &&& role@ == "system"@ ==> messages_before(
                        start_of(instructions, input, format_primer),
                        input,
                        n + 1,
                    ) == k
                },
                ResponseItem::FunctionCallOutput { call_id, body, .. } => {
                    &&& k < all.len()
                    &&& all[k].at("role"@) == Some(JsonModel::Text("tool"@))
                    &&& all[k].at("tool_call_id"@) == Some(JsonModel::Text(call_id@))
                    &&& all[k].at("content"@) == Some(JsonModel::Text(prompt::output_text(body)))
                },
                _ => true,
            }
        }),
{
    keys_are_told_apart();
    let start = start_of(instructions, input, format_primer);
    done_stays(start, input, n + 1, input.len() as int);
    let next = chat_state(start, input, n + 1).0;
    let last = chat_state(start, input, input.len() as int).0;
    let all = chat_messages(instructions, input, format_primer);
    let k = messages_before(start, input, n);
    reveal_strlit("system");
    reveal_strlit("assistant");
    assert("system"@.len() == 6 && "assistant"@.len() == 9);
    if next.len() > k {
        assert(last[k] == next[k]);
        assert(all[k] == next[k]);
        let members = next[k]->Object_0;
        json::members_are_found(members, "role"@);
        json::members_are_found(members, "content"@);
        json::members_are_found(members, "tool_call_id"@);
        match input[n] {
            ResponseItem::Message { role, content } => {
                if role@ != "system"@ && role@ != "assistant"@ {
                    assert(members[0].0 == "content"@ && members[1].0 == "role"@);
                }
            },
            ResponseItem::FunctionCallOutput { .. } => {
                assert(members[0].0 == "content"@ && members[1].0 == "role"@ && members[2].0
                    == "tool_call_id"@);
            },
            _ => {},
        }
    }
}

/// The first message holds the instructions, without the blanks round them; where those are
/// blank, the text of a leading system message. Without either there is none.
pub proof fn instructions_come_first(
    instructions: Seq<char>,
    input: Seq<ResponseItem>,
    format_primer: bool,
)
    ensures
        ({
            let all = chat_messages(instructions, input, format_primer);
            let said = if !text::is_blank(instructions) {
                text::trim(instructions)
            } else if input.len() > 0 && prompt::is_system(input[0]) {
                prompt::plain_text(
                    input[0]->Message_content@,
                    input[0]->Message_content@.len() as int,
                )
            } else {
                Seq::empty()
            };
            let opening = start_of(instructions, input, format_primer);
            &&& opening.is_prefix_of(all)
            &&& opening.len() == (if said.len() > 0 {
                1int
            } else {
                0
            }) + (if format_primer {
                4int
            } else {
                0
            })
            &&& said.len() > 0 ==> all[0].at("role"@) == Some(JsonModel::Text("system"@))
                && all[0].at("content"@) == Some(JsonModel::Text(said))
            &&& format_primer ==> opening.skip(opening.len() - 4) == primer_messages()
        }),
{
    keys_are_told_apart();
    let start = start_of(instructions, input, format_primer);
    done_stays(start, input, 0, input.len() as int);
    text::trim_of_blank(instructions);
    let all = chat_messages(instructions, input, format_primer);
    let said = system_text(instructions, input);
    if said.len() > 0 {
        assert(start[0] == text_message("system"@, said));
        let members = start[0]->Object_0;
        json::members_are_found(members, "role"@);
        json::members_are_found(members, "content"@);
        assert(members[0].0 == "content"@ && members[1].0 == "role"@);
    }
    if format_primer {
        assert(start.skip(start.len() - 4) =~= primer_messages());
    }
}

/// The text of the text parts, one behind the other.
pub open spec fn parts_text(parts: Seq<JsonModel>) -> Seq<char>
    decreases parts.len(),
{
    if parts.len() == 0 {
        Seq::empty()
    } else {
        parts_text(parts.drop_last()) + match parts.last().at("text"@) {
            Some(JsonModel::Text(t)) => t,
            _ => Seq::empty(),
        }
    }
}

/// The addresses of the image parts, in their order.
pub open spec fn parts_images(parts: Seq<JsonModel>) -> Seq<Seq<char>>
    decreases parts.len(),
{
    if parts.len() == 0 {
        Seq::empty()
    } else {
        let before = parts_images(parts.drop_last());
        match parts.last().at("image_url"@) {
            Some(image) => match image.at("url"@) {
                Some(JsonModel::Text(url)) => before.push(url),
                _ => before,
            },
            None => before,
        }
    }
}

proof fn one_part_more(parts: Seq<JsonModel>, t: Seq<char>, url: Seq<char>)
    ensures
        parts_text(parts.push(text_part(t))) == parts_text(parts) + t,
        parts_images(parts.push(text_part(t))) == parts_images(parts),
        parts_text(parts.push(image_part(url))) == parts_text(parts),
        parts_images(parts.push(image_part(url))) == parts_images(parts).push(url),
        text_part(t).at("type"@) == Some(JsonModel::Text("text"@)),
        image_part(url).at("type"@) == Some(JsonModel::Text("image_url"@)),
{
    keys_are_told_apart();
    assert(parts.push(text_part(t)).drop_last() =~= parts);
    assert(parts.push(image_part(url)).drop_last() =~= parts);
    let a = text_part(t)->Object_0;
    let b = image_part(url)->Object_0;
    json::members_are_found(a, "text"@);
    json::members_are_found(a, "image_url"@);
    json::members_are_found(a, "type"@);
    json::members_are_found(b, "text"@);
    json::members_are_found(b, "image_url"@);
    json::members_are_found(b, "type"@);
    assert(a[0].0 == "text"@ && a[1].0 == "type"@);
    assert(b[0].0 == "image_url"@ && b[1].0 == "type"@);
    let c = b[0].1->Object_0;
    json::members_are_found(c, "url"@);
    assert(c[0].0 == "url"@);
    assert(parts_text(parts) + Seq::<char>::empty() =~= parts_text(parts));
}

/// What the first `n` parts of a message say, and the addresses of the images among them
/// that can be shipped.
pub open spec fn items_say(items: Seq<ContentItem>, n: int) -> (Seq<char>, Seq<Seq<char>>)
    decreases n,
{
    if n <= 0 {
        (Seq::empty(), Seq::empty())
    } else {
        let (said, shown) = items_say(items, n - 1);
        match items[n - 1] {
            ContentItem::InputImage { image_url, .. } => if prompt::payload_of(image_url@) is Some {
                (said, shown.push(image_url@))
            } else {
                (said, shown)
            },
            _ => (said + prompt::part_text(items[n - 1]), shown),
        }
    }
}

proof fn parts_hold_all(items: Seq<ContentItem>, n: int)
    requires
        0 <= n <= items.len(),
    ensures
        ({
            let (parts, open) = chat_parts(items, n);
            &&& parts_text(parts) + open == items_say(items, n).0
            &&& parts_images(parts) == items_say(items, n).1
        }),
    decreases n,
{
    if n > 0 {
        parts_hold_all(items, n - 1);
        let (parts, open) = chat_parts(items, n - 1);
        let (said, shown) = items_say(items, n - 1);
        match items[n - 1] {
            ContentItem::InputImage { image_url, .. } => {
                let none = Seq::<char>::empty();
                one_part_more(parts, open, image_url@);
                one_part_more(parts.push(text_part(open)), open, image_url@);
                assert(parts_text(parts) + none =~= parts_text(parts));
                assert(said + none =~= said);
                if open.len() == 0 {
                    assert(open =~= none);
                }
            },
            _ => {
                let t = prompt::part_text(items[n - 1]);
                assert(parts_text(parts) + (open + t) =~= parts_text(parts) + open + t);
            },
        }
    }
}

/// What a user says is sent whole: as one text where there is no image to ship, else in
/// parts that hold all of the text and all such images, in their order.
pub proof fn user_content_is_sent_whole(items: Seq<ContentItem>)
    ensures
        ({
            let n = items.len() as int;
            let (said, shown) = items_say(items, n);
            match chat_content(items) {
                JsonModel::Text(t) => shown.len() == 0 && t == prompt::plain_text(items, n),
                JsonModel::Array(parts) => shown.len() > 0 && parts_text(parts) == said
                    && parts_images(parts) == shown,
                _ => false,
            }
        }),
{
    let n = items.len() as int;
    parts_hold_all(items, n);
    images_are_counted(items, n);
    let (parts, open) = chat_parts(items, n);
    one_part_more(parts, open, open);
    if open.len() == 0 {
        assert(parts_text(parts) + open =~= parts_text(parts));
    }
}

proof fn images_are_counted(items: Seq<ContentItem>, n: int)
    requires
        0 <= n <= items.len(),
    ensures
        has_image(items, n) <==> items_say(items, n).1.len() > 0,
    decreases n,
{
    if n > 0 {
        images_are_counted(items, n - 1);
        assert(has_image(items, n) <==> has_image(items, n - 1) || (
        items[n - 1] matches ContentItem::InputImage { image_url, .. } && prompt::payload_of(
            image_url@,
        ) is Some));
    }
}

/// Later items come behind earlier ones: messages stand in the order of the conversation.
pub proof fn messages_keep_the_order(
    instructions: Seq<char>,
    input: Seq<ResponseItem>,
    format_primer: bool,
    n: int,
    m: int,
)
    requires
        0 <= n <= m <= input.len(),
    ensures
        ({
            let start = start_of(instructions, input, format_primer);
            messages_before(start, input, n) <= messages_before(start, input, m)
        }),
        ({
            let start = start_of(instructions, input, format_primer);
            n < m && !(input[n] is FunctionCall || input[n] is ToolActivity || input[n] is Other
                || prompt::is_system(input[n])) ==> messages_before(start, input, n)
                < messages_before(start, input, m)
        }),
    decreases m,
{
    if n < m {
        messages_keep_the_order(instructions, input, format_primer, n, m - 1);
    }
}

/// Each tool that is offered is sent as a function.
pub proof fn every_tool_is_sent(flat: Seq<JsonModel>, i: int)
    requires
        0 <= i < flat.len(),
    ensures
        chat_tools(flat).len() == flat.len(),
        chat_tools(flat)[i].at("type"@) == Some(JsonModel::Text("function"@)),
        chat_tools(flat)[i].at("function"@) == Some(flat[i]),
{
    keys_are_told_apart();
    let members = chat_tools(flat)[i]->Object_0;
    json::members_are_found(members, "type"@);
    json::members_are_found(members, "function"@);
    assert(members[0].0 == "function"@ && members[1].0 == "type"@);
}

} // verus!
