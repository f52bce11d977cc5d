//! Model calls on behalf of others: a caller hands over messages and tools, the
//! session fills in what the call leaves open, and the events of the completion are
//! gathered into one result.

use crate::conversation::ContentItem;
use crate::conversation::ImageDetail;
use crate::conversation::ResponseItem;
use crate::conversation::ResponsesApiTool;
use crate::conversation::ToolSpec;
use crate::events::TokenUsage;
use crate::json;
use crate::json::Json;
use crate::json::JsonModel;
use crate::text;
use vstd::prelude::*;
use vstd::string::*;

verus! {

/// How closely a caller wants an image to be looked at.
#[derive(Debug, Clone, Copy, PartialEq, Eq, Structural)]
pub enum ModelBrokerImageDetail {
    Auto,
    Low,
    High,
    Original,
}

/// An image of a message.
#[derive(Debug)]
pub struct ModelBrokerImage {
    pub image_url: String,
    pub detail: Option<ModelBrokerImageDetail>,
}

/// A message that a caller hands over.
#[derive(Debug)]
pub struct ModelBrokerMessage {
    pub role: String,
    pub content: String,
    pub images: Vec<ModelBrokerImage>,
}

/// One call. What it leaves open the session decides.
#[derive(Debug)]
pub struct ModelBrokerCall {
    pub id: Option<String>,
    pub instructions: Option<String>,
    pub messages: Vec<ModelBrokerMessage>,
    pub model: Option<String>,
    pub reasoning_effort: Option<String>,
    pub reasoning_summary: Option<String>,
    /// The inner value is the tier; none of it clears the session's.
    pub service_tier: Option<Option<String>>,
    pub output_schema: Option<Json>,
    pub tools: Vec<Json>,
    pub tool_choice: Option<String>,
    pub parallel_tool_calls: Option<bool>,
    pub previous_response_id: Option<String>,
    pub replay_items: Vec<ResponseItem>,
    pub input_items: Vec<ResponseItem>,
}

/// A tool call of the model.
#[derive(Debug)]
pub struct ModelBrokerFunctionCall {
    pub id: Option<String>,
    pub name: String,
    pub namespace: Option<String>,
    pub arguments: String,
    pub call_id: String,
}

/// What a call came to.
#[derive(Debug)]
pub struct ModelBrokerResult {
    pub id: Option<String>,
    pub text: String,
    pub response_id: Option<String>,
    pub token_usage: Option<TokenUsage>,
    pub model: String,
    pub output_items: Vec<ResponseItem>,
    pub function_calls: Vec<ModelBrokerFunctionCall>,
}

/// What the session uses where a call leaves it open.
#[derive(Debug)]
pub struct SessionDefaults {
    pub model: String,
    pub base_instructions: String,
    pub personality: Option<String>,
    pub reasoning_effort: Option<String>,
    pub reasoning_summary: Option<String>,
    pub service_tier: Option<String>,
}

/// What the model uses where the session leaves it open too.
#[derive(Debug)]
pub struct ModelDefaults {
    pub reasoning_level: Option<String>,
    pub reasoning_summary: String,
}

/// A request to the model.
#[derive(Debug)]
pub struct Prompt {
    pub input: Vec<ResponseItem>,
    pub tools: Vec<ToolSpec>,
    pub parallel_tool_calls: bool,
    pub tool_choice: Option<String>,
    pub previous_response_id: Option<String>,
    pub base_instructions: String,
    pub personality: Option<String>,
    /// Further fields of the request, sent as they are.
    pub llamacpp_request_extra: Option<Json>,
    pub output_schema: Option<Json>,
    pub output_schema_strict: bool,
}

impl Default for Prompt {
    fn default() -> (r: Self)
        ensures
            r.input@.len() == 0,
            r.tools@.len() == 0,
            !r.parallel_tool_calls,
            r.tool_choice is None,
            r.previous_response_id is None,
            r.base_instructions@.len() == 0,
            r.personality is None,
            r.llamacpp_request_extra is None,
            r.output_schema is None,
            r.output_schema_strict,
    {
        Prompt {
            input: Vec::new(),
            tools: Vec::new(),
            parallel_tool_calls: false,
            tool_choice: None,
            previous_response_id: None,
            base_instructions: String::new(),
            personality: None,
            llamacpp_request_extra: None,
            output_schema: None,
            output_schema_strict: true,
        }
    }
}

// ---------------------------------------------------------------------------
// Tools.

/// What is read of a tool.
pub struct ToolModel {
    pub name: Seq<char>,
    pub description: Seq<char>,
    pub strict: bool,
    pub parameters: JsonModel,
}

/// Where a tool is described: in its member `function`, else in itself.
pub open spec fn function_of(value: JsonModel) -> JsonModel {
    match value.at("function"@) {
        Some(f) if f is Object => f,
        _ => value,
    }
}

pub open spec fn no_parameters() -> JsonModel {
    JsonModel::Object(
        seq![
            ("type"@, JsonModel::Text("object"@)),
            ("properties"@, JsonModel::Object(Seq::empty())),
        ],
    )
}

/// The parameters of a tool: those it names, else none.
pub open spec fn parameters_of(value: JsonModel) -> JsonModel {
    match function_of(value).at("parameters"@) {
        Some(p) => p,
        None => no_parameters(),
    }
}

/// A tool as a caller describes it. `schema_error` says why its parameters are no
/// schema, where they are none.
pub open spec fn tool_of(value: JsonModel, schema_error: Option<Seq<char>>) -> Result<
    ToolModel,
    Seq<char>,
> {
    if !(value is Object) {
        Err("broker tool must be an object"@)
    } else if value.text_at("type"@) != Some("function"@) {
        Err("model broker currently supports only function tools"@)
    } else {
        let f = function_of(value);
        match f.text_at("name"@) {
            None => Err("function tool missing name"@),
            Some(name) => match schema_error {
                Some(e) => Err("invalid parameters for function tool "@ + name + ": "@ + e),
                None => Ok(
                    ToolModel {
                        name,
                        description: match f.text_at("description"@) {
                            Some(d) => d,
                            None => Seq::empty(),
                        },
                        strict: f.flag_at("strict"@) == Some(true),
                        parameters: parameters_of(value),
                    },
                ),
            },
        }
    }
}

/// Whether a tool is the one that was read.
pub open spec fn is_tool(t: ToolSpec, m: ToolModel) -> bool {
    t matches ToolSpec::Function(f) && f.name@ == m.name && f.description@ == m.description
        && f.strict == m.strict && f.parameters@ == m.parameters
}

fn function_part(value: &Json) -> (r: &Json)
    ensures
        r@ == function_of(value@),
{
    match value.get("function") {
        Some(f) => match f.as_object() {
            Some(_) => f,
            None => value,
        },
        None => value,
    }
}

/// The parameters of a tool, which are to be read as a schema.
pub fn broker_tool_parameters(value: &Json) -> (r: Json)
    ensures
        r@ == parameters_of(value@),
{
    match function_part(value).get("parameters") {
        Some(p) => p.clone(),
        None => crate::chat::two("type", Json::text("object"), "properties", Json::object()),
    }
}

/// Reads a tool as a caller describes it. `schema_error` says why its parameters are
/// no schema, where they are none.
pub fn broker_tool_from_value(value: &Json, schema_error: &Option<String>) -> (r: Result<
    ToolSpec,
    String,
>)
    ensures
        match tool_of(value@, text::optional(*schema_error)) {
            Ok(m) => r matches Ok(t) && is_tool(t, m),
            Err(m) => r matches Err(e) && e@ == m,
        },
{
    if value.as_object().is_none() {
        return Err("broker tool must be an object".to_string());
    }
    let is_function: bool = match value.str_at("type") {
        Some(t) => text::same_text(t, "function"),
        None => false,
    };
    if !is_function {
        return Err("model broker currently supports only function tools".to_string());
    }
    let f = function_part(value);
    let name = match f.str_at("name") {
        Some(n) => n.to_string(),
        None => {
            return Err("function tool missing name".to_string());
        },
    };
    match schema_error {
        Some(e) => {
            let mut m = "invalid parameters for function tool ".to_string();
            m.append(name.as_str());
            m.append(": ");
            m.append(e.as_str());
            return Err(m);
        },
        None => {},
    }
    let description = match f.str_at("description") {
        Some(d) => d.to_string(),
        None => {
            let none = String::new();
            assert(none@ =~= Seq::empty());
            none
        },
    };
    let strict: bool = match f.bool_at("strict") {
        Some(b) => b,
        None => false,
    };
    let parameters = broker_tool_parameters(value);
    Ok(ToolSpec::Function(ResponsesApiTool { name, description, strict, parameters }))
}

/// The first tool from `i` on that cannot be read, by what is wrong with it.
pub open spec fn first_bad_tool(
    values: Seq<JsonModel>,
    schema_errors: Seq<Option<String>>,
    i: int,
) -> Option<Seq<char>>
    decreases values.len() - i,
{
    if i >= values.len() {
        None
    } else {
        match tool_of(values[i], text::optional(schema_errors[i])) {
            Err(m) => Some(m),
            Ok(_) => first_bad_tool(values, schema_errors, i + 1),
        }
    }
}

/// Whether a tool is what its description reads as.
pub open spec fn is_read(t: ToolSpec, value: JsonModel, schema_error: Option<String>) -> bool {
    match tool_of(value, text::optional(schema_error)) {
        Ok(m) => is_tool(t, m),
        Err(_) => false,
    }
}

/// Whether the tools are those that were read.
pub open spec fn are_tools(
    tools: Seq<ToolSpec>,
    values: Seq<JsonModel>,
    schema_errors: Seq<Option<String>>,
) -> bool {
    &&& tools.len() == values.len()
    &&& forall|k: int|
        0 <= k < tools.len() ==> is_read(#[trigger] tools[k], values[k], schema_errors[k])
}

/// Reads the tools of a call; the first that cannot be read is the error.
pub fn broker_tools_from_values(values: &Vec<Json>, schema_errors: &Vec<Option<String>>) -> (r: Result<
    Vec<ToolSpec>,
    String,
>)
    requires
        schema_errors@.len() == values@.len(),
    ensures
        match first_bad_tool(json::models(values@), schema_errors@, 0) {
            Some(m) => r matches Err(e) && e@ == m,
            None => r matches Ok(v) && are_tools(v@, json::models(values@), schema_errors@),
        },
{
    let ghost all = json::models(values@);
    let mut out: Vec<ToolSpec> = Vec::new();
    let mut i: usize = 0;
    while i < values.len()
        invariant
            i <= values@.len(),
            schema_errors@.len() == values@.len(),
            all == json::models(values@),
            first_bad_tool(all, schema_errors@, 0) == first_bad_tool(
                all,
                schema_errors@,
                i as int,
            ),
            out@.len() == i,
            forall|k: int|
                0 <= k < i ==> is_read(#[trigger] out@[k], all[k], schema_errors@[k]),
        decreases values@.len() - i,
    {
        assert(all[i as int] == values@[i as int]@);
        match broker_tool_from_value(&values[i], &schema_errors[i]) {
            Ok(t) => {
                out.push(t);
            },
            Err(m) => {
                return Err(m);
            },
        }
        i += 1;
    }
    Ok(out)
}

// ---------------------------------------------------------------------------
// Messages.

/// How closely an image is looked at.
pub open spec fn detail_of(d: ModelBrokerImageDetail) -> ImageDetail {
    match d {
        ModelBrokerImageDetail::Auto => ImageDetail::Auto,
        ModelBrokerImageDetail::Low => ImageDetail::Low,
        ModelBrokerImageDetail::High => ImageDetail::High,
        ModelBrokerImageDetail::Original => ImageDetail::Original,
    }
}

/// How closely an image is looked at.
pub fn core_image_detail_from_api(d: ModelBrokerImageDetail) -> (r: ImageDetail)
    ensures
        r == detail_of(d),
{
    match d {
        ModelBrokerImageDetail::Auto => ImageDetail::Auto,
        ModelBrokerImageDetail::Low => ImageDetail::Low,
        ModelBrokerImageDetail::High => ImageDetail::High,
        ModelBrokerImageDetail::Original => ImageDetail::Original,
    }
}

pub open spec fn is_image(c: ContentItem, i: ModelBrokerImage) -> bool {
    c matches ContentItem::InputImage { image_url, detail } && image_url@ == i.image_url@
        && detail == match i.detail {
        Some(d) => Some(detail_of(d)),
        None => None,
    }
}

/// Whether an item of the conversation is this message of the user: its text, then
/// its images.
pub open spec fn is_user_item(item: ResponseItem, m: ModelBrokerMessage) -> bool {
    item matches ResponseItem::Message { role, content } && {
        &&& role@ == "user"@
        &&& content@.len() == 1 + m.images@.len()
        &&& (content@[0] matches ContentItem::InputText { text } && text@ == m.content@)
        &&& forall|k: int| 0 <= k < m.images@.len() ==> is_image(content@[k + 1], #[trigger] m.images@[k])
    }
}

/// Whether an item of the conversation is this message of the assistant.
pub open spec fn is_assistant_item(item: ResponseItem, m: ModelBrokerMessage) -> bool {
    item matches ResponseItem::Message { role, content } && {
        &&& role@ == "assistant"@
        &&& content@.len() == 1
        &&& (content@[0] matches ContentItem::OutputText { text } && text@ == m.content@)
    }
}

/// Whether a message is part of the instructions.
pub open spec fn is_instruction(m: ModelBrokerMessage) -> bool {
    m.role@ == "system"@ || m.role@ == "developer"@
}

/// Whether a message becomes an item of the conversation.
pub open spec fn is_spoken(m: ModelBrokerMessage) -> bool {
    m.role@ == "user"@ || m.role@ == "assistant"@
}

/// Whether an item of the conversation is this message.
pub open spec fn is_item(item: ResponseItem, m: ModelBrokerMessage) -> bool {
    if m.role@ == "user"@ {
        is_user_item(item, m)
    } else {
        is_assistant_item(item, m)
    }
}

/// The instructions with those among the first `n` messages behind them.
pub open spec fn instructions_with(start: Seq<char>, messages: Seq<ModelBrokerMessage>, n: int) -> Seq<char>
    decreases n,
{
    if n <= 0 {
        start
    } else {
        let before = instructions_with(start, messages, n - 1);
        let m = messages[n - 1];
        if is_instruction(m) && !text::is_blank(m.content@) {
            before + "\n\n"@ + m.content@
        } else {
            before
        }
    }
}

/// The places of those among the first `n` messages that become items.
pub open spec fn spoken(messages: Seq<ModelBrokerMessage>, n: int) -> Seq<int>
    decreases n,
{
    if n <= 0 {
        Seq::empty()
    } else if is_spoken(messages[n - 1]) {
        spoken(messages, n - 1).push(n - 1)
    } else {
        spoken(messages, n - 1)
    }
}

/// The first role from `i` on that there is no place for.
pub open spec fn first_bad_role(messages: Seq<ModelBrokerMessage>, i: int) -> Option<Seq<char>>
    decreases messages.len() - i,
{
    if i >= messages.len() {
        None
    } else if !is_instruction(messages[i]) && !is_spoken(messages[i]) {
        Some(messages[i].role@)
    } else {
        first_bad_role(messages, i + 1)
    }
}

/// Whether the items are the messages at these places.
pub open spec fn are_items(
    items: Seq<ResponseItem>,
    messages: Seq<ModelBrokerMessage>,
    places: Seq<int>,
) -> bool {
    &&& items.len() == places.len()
    &&& forall|k: int|
        0 <= k < places.len() ==> is_item(#[trigger] items[k], messages[places[k]])
}

fn user_item(m: &ModelBrokerMessage) -> (r: ResponseItem)
    ensures
        is_user_item(r, *m),
{
    let mut content: Vec<ContentItem> = Vec::new();
    content.push(ContentItem::InputText { text: m.content.clone() });
    let mut i: usize = 0;
    while i < m.images.len()
        invariant
            i <= m.images@.len(),
            content@.len() == 1 + i,
            content@[0] matches ContentItem::InputText { text } && text@ == m.content@,
            forall|k: int| 0 <= k < i ==> is_image(content@[k + 1], #[trigger] m.images@[k]),
        decreases m.images@.len() - i,
    {
        let image = &m.images[i];
        let detail = match image.detail {
            Some(d) => Some(core_image_detail_from_api(d)),
            None => None,
        };
        let part = ContentItem::InputImage { image_url: image.image_url.clone(), detail };
        assert(is_image(part, m.images@[i as int]));
        let ghost before = content@;
        content.push(part);
        assert(content@[0] == before[0]);
        assert forall|k: int| 0 <= k < i + 1 implies is_image(
            content@[k + 1],
            #[trigger] m.images@[k],
        ) by {
            if k < i {
                assert(content@[k + 1] == before[k + 1]);
            }
        }
        i += 1;
    }
    ResponseItem::Message { role: "user".to_string(), content }
}

fn assistant_item(m: &ModelBrokerMessage) -> (r: ResponseItem)
    ensures
        is_assistant_item(r, *m),
{
    let mut content: Vec<ContentItem> = Vec::new();
    content.push(ContentItem::OutputText { text: m.content.clone() });
    ResponseItem::Message { role: "assistant".to_string(), content }
}

/// Takes the messages in: those of the system behind the instructions, the others as
/// items. A role that there is no place for is the error.
pub fn append_broker_messages(
    instructions: String,
    messages: &Vec<ModelBrokerMessage>,
) -> (r: Result<(String, Vec<ResponseItem>), String>)
    ensures
        match first_bad_role(messages@, 0) {
            Some(role) => r matches Err(e) && e@ == "unsupported model broker message role: "@
                + role,
            None => r matches Ok(p) && p.0@ == instructions_with(
                instructions@,
                messages@,
                messages@.len() as int,
            ) && are_items(p.1@, messages@, spoken(messages@, messages@.len() as int)),
        },
{
    let ghost start = instructions@;
    let mut said = instructions;
    let mut items: Vec<ResponseItem> = Vec::new();
    let mut i: usize = 0;
    while i < messages.len()
        invariant
            i <= messages@.len(),
            first_bad_role(messages@, 0) == first_bad_role(messages@, i as int),
            said@ == instructions_with(start, messages@, i as int),
            are_items(items@, messages@, spoken(messages@, i as int)),
        decreases messages@.len() - i,
    {
        let m = &messages[i];
        let role = m.role.as_str();
        let ghost before = items@;
        let ghost places = spoken(messages@, i as int);
        if text::same_text(role, "system") || text::same_text(role, "developer") {
            proof {
                reveal_strlit("system");
                reveal_strlit("developer");
                reveal_strlit("user");
                reveal_strlit("assistant");
                assert("system"@[0] == 's' && "developer"@[0] == 'd' && "user"@[0] == 'u'
                    && "assistant"@[0] == 'a');
            }
            if !text::str_blank(m.content.as_str()) {
                said.append("\n\n");
                said.append(m.content.as_str());
            }
        } else if text::same_text(role, "user") {
            items.push(user_item(m));
            assert(spoken(messages@, i + 1) == places.push(i as int));
            assert forall|k: int| 0 <= k < places.push(i as int).len() implies is_item(
                #[trigger] items@[k],
                messages@[places.push(i as int)[k]],
            ) by {
                if k < places.len() {
                    assert(items@[k] == before[k]);
                }
            }
        } else if text::same_text(role, "assistant") {
            items.push(assistant_item(m));
            assert(spoken(messages@, i + 1) == places.push(i as int));
            assert forall|k: int| 0 <= k < places.push(i as int).len() implies is_item(
                #[trigger] items@[k],
                messages@[places.push(i as int)[k]],
            ) by {
                if k < places.len() {
                    assert(items@[k] == before[k]);
                }
            }
        } else {
            let mut e = "unsupported model broker message role: ".to_string();
            e.append(role);
            return Err(e);
        }
        i += 1;
    }
    Ok((said, items))
}

// ---------------------------------------------------------------------------
// What a call asks of the model.

pub open spec fn first_of(a: Option<Seq<char>>, b: Option<Seq<char>>) -> Option<Seq<char>> {
    match a {
        Some(_) => a,
        None => b,
    }
}

fn first(a: Option<String>, b: &Option<String>) -> (r: Option<String>)
    ensures
        text::optional(r) == first_of(text::optional(a), text::optional(*b)),
{
    match a {
        Some(t) => Some(t),
        None => match b {
            Some(t) => Some(t.clone()),
            None => None,
        },
    }
}

/// The model that a call asks for: its own, else the session's.
pub fn requested_model(call: &ModelBrokerCall, session: &SessionDefaults) -> (r: String)
    ensures
        r@ == match call.model {
            Some(m) => m@,
            None => session.model@,
        },
{
    match &call.model {
        Some(m) => m.clone(),
        None => session.model.clone(),
    }
}

/// What a call asks of the model.
#[derive(Debug)]
pub struct BrokerTurn {
    pub id: Option<String>,
    pub prompt: Prompt,
    pub reasoning_effort: Option<String>,
    pub reasoning_summary: String,
    pub service_tier: Option<String>,
}

pub open spec fn start_of(call: ModelBrokerCall, session: SessionDefaults) -> Seq<char> {
    match call.instructions {
        Some(i) => i@,
        None => session.base_instructions@,
    }
}

/// Whether a prompt is what a call asks for.
pub open spec fn is_prompt(p: Prompt, call: ModelBrokerCall, session: SessionDefaults, schema_errors: Seq<
    Option<String>,
>) -> bool {
    let messages = call.messages@;
    let places = spoken(messages, messages.len() as int);
    &&& p.base_instructions@ == instructions_with(
        start_of(call, session),
        messages,
        messages.len() as int,
    )
    &&& p.input@.len() == places.len() + call.replay_items@.len() + call.input_items@.len()
    &&& are_items(p.input@.take(places.len() as int), messages, places)
    &&& p.input@.skip(places.len() as int) == call.replay_items@ + call.input_items@
    &&& are_tools(p.tools@, json::models(call.tools@), schema_errors)
    &&& p.parallel_tool_calls == (call.parallel_tool_calls == Some(true))
    &&& p.tool_choice == call.tool_choice
    &&& p.previous_response_id == call.previous_response_id
    &&& text::optional(p.personality) == text::optional(session.personality)
    &&& p.llamacpp_request_extra is None
    &&& p.output_schema == call.output_schema
    &&& p.output_schema_strict
}

/// What is wrong with a call: the first tool that cannot be read, else the first role
/// that there is no place for.
pub open spec fn call_error(call: ModelBrokerCall, schema_errors: Seq<Option<String>>) -> Option<Seq<char>> {
    match first_bad_tool(json::models(call.tools@), schema_errors, 0) {
        Some(m) => Some(m),
        None => match first_bad_role(call.messages@, 0) {
            Some(role) => Some("unsupported model broker message role: "@ + role),
            None => None,
        },
    }
}

/// What a call asks of the model. What it leaves open the session decides, and after
/// it the model.
pub fn prepare_call(
    call: ModelBrokerCall,
    session: &SessionDefaults,
    model: &ModelDefaults,
    schema_errors: &Vec<Option<String>>,
) -> (r: Result<BrokerTurn, String>)
    requires
        schema_errors@.len() == call.tools@.len(),
    ensures
        match call_error(call, schema_errors@) {
            Some(m) => r matches Err(e) && e@ == m,
            None => r matches Ok(t) && {
                &&& t.id == call.id
                &&& is_prompt(t.prompt, call, *session, schema_errors@)
                &&& text::optional(t.reasoning_effort) == first_of(
                    first_of(
                        text::optional(call.reasoning_effort),
                        text::optional(session.reasoning_effort),
                    ),
                    text::optional(model.reasoning_level),
                )
                &&& Some(t.reasoning_summary@) == first_of(
                    first_of(
                        text::optional(call.reasoning_summary),
                        text::optional(session.reasoning_summary),
                    ),
                    Some(model.reasoning_summary@),
                )
                &&& text::optional(t.service_tier) == match call.service_tier {
                    Some(tier) => text::optional(tier),
                    None => text::optional(session.service_tier),
                }
            },
        },
{
    let tools = match broker_tools_from_values(&call.tools, schema_errors) {
        Ok(v) => v,
        Err(m) => {
            return Err(m);
        },
    };
    let start = match &call.instructions {
        Some(i) => i.clone(),
        None => session.base_instructions.clone(),
    };
    let (base_instructions, items) = match append_broker_messages(start, &call.messages) {
        Ok(p) => p,
        Err(m) => {
            return Err(m);
        },
    };
    let ghost spoken_items = items@;
    let ghost whole = call;
    let mut input = items;
    let mut replay = call.replay_items;
    let mut given = call.input_items;
    input.append(&mut replay);
    input.append(&mut given);
    proof {
        assert(input@.take(spoken_items.len() as int) =~= spoken_items);
        assert(input@.skip(spoken_items.len() as int) =~= whole.replay_items@
            + whole.input_items@);
    }
    let parallel: bool = match call.parallel_tool_calls {
        Some(b) => b,
        None => false,
    };
    let none: Option<String> = None;
    let prompt = Prompt {
        input,
        tools,
        parallel_tool_calls: parallel,
        tool_choice: call.tool_choice,
        previous_response_id: call.previous_response_id,
        base_instructions,
        personality: first(none, &session.personality),
        llamacpp_request_extra: None,
        output_schema: call.output_schema,
        output_schema_strict: true,
    };
    let effort = first(
        first(call.reasoning_effort, &session.reasoning_effort),
        &model.reasoning_level,
    );
    let summary = match first(call.reasoning_summary, &session.reasoning_summary) {
        Some(s) => s,
        None => model.reasoning_summary.clone(),
    };
    let tier = match call.service_tier {
        Some(t) => t,
        None => {
            let none: Option<String> = None;
            first(none, &session.service_tier)
        },
    };
    Ok(
        BrokerTurn {
            id: call.id,
            prompt,
            reasoning_effort: effort,
            reasoning_summary: summary,
            service_tier: tier,
        },
    )
}

// ---------------------------------------------------------------------------
// Gathering the completion.

/// An event of the completion, as far as a result depends on it.
#[derive(Debug)]
pub enum BrokerEvent {
    TextDelta(String),
    ItemDone(ResponseItem),
    Completed { response_id: String, usage: Option<TokenUsage> },
    Other,
}

pub struct CallModel {
    pub id: Option<Seq<char>>,
    pub name: Seq<char>,
    pub namespace: Option<Seq<char>>,
    pub arguments: Seq<char>,
    pub call_id: Seq<char>,
}

impl View for ModelBrokerFunctionCall {
    type V = CallModel;

    open spec fn view(&self) -> CallModel {
        CallModel {
            id: text::optional(self.id),
            name: self.name@,
            namespace: text::optional(self.namespace),
            arguments: self.arguments@,
            call_id: self.call_id@,
        }
    }
}

pub open spec fn call_models(v: Seq<ModelBrokerFunctionCall>) -> Seq<CallModel> {
    v.map_values(|c: ModelBrokerFunctionCall| c@)
}

/// The texts among the first `n` parts.
pub open spec fn text_of_parts(content: Seq<ContentItem>, n: int) -> Seq<char>
    decreases n,
{
    if n <= 0 {
        Seq::empty()
    } else {
        text_of_parts(content, n - 1) + match content[n - 1] {
            ContentItem::InputText { text } => text@,
            ContentItem::OutputText { text } => text@,
            ContentItem::InputImage { .. } => Seq::empty(),
        }
    }
}

/// The texts of a message, one after another.
pub fn content_items_text(content: &Vec<ContentItem>) -> (r: String)
    ensures
        r@ == text_of_parts(content@, content@.len() as int),
{
    let mut out = String::new();
    let mut i: usize = 0;
    assert(out@ =~= Seq::empty());
    while i < content.len()
        invariant
            i <= content@.len(),
            out@ == text_of_parts(content@, i as int),
        decreases content@.len() - i,
    {
        let ghost before = out@;
        match &content[i] {
            ContentItem::InputText { text } => {
                out.append(text.as_str());
            },
            ContentItem::OutputText { text } => {
                out.append(text.as_str());
            },
            ContentItem::InputImage { .. } => {
                assert(before + Seq::empty() =~= before);
            },
        }
        i += 1;
    }
    out
}

/// What an item says, where it is a message of the assistant.
pub open spec fn said_by(item: ResponseItem) -> Seq<char> {
    match item {
        ResponseItem::Message { role, content } => if role@ == "assistant"@ {
            text_of_parts(content@, content@.len() as int)
        } else {
            Seq::empty()
        },
        _ => Seq::empty(),
    }
}

/// The call that an item is, where it is one.
pub open spec fn call_in(item: ResponseItem) -> Option<CallModel> {
    match item {
        ResponseItem::FunctionCall { id, name, namespace, arguments, call_id } => Some(
            CallModel {
                id: text::optional(id),
                name: name@,
                namespace: text::optional(namespace),
                arguments: arguments@,
                call_id: call_id@,
            },
        ),
        _ => None,
    }
}

/// What has come of a completion.
#[derive(Debug)]
pub struct BrokerOutput {
    text: String,
    completed_text: String,
    response_id: Option<String>,
    token_usage: Option<TokenUsage>,
    output_items: Vec<ResponseItem>,
    function_calls: Vec<ModelBrokerFunctionCall>,
}

pub struct OutputModel {
    /// The text that came in pieces.
    pub text: Seq<char>,
    /// The text of the finished messages.
    pub completed_text: Seq<char>,
    pub response_id: Option<Seq<char>>,
    pub token_usage: Option<TokenUsage>,
    pub items: Seq<ResponseItem>,
    pub calls: Seq<CallModel>,
}

impl OutputModel {
    pub open spec fn empty() -> OutputModel {
        OutputModel {
            text: Seq::empty(),
            completed_text: Seq::empty(),
            response_id: None,
            token_usage: None,
            items: Seq::empty(),
            calls: Seq::empty(),
        }
    }

    /// What has come once an event has.
    pub open spec fn after(self, event: BrokerEvent) -> OutputModel {
        match event {
            BrokerEvent::TextDelta(t) => OutputModel { text: self.text + t@, ..self },
            BrokerEvent::ItemDone(item) => OutputModel {
                completed_text: self.completed_text + said_by(item),
                items: self.items.push(item),
                calls: match call_in(item) {
                    Some(c) => self.calls.push(c),
                    None => self.calls,
                },
                ..self
            },
            BrokerEvent::Completed { response_id, usage } => OutputModel {
                response_id: Some(response_id@),
                token_usage: usage,
                ..self
            },
            BrokerEvent::Other => self,
        }
    }

    /// The text of the result: what came in pieces; where nothing did, that of the
    /// finished messages.
    pub open spec fn result_text(self) -> Seq<char> {
        if self.text.len() == 0 {
            self.completed_text
        } else {
            self.text
        }
    }
}

impl View for BrokerOutput {
    type V = OutputModel;

    closed spec fn view(&self) -> OutputModel {
        OutputModel {
            text: self.text@,
            completed_text: self.completed_text@,
            response_id: text::optional(self.response_id),
            token_usage: self.token_usage,
            items: self.output_items@,
            calls: call_models(self.function_calls@),
        }
    }
}

impl BrokerOutput {
    pub fn new() -> (r: Self)
        ensures
            r@ == OutputModel::empty(),
    {
        let r = BrokerOutput {
            text: String::new(),
            completed_text: String::new(),
            response_id: None,
            token_usage: None,
            output_items: Vec::new(),
            function_calls: Vec::new(),
        };
        assert(r.text@ =~= Seq::empty());
        assert(r.completed_text@ =~= Seq::empty());
        assert(r.output_items@ =~= Seq::empty());
        assert(call_models(r.function_calls@) =~= Seq::empty());
        r
    }

    fn take_item(&mut self, item: ResponseItem)
        ensures
            final(self)@ == old(self)@.after(BrokerEvent::ItemDone(item)),
    {
        let ghost was = self@;
        let ghost calls_before = self.function_calls@;
        match &item {
            ResponseItem::Message { role, content } => {
                if text::same_text(role.as_str(), "assistant") {
                    self.completed_text.append(content_items_text(content).as_str());
                } else {
                    assert(was.completed_text + Seq::empty() =~= was.completed_text);
                }
            },
            ResponseItem::FunctionCall { id, name, namespace, arguments, call_id } => {
                let none_id: Option<String> = None;
                let none_ns: Option<String> = None;
                let call = ModelBrokerFunctionCall {
                    id: first(none_id, id),
                    name: name.clone(),
                    namespace: first(none_ns, namespace),
                    arguments: arguments.clone(),
                    call_id: call_id.clone(),
                };
                self.function_calls.push(call);
                assert(call_models(self.function_calls@) =~= call_models(calls_before).push(
                    call@,
                ));
                assert(was.completed_text + Seq::empty() =~= was.completed_text);
            },
            _ => {
                assert(was.completed_text + Seq::empty() =~= was.completed_text);
            },
        }
        self.output_items.push(item);
    }

    /// Takes an event of the completion in.
    pub fn on_event(&mut self, event: BrokerEvent)
        ensures
            final(self)@ == old(self)@.after(event),
    {
        match event {
            BrokerEvent::TextDelta(t) => {
                self.text.append(t.as_str());
            },
            BrokerEvent::ItemDone(item) => {
                self.take_item(item);
            },
            BrokerEvent::Completed { response_id, usage } => {
                self.response_id = Some(response_id);
                self.token_usage = usage;
            },
            BrokerEvent::Other => {},
        }
    }

    /// The result, once the stream has ended.
    pub fn finish(self, id: Option<String>, model: String) -> (r: ModelBrokerResult)
        ensures
            r.id == id,
            r.model == model,
            r.text@ == self@.result_text(),
            text::optional(r.response_id) == self@.response_id,
            r.token_usage == self@.token_usage,
            r.output_items@ == self@.items,
            call_models(r.function_calls@) == self@.calls,
    {
        let streamed: bool = text::chars_of(self.text.as_str()).len() > 0;
        let text = if streamed {
            self.text
        } else {
            self.completed_text
        };
        ModelBrokerResult {
            id,
            text,
            response_id: self.response_id,
            token_usage: self.token_usage,
            model,
            output_items: self.output_items,
            function_calls: self.function_calls,
        }
    }
}

/// What has come once the first `n` events have.
pub open spec fn gathered(events: Seq<BrokerEvent>, n: int) -> OutputModel
    decreases n,
{
    if n <= 0 {
        OutputModel::empty()
    } else {
        gathered(events, n - 1).after(events[n - 1])
    }
}

/// The calls among the first `n` items.
pub open spec fn calls_among(items: Seq<ResponseItem>, n: int) -> Seq<CallModel>
    decreases n,
{
    if n <= 0 {
        Seq::empty()
    } else {
        match call_in(items[n - 1]) {
            Some(c) => calls_among(items, n - 1).push(c),
            None => calls_among(items, n - 1),
        }
    }
}

proof fn calls_among_ignore_the_rest(a: Seq<ResponseItem>, item: ResponseItem, n: int)
    requires
        0 <= n <= a.len(),
    ensures
        calls_among(a.push(item), n) == calls_among(a, n),
    decreases n,
{
    if n > 0 {
        calls_among_ignore_the_rest(a, item, n - 1);
    }
}

/// The calls of a result are those of its items, in their order: none is lost and
/// none is made up.
pub proof fn calls_are_those_of_the_items(events: Seq<BrokerEvent>, n: int)
    requires
        0 <= n <= events.len(),
    ensures
        gathered(events, n).calls == calls_among(
            gathered(events, n).items,
            gathered(events, n).items.len() as int,
        ),
    decreases n,
{
    if n > 0 {
        calls_are_those_of_the_items(events, n - 1);
        let before = gathered(events, n - 1);
        match events[n - 1] {
            BrokerEvent::ItemDone(item) => {
                calls_among_ignore_the_rest(before.items, item, before.items.len() as int);
            },
            _ => {},
        }
    }
}

// ---------------------------------------------------------------------------
// Laws.

proof fn roles_differ()
    ensures
        "system"@ != "developer"@,
        "system"@ != "user"@,
        "system"@ != "assistant"@,
        "developer"@ != "user"@,
        "developer"@ != "assistant"@,
        "user"@ != "assistant"@,
{
    reveal_strlit("system");
    assert("system"@.len() == 6);
    reveal_strlit("developer");
    assert("developer"@.len() == 9);
    reveal_strlit("user");
    assert("user"@.len() == 4);
    reveal_strlit("assistant");
    assert("assistant"@.len() == 9);
    assert("developer"@[0] != "assistant"@[0]);
}

/// A tool is read exactly where it is a function with a name whose parameters are in order,
/// whether it stands in the value itself or under its own member; it says what the function
/// says, and takes no parameters where none are declared.
pub proof fn only_named_functions_are_tools(
    value: JsonModel,
    f: JsonModel,
    name: Seq<char>,
    d: Seq<char>,
    p: JsonModel,
    e: Seq<char>,
)
    requires
        value is Object,
        (value.at("function"@) == Some(f) && f is Object) || (value.at("function"@) is None && f
            == value),
    ensures
        tool_of(value, None) is Ok <==> value.at("type"@) == Some(JsonModel::Text("function"@))
            && (f.at("name"@) matches Some(JsonModel::Text(_))),
        tool_of(value, Some(e)) is Err,
        f.at("name"@) == Some(JsonModel::Text(name)) ==> (tool_of(value, None) matches Ok(t) ==> {
            &&& t.name == name
            &&& f.at("description"@) == Some(JsonModel::Text(d)) ==> t.description == d
            &&& f.at("description"@) is None ==> t.description.len() == 0
            &&& t.strict <==> f.at("strict"@) == Some(JsonModel::Bool(true))
            &&& f.at("parameters"@) == Some(p) ==> t.parameters == p
            &&& f.at("parameters"@) is None ==> t.parameters == JsonModel::Object(
                seq![
                    ("type"@, JsonModel::Text("object"@)),
                    ("properties"@, JsonModel::Object(Seq::empty())),
                ],
            )
        }),
{
}

/// Nothing but an object is a tool.
pub proof fn tools_are_objects(value: JsonModel, e: Option<Seq<char>>)
    requires
        !(value is Object),
    ensures
        tool_of(value, e) is Err,
{
}

/// Tools are accepted where every one of them is, and refused for the first that is not.
pub proof fn one_bad_tool_is_enough(values: Seq<JsonModel>, errors: Seq<Option<String>>, i: int, at: int)
    requires
        0 <= i <= at <= values.len(),
        forall|k: int|
            i <= k < at ==> tool_of(#[trigger] values[k], text::optional(errors[k])) is Ok,
    ensures
        at == values.len() ==> first_bad_tool(values, errors, i) is None,
        at < values.len() ==> (tool_of(values[at], text::optional(errors[at])) matches Err(m)
            ==> first_bad_tool(values, errors, i) == Some(m)),
    decreases at - i,
{
    if i < at {
        assert(tool_of(values[i], text::optional(errors[i])) is Ok);
        one_bad_tool_is_enough(values, errors, i + 1, at);
    }
}

/// Roles are accepted where every one of them is one of the four, and refused for the first
/// that is not.
pub proof fn only_four_roles_are_known(messages: Seq<ModelBrokerMessage>, i: int, at: int)
    requires
        0 <= i <= at <= messages.len(),
        forall|k: int| #![trigger messages[k]]
            i <= k < at ==> messages[k].role@ == "system"@ || messages[k].role@ == "developer"@
                || messages[k].role@ == "user"@ || messages[k].role@ == "assistant"@,
    ensures
        at == messages.len() ==> first_bad_role(messages, i) is None,
        at < messages.len() && messages[at].role@ != "system"@ && messages[at].role@
            != "developer"@ && messages[at].role@ != "user"@ && messages[at].role@ != "assistant"@
            ==> first_bad_role(messages, i) == Some(messages[at].role@),
    decreases at - i,
{
    if i < at {
        let r = messages[i].role@;
        assert(r == "system"@ || r == "developer"@ || r == "user"@ || r == "assistant"@);
        only_four_roles_are_known(messages, i + 1, at);
    }
}

/// What the system and the developer say goes behind the instructions, in its order and each
/// below a blank line, unless it is blank; what the user and the assistant say does not.
pub proof fn instructions_are_gathered(start: Seq<char>, messages: Seq<ModelBrokerMessage>, n: int)
    requires
        0 < n <= messages.len(),
    ensures
        instructions_with(start, messages, 0) == start,
        ({
            let m = messages[n - 1];
            let before = instructions_with(start, messages, n - 1);
            let after = instructions_with(start, messages, n);
            let tells = m.role@ == "system"@ || m.role@ == "developer"@;
            &&& tells && !text::is_blank(m.content@) ==> after == before + "\n\n"@ + m.content@
            &&& tells && text::is_blank(m.content@) ==> after == before
            &&& m.role@ == "user"@ || m.role@ == "assistant"@ ==> after == before
        }),
{
    roles_differ();
}

/// Every message of the user and of the assistant has its place in the conversation, in its
/// order, and no other has one.
pub proof fn the_conversation_is_what_was_spoken(messages: Seq<ModelBrokerMessage>, n: int)
    requires
        0 <= n <= messages.len(),
    ensures
        ({
            let places = spoken(messages, n);
            &&& forall|k: int|
                0 <= k < places.len() ==> 0 <= #[trigger] places[k] < n && (messages[places[k]].role@
                    == "user"@ || messages[places[k]].role@ == "assistant"@)
            &&& forall|j: int, k: int|
                0 <= j < k < places.len() ==> #[trigger] places[j] < #[trigger] places[k]
            &&& forall|i: int|
                0 <= i < n && ((#[trigger] messages[i]).role@ == "user"@ || messages[i].role@
                    == "assistant"@) ==> places.contains(i)
        }),
    decreases n,
{
    if n > 0 {
        the_conversation_is_what_was_spoken(messages, n - 1);
        let before = spoken(messages, n - 1);
        let places = spoken(messages, n);
        assert forall|i: int|
            0 <= i < n && ((#[trigger] messages[i]).role@ == "user"@ || messages[i].role@
                == "assistant"@) implies places.contains(i) by {
            if i < n - 1 {
                let k = choose|k: int| 0 <= k < before.len() && before[k] == i;
                assert(places[k] == i);
            } else {
                assert(places[before.len() as int] == i);
            }
        }
    }
}

/// The text of a message are the texts of its parts, in their order; images have none.
pub proof fn messages_say_their_texts(content: Seq<ContentItem>, n: int)
    requires
        0 < n <= content.len(),
    ensures
        text_of_parts(content, 0).len() == 0,
        content[n - 1] matches ContentItem::InputText { text } ==> text_of_parts(content, n)
            == text_of_parts(content, n - 1) + text@,
        content[n - 1] matches ContentItem::OutputText { text } ==> text_of_parts(content, n)
            == text_of_parts(content, n - 1) + text@,
        content[n - 1] is InputImage ==> text_of_parts(content, n) == text_of_parts(content, n - 1),
{
    assert(text_of_parts(content, n - 1) + Seq::<char>::empty() =~= text_of_parts(content, n - 1));
}

/// What comes is gathered: pieces of text one behind the other, items in their order, what the
/// assistant says in them and the calls among them, and how it ended.
pub proof fn events_are_gathered(s: OutputModel, t: String, item: ResponseItem, id: String, u: Option<TokenUsage>)
    ensures
        s.after(BrokerEvent::TextDelta(t)) == (OutputModel { text: s.text + t@, ..s }),
        s.after(BrokerEvent::Other) == s,
        ({
            let next = s.after(BrokerEvent::Completed { response_id: id, usage: u });
            next == (OutputModel { response_id: Some(id@), token_usage: u, ..s })
        }),
        ({
            let next = s.after(BrokerEvent::ItemDone(item));
            &&& next.items == s.items.push(item)
            &&& next.text == s.text
            &&& next.response_id == s.response_id
            &&& item matches ResponseItem::Message { role, content } ==> {
                &&& role@ == "assistant"@ ==> next.completed_text == s.completed_text
                    + text_of_parts(content@, content@.len() as int)
                &&& role@ != "assistant"@ ==> next.completed_text == s.completed_text
            }
            &&& !(item is Message) ==> next.completed_text == s.completed_text
            &&& item matches ResponseItem::FunctionCall { id, name, namespace, arguments, call_id }
                ==> next.calls == s.calls.push(
                CallModel {
                    id: text::optional(id),
                    name: name@,
                    namespace: text::optional(namespace),
                    arguments: arguments@,
                    call_id: call_id@,
                },
            )
            &&& !(item is FunctionCall) ==> next.calls == s.calls
        }),
        s.text.len() > 0 ==> s.result_text() == s.text,
        s.text.len() == 0 ==> s.result_text() == s.completed_text,
{
    assert(s.completed_text + Seq::<char>::empty() =~= s.completed_text);
}

/// What the call says comes before what the session says, and that before what the model has.
pub proof fn the_nearest_setting_holds(a: Seq<char>, b: Option<Seq<char>>)
    ensures
        first_of(Some(a), b) == Some(a),
        first_of(None, b) == b,
{
}

/// The detail of an image is kept.
pub proof fn image_details_are_kept(d: ModelBrokerImageDetail)
    ensures
        detail_of(d) is Auto <==> d is Auto,
        detail_of(d) is Low <==> d is Low,
        detail_of(d) is High <==> d is High,
        detail_of(d) is Original <==> d is Original,
{
}

} // verus!
