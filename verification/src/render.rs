//! Rendering a conversation as the raw prompt that the model continues.

use crate::conversation::ReasoningItemContent;
use crate::conversation::ResponseItem;
use crate::conversation::ToolSpec;
use crate::json;
use crate::json::Json;
use crate::json::JsonModel;
use crate::prompt;
use crate::text;
use crate::tool_call;
use vstd::prelude::*;
use vstd::string::*;

verus! {

/// A call inside an assistant turn; its arguments in the order in which the
/// model produced them.
#[derive(Debug)]
pub struct FlatToolCall {
    pub name: String,
    pub arguments: Vec<(String, Json)>,
}

/// One turn as the template sees it.
#[derive(Debug)]
pub enum Turn {
    System(String),
    User(String),
    /// Plain content and the calls that were made with it.
    Assistant { content: String, reasoning: Option<String>, tool_calls: Vec<FlatToolCall> },
    ToolResult(String),
}

/// A call with texts as character sequences.
pub struct FlatCallModel {
    pub name: Seq<char>,
    pub arguments: Seq<(Seq<char>, JsonModel)>,
}

/// A turn with texts as character sequences.
pub enum TurnModel {
    System(Seq<char>),
    User(Seq<char>),
    Assistant {
        content: Seq<char>,
        reasoning: Option<Seq<char>>,
        tool_calls: Seq<FlatCallModel>,
    },
    ToolResult(Seq<char>),
}

impl View for FlatToolCall {
    type V = FlatCallModel;

    open spec fn view(&self) -> FlatCallModel {
        FlatCallModel { name: self.name@, arguments: json::member_models(self.arguments@) }
    }
}

pub open spec fn flat_models(v: Seq<FlatToolCall>) -> Seq<FlatCallModel> {
    v.map_values(|c: FlatToolCall| c@)
}

impl View for Turn {
    type V = TurnModel;

    open spec fn view(&self) -> TurnModel {
        match self {
            Turn::System(t) => TurnModel::System(t@),
            Turn::User(t) => TurnModel::User(t@),
            Turn::Assistant { content, reasoning, tool_calls } => TurnModel::Assistant {
                content: content@,
                reasoning: match reasoning {
                    Some(r) => Some(r@),
                    None => None,
                },
                tool_calls: flat_models(tool_calls@),
            },
            Turn::ToolResult(t) => TurnModel::ToolResult(t@),
        }
    }
}

pub open spec fn turn_models(v: Seq<Turn>) -> Seq<TurnModel> {
    v.map_values(|t: Turn| t@)
}

// ---------------------------------------------------------------------------
// From items to turns.

/// The text of the first `n` parts of a reasoning item.
pub open spec fn reasoning_parts(parts: Seq<ReasoningItemContent>, n: int) -> Seq<char>
    decreases n,
{
    if n <= 0 {
        Seq::empty()
    } else {
        reasoning_parts(parts, n - 1) + match parts[n - 1] {
            ReasoningItemContent::ReasoningText { text } => text@,
            ReasoningItemContent::Text { text } => text@,
        }
    }
}

/// The text of a reasoning item; empty where it has none.
pub open spec fn reasoning_text(content: Option<Vec<ReasoningItemContent>>) -> Seq<char> {
    match content {
        Some(parts) => reasoning_parts(parts@, parts@.len() as int),
        None => Seq::empty(),
    }
}

/// The text of a reasoning item.
pub fn reasoning_to_text(content: &Option<Vec<ReasoningItemContent>>) -> (r: String)
    ensures
        r@ == reasoning_text(*content),
{
    let mut out = String::new();
    match content {
        None => {},
        Some(parts) => {
            let mut i: usize = 0;
            while i < parts.len()
                invariant
                    i <= parts@.len(),
                    out@ == reasoning_parts(parts@, i as int),
                decreases parts@.len() - i,
            {
                match &parts[i] {
                    ReasoningItemContent::ReasoningText { text } => {
                        out.append(text.as_str());
                    },
                    ReasoningItemContent::Text { text } => {
                        out.append(text.as_str());
                    },
                }
                i += 1;
            }
        },
    }
    out
}

/// The name under which a function is offered: with its namespace, where it has
/// one.
pub open spec fn offered_name(name: Seq<char>, namespace: Option<String>) -> Seq<char> {
    match namespace {
        Some(ns) => ns@ + "__"@ + name,
        None => name,
    }
}

/// The name under which a function is offered.
pub fn name_offered(name: &String, namespace: &Option<String>) -> (r: String)
    ensures
        r@ == offered_name(name@, *namespace),
{
    match namespace {
        Some(ns) => prompt::flatten_tool_name(ns.as_str(), name.as_str()),
        None => name.clone(),
    }
}

/// The arguments of a call in the order of their JSON text; none where that is
/// no object.
pub open spec fn ordered_arguments(arguments: Seq<char>) -> Seq<(Seq<char>, JsonModel)> {
    match json::ordered_pairs(arguments) {
        Some(pairs) => pairs,
        None => Seq::empty(),
    }
}

pub open spec fn empty_assistant(content: Seq<char>, reasoning: Option<Seq<char>>) -> TurnModel {
    TurnModel::Assistant { content, reasoning, tool_calls: Seq::empty() }
}

/// `turns` and one item more. A call joins the assistant turn right before it;
/// items of other kinds have no place in the native format.
pub open spec fn with_item(turns: Seq<TurnModel>, item: ResponseItem) -> Seq<TurnModel> {
    match item {
        ResponseItem::Message { role, content } => {
            let t = prompt::marked_text(content@, content@.len() as int);
            turns.push(
                if role@ == "system"@ {
                    TurnModel::System(t)
                } else if role@ == "assistant"@ {
                    empty_assistant(t, None)
                } else {
                    TurnModel::User(t)
                },
            )
        },
        ResponseItem::Reasoning { content } => turns.push(
            empty_assistant(Seq::empty(), Some(reasoning_text(content))),
        ),
        ResponseItem::FunctionCall { name, namespace, arguments, .. } => {
            let call = FlatCallModel {
                name: offered_name(name@, namespace),
                arguments: ordered_arguments(arguments@),
            };
            match (turns.len() > 0, turns.last()) {
                (true, TurnModel::Assistant { content, reasoning, tool_calls }) => turns.drop_last().push(
                    TurnModel::Assistant { content, reasoning, tool_calls: tool_calls.push(call) },
                ),
                _ => turns.push(
                    TurnModel::Assistant {
                        content: Seq::empty(),
                        reasoning: None,
                        tool_calls: seq![call],
                    },
                ),
            }
        },
        ResponseItem::FunctionCallOutput { body, .. } => turns.push(
            TurnModel::ToolResult(prompt::output_text(body)),
        ),
        ResponseItem::ToolActivity | ResponseItem::Other => turns,
    }
}

/// The turns of the first `n` items.
pub open spec fn turns_of(input: Seq<ResponseItem>, n: int) -> Seq<TurnModel>
    decreases n,
{
    if n <= 0 {
        Seq::empty()
    } else {
        with_item(turns_of(input, n - 1), input[n - 1])
    }
}

fn flat_call(name: &String, namespace: &Option<String>, arguments: &String) -> (r: FlatToolCall)
    ensures
        r@ == (FlatCallModel {
            name: offered_name(name@, *namespace),
            arguments: ordered_arguments(arguments@),
        }),
{
    let pairs = match json::ordered_object_pairs(arguments.as_str()) {
        Some(pairs) => pairs,
        None => {
            let none: Vec<(String, Json)> = Vec::new();
            assert(json::member_models(none@) =~= Seq::empty());
            none
        },
    };
    FlatToolCall { name: name_offered(name, namespace), arguments: pairs }
}

/// Adds a call to the assistant turn at the end, or begins one with it.
fn add_call(turns: &mut Vec<Turn>, call: FlatToolCall)
    ensures
        turn_models(final(turns)@) == (match (
            turn_models(old(turns)@).len() > 0,
            turn_models(old(turns)@).last(),
        ) {
            (true, TurnModel::Assistant { content, reasoning, tool_calls }) => turn_models(
                old(turns)@,
            ).drop_last().push(
                TurnModel::Assistant { content, reasoning, tool_calls: tool_calls.push(call@) },
            ),
            _ => turn_models(old(turns)@).push(
                TurnModel::Assistant {
                    content: Seq::empty(),
                    reasoning: None,
                    tool_calls: seq![call@],
                },
            ),
        }),
{
    let ghost before = turn_models(turns@);
    let ghost given = call@;
    let last = turns.pop();
    match last {
        Some(Turn::Assistant { content, reasoning, tool_calls }) => {
            let mut calls = tool_calls;
            let ghost had = flat_models(calls@);
            calls.push(call);
            assert(flat_models(calls@) =~= had.push(given));
            let turn = Turn::Assistant { content, reasoning, tool_calls: calls };
            turns.push(turn);
            assert(turn_models(turns@) =~= before.drop_last().push(turn@));
        },
        Some(other) => {
            turns.push(other);
            assert(turn_models(turns@) =~= before);
            let turn = one_call_turn(call);
            turns.push(turn);
            assert(turn_models(turns@) =~= before.push(turn@));
        },
        None => {
            let turn = one_call_turn(call);
            turns.push(turn);
            assert(turn_models(turns@) =~= before.push(turn@));
        },
    }
}

fn one_call_turn(call: FlatToolCall) -> (r: Turn)
    ensures
        r@ == (TurnModel::Assistant {
            content: Seq::empty(),
            reasoning: None,
            tool_calls: seq![call@],
        }),
{
    let mut calls: Vec<FlatToolCall> = Vec::new();
    let ghost given = call@;
    calls.push(call);
    assert(flat_models(calls@) =~= seq![given]);
    Turn::Assistant { content: String::new(), reasoning: None, tool_calls: calls }
}

fn plain_assistant(content: String, reasoning: Option<String>) -> (r: Turn)
    ensures
        r@ == empty_assistant(
            content@,
            match reasoning {
                Some(t) => Some(t@),
                None => None,
            },
        ),
{
    let calls: Vec<FlatToolCall> = Vec::new();
    assert(flat_models(calls@) =~= Seq::empty());
    Turn::Assistant { content, reasoning, tool_calls: calls }
}

/// The turns of a conversation.
pub fn to_turns(input: &Vec<ResponseItem>) -> (r: Vec<Turn>)
    ensures
        turn_models(r@) == turns_of(input@, input@.len() as int),
{
    let mut turns: Vec<Turn> = Vec::new();
    let mut i: usize = 0;
    assert(turn_models(turns@) =~= Seq::empty());
    while i < input.len()
        invariant
            i <= input@.len(),
            turn_models(turns@) == turns_of(input@, i as int),
        decreases input@.len() - i,
    {
        let ghost before = turn_models(turns@);
        match &input[i] {
            ResponseItem::Message { role, content } => {
                let t = prompt::content_items_to_text(content);
                let turn = if text::same_text(role.as_str(), "system") {
                    Turn::System(t)
                } else if text::same_text(role.as_str(), "assistant") {
                    plain_assistant(t, None)
                } else {
                    Turn::User(t)
                };
                turns.push(turn);
                assert(turn_models(turns@) =~= before.push(turn@));
            },
            ResponseItem::Reasoning { content } => {
                let t = reasoning_to_text(content);
                let turn = plain_assistant(String::new(), Some(t));
                turns.push(turn);
                assert(turn_models(turns@) =~= before.push(turn@));
            },
            ResponseItem::FunctionCall { name, namespace, arguments, .. } => {
                let call = flat_call(name, namespace, arguments);
                add_call(&mut turns, call);
            },
            ResponseItem::FunctionCallOutput { body, .. } => {
                let turn = Turn::ToolResult(prompt::function_call_output_text(body));
                turns.push(turn);
                assert(turn_models(turns@) =~= before.push(turn@));
            },
            ResponseItem::ToolActivity | ResponseItem::Other => {},
        }
        i += 1;
    }
    turns
}

// ---------------------------------------------------------------------------
// From turns to text.

/// The first `n` parameters of a call.
pub open spec fn parameters_text(arguments: Seq<(Seq<char>, JsonModel)>, n: int) -> Seq<char>
    decreases n,
{
    if n <= 0 {
        Seq::empty()
    } else {
        parameters_text(arguments, n - 1) + "<parameter="@ + arguments[n - 1].0 + ">\n"@
            + tool_call::raw_text(arguments[n - 1].1) + "\n</parameter>\n"@
    }
}

/// The first `n` calls of an assistant turn. The first is set off from content
/// that is not blank.
pub open spec fn calls_text(calls: Seq<FlatCallModel>, after_content: bool, n: int) -> Seq<char>
    decreases n,
{
    if n <= 0 {
        Seq::empty()
    } else {
        calls_text(calls, after_content, n - 1) + if n > 1 {
            "\n<tool_call>\n<function="@
        } else if after_content {
            "\n\n<tool_call>\n<function="@
        } else {
            "<tool_call>\n<function="@
        } + calls[n - 1].name + ">\n"@ + parameters_text(
            calls[n - 1].arguments,
            calls[n - 1].arguments.len() as int,
        ) + "</function>\n</tool_call>"@
    }
}

/// An assistant turn. Its reasoning is shown only where `with_reasoning` holds.
pub open spec fn assistant_text(
    content: Seq<char>,
    reasoning: Option<Seq<char>>,
    calls: Seq<FlatCallModel>,
    with_reasoning: bool,
) -> Seq<char> {
    "<|im_start|>assistant\n"@ + if with_reasoning {
        "<think>\n"@ + text::trim(
            match reasoning {
                Some(r) => r,
                None => Seq::empty(),
            },
        ) + "\n</think>\n\n"@
    } else {
        Seq::empty()
    } + content + calls_text(calls, !text::is_blank(content), calls.len() as int)
        + "<|im_end|>\n"@
}

/// One tool result.
pub open spec fn result_text(output: Seq<char>) -> Seq<char> {
    "\n<tool_response>\n"@ + output + "\n</tool_response>"@
}

/// The turn at `i` in the prompt. Results one after another share one user
/// turn: the first opens it and the last closes it.
pub open spec fn turn_text(turns: Seq<TurnModel>, i: int, last_query: Option<int>) -> Seq<char> {
    match turns[i] {
        TurnModel::System(_) => Seq::empty(),
        TurnModel::User(t) => "<|im_start|>user\n"@ + t + "<|im_end|>\n"@,
        TurnModel::Assistant { content, reasoning, tool_calls } => assistant_text(
            content,
            reasoning,
            tool_calls,
            match last_query {
                Some(q) => i > q,
                None => true,
            },
        ),
        TurnModel::ToolResult(output) => (if i > 0 && turns[i - 1] is ToolResult {
            Seq::empty()
        } else {
            "<|im_start|>user"@
        }) + result_text(output) + if i + 1 < turns.len() && turns[i + 1] is ToolResult {
            Seq::empty()
        } else {
            "<|im_end|>\n"@
        },
    }
}

/// The first `n` turns in the prompt.
pub open spec fn history_text(turns: Seq<TurnModel>, last_query: Option<int>, n: int) -> Seq<char>
    decreases n,
{
    if n <= 0 {
        Seq::empty()
    } else {
        history_text(turns, last_query, n - 1) + turn_text(turns, n - 1, last_query)
    }
}

/// The last user turn among the first `n`.
pub open spec fn last_user_turn(turns: Seq<TurnModel>, n: int) -> Option<int>
    decreases n,
{
    if n <= 0 {
        None
    } else if turns[n - 1] is User {
        Some(n - 1)
    } else {
        last_user_turn(turns, n - 1)
    }
}

/// How a prompt is rendered.
#[derive(Clone, Copy, Debug, PartialEq, Eq, Structural)]
pub struct RenderOptions {
    /// The tools are declared in the system turn.
    pub tools_block: bool,
    /// A fixed example of a tool call follows the system turn.
    pub format_primer: bool,
}

/// How to call a function, as the model is told behind the declared tools.
pub open spec fn call_instructions() -> Seq<char> {
    "\n\nIf you choose to call a function ONLY reply in the following format with NO suffix:\n\n<tool_call>\n<function=example_function_name>\n<parameter=example_parameter_1>\nvalue_1\n</parameter>\n<parameter=example_parameter_2>\nThis is the value for the second parameter\nthat can span\nmultiple lines\n</parameter>\n</function>\n</tool_call>\n\n<IMPORTANT>\nReminder:\n- Function calls MUST follow the specified format: an inner <function=...></function> block must be nested within <tool_call></tool_call> XML tags\n- Required parameters MUST be specified\n- You may provide optional reasoning for your function call in natural language BEFORE the function call, but NOT after\n- If there is no function call available, answer the question like normal with your current knowledge and do not tell the user about function calls\n</IMPORTANT>"@
}

/// The first `n` declared tools, one a line.
pub open spec fn declared_tools(tools: Seq<JsonModel>, n: int) -> Seq<char>
    decreases n,
{
    if n <= 0 {
        Seq::empty()
    } else {
        declared_tools(tools, n - 1) + seq!['\n'] + json::text_of(tools[n - 1])
    }
}

/// The block that declares the tools.
pub open spec fn tools_block_text(tools: Seq<JsonModel>) -> Seq<char> {
    "# Tools\n\nYou have access to the following functions:\n\n<tools>"@ + declared_tools(
        tools,
        tools.len() as int,
    ) + "\n</tools>"@ + call_instructions()
}

/// The block that declares the tools.
fn render_tools_block(tools: &Vec<ToolSpec>) -> (r: String)
    ensures
        r@ == tools_block_text(prompt::flattened(tools@, tools@.len() as int)),
{
    let flat = prompt::flattened_tools_json(tools);
    let ghost all = json::models(flat@);
    let mut listed = String::new();
    let mut i: usize = 0;
    while i < flat.len()
        invariant
            i <= flat@.len(),
            all == json::models(flat@),
            listed@ == declared_tools(all, i as int),
        decreases flat@.len() - i,
    {
        assert(all[i as int] == flat@[i as int]@);
        let ghost before = listed@;
        listed.push('\n');
        listed.append(flat[i].to_text().as_str());
        i += 1;
        assert(listed@ =~= before + seq!['\n'] + json::text_of(all[i - 1]));
    }
    let mut out = "# Tools\n\nYou have access to the following functions:\n\n<tools>".to_string();
    out.append(listed.as_str());
    out.append("\n</tools>");
    out.append(
        "\n\nIf you choose to call a function ONLY reply in the following format with NO suffix:\n\n<tool_call>\n<function=example_function_name>\n<parameter=example_parameter_1>\nvalue_1\n</parameter>\n<parameter=example_parameter_2>\nThis is the value for the second parameter\nthat can span\nmultiple lines\n</parameter>\n</function>\n</tool_call>\n\n<IMPORTANT>\nReminder:\n- Function calls MUST follow the specified format: an inner <function=...></function> block must be nested within <tool_call></tool_call> XML tags\n- Required parameters MUST be specified\n- You may provide optional reasoning for your function call in natural language BEFORE the function call, but NOT after\n- If there is no function call available, answer the question like normal with your current knowledge and do not tell the user about function calls\n</IMPORTANT>",
    );
    out
}

/// The fixed example of a tool call.
pub open spec fn primer_text() -> Seq<char> {
    "<|im_start|>user\nBefore we start: confirm the working directory.<|im_end|>\n<|im_start|>assistant\n<think>\n\n</think>\n\n<tool_call>\n<function=exec_command>\n<parameter=cmd>\npwd\n</parameter>\n</function>\n</tool_call><|im_end|>\n<|im_start|>user\n<tool_response>\n(working directory confirmed)\n</tool_response><|im_end|>\n<|im_start|>assistant\n<think>\n\n</think>\n\nWorking directory confirmed.<|im_end|>\n"@
}

/// The system turn: the declared tools where they are asked for, and the
/// instructions or, where those are blank, the text of a leading system turn.
pub open spec fn preamble_text(
    instructions: Seq<char>,
    leading_system: Option<Seq<char>>,
    tools: Seq<ToolSpec>,
    options: RenderOptions,
) -> Seq<char> {
    let system = if !text::is_blank(instructions) {
        instructions
    } else {
        match leading_system {
            Some(t) => t,
            None => Seq::empty(),
        }
    };
    if tools.len() > 0 {
        "<|im_start|>system\n"@ + if options.tools_block {
            tools_block_text(prompt::flattened(tools, tools.len() as int))
        } else {
            Seq::empty()
        } + if !text::is_blank(system) {
            "\n\n"@ + text::trim(system)
        } else {
            Seq::empty()
        } + "<|im_end|>\n"@
    } else if !text::is_blank(instructions) || leading_system is Some {
        "<|im_start|>system\n"@ + text::trim(system) + "<|im_end|>\n"@
    } else {
        Seq::empty()
    }
}

/// The tokens behind the history: the assistant header and the opened reasoning
/// block.
pub open spec fn generation_suffix() -> Seq<char> {
    "<|im_start|>assistant\n<think>\n"@
}

/// The text of a leading system turn.
pub open spec fn leading_system_of(turns: Seq<TurnModel>) -> Option<Seq<char>> {
    if turns.len() > 0 {
        match turns[0] {
            TurnModel::System(t) => Some(t),
            _ => None,
        }
    } else {
        None
    }
}

/// What comes before the history.
pub open spec fn prefix_text(
    instructions: Seq<char>,
    leading_system: Option<Seq<char>>,
    tools: Seq<ToolSpec>,
    options: RenderOptions,
) -> Seq<char> {
    preamble_text(instructions, leading_system, tools, options) + if tools.len() > 0
        && options.format_primer {
        primer_text()
    } else {
        Seq::empty()
    }
}

/// The whole prompt.
pub open spec fn prompt_text(
    instructions: Seq<char>,
    input: Seq<ResponseItem>,
    tools: Seq<ToolSpec>,
    options: RenderOptions,
) -> Seq<char> {
    let turns = turns_of(input, input.len() as int);
    prefix_text(instructions, leading_system_of(turns), tools, options) + history_text(
        turns,
        last_user_turn(turns, turns.len() as int),
        turns.len() as int,
    ) + generation_suffix()
}

/// The calls of an assistant turn.
pub fn serialize_tool_calls(calls: &Vec<FlatToolCall>, content_is_nonempty: bool) -> (r: String)
    ensures
        r@ == calls_text(flat_models(calls@), content_is_nonempty, calls@.len() as int),
{
    let mut out = String::new();
    let ghost all = flat_models(calls@);
    let mut i: usize = 0;
    while i < calls.len()
        invariant
            i <= calls@.len(),
            all == flat_models(calls@),
            out@ == calls_text(all, content_is_nonempty, i as int),
        decreases calls@.len() - i,
    {
        let call = &calls[i];
        assert(all[i as int] == call@);
        let ghost args = json::member_models(call.arguments@);
        let mut params = String::new();
        let mut k: usize = 0;
        while k < call.arguments.len()
            invariant
                k <= call.arguments@.len(),
                args == json::member_models(call.arguments@),
                params@ == parameters_text(args, k as int),
            decreases call.arguments@.len() - k,
        {
            assert(args[k as int] == (call.arguments@[k as int].0@, call.arguments@[k as int].1@));
            params.append("<parameter=");
            params.append(call.arguments[k].0.as_str());
            params.append(">\n");
            let value = match &call.arguments[k].1 {
                Json::Text(t) => t.clone(),
                other => other.to_text(),
            };
            params.append(value.as_str());
            params.append("\n</parameter>\n");
            k += 1;
        }
        if i > 0 {
            out.append("\n<tool_call>\n<function=");
        } else if content_is_nonempty {
            out.append("\n\n<tool_call>\n<function=");
        } else {
            out.append("<tool_call>\n<function=");
        }
        out.append(call.name.as_str());
        out.append(">\n");
        out.append(params.as_str());
        out.append("</function>\n</tool_call>");
        i += 1;
    }
    out
}

/// Appends one turn of the history.
fn push_turn(
    out: &mut String,
    turns: &Vec<Turn>,
    i: usize,
    last_query: Option<usize>,
    Ghost(all): Ghost<Seq<TurnModel>>,
)
    requires
        i < turns@.len(),
        all == turn_models(turns@),
    ensures
        final(out)@ == old(out)@ + turn_text(
            all,
            i as int,
            match last_query {
                Some(q) => Some(q as int),
                None => None,
            },
        ),
{
    let ghost before = out@;
    assert(all[i as int] == turns@[i as int]@);
    match &turns[i] {
        Turn::System(_) => {
            assert(before + Seq::<char>::empty() =~= before);
        },
        Turn::User(t) => {
            out.append("<|im_start|>user\n");
            out.append(t.as_str());
            out.append("<|im_end|>\n");
            assert(out@ =~= before + ("<|im_start|>user\n"@ + t@ + "<|im_end|>\n"@));
        },
        Turn::Assistant { content, reasoning, tool_calls } => {
            let with_reasoning = match last_query {
                Some(q) => i > q,
                None => true,
            };
            let mut turn = "<|im_start|>assistant\n".to_string();
            if with_reasoning {
                let shown = match reasoning {
                    Some(r) => text::str_trim(r.as_str()),
                    None => text::str_trim(""),
                };
                let mut think = "<think>\n".to_string();
                think.append(shown.as_str());
                think.append("\n</think>\n\n");
                turn.append(think.as_str());
                proof {
                    reveal_strlit("");
                    assert(""@ =~= Seq::<char>::empty());
                }
            } else {
                assert(turn@ + Seq::<char>::empty() =~= turn@);
            }
            turn.append(content.as_str());
            let has_content = !text::str_blank(content.as_str());
            turn.append(serialize_tool_calls(tool_calls, has_content).as_str());
            turn.append("<|im_end|>\n");
            out.append(turn.as_str());
        },
        Turn::ToolResult(output) => {
            let opens = if i > 0 {
                assert(all[i - 1] == turns@[i - 1]@);
                !is_result(&turns[i - 1])
            } else {
                true
            };
            let closes = if i < turns.len() - 1 {
                assert(all[i + 1] == turns@[i + 1]@);
                !is_result(&turns[i + 1])
            } else {
                true
            };
            if opens {
                out.append("<|im_start|>user");
            }
            out.append("\n<tool_response>\n");
            out.append(output.as_str());
            out.append("\n</tool_response>");
            if closes {
                out.append("<|im_end|>\n");
            }
            assert(out@ =~= before + turn_text(
                all,
                i as int,
                match last_query {
                    Some(q) => Some(q as int),
                    None => None,
                },
            ));
        },
    }
}

fn is_result(turn: &Turn) -> (r: bool)
    ensures
        r == (turn@ is ToolResult),
{
    match turn {
        Turn::ToolResult(_) => true,
        _ => false,
    }
}

/// The last user turn.
fn find_last_user(turns: &Vec<Turn>) -> (r: Option<usize>)
    ensures
        match r {
            Some(q) => last_user_turn(turn_models(turns@), turns@.len() as int) == Some(q as int),
            None => last_user_turn(turn_models(turns@), turns@.len() as int) is None,
        },
{
    let ghost all = turn_models(turns@);
    let mut n: usize = turns.len();
    while n > 0
        invariant
            n <= turns@.len(),
            all == turn_models(turns@),
            last_user_turn(all, turns@.len() as int) == last_user_turn(all, n as int),
        decreases n,
    {
        assert(all[n - 1] == turns@[n - 1]@);
        match &turns[n - 1] {
            Turn::User(_) => {
                return Some(n - 1);
            },
            _ => {},
        }
        n -= 1;
    }
    None
}

/// The system turn.
fn render_preamble(
    instructions: &str,
    leading_system: Option<&String>,
    tools: &Vec<ToolSpec>,
    options: &RenderOptions,
) -> (r: String)
    ensures
        r@ == preamble_text(
            instructions@,
            match leading_system {
                Some(t) => Some(t@),
                None => None,
            },
            tools@,
            *options,
        ),
{
    let blank = text::str_blank(instructions);
    let system: String = if !blank {
        instructions.to_string()
    } else {
        match leading_system {
            Some(t) => t.clone(),
            None => String::new(),
        }
    };
    let mut out = String::new();
    if tools.len() > 0 {
        out = "<|im_start|>system\n".to_string();
        if options.tools_block {
            out.append(render_tools_block(tools).as_str());
        } else {
            assert(out@ + Seq::<char>::empty() =~= out@);
        }
        if !text::str_blank(system.as_str()) {
            let mut part = "\n\n".to_string();
            part.append(text::str_trim(system.as_str()).as_str());
            out.append(part.as_str());
        } else {
            assert(out@ + Seq::<char>::empty() =~= out@);
        }
        out.append("<|im_end|>\n");
    } else if !blank || leading_system.is_some() {
        out = "<|im_start|>system\n".to_string();
        out.append(text::str_trim(system.as_str()).as_str());
        out.append("<|im_end|>\n");
    }
    out
}

/// Renders instructions, conversation and tools into the raw text that the
/// model continues.
pub fn render_prompt(
    instructions: &str,
    input: &Vec<ResponseItem>,
    tools: &Vec<ToolSpec>,
    options: &RenderOptions,
) -> (r: String)
    ensures
        r@ == prompt_text(instructions@, input@, tools@, *options),
{
    let turns = to_turns(input);
    let ghost all = turn_models(turns@);
    let last_query = find_last_user(&turns);
    let leading_system: Option<&String> = if turns.len() > 0 {
        assert(all[0] == turns@[0]@);
        match &turns[0] {
            Turn::System(t) => Some(t),
            _ => None,
        }
    } else {
        None
    };
    let mut out = render_preamble(instructions, leading_system, tools, options);
    if tools.len() > 0 && options.format_primer {
        out.append(
            "<|im_start|>user\nBefore we start: confirm the working directory.<|im_end|>\n<|im_start|>assistant\n<think>\n\n</think>\n\n<tool_call>\n<function=exec_command>\n<parameter=cmd>\npwd\n</parameter>\n</function>\n</tool_call><|im_end|>\n<|im_start|>user\n<tool_response>\n(working directory confirmed)\n</tool_response><|im_end|>\n<|im_start|>assistant\n<think>\n\n</think>\n\nWorking directory confirmed.<|im_end|>\n",
        );
    } else {
        assert(out@ + Seq::<char>::empty() =~= out@);
    }
    let ghost query = match last_query {
        Some(q) => Some(q as int),
        None => None,
    };
    let ghost prefix = out@;
    assert(prefix + history_text(all, query, 0) =~= prefix);
    let mut i: usize = 0;
    while i < turns.len()
        invariant
            i <= turns@.len(),
            all == turn_models(turns@),
            query == (match last_query {
                Some(q) => Some(q as int),
                None => None,
            }),
            out@ == prefix + history_text(all, query, i as int),
        decreases turns@.len() - i,
    {
        push_turn(&mut out, &turns, i, last_query, Ghost(all));
        i += 1;
        assert(out@ =~= prefix + history_text(all, query, i as int));
    }
    out.append("<|im_start|>assistant\n<think>\n");
    out
}

// ---------------------------------------------------------------------------
// Laws.

/// Every prompt ends with the assistant header and the opened reasoning block.
pub proof fn prompt_ends_with_generation_suffix(
    instructions: Seq<char>,
    input: Seq<ResponseItem>,
    tools: Seq<ToolSpec>,
    options: RenderOptions,
)
    ensures
        text::ends_in(prompt_text(instructions, input, tools, options), generation_suffix()),
{
    let all = prompt_text(instructions, input, tools, options);
    let suffix = generation_suffix();
    assert(all.subrange(all.len() - suffix.len(), all.len() as int) =~= suffix);
}

/// The prompt begins the same way whatever the conversation holds, so that the
/// server's cache of it stays valid: for every conversation under the same
/// instructions, tools and options.
pub proof fn prompt_prefix_is_stable(
    instructions: Seq<char>,
    input: Seq<ResponseItem>,
    tools: Seq<ToolSpec>,
    options: RenderOptions,
)
    requires
        !text::is_blank(instructions),
    ensures
        text::begins_with(
            prompt_text(instructions, input, tools, options),
            prefix_text(instructions, None, tools, options),
        ),
{
    let turns = turns_of(input, input.len() as int);
    let prefix = prefix_text(instructions, None, tools, options);
    let all = prompt_text(instructions, input, tools, options);
    assert(prefix_text(instructions, leading_system_of(turns), tools, options) == prefix);
    assert(all.subrange(0, prefix.len() as int) =~= prefix);
}

/// Items that are added to a conversation leave the turns before them as they
/// are, but for calls that join the last turn.
pub proof fn later_items_keep_earlier_turns(input: Seq<ResponseItem>, n: int, m: int)
    requires
        0 <= n <= m <= input.len(),
    ensures
        turns_of(input, n).len() <= turns_of(input, m).len(),
        forall|i: int|
            0 <= i < turns_of(input, n).len() - 1 ==> turns_of(input, m)[i] == #[trigger] turns_of(
                input,
                n,
            )[i],
    decreases m - n,
{
    if n < m {
        later_items_keep_earlier_turns(input, n, m - 1);
    }
}

/// The prompt up to the turn at `i`.
pub open spec fn upto_turn(
    instructions: Seq<char>,
    input: Seq<ResponseItem>,
    tools: Seq<ToolSpec>,
    options: RenderOptions,
    i: int,
) -> Seq<char> {
    let turns = turns_of(input, input.len() as int);
    prefix_text(instructions, leading_system_of(turns), tools, options) + history_text(
        turns,
        last_user_turn(turns, turns.len() as int),
        i,
    )
}

/// Whether a user speaks behind the turn at `i`.
pub open spec fn user_speaks_behind(turns: Seq<TurnModel>, i: int) -> bool {
    exists|j: int| i < j < turns.len() && #[trigger] turns[j] is User
}

proof fn last_user_is_last(turns: Seq<TurnModel>, n: int)
    requires
        0 <= n <= turns.len(),
    ensures
        match last_user_turn(turns, n) {
            Some(q) => 0 <= q < n && turns[q] is User && forall|j: int|
                q < j < n ==> !(#[trigger] turns[j] is User),
            None => forall|j: int| 0 <= j < n ==> !(#[trigger] turns[j] is User),
        },
    decreases n,
{
    if n > 0 && !(turns[n - 1] is User) {
        last_user_is_last(turns, n - 1);
    }
}

proof fn history_is_extended(turns: Seq<TurnModel>, q: Option<int>, i: int, n: int)
    requires
        0 <= i <= n,
    ensures
        history_text(turns, q, i).is_prefix_of(history_text(turns, q, n)),
    decreases n,
{
    if i < n {
        history_is_extended(turns, q, i, n - 1);
    }
}

/// The reasoning of an assistant turn is shown, in a block of its own before what the turn
/// says, exactly where no user speaks behind it, whatever tool results stand in between.
pub proof fn reasoning_of_the_running_turn_is_shown(
    instructions: Seq<char>,
    input: Seq<ResponseItem>,
    tools: Seq<ToolSpec>,
    options: RenderOptions,
    i: int,
    content: Seq<char>,
    reasoning: Option<Seq<char>>,
    calls: Seq<FlatCallModel>,
)
    requires
        0 <= i < turns_of(input, input.len() as int).len(),
        turns_of(input, input.len() as int)[i] == (TurnModel::Assistant {
            content,
            reasoning,
            tool_calls: calls,
        }),
    ensures
        ({
            let turns = turns_of(input, input.len() as int);
            let thought = match reasoning {
                Some(r) => text::trim(r),
                None => Seq::empty(),
            };
            let shown = if user_speaks_behind(turns, i) {
                "<|im_start|>assistant\n"@ + content
            } else {
                "<|im_start|>assistant\n"@ + ("<think>\n"@ + thought + "\n</think>\n\n"@) + content
            };
            let called = calls_text(calls, !text::is_blank(content), calls.len() as int);
            text::begins_with(
                prompt_text(instructions, input, tools, options),
                upto_turn(instructions, input, tools, options, i) + (shown + called
                    + "<|im_end|>\n"@),
            )
        }),
{
    let turns = turns_of(input, input.len() as int);
    let n = turns.len() as int;
    let q = last_user_turn(turns, n);
    last_user_is_last(turns, n);
    history_is_extended(turns, q, i + 1, n);
    let none = Seq::<char>::empty();
    text::trim_of_blank(none);
    let thought = match reasoning {
        Some(r) => text::trim(r),
        None => none,
    };
    assert(text::trim(none) =~= none);
    let with = match q {
        Some(q) => i > q,
        None => true,
    };
    assert(with == !user_speaks_behind(turns, i));
    let shown = if user_speaks_behind(turns, i) {
        "<|im_start|>assistant\n"@ + content
    } else {
        "<|im_start|>assistant\n"@ + ("<think>\n"@ + thought + "\n</think>\n\n"@) + content
    };
    let called = calls_text(calls, !text::is_blank(content), calls.len() as int);
    let turn = shown + called + "<|im_end|>\n"@;
    assert(assistant_text(content, reasoning, calls, with) =~= turn);
    let front = upto_turn(instructions, input, tools, options, i) + turn;
    let all = prompt_text(instructions, input, tools, options);
    assert(history_text(turns, q, i + 1) =~= history_text(turns, q, i) + turn);
    prompt_holds(instructions, input, tools, options, i, turn);
}

/// What extends the prompt up to a turn stands there.
proof fn prompt_holds(
    instructions: Seq<char>,
    input: Seq<ResponseItem>,
    tools: Seq<ToolSpec>,
    options: RenderOptions,
    i: int,
    turn: Seq<char>,
)
    requires
        0 <= i < turns_of(input, input.len() as int).len(),
        ({
            let turns = turns_of(input, input.len() as int);
            let q = last_user_turn(turns, turns.len() as int);
            history_text(turns, q, i + 1) == history_text(turns, q, i) + turn
        }),
    ensures
        text::begins_with(
            prompt_text(instructions, input, tools, options),
            upto_turn(instructions, input, tools, options, i) + turn,
        ),
{
    let turns = turns_of(input, input.len() as int);
    let n = turns.len() as int;
    let q = last_user_turn(turns, n);
    history_is_extended(turns, q, i + 1, n);
    let all = prompt_text(instructions, input, tools, options);
    let prefix = prefix_text(instructions, leading_system_of(turns), tools, options);
    let front = upto_turn(instructions, input, tools, options, i) + turn;
    let written = history_text(turns, q, n);
    assert(front =~= prefix + history_text(turns, q, i + 1));
    assert(all.subrange(0, front.len() as int) =~= front) by {
        assert forall|k: int| 0 <= k < front.len() implies all[k] == front[k] by {
            if k >= prefix.len() {
                assert(all[k] == written[k - prefix.len()]);
                assert(front[k] == history_text(turns, q, i + 1)[k - prefix.len()]);
            }
        }
    }
}

/// What a user says stands in a turn of its own; a system turn has no place among the
/// others.
pub proof fn users_have_their_own_turn(
    instructions: Seq<char>,
    input: Seq<ResponseItem>,
    tools: Seq<ToolSpec>,
    options: RenderOptions,
    i: int,
)
    requires
        0 <= i < turns_of(input, input.len() as int).len(),
    ensures
        ({
            let turn = turns_of(input, input.len() as int)[i];
            &&& turn matches TurnModel::User(t) ==> text::begins_with(
                prompt_text(instructions, input, tools, options),
                upto_turn(instructions, input, tools, options, i) + ("<|im_start|>user\n"@ + t
                    + "<|im_end|>\n"@),
            )
            &&& turn is System ==> upto_turn(instructions, input, tools, options, i + 1)
                == upto_turn(instructions, input, tools, options, i)
        }),
{
    let turns = turns_of(input, input.len() as int);
    let q = last_user_turn(turns, turns.len() as int);
    match turns[i] {
        TurnModel::User(t) => {
            prompt_holds(
                instructions,
                input,
                tools,
                options,
                i,
                "<|im_start|>user\n"@ + t + "<|im_end|>\n"@,
            );
        },
        TurnModel::System(_) => {
            assert(history_text(turns, q, i + 1) =~= history_text(turns, q, i));
        },
        _ => {},
    }
}

/// Results one below the other.
pub open spec fn results_text(turns: Seq<TurnModel>, from: int, to: int) -> Seq<char>
    decreases to - from,
{
    if from >= to {
        Seq::empty()
    } else {
        results_text(turns, from, to - 1) + ("\n<tool_response>\n"@ + turns[to - 1]->ToolResult_0
            + "\n</tool_response>"@)
    }
}

proof fn results_are_gathered(turns: Seq<TurnModel>, q: Option<int>, from: int, to: int, end: int)
    requires
        0 <= from < to <= end <= turns.len(),
        forall|j: int| from <= j < end ==> #[trigger] turns[j] is ToolResult,
        from == 0 || !(turns[from - 1] is ToolResult),
        end == turns.len() || !(turns[end] is ToolResult),
    ensures
        history_text(turns, q, to) == history_text(turns, q, from) + ("<|im_start|>user"@
            + results_text(turns, from, to) + if to == end {
            "<|im_end|>\n"@
        } else {
            Seq::empty()
        }),
    decreases to - from,
{
    let before = history_text(turns, q, from);
    let one = "\n<tool_response>\n"@ + turns[to - 1]->ToolResult_0 + "\n</tool_response>"@;
    assert(turns[to - 1] is ToolResult);
    let tail = if to == end {
        "<|im_end|>\n"@
    } else {
        Seq::empty()
    };
    if to < end {
        assert(turns[to] is ToolResult);
    }
    if to - 1 > from {
        results_are_gathered(turns, q, from, to - 1, end);
        assert(turns[to - 2] is ToolResult);
        let so_far = results_text(turns, from, to - 1);
        assert(turn_text(turns, to - 1, q) =~= one + tail);
        assert(before + ("<|im_start|>user"@ + so_far + Seq::<char>::empty()) + (one + tail)
            =~= before + ("<|im_start|>user"@ + (so_far + one) + tail));
    } else {
        assert(results_text(turns, from, from) =~= Seq::empty());
        assert(results_text(turns, from, to) =~= one);
        assert(turn_text(turns, to - 1, q) =~= "<|im_start|>user"@ + one + tail);
        assert(before + ("<|im_start|>user"@ + one + tail) =~= before + ("<|im_start|>user"@
            + results_text(turns, from, to) + tail));
    }
}

/// Results that follow one another share one user turn, each in a block of its own.
pub proof fn results_share_one_turn(
    instructions: Seq<char>,
    input: Seq<ResponseItem>,
    tools: Seq<ToolSpec>,
    options: RenderOptions,
    from: int,
    to: int,
)
    requires
        0 <= from < to <= turns_of(input, input.len() as int).len(),
        ({
            let turns = turns_of(input, input.len() as int);
            &&& forall|j: int| from <= j < to ==> #[trigger] turns[j] is ToolResult
            &&& from == 0 || !(turns[from - 1] is ToolResult)
            &&& to == turns.len() || !(turns[to] is ToolResult)
        }),
    ensures
        upto_turn(instructions, input, tools, options, to) == upto_turn(
            instructions,
            input,
            tools,
            options,
            from,
        ) + ("<|im_start|>user"@ + results_text(
            turns_of(input, input.len() as int),
            from,
            to,
        ) + "<|im_end|>\n"@),
        text::begins_with(
            prompt_text(instructions, input, tools, options),
            upto_turn(instructions, input, tools, options, to),
        ),
{
    let turns = turns_of(input, input.len() as int);
    let n = turns.len() as int;
    let q = last_user_turn(turns, n);
    results_are_gathered(turns, q, from, to, to);
    history_is_extended(turns, q, to, n);
    let prefix = prefix_text(instructions, leading_system_of(turns), tools, options);
    let shared = "<|im_start|>user"@ + results_text(turns, from, to) + "<|im_end|>\n"@;
    assert(prefix + (history_text(turns, q, from) + shared) =~= prefix + history_text(
        turns,
        q,
        from,
    ) + shared);
    let all = prompt_text(instructions, input, tools, options);
    let front = upto_turn(instructions, input, tools, options, to);
    let written = history_text(turns, q, n);
    assert(all.subrange(0, front.len() as int) =~= front) by {
        assert forall|k: int| 0 <= k < front.len() implies all[k] == front[k] by {
            if k >= prefix.len() {
                assert(all[k] == written[k - prefix.len()]);
                assert(front[k] == history_text(turns, q, to)[k - prefix.len()]);
            }
        }
    }
}

/// Every item becomes a turn that says what the item says, and no later item changes what it
/// says; a call joins the assistant turn right before it, behind the calls that this turn
/// has, or begins one.
pub proof fn items_become_turns(input: Seq<ResponseItem>, n: int, m: int)
    requires
        0 <= n < m <= input.len(),
    ensures
        ({
            let t = turns_of(input, n).len() as int;
            let turns = turns_of(input, m);
            match input[n] {
                ResponseItem::Message { role, content } => {
                    let said = prompt::marked_text(content@, content@.len() as int);
                    &&& t < turns.len()
                    &&& role@ == "system"@ ==> turns[t] == TurnModel::System(said)
                    &&& role@ == "assistant"@ ==> turns[t] is Assistant
                        && turns[t]->Assistant_content == said && turns[t]->reasoning is None
                    &&& role@ != "system"@ && role@ != "assistant"@ ==> turns[t]
                        == TurnModel::User(said)
                },
                ResponseItem::Reasoning { content } => t < turns.len() && turns[t] is Assistant
                    && turns[t]->Assistant_content.len() == 0 && turns[t]->reasoning == Some(
                    reasoning_text(content),
                ),
                ResponseItem::FunctionCall { name, namespace, arguments, .. } => {
                    let before = turns_of(input, n);
                    let joins = t > 0 && before[t - 1] is Assistant;
                    let at = if joins {
                        t - 1
                    } else {
                        t
                    };
                    let k = if joins {
                        before[t - 1]->tool_calls.len() as int
                    } else {
                        0
                    };
                    &&& at < turns.len() && turns[at] is Assistant
                    &&& k < turns[at]->tool_calls.len()
                    &&& turns[at]->tool_calls[k].arguments == ordered_arguments(arguments@)
                    &&& turns[at]->tool_calls[k].name == match namespace {
                        Some(ns) => ns@ + "__"@ + name@,
                        None => name@,
                    }
                    &&& !joins ==> turns[at]->Assistant_content.len() == 0
                        && turns[at]->reasoning is None
                },
                ResponseItem::FunctionCallOutput { body, .. } => t < turns.len() && turns[t]
                    == TurnModel::ToolResult(prompt::output_text(body)),
                _ => turns_of(input, n + 1) == turns_of(input, n),
            }
        }),
    decreases m,
{
    reveal_strlit("system");
    reveal_strlit("assistant");
    assert("system"@.len() == 6 && "assistant"@.len() == 9);
    if m > n + 1 {
        items_become_turns(input, n, m - 1);
        let before = turns_of(input, m - 1);
        let after = turns_of(input, m);
        let t = turns_of(input, n).len() as int;
        match input[m - 1] {
            ResponseItem::FunctionCall { .. } => {
                if before.len() > 0 && before.last() is Assistant {
                    assert(after.len() == before.len());
                    assert forall|k: int| 0 <= k < before.len() - 1 implies after[k]
                        == before[k] by {}
                }
            },
            _ => {},
        }
    }
}

/// The instructions stand in the system turn, without the blanks round them; where they are
/// blank a leading system message stands in for them, and without either there is no system
/// turn, unless tools are offered.
pub proof fn instructions_stand_first(
    instructions: Seq<char>,
    leading: Option<Seq<char>>,
    tools: Seq<ToolSpec>,
    options: RenderOptions,
)
    ensures
        ({
            let said = if !text::is_blank(instructions) {
                text::trim(instructions)
            } else {
                match leading {
                    Some(t) => text::trim(t),
                    None => Seq::empty(),
                }
            };
            let block = if options.tools_block {
                tools_block_text(prompt::flattened(tools, tools.len() as int))
            } else {
                Seq::empty()
            };
            &&& tools.len() == 0 && (!text::is_blank(instructions) || leading is Some)
                ==> prefix_text(instructions, leading, tools, options) == "<|im_start|>system\n"@
                + said + "<|im_end|>\n"@
            &&& tools.len() == 0 && text::is_blank(instructions) && leading is None
                ==> prefix_text(instructions, leading, tools, options).len() == 0
            &&& tools.len() > 0 ==> text::begins_with(
                prefix_text(instructions, leading, tools, options),
                "<|im_start|>system\n"@ + block + (if said.len() > 0 {
                    "\n\n"@ + said
                } else {
                    Seq::empty()
                }) + "<|im_end|>\n"@,
            )
            &&& tools.len() > 0 && options.format_primer ==> text::ends_in(
                prefix_text(instructions, leading, tools, options),
                primer_text(),
            )
        }),
{
    let none = Seq::<char>::empty();
    text::trim_of_blank(instructions);
    text::trim_of_blank(none);
    match leading {
        Some(t) => text::trim_of_blank(t),
        None => {},
    }
    assert(text::trim(none) =~= none);
    let all = prefix_text(instructions, leading, tools, options);
    let preamble = preamble_text(instructions, leading, tools, options);
    assert(all.subrange(0, preamble.len() as int) =~= preamble);
    if tools.len() == 0 {
        assert(all =~= preamble);
    } else if options.format_primer {
        let p = primer_text();
        assert(all.subrange(all.len() - p.len(), all.len() as int) =~= p);
    }
}

/// Each tool is declared on a line of its own, between the tags that hold the declarations,
/// in the order in which the tools are offered.
pub proof fn tools_are_declared_in_order(tools: Seq<JsonModel>, i: int)
    requires
        0 <= i < tools.len(),
    ensures
        text::begins_with(
            tools_block_text(tools),
            "# Tools\n\nYou have access to the following functions:\n\n<tools>"@ + declared_tools(
                tools,
                i,
            ) + (seq!['\n'] + json::text_of(tools[i])),
        ),
        declared_tools(tools, 0).len() == 0,
        text::ends_in(tools_block_text(tools), "\n</tools>"@ + call_instructions()),
{
    declarations_go_on(tools, i + 1, tools.len() as int);
    let head = "# Tools\n\nYou have access to the following functions:\n\n<tools>"@;
    let all = tools_block_text(tools);
    let listed = declared_tools(tools, tools.len() as int);
    let one = seq!['\n'] + json::text_of(tools[i]);
    let front = head + declared_tools(tools, i) + one;
    assert(front =~= head + declared_tools(tools, i + 1));
    assert(all.subrange(0, front.len() as int) =~= front) by {
        assert forall|k: int| 0 <= k < front.len() implies all[k] == front[k] by {
            if k >= head.len() {
                assert(all[k] == listed[k - head.len()]);
                assert(front[k] == declared_tools(tools, i + 1)[k - head.len()]);
            }
        }
    }
    let tail = "\n</tools>"@ + call_instructions();
    assert(all.subrange(all.len() - tail.len(), all.len() as int) =~= tail);
}

proof fn declarations_go_on(tools: Seq<JsonModel>, i: int, n: int)
    requires
        0 <= i <= n,
    ensures
        declared_tools(tools, i).is_prefix_of(declared_tools(tools, n)),
    decreases n,
{
    if i < n {
        declarations_go_on(tools, i, n - 1);
    }
}

/// The arguments of a call are those of its JSON text, in the order of the text.
pub proof fn arguments_keep_their_order(arguments: Seq<char>)
    ensures
        json::ordered_pairs(arguments) matches Some(pairs) ==> ordered_arguments(arguments)
            == pairs,
        json::ordered_pairs(arguments) is None ==> ordered_arguments(arguments).len() == 0,
{
}

/// Reasoning is all that its parts say, in their order.
pub proof fn reasoning_is_kept_whole(parts: Seq<ReasoningItemContent>, n: int)
    requires
        0 <= n < parts.len(),
    ensures
        reasoning_parts(parts, 0).len() == 0,
        reasoning_parts(parts, n + 1) == reasoning_parts(parts, n) + match parts[n] {
            ReasoningItemContent::ReasoningText { text } => text@,
            ReasoningItemContent::Text { text } => text@,
        },
{
}

} // verus!
