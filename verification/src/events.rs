//! What a streamed completion tells the agent loop: an item is announced, its
//! text comes in pieces, then the item is done. Calls come whole.

use crate::json::JsonModel;
use crate::text;
use vstd::prelude::*;
use vstd::string::*;

verus! {

/// Tokens that a completion took.
#[derive(Clone, Copy, Debug, PartialEq, Eq, Structural)]
pub struct TokenUsage {
    pub input_tokens: i64,
    pub cached_input_tokens: i64,
    pub output_tokens: i64,
    pub reasoning_output_tokens: i64,
    pub total_tokens: i64,
}

/// A finished item of a completion.
#[derive(Debug, PartialEq, Eq)]
#[allow(inconsistent_fields)]
pub enum OutputItem {
    Reasoning { id: String, text: String },
    Message { id: String, text: String },
    FunctionCall { name: String, namespace: Option<String>, arguments: String, call_id: String },
}

#[allow(inconsistent_fields)]
pub enum ItemModel {
    Reasoning { id: Seq<char>, text: Seq<char> },
    Message { id: Seq<char>, text: Seq<char> },
    FunctionCall {
        name: Seq<char>,
        namespace: Option<Seq<char>>,
        arguments: Seq<char>,
        call_id: Seq<char>,
    },
}

impl View for OutputItem {
    type V = ItemModel;

    open spec fn view(&self) -> ItemModel {
        match self {
            OutputItem::Reasoning { id, text } => ItemModel::Reasoning { id: id@, text: text@ },
            OutputItem::Message { id, text } => ItemModel::Message { id: id@, text: text@ },
            OutputItem::FunctionCall { name, namespace, arguments, call_id } =>
                ItemModel::FunctionCall {
                name: name@,
                namespace: text::optional(*namespace),
                arguments: arguments@,
                call_id: call_id@,
            },
        }
    }
}

pub open spec fn item_models(v: Seq<OutputItem>) -> Seq<ItemModel> {
    v.map_values(|i: OutputItem| i@)
}

/// One event of a streamed completion.
#[derive(Debug, PartialEq, Eq)]
pub enum StreamEvent {
    ReasoningAdded(String),
    MessageAdded(String),
    ReasoningDelta(String),
    TextDelta(String),
    Done(OutputItem),
    Completed { usage: TokenUsage, end_turn: bool, finish_reason: String },
}

pub enum EventModel {
    ReasoningAdded(Seq<char>),
    MessageAdded(Seq<char>),
    ReasoningDelta(Seq<char>),
    TextDelta(Seq<char>),
    Done(ItemModel),
    Completed { usage: TokenUsage, end_turn: bool, finish_reason: Seq<char> },
}

impl View for StreamEvent {
    type V = EventModel;

    open spec fn view(&self) -> EventModel {
        match self {
            StreamEvent::ReasoningAdded(id) => EventModel::ReasoningAdded(id@),
            StreamEvent::MessageAdded(id) => EventModel::MessageAdded(id@),
            StreamEvent::ReasoningDelta(t) => EventModel::ReasoningDelta(t@),
            StreamEvent::TextDelta(t) => EventModel::TextDelta(t@),
            StreamEvent::Done(item) => EventModel::Done(item@),
            StreamEvent::Completed { usage, end_turn, finish_reason } => EventModel::Completed {
                usage: *usage,
                end_turn: *end_turn,
                finish_reason: finish_reason@,
            },
        }
    }
}

pub open spec fn event_models(v: Seq<StreamEvent>) -> Seq<EventModel> {
    v.map_values(|e: StreamEvent| e@)
}

/// Appends an event.
pub(crate) fn emit(out: &mut Vec<StreamEvent>, event: StreamEvent)
    ensures
        event_models(final(out)@) == event_models(old(out)@).push(event@),
{
    let ghost before = out@;
    out.push(event);
    assert(event_models(out@) =~= event_models(before).push(event@));
}

/// The finished items that an event sequence holds, as events.
pub open spec fn done_events(items: Seq<ItemModel>) -> Seq<EventModel> {
    items.map_values(|i: ItemModel| EventModel::Done(i))
}

/// Whether an event finishes an item or the completion.
pub open spec fn finishes(e: EventModel) -> bool {
    e is Done || e is Completed
}

/// How far a stream has come.
pub enum Progress {
    /// More is to come.
    Running,
    /// The server reported an error; the completion is void.
    Failed(Seq<char>),
    /// The last chunk came.
    Finished(JsonModel),
}

/// The number of the first call id that is made up is this; ids that the model
/// gave are kept.
pub open spec fn made_up_call_id(n: u64) -> Seq<char> {
    "call_"@ + text::decimal(n as nat)
}

/// The call id with number `n`.
pub(crate) fn make_call_id(n: u64) -> (r: String)
    ensures
        r@ == made_up_call_id(n),
{
    let mut out = "call_".to_string();
    out.append(text::decimal_string(n as u128).as_str());
    out
}

/// Call ids that are made up differ from one another.
pub proof fn made_up_call_ids_differ(a: u64, b: u64)
    requires
        a != b,
    ensures
        made_up_call_id(a) != made_up_call_id(b),
{
    if made_up_call_id(a) == made_up_call_id(b) {
        let k = "call_"@.len() as int;
        assert(made_up_call_id(a).skip(k) =~= text::decimal(a as nat));
        assert(made_up_call_id(b).skip(k) =~= text::decimal(b as nat));
        text::decimal_is_read_back(a as nat);
        text::decimal_is_read_back(b as nat);
    }
}

} // verus!
