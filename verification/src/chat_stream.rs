//! A chat completion as it streams in. Reasoning and text are shown while they
//! come; calls come in fragments and are handed on whole, when the completion has
//! ended.

use crate::events;
use crate::events::EventModel;
use crate::events::ItemModel;
use crate::events::OutputItem;
use crate::events::StreamEvent;
use crate::events::TokenUsage;
use crate::json;
use crate::json::Json;
use crate::json::JsonModel;
use crate::prompt;
use crate::raw_stream;
use crate::raw_stream::Announced;
use crate::raw_stream::IdsModel;
use crate::raw_stream::ItemIds;
use crate::repetition;
use crate::repetition::RepeatStopParams;
use crate::repetition::RepetitionStats;
use crate::sse;
use crate::sse::SseBuffer;
use crate::text;
use vstd::prelude::*;
use vstd::string::*;

verus! {

// ---------------------------------------------------------------------------
// Calls that come in fragments.

/// One call so far.
#[derive(Debug)]
pub struct ToolCallAcc {
    pub id: String,
    pub name: String,
    pub arguments: String,
}

pub struct AccModel {
    pub id: Seq<char>,
    pub name: Seq<char>,
    pub arguments: Seq<char>,
}

impl View for ToolCallAcc {
    type V = AccModel;

    open spec fn view(&self) -> AccModel {
        AccModel { id: self.id@, name: self.name@, arguments: self.arguments@ }
    }
}

pub open spec fn acc_models(v: Seq<ToolCallAcc>) -> Seq<AccModel> {
    v.map_values(|c: ToolCallAcc| c@)
}

pub open spec fn empty_acc() -> AccModel {
    AccModel { id: Seq::empty(), name: Seq::empty(), arguments: Seq::empty() }
}

/// `calls` with empty ones behind them, so that there are at least `n`.
pub open spec fn padded(calls: Seq<AccModel>, n: int) -> Seq<AccModel> {
    if calls.len() >= n {
        calls
    } else {
        calls + Seq::new((n - calls.len()) as nat, |i: int| empty_acc())
    }
}

/// A text that is not empty.
pub open spec fn nonempty(t: Option<Seq<char>>) -> Option<Seq<char>> {
    match t {
        Some(s) if s.len() > 0 => Some(s),
        _ => None,
    }
}

pub open spec fn or_text(t: Option<Seq<char>>, other: Seq<char>) -> Seq<char> {
    match t {
        Some(s) => s,
        None => other,
    }
}

/// The text of the member `key` of a fragment's function.
pub open spec fn function_text(fragment: JsonModel, key: Seq<char>) -> Option<Seq<char>> {
    match fragment.at("function"@) {
        Some(f) => f.text_at(key),
        None => None,
    }
}

/// Which call a fragment belongs to.
pub open spec fn fragment_index(fragment: JsonModel) -> int {
    match fragment.at("index"@) {
        Some(i) => match i.whole() {
            Some(n) => (n as usize) as int,
            None => 0,
        },
        None => 0,
    }
}

/// A call with one more fragment: the id and the name come once, the arguments in
/// pieces.
pub open spec fn acc_with(call: AccModel, fragment: JsonModel) -> AccModel {
    AccModel {
        id: or_text(nonempty(fragment.text_at("id"@)), call.id),
        name: or_text(nonempty(function_text(fragment, "name"@)), call.name),
        arguments: call.arguments + or_text(
            function_text(fragment, "arguments"@),
            Seq::empty(),
        ),
    }
}

/// The calls with one more fragment.
pub open spec fn with_fragment(calls: Seq<AccModel>, fragment: JsonModel) -> Seq<AccModel> {
    let i = fragment_index(fragment);
    let all = padded(calls, i + 1);
    all.update(i, acc_with(all[i], fragment))
}

/// The calls with the first `n` fragments.
pub open spec fn with_fragments(calls: Seq<AccModel>, fragments: Seq<JsonModel>, n: int) -> Seq<
    AccModel,
>
    decreases n,
{
    if n <= 0 {
        calls
    } else {
        with_fragment(with_fragments(calls, fragments, n - 1), fragments[n - 1])
    }
}

fn fragment_text<'a>(fragment: &'a Json, key: &str) -> (r: Option<&'a str>)
    ensures
        match r {
            Some(t) => function_text(fragment@, key@) == Some(t@),
            None => function_text(fragment@, key@) is None,
        },
{
    match fragment.get("function") {
        Some(f) => f.str_at(key),
        None => None,
    }
}

/// Adds one fragment to the calls.
fn add_fragment(calls: &mut Vec<ToolCallAcc>, fragment: &Json)
    ensures
        acc_models(final(calls)@) == with_fragment(acc_models(old(calls)@), fragment@),
{
    let ghost before = acc_models(calls@);
    let i: usize = match fragment.get("index") {
        Some(j) => match j.as_u64() {
            Some(n) => n as usize,
            None => 0,
        },
        None => 0,
    };
    while calls.len() <= i
        invariant
            i == fragment_index(fragment@),
            before.len() <= calls@.len(),
            calls@.len() <= i + 1 || calls@.len() == before.len(),
            acc_models(calls@) == padded(before, calls@.len() as int),
        decreases i + 1 - calls@.len(),
    {
        let ghost had = calls@;
        let none = ToolCallAcc { id: String::new(), name: String::new(), arguments: String::new() };
        proof {
            assert(none.id@ =~= Seq::empty());
            assert(none.name@ =~= Seq::empty());
            assert(none.arguments@ =~= Seq::empty());
        }
        calls.push(none);
        assert(acc_models(calls@) =~= acc_models(had).push(empty_acc()));
        assert(acc_models(calls@) =~= padded(before, calls@.len() as int));
    }
    let ghost all = acc_models(calls@);
    assert(all =~= padded(before, i + 1));
    let ghost was = calls@[i as int]@;
    assert(all[i as int] == was);
    let id = match fragment.str_at("id") {
        Some(id) => if id.is_empty() {
            calls[i].id.clone()
        } else {
            id.to_string()
        },
        None => calls[i].id.clone(),
    };
    let name = match fragment_text(fragment, "name") {
        Some(name) => if name.is_empty() {
            calls[i].name.clone()
        } else {
            name.to_string()
        },
        None => calls[i].name.clone(),
    };
    let mut arguments = calls[i].arguments.clone();
    match fragment_text(fragment, "arguments") {
        Some(more) => {
            arguments.append(more);
        },
        None => {
            assert(arguments@ + Seq::<char>::empty() =~= arguments@);
        },
    }
    let next = ToolCallAcc { id, name, arguments };
    calls.set(i, next);
    assert(next@ == acc_with(was, fragment@));
    assert(acc_models(calls@) =~= all.update(i as int, next@));
}

/// Adds fragments to the calls.
fn add_fragments(calls: &mut Vec<ToolCallAcc>, fragments: &Vec<Json>)
    ensures
        acc_models(final(calls)@) == with_fragments(
            acc_models(old(calls)@),
            json::models(fragments@),
            fragments@.len() as int,
        ),
{
    let ghost before = acc_models(calls@);
    let ghost all = json::models(fragments@);
    let mut i: usize = 0;
    while i < fragments.len()
        invariant
            i <= fragments@.len(),
            all == json::models(fragments@),
            acc_models(calls@) == with_fragments(before, all, i as int),
        decreases fragments@.len() - i,
    {
        assert(all[i as int] == fragments@[i as int]@);
        add_fragment(calls, &fragments[i]);
        i += 1;
    }
}

// ---------------------------------------------------------------------------
// The repetition stop on this side.

/// The stop that runs here: its settings, and for a window of each size how many
/// units have to be covered of it.
#[derive(Debug)]
pub struct RepeatStop {
    pub params: RepeatStopParams,
    pub enough: Vec<usize>,
}

pub struct StopModel {
    pub windows: Seq<usize>,
    pub min_tokens: usize,
    pub min_repeats: usize,
    pub stride: usize,
    pub enough: Seq<usize>,
}

impl View for RepeatStop {
    type V = StopModel;

    open spec fn view(&self) -> StopModel {
        StopModel {
            windows: self.params.windows@,
            min_tokens: self.params.min_tokens,
            min_repeats: self.params.min_repeats,
            stride: self.params.stride,
            enough: self.enough@,
        }
    }
}

impl StopModel {
    pub open spec fn well_formed(self) -> bool {
        self.stride > 0 && repetition::says_enough(self.enough, self.windows)
    }

    /// What is found in a generation.
    pub open spec fn found(self, units: Seq<u64>) -> RepetitionStats {
        if units.len() < self.min_tokens {
            RepetitionStats::nothing(0)
        } else {
            repetition::found_in(
                units,
                self.windows,
                self.enough,
                self.min_tokens,
                self.min_repeats,
                self.windows.len() as int,
            )
        }
    }

    /// Whether a look is due.
    pub open spec fn due(self, units: Seq<u64>) -> bool {
        units.len() >= self.min_tokens && units.len() % self.stride as nat == 0
    }
}

pub open spec fn stop_model(stop: Option<RepeatStop>) -> Option<StopModel> {
    match stop {
        Some(s) => Some(s@),
        None => None,
    }
}

/// What is known of the repetition in a completion.
#[derive(Debug)]
pub enum RepetitionReport {
    /// What the server reported.
    Server(Json),
    /// What was found here.
    Client { stats: RepetitionStats, gram_text: String, n_generated: usize },
}

pub enum ReportModel {
    Server(JsonModel),
    Client { stats: RepetitionStats, gram_text: Seq<char>, n_generated: usize },
}

impl View for RepetitionReport {
    type V = ReportModel;

    open spec fn view(&self) -> ReportModel {
        match self {
            RepetitionReport::Server(j) => ReportModel::Server(j@),
            RepetitionReport::Client { stats, gram_text, n_generated } => ReportModel::Client {
                stats: *stats,
                gram_text: gram_text@,
                n_generated: *n_generated,
            },
        }
    }
}

pub open spec fn report_model(r: Option<RepetitionReport>) -> Option<ReportModel> {
    match r {
        Some(r) => Some(r@),
        None => None,
    }
}

/// A report as JSON. `coverage` is the part of the window that is covered, as a
/// JSON number.
pub open spec fn report_json(report: ReportModel, coverage: Seq<char>) -> JsonModel {
    match report {
        ReportModel::Server(j) => j,
        ReportModel::Client { stats, gram_text, n_generated } => JsonModel::Object(
            Seq::empty(),
        ).with("flagged"@, JsonModel::Bool(true)).with(
            "window"@,
            JsonModel::Number(text::decimal(stats.window as nat)),
        ).with("gram_len"@, JsonModel::Number(text::decimal(stats.gram_len as nat))).with(
            "count"@,
            JsonModel::Number(text::decimal(stats.count as nat)),
        ).with("coverage"@, JsonModel::Number(coverage)).with(
            "gram_text"@,
            JsonModel::Text(gram_text),
        ).with("n_generated"@, JsonModel::Number(text::decimal(n_generated as nat))).with(
            "detector"@,
            JsonModel::Text("client"@),
        ),
    }
}

impl RepetitionReport {
    /// The report as JSON.
    pub fn to_json(&self, coverage: &str) -> (r: Json)
        ensures
            r@ == report_json(self@, coverage@),
    {
        match self {
            RepetitionReport::Server(j) => j.clone(),
            RepetitionReport::Client { stats, gram_text, n_generated } => Json::object().with(
                "flagged",
                Json::Bool(true),
            ).with("window", Json::number(stats.window as u64)).with(
                "gram_len",
                Json::number(stats.gram_len as u64),
            ).with("count", Json::number(stats.count as u64)).with(
                "coverage",
                Json::Number(coverage.to_string()),
            ).with("gram_text", Json::text(gram_text.as_str())).with(
                "n_generated",
                Json::number(*n_generated as u64),
            ).with("detector", Json::text("client")),
        }
    }
}

/// Texts one behind the other, `from` up to `to`.
pub open spec fn glued(texts: Seq<Seq<char>>, from: int, to: int) -> Seq<char>
    decreases to - from,
{
    if to <= from {
        Seq::empty()
    } else {
        glued(texts, from, to - 1) + texts[to - 1]
    }
}

fn glue(texts: &Vec<String>, from: usize, to: usize) -> (r: String)
    requires
        from <= to <= texts@.len(),
    ensures
        r@ == glued(text::strings(texts@), from as int, to as int),
{
    let mut out = String::new();
    let mut i: usize = from;
    assert(out@ =~= Seq::empty());
    while i < to
        invariant
            from <= i <= to <= texts@.len(),
            out@ == glued(text::strings(texts@), from as int, i as int),
        decreases to - i,
    {
        out.append(texts[i].as_str());
        i += 1;
    }
    out
}

// ---------------------------------------------------------------------------
// One chunk.

/// The reasoning in a delta: servers name it differently.
pub open spec fn reasoning_in(delta: JsonModel) -> Option<Seq<char>> {
    nonempty(
        match delta.at("reasoning_content"@) {
            Some(j) => j.text(),
            None => delta.text_at("reasoning"@),
        },
    )
}

/// The text in a delta.
pub open spec fn content_in(delta: JsonModel) -> Option<Seq<char>> {
    nonempty(delta.text_at("content"@))
}

/// The call fragments in a delta.
pub open spec fn fragments_in(delta: JsonModel) -> Seq<JsonModel> {
    match delta.items_at("tool_calls"@) {
        Some(items) => items,
        None => Seq::empty(),
    }
}

pub open spec fn one_or_none(t: Option<Seq<char>>) -> Seq<Seq<char>> {
    match t {
        Some(s) => seq![s],
        None => Seq::empty(),
    }
}

/// The pieces of arguments in the first `n` fragments.
pub open spec fn argument_units(fragments: Seq<JsonModel>, n: int) -> Seq<Seq<char>>
    decreases n,
{
    if n <= 0 {
        Seq::empty()
    } else {
        argument_units(fragments, n - 1) + one_or_none(
            nonempty(function_text(fragments[n - 1], "arguments"@)),
        )
    }
}

/// The units that a delta adds to the generation.
pub open spec fn units_in(delta: JsonModel) -> Seq<Seq<char>> {
    one_or_none(reasoning_in(delta)) + one_or_none(content_in(delta)) + argument_units(
        fragments_in(delta),
        fragments_in(delta).len() as int,
    )
}

pub open spec fn unit_hashes(units: Seq<Seq<char>>) -> Seq<u64> {
    units.map_values(|u: Seq<char>| repetition::unit_hash(vstd::utf8::encode_utf8(u)))
}

/// A chat completion so far.
pub struct ChatModel {
    pub reasoning: Seq<char>,
    pub content: Seq<char>,
    pub calls: Seq<AccModel>,
    pub usage: Option<JsonModel>,
    pub finish_reason: Option<Seq<char>>,
    pub raw_generation: Option<Seq<char>>,
    pub report: Option<ReportModel>,
    pub seen: Announced,
    /// The units of the generation, where the stop runs here.
    pub units: Seq<Seq<char>>,
    /// Whether the end mark came, or the stop ended it here.
    pub ended: bool,
}

/// How far a chat completion has come.
pub enum ChatProgressModel {
    Running,
    Failed(Seq<char>),
    Ended,
}

impl ChatModel {
    /// A completion of which nothing has come.
    pub open spec fn empty() -> ChatModel {
        ChatModel {
            reasoning: Seq::empty(),
            content: Seq::empty(),
            calls: Seq::empty(),
            usage: None,
            finish_reason: None,
            raw_generation: None,
            report: None,
            seen: Announced { reasoning: false, message: false },
            units: Seq::empty(),
            ended: false,
        }
    }

    /// What a chunk says beside its choice.
    pub open spec fn noted(self, chunk: JsonModel) -> ChatModel {
        ChatModel {
            usage: match chunk.present_at("usage"@) {
                Some(u) => Some(u),
                None => self.usage,
            },
            raw_generation: match chunk.text_at("raw_generation"@) {
                Some(t) => Some(t),
                None => self.raw_generation,
            },
            report: match chunk.at("repetition"@) {
                Some(JsonModel::Object(m)) => Some(ReportModel::Server(JsonModel::Object(m))),
                _ => self.report,
            },
            ..self
        }
    }

    /// The completion with the units of a delta, and whether it loops now.
    pub open spec fn watched(self, delta: JsonModel, stop: Option<StopModel>) -> (ChatModel, bool) {
        match stop {
            None => (self, false),
            Some(stop) => {
                let units = self.units + units_in(delta);
                let next = ChatModel { units, ..self };
                let hashes = unit_hashes(units);
                let found = stop.found(hashes);
                if units_in(delta).len() > 0 && stop.due(hashes) && found.flagged {
                    (
                        ChatModel {
                            report: Some(
                                ReportModel::Client {
                                    stats: found,
                                    gram_text: glued(
                                        units,
                                        found.gram_pos as int,
                                        found.gram_pos + found.gram_len,
                                    ),
                                    n_generated: units.len() as usize,
                                },
                            ),
                            ..next
                        },
                        true,
                    )
                } else {
                    (next, false)
                }
            },
        }
    }

    /// The completion with what a delta adds, and the events that show it.
    pub open spec fn grown(self, delta: JsonModel, ids: IdsModel) -> (ChatModel, Seq<EventModel>) {
        let thought = reasoning_in(delta);
        let said = content_in(delta);
        let first = match thought {
            Some(t) => raw_stream::delta_events(
                crate::regions::DeltaModel::Reasoning(t),
                self.seen,
                ids,
            ),
            None => Seq::empty(),
        };
        let then_seen = Announced {
            reasoning: self.seen.reasoning || thought is Some,
            message: self.seen.message,
        };
        let second = match said {
            Some(t) => raw_stream::delta_events(
                crate::regions::DeltaModel::Text(t),
                then_seen,
                ids,
            ),
            None => Seq::empty(),
        };
        (
            ChatModel {
                reasoning: self.reasoning + or_text(thought, Seq::empty()),
                content: self.content + or_text(said, Seq::empty()),
                calls: with_fragments(
                    self.calls,
                    fragments_in(delta),
                    fragments_in(delta).len() as int,
                ),
                seen: Announced {
                    reasoning: then_seen.reasoning,
                    message: then_seen.message || said is Some,
                },
                ..self
            },
            first + second,
        )
    }

    /// Takes the choice of a chunk.
    pub open spec fn chosen(self, choice: JsonModel, stop: Option<StopModel>, ids: IdsModel) -> (
        ChatModel,
        Seq<EventModel>,
        ChatProgressModel,
    ) {
        let told = ChatModel {
            finish_reason: match choice.text_at("finish_reason"@) {
                Some(r) => Some(r),
                None => self.finish_reason,
            },
            ..self
        };
        match choice.at("delta"@) {
            None => (told, Seq::empty(), ChatProgressModel::Running),
            Some(delta) => {
                let (watched, looping) = told.watched(delta, stop);
                let (grown, shown) = watched.grown(delta, ids);
                if looping {
                    (
                        ChatModel {
                            ended: true,
                            finish_reason: Some("repetition"@),
                            ..grown
                        },
                        shown,
                        ChatProgressModel::Ended,
                    )
                } else {
                    (grown, shown, ChatProgressModel::Running)
                }
            },
        }
    }

    /// Takes one payload of the stream: what is no JSON is passed over.
    pub open spec fn step(self, payload: Seq<char>, stop: Option<StopModel>, ids: IdsModel) -> (
        ChatModel,
        Seq<EventModel>,
        ChatProgressModel,
    ) {
        if text::trim(payload) == "[DONE]"@ {
            (ChatModel { ended: true, ..self }, Seq::empty(), ChatProgressModel::Ended)
        } else {
            match json::parsed(payload) {
                None => (self, Seq::empty(), ChatProgressModel::Running),
                Some(chunk) => match chunk.present_at("error"@) {
                    Some(error) => (
                        self,
                        Seq::empty(),
                        ChatProgressModel::Failed(raw_stream::stream_error(error)),
                    ),
                    None => match chunk.items_at("choices"@) {
                        Some(choices) if choices.len() > 0 => self.noted(chunk).chosen(
                            choices[0],
                            stop,
                            ids,
                        ),
                        _ => (self.noted(chunk), Seq::empty(), ChatProgressModel::Running),
                    },
                },
            }
        }
    }

    /// Takes payloads up to the first that ends the stream.
    pub open spec fn run(
        self,
        payloads: Seq<Seq<char>>,
        stop: Option<StopModel>,
        ids: IdsModel,
    ) -> (ChatModel, Seq<EventModel>, ChatProgressModel)
        decreases payloads.len(),
    {
        if payloads.len() == 0 {
            (self, Seq::empty(), ChatProgressModel::Running)
        } else {
            let (next, shown, progress) = self.step(payloads[0], stop, ids);
            if progress is Running {
                let (last, more, end) = next.run(payloads.skip(1), stop, ids);
                (last, shown + more, end)
            } else {
                (next, shown, progress)
            }
        }
    }
}

/// How far a chat completion has come.
#[derive(Debug)]
pub enum ChatProgress {
    Running,
    Failed(String),
    Ended,
}

impl View for ChatProgress {
    type V = ChatProgressModel;

    open spec fn view(&self) -> ChatProgressModel {
        match self {
            ChatProgress::Running => ChatProgressModel::Running,
            ChatProgress::Failed(m) => ChatProgressModel::Failed(m@),
            ChatProgress::Ended => ChatProgressModel::Ended,
        }
    }
}

/// A chat completion that streams in.
#[derive(Debug)]
pub struct ChatState {
    pub reasoning: String,
    pub content: String,
    pub calls: Vec<ToolCallAcc>,
    pub usage: Option<Json>,
    pub finish_reason: Option<String>,
    pub raw_generation: Option<String>,
    pub report: Option<RepetitionReport>,
    pub seen: Announced,
    pub units: Vec<u64>,
    pub unit_texts: Vec<String>,
    pub ended: bool,
}

pub open spec fn json_model(j: Option<Json>) -> Option<JsonModel> {
    match j {
        Some(j) => Some(j@),
        None => None,
    }
}

impl View for ChatState {
    type V = ChatModel;

    /// The hashes of the units are left out: `well_formed` says that they are those of
    /// the texts.
    open spec fn view(&self) -> ChatModel {
        ChatModel {
            reasoning: self.reasoning@,
            content: self.content@,
            calls: acc_models(self.calls@),
            usage: json_model(self.usage),
            finish_reason: text::optional(self.finish_reason),
            raw_generation: text::optional(self.raw_generation),
            report: report_model(self.report),
            seen: self.seen,
            units: text::strings(self.unit_texts@),
            ended: self.ended,
        }
    }
}

impl ChatState {
    /// The units are the hashes of their texts.
    pub open spec fn well_formed(&self) -> bool {
        self.units@ == unit_hashes(text::strings(self.unit_texts@))
    }

    pub fn new() -> (r: Self)
        ensures
            r.well_formed(),
            r@ == ChatModel::empty(),
    {
        let r = ChatState {
            reasoning: String::new(),
            content: String::new(),
            calls: Vec::new(),
            usage: None,
            finish_reason: None,
            raw_generation: None,
            report: None,
            seen: Announced { reasoning: false, message: false },
            units: Vec::new(),
            unit_texts: Vec::new(),
            ended: false,
        };
        proof {
            assert(r.reasoning@ =~= Seq::empty());
            assert(r.content@ =~= Seq::empty());
            assert(acc_models(r.calls@) =~= Seq::empty());
            assert(text::strings(r.unit_texts@) =~= Seq::empty());
            assert(r.units@ =~= unit_hashes(text::strings(r.unit_texts@)));
        }
        r
    }

    fn note(&mut self, chunk: &Json)
        requires
            old(self).well_formed(),
        ensures
            final(self).well_formed(),
            final(self)@ == old(self)@.noted(chunk@),
    {
        match chunk.get_present("usage") {
            Some(u) => {
                self.usage = Some(u.clone());
            },
            None => {},
        }
        match chunk.str_at("raw_generation") {
            Some(t) => {
                self.raw_generation = Some(t.to_string());
            },
            None => {},
        }
        match chunk.get("repetition") {
            Some(stats) => {
                let there: bool = stats.as_object().is_some();
                if there {
                    self.report = Some(RepetitionReport::Server(stats.clone()));
                }
            },
            None => {},
        }
    }

    fn add_unit(&mut self, unit: &str)
        requires
            old(self).well_formed(),
        ensures
            final(self).well_formed(),
            final(self)@ == (ChatModel { units: old(self)@.units.push(unit@), ..old(self)@ }),
    {
        let ghost before = self.unit_texts@;
        self.units.push(repetition::hash_unit(unit));
        self.unit_texts.push(unit.to_string());
        proof {
            assert(text::strings(self.unit_texts@) =~= text::strings(before).push(unit@));
            assert(self.units@ =~= unit_hashes(text::strings(self.unit_texts@)));
        }
    }

    fn add_units(&mut self, delta: &Json) -> (any: bool)
        requires
            old(self).well_formed(),
        ensures
            final(self).well_formed(),
            final(self)@ == (ChatModel {
                units: old(self)@.units + units_in(delta@),
                ..old(self)@
            }),
            any == (units_in(delta@).len() > 0),
    {
        let ghost was = self@;
        let ghost goal = units_in(delta@);
        let mut any: bool = false;
        match reasoning_of(delta) {
            Some(t) => {
                self.add_unit(t);
                any = true;
            },
            None => {},
        }
        let ghost first = one_or_none(reasoning_in(delta@));
        assert(self@.units =~= was.units + first);
        match content_of(delta) {
            Some(t) => {
                self.add_unit(t);
                any = true;
            },
            None => {},
        }
        let ghost second = first + one_or_none(content_in(delta@));
        assert(self@.units =~= was.units + second);
        match delta.array_at("tool_calls") {
            Some(fragments) => {
                let ghost all = json::models(fragments@);
                let mut i: usize = 0;
                assert(second + argument_units(all, 0) =~= second);
                while i < fragments.len()
                    invariant
                        i <= fragments@.len(),
                        all == json::models(fragments@),
                        self.well_formed(),
                        self@ == (ChatModel {
                            units: was.units + (second + argument_units(all, i as int)),
                            ..was
                        }),
                        any == ((second + argument_units(all, i as int)).len() > 0),
                    decreases fragments@.len() - i,
                {
                    let ghost before = argument_units(all, i as int);
                    assert(all[i as int] == fragments@[i as int]@);
                    match fragment_text(&fragments[i], "arguments") {
                        Some(t) => {
                            if t.is_empty() {
                                assert(nonempty(Some(t@)) is None);
                                assert(before + Seq::<Seq<char>>::empty() =~= before);
                            } else {
                                self.add_unit(t);
                                any = true;
                                assert((was.units + (second + before)).push(t@) =~= was.units + (
                                second + (before + seq![t@])));
                            }
                        },
                        None => {
                            assert(before + Seq::<Seq<char>>::empty() =~= before);
                        },
                    }
                    i += 1;
                }
                assert(goal =~= second + argument_units(all, all.len() as int));
            },
            None => {
                assert(goal =~= second);
            },
        }
        any
    }

    fn watch(&mut self, delta: &Json, stop: &Option<RepeatStop>) -> (looping: bool)
        requires
            old(self).well_formed(),
            stop matches Some(s) ==> s@.well_formed(),
        ensures
            final(self).well_formed(),
            (final(self)@, looping) == old(self)@.watched(delta@, stop_model(*stop)),
    {
        match stop {
            None => false,
            Some(stop) => {
                let any = self.add_units(delta);
                let n: usize = self.units.len();
                if any && n >= stop.params.min_tokens && n % stop.params.stride == 0 {
                    let found = repetition::detect(
                        self.units.as_slice(),
                        &stop.params,
                        &stop.enough,
                    );
                    if found.flagged {
                        let total: usize = self.units.len();
                        let gram_text = glue(
                            &self.unit_texts,
                            found.gram_pos,
                            found.gram_pos + found.gram_len,
                        );
                        self.report = Some(
                            RepetitionReport::Client { stats: found, gram_text, n_generated: n },
                        );
                        return true;
                    }
                }
                false
            },
        }
    }

    fn grow(&mut self, delta: &Json, ids: &ItemIds, out: &mut Vec<StreamEvent>)
        requires
            old(self).well_formed(),
        ensures
            final(self).well_formed(),
            final(self)@ == old(self)@.grown(delta@, ids@).0,
            events::event_models(final(out)@) == events::event_models(old(out)@)
                + old(self)@.grown(delta@, ids@).1,
    {
        let ghost start = events::event_models(out@);
        let ghost was = self@;
        let ghost goal = was.grown(delta@, ids@);
        match reasoning_of(delta) {
            Some(t) => {
                self.reasoning.append(t);
                if !self.seen.reasoning {
                    self.seen.reasoning = true;
                    events::emit(out, StreamEvent::ReasoningAdded(ids.reasoning.clone()));
                }
                events::emit(out, StreamEvent::ReasoningDelta(t.to_string()));
            },
            None => {
                assert(was.reasoning + Seq::<char>::empty() =~= was.reasoning);
            },
        }
        let ghost first = match reasoning_in(delta@) {
            Some(t) => raw_stream::delta_events(
                crate::regions::DeltaModel::Reasoning(t),
                was.seen,
                ids@,
            ),
            None => Seq::empty(),
        };
        assert(events::event_models(out@) =~= start + first);
        match content_of(delta) {
            Some(t) => {
                self.content.append(t);
                if !self.seen.message {
                    self.seen.message = true;
                    events::emit(out, StreamEvent::MessageAdded(ids.message.clone()));
                }
                events::emit(out, StreamEvent::TextDelta(t.to_string()));
            },
            None => {
                assert(was.content + Seq::<char>::empty() =~= was.content);
            },
        }
        assert(events::event_models(out@) =~= start + goal.1);
        match delta.array_at("tool_calls") {
            Some(fragments) => {
                add_fragments(&mut self.calls, fragments);
            },
            None => {},
        }
    }

    fn take_choice(
        &mut self,
        choice: &Json,
        stop: &Option<RepeatStop>,
        ids: &ItemIds,
        out: &mut Vec<StreamEvent>,
    ) -> (r: ChatProgress)
        requires
            old(self).well_formed(),
            stop matches Some(s) ==> s@.well_formed(),
        ensures
            final(self).well_formed(),
            ({
                let (next, shown, progress) = old(self)@.chosen(choice@, stop_model(*stop), ids@);
                &&& final(self)@ == next
                &&& events::event_models(final(out)@) == events::event_models(old(out)@) + shown
                &&& r@ == progress
            }),
    {
        let ghost start = events::event_models(out@);
        match choice.str_at("finish_reason") {
            Some(reason) => {
                self.finish_reason = Some(reason.to_string());
            },
            None => {},
        }
        match choice.get("delta") {
            None => {
                assert(start + Seq::<EventModel>::empty() =~= start);
                ChatProgress::Running
            },
            Some(delta) => {
                let looping = self.watch(delta, stop);
                self.grow(delta, ids, out);
                if looping {
                    self.ended = true;
                    self.finish_reason = Some("repetition".to_string());
                    ChatProgress::Ended
                } else {
                    ChatProgress::Running
                }
            },
        }
    }

    /// Takes one payload of the stream.
    pub fn on_payload(
        &mut self,
        payload: &str,
        stop: &Option<RepeatStop>,
        ids: &ItemIds,
        out: &mut Vec<StreamEvent>,
    ) -> (r: ChatProgress)
        requires
            old(self).well_formed(),
            stop matches Some(s) ==> s@.well_formed(),
        ensures
            final(self).well_formed(),
            ({
                let (next, shown, progress) = old(self)@.step(payload@, stop_model(*stop), ids@);
                &&& final(self)@ == next
                &&& events::event_models(final(out)@) == events::event_models(old(out)@) + shown
                &&& r@ == progress
            }),
    {
        let ghost start = events::event_models(out@);
        assert(start + Seq::<EventModel>::empty() =~= start);
        let trimmed = text::str_trim(payload);
        if text::same_text(trimmed.as_str(), "[DONE]") {
            self.ended = true;
            return ChatProgress::Ended;
        }
        match json::parse(payload) {
            None => ChatProgress::Running,
            Some(chunk) => {
                match chunk.get_present("error") {
                    Some(error) => {
                        return ChatProgress::Failed(raw_stream::stream_error_text(error));
                    },
                    None => {},
                }
                self.note(&chunk);
                match chunk.array_at("choices") {
                    Some(choices) => {
                        if choices.len() > 0 {
                            assert(json::models(choices@)[0] == choices@[0]@);
                            self.take_choice(&choices[0], stop, ids, out)
                        } else {
                            ChatProgress::Running
                        }
                    },
                    None => ChatProgress::Running,
                }
            },
        }
    }
}

fn reasoning_of<'a>(delta: &'a Json) -> (r: Option<&'a str>)
    ensures
        match r {
            Some(t) => reasoning_in(delta@) == Some(t@),
            None => reasoning_in(delta@) is None,
        },
{
    let found = match delta.get("reasoning_content") {
        Some(j) => j.as_str(),
        None => delta.str_at("reasoning"),
    };
    match found {
        Some(t) => if t.is_empty() {
            None
        } else {
            Some(t)
        },
        None => None,
    }
}

fn content_of<'a>(delta: &'a Json) -> (r: Option<&'a str>)
    ensures
        match r {
            Some(t) => content_in(delta@) == Some(t@),
            None => content_in(delta@) is None,
        },
{
    match delta.str_at("content") {
        Some(t) => if t.is_empty() {
            None
        } else {
            Some(t)
        },
        None => None,
    }
}

/// A chat completion and the bytes of it that are not yet whole events.
#[derive(Debug)]
pub struct ChatStream {
    pub buffer: SseBuffer,
    pub state: ChatState,
    pub stop: Option<RepeatStop>,
    pub ids: ItemIds,
}

impl ChatStream {
    pub open spec fn well_formed(&self) -> bool {
        &&& self.state.well_formed()
        &&& self.stop matches Some(s) ==> s@.well_formed()
    }

    pub fn new(ids: ItemIds, stop: Option<RepeatStop>) -> (r: Self)
        requires
            stop matches Some(s) ==> s@.well_formed(),
        ensures
            r.well_formed(),
            r.ids == ids,
            r.stop == stop,
            r.buffer.buf@ == Seq::<u8>::empty(),
            r.state@ == ChatModel::empty(),
    {
        ChatStream { buffer: SseBuffer::new(), state: ChatState::new(), stop, ids }
    }

    /// Takes bytes of the response; shows what they allow and says how far the
    /// completion has come. What follows the end is dropped.
    pub fn on_bytes(&mut self, bytes: &[u8], out: &mut Vec<StreamEvent>) -> (r: ChatProgress)
        requires
            old(self).well_formed(),
        ensures
            final(self).well_formed(),
            final(self).ids == old(self).ids,
            final(self).stop == old(self).stop,
            final(self).buffer.buf@ == sse::drained(old(self).buffer.buf@ + bytes@).1,
            ({
                let (next, shown, progress) = old(self).state@.run(
                    sse::drained(old(self).buffer.buf@ + bytes@).0,
                    stop_model(old(self).stop),
                    old(self).ids@,
                );
                &&& final(self).state@ == next
                &&& events::event_models(final(out)@) == events::event_models(old(out)@) + shown
                &&& r@ == progress
            }),
    {
        let ghost was = self.state@;
        let ghost ids = self.ids@;
        let ghost stop = stop_model(self.stop);
        let ghost start = events::event_models(out@);
        let payloads = self.buffer.feed(bytes);
        let ghost all = text::strings(payloads@);
        let ghost goal = was.run(all, stop, ids);
        let ghost mut shown = Seq::<EventModel>::empty();
        let mut i: usize = 0;
        assert(all.skip(0) =~= all);
        assert(start + shown =~= start);
        assert(shown + goal.1 =~= goal.1);
        let ghost (kept, owner, rule) = (self.buffer, self.ids, self.stop);
        while i < payloads.len()
            invariant
                i <= payloads@.len(),
                all == text::strings(payloads@),
                self.well_formed(),
                self.ids == owner,
                self.stop == rule,
                self.buffer == kept,
                ids == owner@,
                stop == stop_model(rule),
                owner == old(self).ids,
                rule == old(self).stop,
                start == events::event_models(old(out)@),
                goal == old(self).state@.run(
                    sse::drained(old(self).buffer.buf@ + bytes@).0,
                    stop_model(old(self).stop),
                    old(self).ids@,
                ),
                kept.buf@ == sse::drained(old(self).buffer.buf@ + bytes@).1,
                events::event_models(out@) == start + shown,
                goal.0 == self.state@.run(all.skip(i as int), stop, ids).0,
                goal.1 == shown + self.state@.run(all.skip(i as int), stop, ids).1,
                goal.2 == self.state@.run(all.skip(i as int), stop, ids).2,
            decreases payloads@.len() - i,
        {
            let ghost now = self.state@;
            let ghost rest = all.skip(i as int);
            assert(rest[0] == payloads@[i as int]@);
            assert(rest.skip(1) =~= all.skip(i + 1));
            let progress = self.state.on_payload(
                payloads[i].as_str(),
                &self.stop,
                &self.ids,
                out,
            );
            proof {
                let (next, more, p) = now.step(rest[0], stop, ids);
                assert(start + shown + more =~= start + (shown + more));
                let tail = next.run(rest.skip(1), stop, ids).1;
                assert(shown + (more + tail) =~= (shown + more) + tail);
                shown = shown + more;
            }
            match progress {
                ChatProgress::Running => {},
                other => {
                    return other;
                },
            }
            i += 1;
        }
        assert(all.skip(i as int).len() == 0);
        assert(shown + Seq::<EventModel>::empty() =~= shown);
        ChatProgress::Running
    }
}

/// Nothing is finished while a completion streams: items are announced and grow,
/// and no item is done, whether it goes on, fails or ends.
pub proof fn nothing_is_done_early(
    s: ChatModel,
    payloads: Seq<Seq<char>>,
    stop: Option<StopModel>,
    ids: IdsModel,
)
    ensures
        forall|k: int|
            0 <= k < s.run(payloads, stop, ids).1.len() ==> !events::finishes(
                #[trigger] s.run(payloads, stop, ids).1[k],
            ),
    decreases payloads.len(),
{
    if payloads.len() > 0 {
        let (next, shown, progress) = s.step(payloads[0], stop, ids);
        if progress is Running {
            nothing_is_done_early(next, payloads.skip(1), stop, ids);
            let more = next.run(payloads.skip(1), stop, ids).1;
            let whole = s.run(payloads, stop, ids).1;
            assert forall|k: int| 0 <= k < whole.len() implies !events::finishes(
                #[trigger] whole[k],
            ) by {
                if k < shown.len() {
                    assert(whole[k] == shown[k]);
                } else {
                    assert(whole[k] == more[k - shown.len()]);
                }
            }
        }
    }
}

/// A completion may be read in parts: where the first payloads do not end it, the
/// rest goes on from where they left it; where they do, the rest changes nothing.
pub proof fn payloads_come_in_parts(
    s: ChatModel,
    p: Seq<Seq<char>>,
    q: Seq<Seq<char>>,
    stop: Option<StopModel>,
    ids: IdsModel,
)
    ensures
        s.run(p, stop, ids).2 is Running ==> s.run(p + q, stop, ids) == (
            s.run(p, stop, ids).0.run(q, stop, ids).0,
            s.run(p, stop, ids).1 + s.run(p, stop, ids).0.run(q, stop, ids).1,
            s.run(p, stop, ids).0.run(q, stop, ids).2,
        ),
        !(s.run(p, stop, ids).2 is Running) ==> s.run(p + q, stop, ids) == s.run(p, stop, ids),
    decreases p.len(),
{
    if p.len() == 0 {
        assert(p + q =~= q);
        let more = s.run(q, stop, ids).1;
        assert(Seq::<EventModel>::empty() + more =~= more);
    } else {
        let (next, shown, progress) = s.step(p[0], stop, ids);
        assert((p + q)[0] == p[0]);
        assert((p + q).skip(1) =~= p.skip(1) + q);
        if progress is Running {
            payloads_come_in_parts(next, p.skip(1), q, stop, ids);
            let (mid, some, _) = next.run(p.skip(1), stop, ids);
            let more = mid.run(q, stop, ids).1;
            assert(shown + (some + more) =~= (shown + some) + more);
        }
    }
}

/// How a response is cut into chunks does not matter: where its blank lines are all
/// of one kind, two chunks show what both show at once, and leave the completion
/// where both leave it.
pub proof fn chunks_do_not_matter(
    s: ChatModel,
    held: Seq<u8>,
    a: Seq<u8>,
    b: Seq<u8>,
    stop: Option<StopModel>,
    ids: IdsModel,
)
    requires
        sse::one_line_end(held + (a + b)),
    ensures
        ({
            let (first, left) = sse::drained(held + a);
            let (second, rest) = sse::drained(left + b);
            let (mid, shown, progress) = s.run(first, stop, ids);
            let (last, more, end) = mid.run(second, stop, ids);
            &&& sse::drained(held + (a + b)).1 == rest
            &&& s.run(sse::drained(held + (a + b)).0, stop, ids) == if progress is Running {
                (last, shown + more, end)
            } else {
                (mid, shown, progress)
            }
        }),
{
    assert(held + (a + b) =~= (held + a) + b);
    sse::chunks_do_not_matter(held + a, b);
    let (first, left) = sse::drained(held + a);
    payloads_come_in_parts(s, first, sse::drained(left + b).0, stop, ids);
}

// ---------------------------------------------------------------------------
// When it has ended.

/// Whether the arguments of a call are whole.
pub open spec fn arguments_complete(arguments: Seq<char>) -> bool {
    json::parsed(arguments) is Some
}

/// Whether the arguments of a call are whole JSON. A call that was cut off leaves a
/// piece of an object, which cannot be run.
pub fn tool_call_arguments_complete(arguments: &str) -> (r: bool)
    ensures
        r == arguments_complete(arguments@),
{
    json::parse(arguments).is_some()
}

/// What stands in the message for a call that could not be run.
pub open spec fn incomplete_call_text(name: Seq<char>, arguments: Seq<char>) -> Seq<char> {
    "\n\n[incomplete tool call, not executed] "@ + name + " "@ + arguments
}

/// What stands in the message for a call that could not be run, so that the
/// model's own output is kept.
pub fn render_incomplete_tool_call(name: &str, arguments: &str) -> (r: String)
    ensures
        r@ == incomplete_call_text(name@, arguments@),
{
    let mut out = "\n\n[incomplete tool call, not executed] ".to_string();
    out.append(name);
    out.append(" ");
    out.append(arguments);
    out
}

/// The reason that is given where a call was not whole and the completion was not
/// cut off otherwise.
pub open spec fn malformed_reason() -> Seq<char> {
    "malformed_tool_call"@
}

/// Whether a call came in a name but not in whole arguments.
pub open spec fn is_malformed(call: AccModel) -> bool {
    call.name.len() > 0 && !arguments_complete(call.arguments)
}

/// The texts of the malformed ones among the first `n` calls.
pub open spec fn malformed_text(calls: Seq<AccModel>, n: int) -> Seq<char>
    decreases n,
{
    if n <= 0 {
        Seq::empty()
    } else if is_malformed(calls[n - 1]) {
        malformed_text(calls, n - 1) + incomplete_call_text(
            calls[n - 1].name,
            calls[n - 1].arguments,
        )
    } else {
        malformed_text(calls, n - 1)
    }
}

/// Whether any of the first `n` calls is malformed.
pub open spec fn any_malformed(calls: Seq<AccModel>, n: int) -> bool
    decreases n,
{
    n > 0 && (any_malformed(calls, n - 1) || is_malformed(calls[n - 1]))
}

/// Why the completion ended, with regard to its calls.
pub open spec fn final_reason(reason: Seq<char>, malformed: bool) -> Seq<char> {
    if malformed && !raw_stream::cut_off(reason) {
        malformed_reason()
    } else {
        reason
    }
}

/// Whether the turn has to go on.
pub open spec fn unfinished(reason: Seq<char>) -> bool {
    raw_stream::cut_off(reason) || reason == malformed_reason()
}

/// The item for a whole call.
pub open spec fn whole_call_item(call: AccModel, next: u64) -> ItemModel {
    ItemModel::FunctionCall {
        name: match prompt::unflattened(call.name) {
            Some((_, name)) => name,
            None => call.name,
        },
        namespace: match prompt::unflattened(call.name) {
            Some((namespace, _)) => Some(namespace),
            None => None,
        },
        arguments: call.arguments,
        call_id: if call.id.len() == 0 {
            events::made_up_call_id(next)
        } else {
            call.id
        },
    }
}

/// The items for the whole ones among the first `n` calls, and the number of the
/// next id that is made up.
pub open spec fn whole_call_items(calls: Seq<AccModel>, n: int, next: u64) -> (Seq<ItemModel>, u64)
    decreases n,
{
    if n <= 0 {
        (Seq::empty(), next)
    } else {
        let (items, at) = whole_call_items(calls, n - 1, next);
        let call = calls[n - 1];
        if call.name.len() > 0 && arguments_complete(call.arguments) {
            (
                items.push(whole_call_item(call, at)),
                if call.id.len() == 0 {
                    at.wrapping_add(1)
                } else {
                    at
                },
            )
        } else {
            (items, at)
        }
    }
}

/// The tokens that the server reported.
pub open spec fn chat_usage(usage: Option<JsonModel>) -> TokenUsage {
    match usage {
        None => TokenUsage {
            input_tokens: 0,
            cached_input_tokens: 0,
            output_tokens: 0,
            reasoning_output_tokens: 0,
            total_tokens: 0,
        },
        Some(u) => {
            let input = raw_stream::or_zero(u.signed_at("prompt_tokens"@)) as i64;
            let output = raw_stream::or_zero(u.signed_at("completion_tokens"@)) as i64;
            TokenUsage {
                input_tokens: input,
                cached_input_tokens: match u.at("prompt_tokens_details"@) {
                    Some(d) => raw_stream::or_zero(d.signed_at("cached_tokens"@)) as i64,
                    None => 0,
                },
                output_tokens: output,
                reasoning_output_tokens: 0,
                total_tokens: input.wrapping_add(output),
            }
        },
    }
}

/// The tokens that the server reported.
pub fn chat_token_usage(usage: &Option<Json>) -> (r: TokenUsage)
    ensures
        r == chat_usage(json_model(*usage)),
{
    match usage {
        None => TokenUsage {
            input_tokens: 0,
            cached_input_tokens: 0,
            output_tokens: 0,
            reasoning_output_tokens: 0,
            total_tokens: 0,
        },
        Some(u) => {
            let input: i64 = u.i64_at("prompt_tokens").unwrap_or(0);
            let output: i64 = u.i64_at("completion_tokens").unwrap_or(0);
            let cached: i64 = match u.get("prompt_tokens_details") {
                Some(d) => d.i64_at("cached_tokens").unwrap_or(0),
                None => 0,
            };
            TokenUsage {
                input_tokens: input,
                cached_input_tokens: cached,
                output_tokens: output,
                reasoning_output_tokens: 0,
                total_tokens: input.wrapping_add(output),
            }
        },
    }
}

impl ChatModel {
    /// The whole text of the message: what was said, and behind it the calls that
    /// could not be run.
    pub open spec fn message(self) -> Seq<char> {
        self.content + malformed_text(self.calls, self.calls.len() as int)
    }

    /// Why the completion ended.
    pub open spec fn reason(self) -> Option<Seq<char>> {
        match self.finish_reason {
            Some(r) => Some(final_reason(r, any_malformed(self.calls, self.calls.len() as int))),
            None => None,
        }
    }

    /// The items of a completion that ended for this reason.
    pub open spec fn items(self, reason: Seq<char>, ids: IdsModel, next: u64) -> (
        Seq<ItemModel>,
        u64,
    ) {
        let thought = if text::is_blank(self.reasoning) {
            Seq::empty()
        } else {
            seq![ItemModel::Reasoning { id: ids.reasoning, text: text::trim(self.reasoning) }]
        };
        let said = if text::is_blank(self.message()) {
            Seq::empty()
        } else {
            seq![ItemModel::Message { id: ids.message, text: text::trim_start(self.message()) }]
        };
        let (called, at) = if raw_stream::cut_off(reason) {
            (Seq::empty(), next)
        } else {
            whole_call_items(self.calls, self.calls.len() as int, next)
        };
        (thought + said + called, at)
    }

    /// The events that end the completion, and the number of the next call id that
    /// is made up; none where it did not come to its end.
    pub open spec fn closed(self, ids: IdsModel, next: u64) -> Option<(Seq<EventModel>, u64)> {
        match self.reason() {
            Some(reason) if self.ended => {
                let (items, at) = self.items(reason, ids, next);
                Some(
                    (
                        events::done_events(items).push(
                            EventModel::Completed {
                                usage: chat_usage(self.usage),
                                end_turn: !unfinished(reason),
                                finish_reason: reason,
                            },
                        ),
                        at,
                    ),
                )
            },
            _ => None,
        }
    }
}

/// A completion whose end mark or finish reason is missing finishes nothing.
pub proof fn interrupted_completions_finish_nothing(s: ChatModel, ids: IdsModel, next: u64)
    requires
        !s.ended || s.finish_reason is None,
    ensures
        s.closed(ids, next) is None,
{
}

proof fn whole_items_are_whole(calls: Seq<AccModel>, n: int, next: u64)
    requires
        0 <= n <= calls.len(),
    ensures
        forall|k: int|
            0 <= k < whole_call_items(calls, n, next).0.len() ==> {
                &&& (#[trigger] whole_call_items(calls, n, next).0[k]) is FunctionCall
                &&& arguments_complete(
                    whole_call_items(calls, n, next).0[k]->FunctionCall_arguments,
                )
            },
    decreases n,
{
    if n > 0 {
        whole_items_are_whole(calls, n - 1, next);
        let before = whole_call_items(calls, n - 1, next).0;
        let all = whole_call_items(calls, n, next).0;
        assert forall|k: int| 0 <= k < all.len() implies (#[trigger] all[k]) is FunctionCall
            && arguments_complete(all[k]->FunctionCall_arguments) by {
            if k < before.len() {
                assert(all[k] == before[k]);
            }
        }
    }
}

/// Only whole calls are handed on, and none at all where the completion was cut
/// off.
pub proof fn only_whole_calls_are_handed_on(s: ChatModel, ids: IdsModel, next: u64)
    ensures
        match s.closed(ids, next) {
            Some((shown, _)) => forall|k: int|
                0 <= k < shown.len() ==> match #[trigger] shown[k] {
                    EventModel::Done(item) => item is FunctionCall ==> arguments_complete(
                        item->FunctionCall_arguments,
                    ) && !raw_stream::cut_off(s.reason().unwrap()),
                    EventModel::Completed { end_turn, .. } => raw_stream::cut_off(
                        s.reason().unwrap(),
                    ) ==> !end_turn,
                    _ => false,
                },
            None => true,
        },
{
    whole_items_are_whole(s.calls, s.calls.len() as int, next);
    match s.closed(ids, next) {
        Some((shown, _)) => {
            let reason = s.reason().unwrap();
            let items = s.items(reason, ids, next).0;
            let called = whole_call_items(s.calls, s.calls.len() as int, next).0;
            assert forall|k: int| 0 <= k < items.len() && (#[trigger] items[k]) is FunctionCall implies arguments_complete(
            items[k]->FunctionCall_arguments) && !raw_stream::cut_off(reason) by {
                if !raw_stream::cut_off(reason) {
                    let d = items.len() - called.len();
                    if k >= d {
                        assert(items[k] == called[k - d]);
                    }
                }
            }
            assert forall|k: int| 0 <= k < shown.len() implies match #[trigger] shown[k] {
                EventModel::Done(item) => item is FunctionCall ==> arguments_complete(
                    item->FunctionCall_arguments,
                ) && !raw_stream::cut_off(s.reason().unwrap()),
                EventModel::Completed { end_turn, .. } => raw_stream::cut_off(
                    s.reason().unwrap(),
                ) ==> !end_turn,
                _ => false,
            } by {
                if k < items.len() {
                    assert(shown[k] == EventModel::Done(items[k]));
                }
            }
        },
        None => {},
    }
}

/// A completion that was cut off keeps saying so: a malformed call does not hide
/// it.
pub proof fn cut_off_reason_is_kept(s: ChatModel)
    requires
        s.finish_reason matches Some(r) && raw_stream::cut_off(r),
    ensures
        s.reason() == s.finish_reason,
{
}

impl ChatState {
    /// Moves the calls that could not be run into the message. Returns whether
    /// there were any.
    fn keep_malformed(&mut self) -> (any: bool)
        ensures
            any == any_malformed(old(self)@.calls, old(self)@.calls.len() as int),
            final(self).content@ == old(self)@.message(),
            final(self).calls == old(self).calls,
            final(self).reasoning == old(self).reasoning,
            final(self).usage == old(self).usage,
            final(self).finish_reason == old(self).finish_reason,
            final(self).raw_generation == old(self).raw_generation,
            final(self).report == old(self).report,
            final(self).ended == old(self).ended,
    {
        let ghost all = acc_models(self.calls@);
        let ghost content = self.content@;
        let mut any: bool = false;
        let mut text_of_calls = String::new();
        let mut i: usize = 0;
        assert(text_of_calls@ =~= Seq::empty());
        while i < self.calls.len()
            invariant
                i <= self.calls@.len(),
                all == acc_models(self.calls@),
                any == any_malformed(all, i as int),
                text_of_calls@ == malformed_text(all, i as int),
            decreases self.calls@.len() - i,
        {
            let call = &self.calls[i];
            assert(all[i as int] == call@);
            let named: bool = !call.name.as_str().is_empty();
            if named && !tool_call_arguments_complete(call.arguments.as_str()) {
                any = true;
                text_of_calls.append(
                    render_incomplete_tool_call(
                        call.name.as_str(),
                        call.arguments.as_str(),
                    ).as_str(),
                );
            }
            i += 1;
        }
        self.content.append(text_of_calls.as_str());
        any
    }

    fn push_calls(&self, out: &mut Vec<StreamEvent>, next: u64) -> (at: u64)
        ensures
            at == whole_call_items(self@.calls, self@.calls.len() as int, next).1,
            events::event_models(final(out)@) == events::event_models(old(out)@)
                + events::done_events(
                whole_call_items(self@.calls, self@.calls.len() as int, next).0,
            ),
    {
        let ghost all = acc_models(self.calls@);
        let ghost start = events::event_models(out@);
        let mut at: u64 = next;
        let mut i: usize = 0;
        assert(start + events::done_events(Seq::empty()) =~= start);
        while i < self.calls.len()
            invariant
                i <= self.calls@.len(),
                all == acc_models(self.calls@),
                at == whole_call_items(all, i as int, next).1,
                events::event_models(out@) == start + events::done_events(
                    whole_call_items(all, i as int, next).0,
                ),
            decreases self.calls@.len() - i,
        {
            let call = &self.calls[i];
            assert(all[i as int] == call@);
            let ghost before = whole_call_items(all, i as int, next).0;
            let named: bool = !call.name.as_str().is_empty();
            if named && tool_call_arguments_complete(call.arguments.as_str()) {
                let made_up: bool = call.id.as_str().is_empty();
                let call_id = if made_up {
                    events::make_call_id(at)
                } else {
                    call.id.clone()
                };
                let item = match prompt::unflatten_tool_name(call.name.as_str()) {
                    Some((namespace, name)) => OutputItem::FunctionCall {
                        name,
                        namespace: Some(namespace),
                        arguments: call.arguments.clone(),
                        call_id,
                    },
                    None => OutputItem::FunctionCall {
                        name: call.name.clone(),
                        namespace: None,
                        arguments: call.arguments.clone(),
                        call_id,
                    },
                };
                let ghost model = item@;
                assert(model == whole_call_item(call@, at));
                events::emit(out, StreamEvent::Done(item));
                assert((start + events::done_events(before)).push(EventModel::Done(model)) =~= start
                    + events::done_events(before.push(model)));
                if made_up {
                    at = at.wrapping_add(1);
                }
            }
            i += 1;
        }
        at
    }

    /// Ends the completion: its items are done, then it is complete. Where it did
    /// not come to its end, nothing is done and the message for that is returned.
    /// `next` is the number of the next call id that is made up.
    pub fn close(&mut self, ids: &ItemIds, next: u64, out: &mut Vec<StreamEvent>) -> (r: Result<
        u64,
        String,
    >)
        ensures
            match old(self)@.closed(ids@, next) {
                Some((shown, at)) => {
                    &&& r == Ok::<u64, String>(at)
                    &&& events::event_models(final(out)@) == events::event_models(old(out)@) + shown
                    &&& final(self).content@ == old(self)@.message()
                    &&& text::optional(final(self).finish_reason) == old(self)@.reason()
                },
                None => {
                    &&& r matches Err(m) && m@ == raw_stream::interrupted()
                    &&& final(out)@ == old(out)@
                    &&& *final(self) == *old(self)
                },
            },
            final(self).ended == old(self).ended,
            final(self).calls == old(self).calls,
            final(self).reasoning == old(self).reasoning,
            final(self).usage == old(self).usage,
            final(self).raw_generation == old(self).raw_generation,
            final(self).report == old(self).report,
    {
        let ghost was = self@;
        let ghost start = events::event_models(out@);
        let given: Option<String> = self.finish_reason.clone();
        let given = match given {
            Some(r) => r,
            None => {
                return Err(raw_stream::interrupted_text());
            },
        };
        if !self.ended {
            return Err(raw_stream::interrupted_text());
        }
        let malformed = self.keep_malformed();
        let reason = if malformed && !raw_stream::is_cut_off(given.as_str()) {
            "malformed_tool_call".to_string()
        } else {
            given
        };
        let cut = raw_stream::is_cut_off(reason.as_str());
        let ghost why = reason@;
        assert(was.reason() == Some(why));
        let ghost goal = was.items(why, ids@, next);
        if !text::str_blank(self.reasoning.as_str()) {
            events::emit(
                out,
                StreamEvent::Done(
                    OutputItem::Reasoning {
                        id: ids.reasoning.clone(),
                        text: text::str_trim(self.reasoning.as_str()),
                    },
                ),
            );
        }
        let ghost thought = if text::is_blank(was.reasoning) {
            Seq::empty()
        } else {
            seq![ItemModel::Reasoning { id: ids@.reasoning, text: text::trim(was.reasoning) }]
        };
        assert(events::event_models(out@) =~= start + events::done_events(thought));
        if !text::str_blank(self.content.as_str()) {
            let cs = text::chars_of(self.content.as_str());
            let shown = text::trimmed_start(cs.as_slice());
            events::emit(
                out,
                StreamEvent::Done(
                    OutputItem::Message {
                        id: ids.message.clone(),
                        text: text::string_of(shown.as_slice()),
                    },
                ),
            );
        }
        let ghost said = if text::is_blank(was.message()) {
            Seq::empty()
        } else {
            seq![ItemModel::Message { id: ids@.message, text: text::trim_start(was.message()) }]
        };
        assert(events::event_models(out@) =~= start + events::done_events(thought + said));
        let at: u64 = if cut {
            next
        } else {
            self.push_calls(out, next)
        };
        assert(events::event_models(out@) =~= start + events::done_events(goal.0));
        let usage = chat_token_usage(&self.usage);
        let end_turn: bool = !(cut || text::same_text(reason.as_str(), "malformed_tool_call"));
        self.finish_reason = Some(reason.clone());
        let ghost done = EventModel::Completed { usage, end_turn, finish_reason: why };
        events::emit(out, StreamEvent::Completed { usage, end_turn, finish_reason: reason });
        assert((start + events::done_events(goal.0)).push(done) =~= start + events::done_events(
            goal.0,
        ).push(done));
        Ok(at)
    }

    /// The calls as they are logged.
    pub fn logged_calls(&self) -> (r: Vec<Json>)
        ensures
            json::models(r@) == logged_call_models(self@.calls, self@.calls.len() as int),
    {
        let ghost all = acc_models(self.calls@);
        let mut out: Vec<Json> = Vec::new();
        let mut i: usize = 0;
        assert(json::models(out@) =~= Seq::empty());
        while i < self.calls.len()
            invariant
                i <= self.calls@.len(),
                all == acc_models(self.calls@),
                json::models(out@) == logged_call_models(all, i as int),
            decreases self.calls@.len() - i,
        {
            let call = &self.calls[i];
            assert(all[i as int] == call@);
            let entry = Json::object().with("id", Json::text(call.id.as_str())).with(
                "name",
                Json::text(call.name.as_str()),
            ).with("arguments", Json::text(call.arguments.as_str())).with(
                "complete",
                Json::Bool(tool_call_arguments_complete(call.arguments.as_str())),
            );
            let ghost before = out@;
            out.push(entry);
            assert(json::models(out@) =~= json::models(before).push(entry@));
            i += 1;
        }
        out
    }
}

/// The first `n` calls as they are logged.
pub open spec fn logged_call_models(calls: Seq<AccModel>, n: int) -> Seq<JsonModel>
    decreases n,
{
    if n <= 0 {
        Seq::empty()
    } else {
        let call = calls[n - 1];
        logged_call_models(calls, n - 1).push(
            JsonModel::Object(Seq::empty()).with("id"@, JsonModel::Text(call.id)).with(
                "name"@,
                JsonModel::Text(call.name),
            ).with("arguments"@, JsonModel::Text(call.arguments)).with(
                "complete"@,
                JsonModel::Bool(arguments_complete(call.arguments)),
            ),
        )
    }
}

// ---------------------------------------------------------------------------
// Laws.

proof fn report_keys_differ()
    ensures
        "flagged"@ != "window"@,
        "flagged"@ != "gram_len"@,
        "flagged"@ != "count"@,
        "flagged"@ != "coverage"@,
        "flagged"@ != "gram_text"@,
        "flagged"@ != "n_generated"@,
        "flagged"@ != "detector"@,
        "window"@ != "gram_len"@,
        "window"@ != "count"@,
        "window"@ != "coverage"@,
        "window"@ != "gram_text"@,
        "window"@ != "n_generated"@,
        "window"@ != "detector"@,
        "gram_len"@ != "count"@,
        "gram_len"@ != "coverage"@,
        "gram_len"@ != "gram_text"@,
        "gram_len"@ != "n_generated"@,
        "gram_len"@ != "detector"@,
        "count"@ != "coverage"@,
        "count"@ != "gram_text"@,
        "count"@ != "n_generated"@,
        "count"@ != "detector"@,
        "coverage"@ != "gram_text"@,
        "coverage"@ != "n_generated"@,
        "coverage"@ != "detector"@,
        "gram_text"@ != "n_generated"@,
        "gram_text"@ != "detector"@,
        "n_generated"@ != "detector"@,
{
    reveal_strlit("flagged");
    assert("flagged"@.len() == 7);
    reveal_strlit("window");
    assert("window"@.len() == 6);
    reveal_strlit("gram_len");
    assert("gram_len"@.len() == 8);
    reveal_strlit("count");
    assert("count"@.len() == 5);
    reveal_strlit("coverage");
    assert("coverage"@.len() == 8);
    reveal_strlit("gram_text");
    assert("gram_text"@.len() == 9);
    reveal_strlit("n_generated");
    assert("n_generated"@.len() == 11);
    reveal_strlit("detector");
    assert("detector"@.len() == 8);
    assert("gram_len"@[0] != "coverage"@[0]);
    assert("gram_len"@[0] != "detector"@[0]);
    assert("coverage"@[0] != "detector"@[0]);
}

proof fn logged_keys_differ()
    ensures
        "id"@ != "name"@,
        "id"@ != "arguments"@,
        "id"@ != "complete"@,
        "name"@ != "arguments"@,
        "name"@ != "complete"@,
        "arguments"@ != "complete"@,
{
    reveal_strlit("id");
    assert("id"@.len() == 2);
    reveal_strlit("name");
    assert("name"@.len() == 4);
    reveal_strlit("arguments");
    assert("arguments"@.len() == 9);
    reveal_strlit("complete");
    assert("complete"@.len() == 8);
}

/// A fragment goes to the call that its index names: its id and its name are taken where it
/// has them, its arguments go behind those that came, and every other call stays.
pub proof fn fragments_go_to_their_call(
    calls: Seq<AccModel>,
    fragment: JsonModel,
    function: JsonModel,
    i: nat,
    a: Seq<char>,
    s: Seq<char>,
    k: int,
)
    requires
        i <= u32::MAX,
        fragment.at("index"@) == Some(JsonModel::Number(text::decimal(i))),
        fragment.at("function"@) == Some(function),
        function.at("arguments"@) == Some(JsonModel::Text(a)),
        s.len() > 0,
    ensures
        ({
            let after = with_fragment(calls, fragment);
            let was = if i < calls.len() {
                calls[i as int]
            } else {
                empty_acc()
            };
            &&& after.len() == if i < calls.len() {
                calls.len()
            } else {
                i + 1
            }
            &&& after[i as int].arguments == was.arguments + a
            &&& fragment.at("id"@) == Some(JsonModel::Text(s)) ==> after[i as int].id == s
            &&& fragment.at("id"@) is None ==> after[i as int].id == was.id
            &&& function.at("name"@) == Some(JsonModel::Text(s)) ==> after[i as int].name == s
            &&& function.at("name"@) is None ==> after[i as int].name == was.name
            &&& 0 <= k < calls.len() && k != i ==> after[k] == calls[k]
            &&& calls.len() <= k < after.len() && k != i ==> after[k] == empty_acc()
        }),
{
    json::whole_numbers_are_read_back(i, 0, fragment);
    assert(i as usize == i);
    assert(fragment_index(fragment) == i);
}

/// A fragment without an index belongs to the first call.
pub proof fn fragments_belong_to_the_first_call(fragment: JsonModel)
    requires
        fragment.at("index"@) is None,
    ensures
        fragment_index(fragment) == 0,
{
}

/// Fragments are taken in the order in which they come.
pub proof fn fragments_are_taken_in_order(calls: Seq<AccModel>, fragments: Seq<JsonModel>, last: JsonModel)
    ensures
        with_fragments(calls, Seq::empty(), 0) == calls,
        with_fragments(calls, fragments.push(last), fragments.len() as int + 1) == with_fragment(
            with_fragments(calls, fragments, fragments.len() as int),
            last,
        ),
{
    same_fragments(calls, fragments, last, fragments.len() as int);
    assert(fragments.push(last)[fragments.len() as int] == last);
}

proof fn same_fragments(calls: Seq<AccModel>, fragments: Seq<JsonModel>, last: JsonModel, n: int)
    requires
        0 <= n <= fragments.len(),
    ensures
        with_fragments(calls, fragments.push(last), n) == with_fragments(calls, fragments, n),
    decreases n,
{
    if n > 0 {
        same_fragments(calls, fragments, last, n - 1);
        assert(fragments.push(last)[n - 1] == fragments[n - 1]);
    }
}

/// What a server reports of a loop is handed on as it is; what was found here says where and
/// how long the loop is, what it repeats, and that it was found here.
pub proof fn loops_are_reported(
    j: JsonModel,
    stats: RepetitionStats,
    gram_text: Seq<char>,
    n_generated: usize,
    coverage: Seq<char>,
)
    ensures
        report_json(ReportModel::Server(j), coverage) == j,
        ({
            let r = report_json(ReportModel::Client { stats, gram_text, n_generated }, coverage);
            &&& r.at("flagged"@) == Some(JsonModel::Bool(true))
            &&& r.at("window"@) == Some(JsonModel::Number(text::decimal(stats.window as nat)))
            &&& r.at("gram_len"@) == Some(JsonModel::Number(text::decimal(stats.gram_len as nat)))
            &&& r.at("count"@) == Some(JsonModel::Number(text::decimal(stats.count as nat)))
            &&& r.at("coverage"@) == Some(JsonModel::Number(coverage))
            &&& r.at("gram_text"@) == Some(JsonModel::Text(gram_text))
            &&& r.at("n_generated"@) == Some(JsonModel::Number(text::decimal(n_generated as nat)))
            &&& r.at("detector"@) == Some(JsonModel::Text("client"@))
        }),
{
    report_keys_differ();
    let none = JsonModel::Object(Seq::empty());
    let bv0 = JsonModel::Bool(true);
    json::only_one_member_is_set(none, "flagged"@, bv0);
    let b0 = none.with("flagged"@, bv0);
    let bv1 = JsonModel::Number(text::decimal(stats.window as nat));
    json::only_one_member_is_set(b0, "window"@, bv1);
    let b1 = b0.with("window"@, bv1);
    let bv2 = JsonModel::Number(text::decimal(stats.gram_len as nat));
    json::only_one_member_is_set(b1, "gram_len"@, bv2);
    let b2 = b1.with("gram_len"@, bv2);
    let bv3 = JsonModel::Number(text::decimal(stats.count as nat));
    json::only_one_member_is_set(b2, "count"@, bv3);
    let b3 = b2.with("count"@, bv3);
    let bv4 = JsonModel::Number(coverage);
    json::only_one_member_is_set(b3, "coverage"@, bv4);
    let b4 = b3.with("coverage"@, bv4);
    let bv5 = JsonModel::Text(gram_text);
    json::only_one_member_is_set(b4, "gram_text"@, bv5);
    let b5 = b4.with("gram_text"@, bv5);
    let bv6 = JsonModel::Number(text::decimal(n_generated as nat));
    json::only_one_member_is_set(b5, "n_generated"@, bv6);
    let b6 = b5.with("n_generated"@, bv6);
    let bv7 = JsonModel::Text("client"@);
    json::only_one_member_is_set(b6, "detector"@, bv7);
}

/// The text of a loop are the texts of its units, one behind the other.
pub proof fn loops_are_the_texts_of_their_units(texts: Seq<Seq<char>>, from: int, to: int)
    requires
        0 <= from <= to <= texts.len(),
    ensures
        glued(texts, from, to) == text::join(texts.subrange(from, to), Seq::empty()),
    decreases to - from,
{
    let none = Seq::<char>::empty();
    if from < to {
        loops_are_the_texts_of_their_units(texts, from, to - 1);
        let part = texts.subrange(from, to);
        assert(part.drop_last() =~= texts.subrange(from, to - 1));
        assert(part.last() == texts[to - 1]);
        if to == from + 1 {
            assert(none + texts[from] =~= texts[from]);
        } else {
            let before = text::join(part.drop_last(), none);
            assert(before + none + texts[to - 1] =~= before + texts[to - 1]);
        }
    }
}

/// The reasoning of a piece stands under either of two names, the first of which decides; the
/// text stands under its own. Nothing is there where they are empty.
pub proof fn pieces_hold_reasoning_and_text(delta: JsonModel, t: Seq<char>)
    requires
        t.len() > 0,
    ensures
        delta.at("reasoning_content"@) == Some(JsonModel::Text(t)) ==> reasoning_in(delta) == Some(t),
        delta.at("reasoning_content"@) is None && delta.at("reasoning"@) == Some(JsonModel::Text(t))
            ==> reasoning_in(delta) == Some(t),
        delta.at("reasoning_content"@) is None && delta.at("reasoning"@) is None ==> reasoning_in(
            delta,
        ) is None,
        delta.at("content"@) == Some(JsonModel::Text(t)) ==> content_in(delta) == Some(t),
        delta.at("content"@) is None ==> content_in(delta) is None,
        delta.at("content"@) == Some(JsonModel::Text(Seq::empty())) ==> content_in(delta) is None,
        delta.at("reasoning_content"@) == Some(JsonModel::Text(Seq::empty())) ==> reasoning_in(delta)
            is None,
{
}

/// A piece makes what was thought and said longer by what it holds, and shows just that.
pub proof fn pieces_are_added_and_shown(s: ChatModel, delta: JsonModel, ids: IdsModel)
    ensures
        ({
            let (next, shown) = s.grown(delta, ids);
            let thought = match reasoning_in(delta) {
                Some(t) => t,
                None => Seq::empty(),
            };
            let said = match content_in(delta) {
                Some(t) => t,
                None => Seq::empty(),
            };
            &&& next.reasoning == s.reasoning + thought
            &&& next.content == s.content + said
            &&& raw_stream::reasoning_shown(shown) == thought
            &&& raw_stream::text_shown(shown) == said
            &&& next.seen.reasoning <==> s.seen.reasoning || thought.len() > 0
            &&& next.seen.message <==> s.seen.message || said.len() > 0
            &&& next.usage == s.usage && next.finish_reason == s.finish_reason && next.ended
                == s.ended
        }),
{
    reveal_with_fuel(raw_stream::text_shown, 6);
    reveal_with_fuel(raw_stream::reasoning_shown, 6);
    let none = Seq::<char>::empty();
    let (next, shown) = s.grown(delta, ids);
    let then_seen = Announced {
        reasoning: s.seen.reasoning || reasoning_in(delta) is Some,
        message: s.seen.message,
    };
    let first = match reasoning_in(delta) {
        Some(t) => raw_stream::delta_events(
            crate::regions::DeltaModel::Reasoning(t),
            s.seen,
            ids,
        ),
        None => Seq::empty(),
    };
    let second = match content_in(delta) {
        Some(t) => raw_stream::delta_events(
            crate::regions::DeltaModel::Text(t),
            then_seen,
            ids,
        ),
        None => Seq::empty(),
    };
    raw_stream::shown_adds_up(first, second);
    match reasoning_in(delta) {
        Some(t) => {
            one_delta_is_shown(crate::regions::DeltaModel::Reasoning(t), s.seen, ids);
        },
        None => {},
    }
    match content_in(delta) {
        Some(t) => {
            one_delta_is_shown(crate::regions::DeltaModel::Text(t), then_seen, ids);
        },
        None => {},
    }
    assert(raw_stream::text_shown(first) + raw_stream::text_shown(second)
        =~= raw_stream::text_shown(second));
    assert(raw_stream::reasoning_shown(first) + raw_stream::reasoning_shown(second)
        =~= raw_stream::reasoning_shown(first));
}

proof fn one_delta_is_shown(delta: crate::regions::DeltaModel, seen: Announced, ids: IdsModel)
    ensures
        ({
            let shown = raw_stream::delta_events(delta, seen, ids);
            &&& raw_stream::text_shown(shown) == match delta {
                crate::regions::DeltaModel::Text(t) => t,
                _ => Seq::empty(),
            }
            &&& raw_stream::reasoning_shown(shown) == match delta {
                crate::regions::DeltaModel::Reasoning(t) => t,
                _ => Seq::empty(),
            }
        }),
{
    let none = Seq::<crate::regions::DeltaModel>::empty();
    raw_stream::every_piece_is_shown(none, delta, seen, ids);
    assert(raw_stream::shown_events(none, 0, seen, ids).0 =~= Seq::empty());
    assert(raw_stream::shown_events(none.push(delta), 0, seen, ids).0 =~= Seq::empty());
    assert(raw_stream::shown_events(none.push(delta), 0, seen, ids).1 == seen);
    let shown = raw_stream::delta_events(delta, seen, ids);
    assert(Seq::<EventModel>::empty() + shown =~= shown);
    assert(raw_stream::shown_events(none.push(delta), 1, seen, ids).0 =~= shown);
    let t = match delta {
        crate::regions::DeltaModel::Reasoning(t) => t,
        crate::regions::DeltaModel::Text(t) => t,
    };
    assert(Seq::<char>::empty() + t =~= t);
}

/// What a chunk reports beside its choices is kept, the newest of each.
pub proof fn the_newest_report_is_kept(s: ChatModel, chunk: JsonModel, u: JsonModel, t: Seq<char>)
    ensures
        ({
            let next = s.noted(chunk);
            &&& chunk.at("usage"@) == Some(u) && !(u is Null) ==> next.usage == Some(u)
            &&& chunk.at("usage"@) is None || chunk.at("usage"@) == Some(JsonModel::Null)
                ==> next.usage == s.usage
            &&& chunk.at("raw_generation"@) == Some(JsonModel::Text(t)) ==> next.raw_generation
                == Some(t)
            &&& chunk.at("raw_generation"@) is None ==> next.raw_generation == s.raw_generation
            &&& chunk.at("repetition"@) == Some(u) && u is Object ==> next.report == Some(
                ReportModel::Server(u),
            )
            &&& chunk.at("repetition"@) is None ==> next.report == s.report
            &&& next.content == s.content && next.reasoning == s.reasoning && next.calls == s.calls
        }),
{
}

/// A loop is looked for only where that is done here, once enough units came, and at every
/// stride of them; what is found ends the completion as a repetition and is reported.
pub proof fn loops_are_stopped_here(s: ChatModel, choice: JsonModel, delta: JsonModel, stop: StopModel, ids: IdsModel)
    requires
        choice.at("delta"@) == Some(delta),
        stop.stride > 0,
    ensures
        s.chosen(choice, None, ids).2 is Running,
        s.chosen(choice, None, ids).0.units == s.units,
        ({
            let units = s.units + units_in(delta);
            let (next, _, progress) = s.chosen(choice, Some(stop), ids);
            let found = stop.found(unit_hashes(units));
            &&& next.units == units
            &&& progress is Ended <==> units_in(delta).len() > 0 && units.len() >= stop.min_tokens
                && units.len() % stop.stride as nat == 0 && found.flagged
            &&& progress is Ended ==> {
                &&& next.ended
                &&& next.finish_reason == Some("repetition"@)
                &&& next.report matches Some(ReportModel::Client { stats, gram_text, n_generated })
                    && stats == found && gram_text == glued(
                    units,
                    found.gram_pos as int,
                    found.gram_pos + found.gram_len,
                )
            }
            &&& progress is Ended || progress is Running
        }),
{
    assert(unit_hashes(s.units + units_in(delta)).len() == (s.units + units_in(delta)).len());
}

/// The units of a piece are its reasoning, its text and the arguments in it, in this order.
pub proof fn units_stand_in_order(delta: JsonModel, fragments: Seq<JsonModel>, last: JsonModel, a: Seq<char>)
    ensures
        delta.at("tool_calls"@) is None ==> units_in(delta) == (match reasoning_in(delta) {
            Some(t) => seq![t],
            None => Seq::empty(),
        }) + (match content_in(delta) {
            Some(t) => seq![t],
            None => Seq::empty(),
        }),
        ({
            let n = fragments.len() as int;
            let after = argument_units(fragments.push(last), n + 1);
            &&& function_text(last, "arguments"@) == Some(a) && a.len() > 0 ==> after
                == argument_units(fragments, n).push(a)
            &&& function_text(last, "arguments"@) is None ==> after == argument_units(fragments, n)
        }),
{
    same_units(fragments, last, fragments.len() as int);
    assert(fragments.push(last)[fragments.len() as int] == last);
}

proof fn same_units(fragments: Seq<JsonModel>, last: JsonModel, n: int)
    requires
        0 <= n <= fragments.len(),
    ensures
        argument_units(fragments.push(last), n) == argument_units(fragments, n),
    decreases n,
{
    if n > 0 {
        same_units(fragments, last, n - 1);
        assert(fragments.push(last)[n - 1] == fragments[n - 1]);
    }
}

/// The end mark ends a completion and shows nothing; a payload that cannot be read changes
/// nothing, one with an error fails, and the first choice of any other is taken.
pub proof fn payloads_do_what_they_say(
    s: ChatModel,
    payload: Seq<char>,
    chunk: JsonModel,
    choices: Seq<JsonModel>,
    stop: Option<StopModel>,
    ids: IdsModel,
)
    ensures
        text::trim(payload) == "[DONE]"@ ==> s.step(payload, stop, ids) == (
            ChatModel { ended: true, ..s },
            Seq::<EventModel>::empty(),
            ChatProgressModel::Ended,
        ),
        text::trim(payload) != "[DONE]"@ && json::parsed(payload) is None ==> s.step(
            payload,
            stop,
            ids,
        ) == (s, Seq::<EventModel>::empty(), ChatProgressModel::Running),
        text::trim(payload) != "[DONE]"@ && json::parsed(payload) == Some(chunk) ==> ({
            let (next, shown, progress) = s.step(payload, stop, ids);
            let well = chunk.at("error"@) is None || chunk.at("error"@) == Some(JsonModel::Null);
            &&& !well ==> next == s && shown.len() == 0 && progress is Failed
            &&& well ==> !(progress is Failed)
            &&& well && chunk.at("choices"@) == Some(JsonModel::Array(choices)) && choices.len() > 0
                ==> s.step(payload, stop, ids) == s.noted(chunk).chosen(choices[0], stop, ids)
            &&& well && chunk.at("choices"@) is None ==> next == s.noted(chunk) && shown.len() == 0
                && progress is Running
        }),
{
}

/// Why a completion ended is what its choice said last.
pub proof fn choices_say_why_they_ended(s: ChatModel, choice: JsonModel, r: Seq<char>, ids: IdsModel)
    ensures
        choice.at("finish_reason"@) == Some(JsonModel::Text(r)) ==> s.chosen(choice, None, ids).0.finish_reason
            == Some(r),
        choice.at("finish_reason"@) is None ==> s.chosen(choice, None, ids).0.finish_reason
            == s.finish_reason,
        choice.at("delta"@) is None ==> s.chosen(choice, None, ids).1.len() == 0,
{
}

/// A call is malformed where it has a name and its arguments cannot be read; one such call
/// makes a completion malformed that would else have come to its end.
pub proof fn malformed_calls_are_told(calls: Seq<AccModel>, n: int, reason: Seq<char>)
    requires
        0 <= n <= calls.len(),
    ensures
        any_malformed(calls, n) <==> exists|k: int|
            0 <= k < n && (#[trigger] calls[k]).name.len() > 0 && json::parsed(calls[k].arguments)
                is None,
        final_reason(reason, false) == reason,
        reason == "length"@ || reason == "repetition"@ ==> final_reason(reason, true) == reason,
        reason != "length"@ && reason != "repetition"@ ==> final_reason(reason, true)
            == "malformed_tool_call"@,
        unfinished(reason) <==> reason == "length"@ || reason == "repetition"@ || reason
            == "malformed_tool_call"@,
    decreases n,
{
    if n > 0 {
        malformed_calls_are_told(calls, n - 1, reason);
        if any_malformed(calls, n - 1) {
            let k = choose|k: int|
                0 <= k < n - 1 && (#[trigger] calls[k]).name.len() > 0 && json::parsed(
                    calls[k].arguments,
                ) is None;
            assert(calls[k].name.len() > 0);
        }
        if is_malformed(calls[n - 1]) {
            assert(calls[n - 1].name.len() > 0);
        }
    }
}

/// What a malformed call holds is said in the text, behind what was said.
pub proof fn malformed_calls_are_said(calls: Seq<AccModel>, last: AccModel)
    ensures
        ({
            let n = calls.len() as int;
            let after = malformed_text(calls.push(last), n + 1);
            let malformed = last.name.len() > 0 && json::parsed(last.arguments) is None;
            &&& malformed ==> after == malformed_text(calls, n)
                + "\n\n[incomplete tool call, not executed] "@ + last.name + " "@ + last.arguments
            &&& !malformed ==> after == malformed_text(calls, n)
        }),
{
    same_malformed(calls, last, calls.len() as int);
    let n = calls.len() as int;
    assert(calls.push(last)[n] == last);
    assert(malformed_text(calls, n) + incomplete_call_text(last.name, last.arguments)
        =~= malformed_text(calls, n) + "\n\n[incomplete tool call, not executed] "@ + last.name + " "@
        + last.arguments);
}

proof fn same_malformed(calls: Seq<AccModel>, last: AccModel, n: int)
    requires
        0 <= n <= calls.len(),
    ensures
        malformed_text(calls.push(last), n) == malformed_text(calls, n),
    decreases n,
{
    if n > 0 {
        same_malformed(calls, last, n - 1);
        assert(calls.push(last)[n - 1] == calls[n - 1]);
    }
}

/// Every whole call is handed on, in its order, with its id or a new one and with its
/// arguments as they came; no other is.
pub proof fn whole_calls_are_handed_on(calls: Seq<AccModel>, last: AccModel, next: u64)
    ensures
        ({
            let n = calls.len() as int;
            let (before, at) = whole_call_items(calls, n, next);
            let (after, then_at) = whole_call_items(calls.push(last), n + 1, next);
            let whole = last.name.len() > 0 && json::parsed(last.arguments) is Some;
            &&& !whole ==> after == before && then_at == at
            &&& whole ==> after.len() == before.len() + 1 && after.drop_last() == before
            &&& whole ==> (after.last() matches ItemModel::FunctionCall {
                name,
                namespace,
                arguments,
                call_id,
            } && {
                &&& arguments == last.arguments
                &&& namespace is None ==> name == last.name
                &&& namespace matches Some(s) ==> last.name == s + "__"@ + name
                &&& last.id.len() > 0 ==> call_id == last.id && then_at == at
                &&& last.id.len() == 0 ==> call_id == events::made_up_call_id(at)
                &&& last.id.len() == 0 && at < u64::MAX ==> then_at == at + 1
            })
        }),
{
    let n = calls.len() as int;
    same_whole(calls, last, n, next);
    assert(calls.push(last)[n] == last);
    let (before, at) = whole_call_items(calls, n, next);
    assert(before.push(whole_call_item(last, at)).drop_last() =~= before);
    let flat = last.name;
    text::find_from_is_first(flat, "__"@, 0);
    match prompt::unflattened(flat) {
        Some((s, name)) => {
            assert(flat =~= s + "__"@ + name);
        },
        None => {},
    }
}

proof fn same_whole(calls: Seq<AccModel>, last: AccModel, n: int, next: u64)
    requires
        0 <= n <= calls.len(),
    ensures
        whole_call_items(calls.push(last), n, next) == whole_call_items(calls, n, next),
    decreases n,
{
    if n > 0 {
        same_whole(calls, last, n - 1, next);
        assert(calls.push(last)[n - 1] == calls[n - 1]);
    }
}

/// The tokens that the server counted are told, and their sum; none where it told none.
pub proof fn tokens_are_counted(u: JsonModel, details: JsonModel, a: i64, b: i64, c: i64)
    requires
        u.at("prompt_tokens"@) == Some(JsonModel::Number(text::signed_decimal(a as int))),
        u.at("completion_tokens"@) == Some(JsonModel::Number(text::signed_decimal(b as int))),
        i64::MIN <= a + b <= i64::MAX,
    ensures
        chat_usage(Some(u)).input_tokens == a,
        chat_usage(Some(u)).output_tokens == b,
        chat_usage(Some(u)).total_tokens == a + b,
        chat_usage(Some(u)).reasoning_output_tokens == 0,
        u.at("prompt_tokens_details"@) is None ==> chat_usage(Some(u)).cached_input_tokens == 0,
        u.at("prompt_tokens_details"@) == Some(details) && details.at("cached_tokens"@) == Some(
            JsonModel::Number(text::signed_decimal(c as int)),
        ) ==> chat_usage(Some(u)).cached_input_tokens == c,
        chat_usage(None).input_tokens == 0 && chat_usage(None).output_tokens == 0,
        chat_usage(None).total_tokens == 0 && chat_usage(None).cached_input_tokens == 0,
{
    json::whole_numbers_are_read_back(0, a as int, u);
    json::whole_numbers_are_read_back(0, b as int, u);
    json::whole_numbers_are_read_back(0, c as int, u);
}

/// A completion that came to its end hands on its reasoning, then its text, then its whole
/// calls, and then its end; blanks around the reasoning and before the text are left out, and
/// so is either of them that is blank.
pub proof fn completions_are_handed_on_in_order(s: ChatModel, ids: IdsModel, next: u64, reason: Seq<char>)
    requires
        s.ended,
        s.reason() == Some(reason),
    ensures
        s.closed(ids, next) matches Some((shown, _)) && {
            let thought = if text::is_blank(s.reasoning) {
                Seq::empty()
            } else {
                seq![ItemModel::Reasoning { id: ids.reasoning, text: text::trim(s.reasoning) }]
            };
            let said = if text::is_blank(s.message()) {
                Seq::empty()
            } else {
                seq![ItemModel::Message { id: ids.message, text: text::trim_start(s.message()) }]
            };
            let called = if reason == "length"@ || reason == "repetition"@ {
                Seq::empty()
            } else {
                whole_call_items(s.calls, s.calls.len() as int, next).0
            };
            &&& shown.drop_last() == events::done_events(thought + said + called)
            &&& shown.last() == (EventModel::Completed {
                usage: chat_usage(s.usage),
                end_turn: !(reason == "length"@ || reason == "repetition"@ || reason
                    == "malformed_tool_call"@),
                finish_reason: reason,
            })
        },
{
    let shown = s.closed(ids, next).unwrap().0;
    assert(shown.drop_last() =~= events::done_events(s.items(reason, ids, next).0));
}

/// Every call is logged, in its order, with whether its arguments can be read.
pub proof fn every_call_is_logged(calls: Seq<AccModel>, n: int, k: int)
    requires
        0 <= n <= calls.len(),
    ensures
        logged_call_models(calls, n).len() == n,
        0 <= k < n ==> ({
            let r = logged_call_models(calls, n)[k];
            let call = calls[k];
            &&& r.at("id"@) == Some(JsonModel::Text(call.id))
            &&& r.at("name"@) == Some(JsonModel::Text(call.name))
            &&& r.at("arguments"@) == Some(JsonModel::Text(call.arguments))
            &&& r.at("complete"@) == Some(JsonModel::Bool(json::parsed(call.arguments) is Some))
        }),
    decreases n,
{
    if n > 0 {
        every_call_is_logged(calls, n - 1, k);
        logged_keys_differ();
        let call = calls[n - 1];
        let none = JsonModel::Object(Seq::empty());
        let bv0 = JsonModel::Text(call.id);
        json::only_one_member_is_set(none, "id"@, bv0);
        let b0 = none.with("id"@, bv0);
        let bv1 = JsonModel::Text(call.name);
        json::only_one_member_is_set(b0, "name"@, bv1);
        let b1 = b0.with("name"@, bv1);
        let bv2 = JsonModel::Text(call.arguments);
        json::only_one_member_is_set(b1, "arguments"@, bv2);
        let b2 = b1.with("arguments"@, bv2);
        let bv3 = JsonModel::Bool(json::parsed(call.arguments) is Some);
        json::only_one_member_is_set(b2, "complete"@, bv3);
    }
}

} // verus!
