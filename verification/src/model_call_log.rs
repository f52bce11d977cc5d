//! A local log of model calls and tool calls, as lines of JSON. Nothing of it is sent
//! anywhere. Each model call has a key that is its own within a run; a key that comes
//! twice is noted as an anomaly, and both records stay.

use crate::json;
use crate::json::Json;
use crate::json::JsonModel;
use crate::settings;
use crate::text;
use vstd::prelude::*;
use vstd::string::*;

verus! {

/// What a model call is known by within a run.
#[derive(Debug, Clone, PartialEq, Eq, Hash)]
pub struct ModelCallKey {
    pub thread_id: String,
    pub turn_id: String,
    pub call_ordinal: u64,
}

pub struct KeyModel {
    pub thread_id: Seq<char>,
    pub turn_id: Seq<char>,
    pub call_ordinal: u64,
}

impl View for ModelCallKey {
    type V = KeyModel;

    open spec fn view(&self) -> KeyModel {
        KeyModel {
            thread_id: self.thread_id@,
            turn_id: self.turn_id@,
            call_ordinal: self.call_ordinal,
        }
    }
}

pub open spec fn key_models(v: Seq<ModelCallKey>) -> Seq<KeyModel> {
    v.map_values(|k: ModelCallKey| k@)
}

pub open spec fn object() -> JsonModel {
    JsonModel::Object(Seq::empty())
}

impl KeyModel {
    pub open spec fn as_json(self) -> JsonModel {
        object().with("thread_id"@, JsonModel::Text(self.thread_id)).with(
            "turn_id"@,
            JsonModel::Text(self.turn_id),
        ).with("call_ordinal"@, JsonModel::Number(text::decimal(self.call_ordinal as nat)))
    }
}

impl ModelCallKey {
    /// The key as it is logged.
    pub fn to_json(&self) -> (r: Json)
        ensures
            r@ == self@.as_json(),
    {
        Json::object().with("thread_id", Json::text(self.thread_id.as_str())).with(
            "turn_id",
            Json::text(self.turn_id.as_str()),
        ).with("call_ordinal", Json::number(self.call_ordinal))
    }

    fn same(&self, other: &ModelCallKey) -> (r: bool)
        ensures
            r == (self@ == other@),
    {
        text::same_text(self.thread_id.as_str(), other.thread_id.as_str()) && text::same_text(
            self.turn_id.as_str(),
            other.turn_id.as_str(),
        ) && self.call_ordinal == other.call_ordinal
    }

    fn copy(&self) -> (r: ModelCallKey)
        ensures
            r@ == self@,
    {
        ModelCallKey {
            thread_id: self.thread_id.clone(),
            turn_id: self.turn_id.clone(),
            call_ordinal: self.call_ordinal,
        }
    }
}

// ---------------------------------------------------------------------------
// Whether and where.

/// What a switch says: off for the usual spellings and for a blank value, on for
/// anything else that is set.
pub open spec fn switch(value: Option<Seq<char>>) -> Option<bool> {
    match value {
        Some(v) => {
            let t = text::trim(v);
            Some(
                !(t == "0"@ || t == "false"@ || t == "no"@ || t == "off"@ || t.len() == 0),
            )
        },
        None => None,
    }
}

/// What a switch says.
pub fn env_flag(value: Option<&str>) -> (r: Option<bool>)
    ensures
        r == switch(settings::value_text(value)),
{
    match value {
        Some(v) => {
            let t = text::str_trim(v);
            let t = t.as_str();
            let off: bool = text::same_text(t, "0") || text::same_text(t, "false")
                || text::same_text(t, "no") || text::same_text(t, "off") || t.is_empty();
            Some(!off)
        },
        None => None,
    }
}

/// What is set from outside.
#[derive(Debug)]
pub struct LogEnv {
    pub enabled: Option<String>,
    pub dir: Option<String>,
    pub millie_home: Option<String>,
    pub home: Option<String>,
}

/// A log that runs.
#[derive(Debug)]
struct Logger {
    run_id: String,
    path: String,
    seen: Vec<ModelCallKey>,
}

/// The log: how it is configured, and once it is started, where it writes.
#[derive(Debug)]
pub struct ModelCallLog {
    configured: Option<(bool, String)>,
    started: bool,
    logger: Option<Logger>,
}

pub struct RunningModel {
    pub run_id: Seq<char>,
    pub path: Seq<char>,
    pub seen: Seq<KeyModel>,
}

pub struct LogModel {
    pub configured: Option<(bool, Seq<char>)>,
    pub started: bool,
    pub running: Option<RunningModel>,
}

impl View for ModelCallLog {
    type V = LogModel;

    closed spec fn view(&self) -> LogModel {
        LogModel {
            configured: match self.configured {
                Some((on, dir)) => Some((on, dir@)),
                None => None,
            },
            started: self.started,
            running: match self.logger {
                Some(l) => Some(
                    RunningModel { run_id: l.run_id@, path: l.path@, seen: key_models(l.seen@) },
                ),
                None => None,
            },
        }
    }
}

/// The directory of the log, where it is on: the one that is set, else the
/// configured one, else one below the home.
pub open spec fn directory(configured: Option<(bool, Seq<char>)>, env: LogEnv) -> Option<Seq<char>> {
    let on = match switch(text::optional(env.enabled)) {
        Some(b) => b,
        None => configured matches Some((true, _)),
    };
    if !on {
        None
    } else {
        match text::optional(env.dir) {
            Some(d) if d.len() > 0 => Some(d),
            _ => match configured {
                Some((_, d)) if d.len() > 0 => Some(d),
                _ => match env.millie_home {
                    Some(h) => Some(text::path_under(h@, "model-calls"@)),
                    None => match env.home {
                        Some(h) => Some(
                            text::path_under(text::path_under(h@, ".millie"@), "model-calls"@),
                        ),
                        None => None,
                    },
                },
            },
        }
    }
}

pub open spec fn file_of(dir: Seq<char>, run_id: Seq<char>) -> Seq<char> {
    text::path_under(dir, "model-calls-"@ + run_id + ".jsonl"@)
}

fn home_dir(env: &LogEnv) -> (r: Option<String>)
    ensures
        text::optional(r) == match env.millie_home {
            Some(h) => Some(text::path_under(h@, "model-calls"@)),
            None => match env.home {
                Some(h) => Some(
                    text::path_under(text::path_under(h@, ".millie"@), "model-calls"@),
                ),
                None => None,
            },
        },
{
    match &env.millie_home {
        Some(h) => Some(text::join_path(h.as_str(), "model-calls")),
        None => match &env.home {
            Some(h) => {
                let base = text::join_path(h.as_str(), ".millie");
                Some(text::join_path(base.as_str(), "model-calls"))
            },
            None => None,
        },
    }
}

/// Notes the configuration. Only the first one counts.
pub fn configure(log: &mut ModelCallLog, enabled: bool, dir: String)
    ensures
        final(log)@ == (LogModel {
            configured: match old(log)@.configured {
                Some(c) => Some(c),
                None => Some((enabled, dir@)),
            },
            ..old(log)@
        }),
{
    if log.configured.is_none() {
        log.configured = Some((enabled, dir));
    }
}

/// Whether the log runs.
pub fn enabled(log: &ModelCallLog) -> (r: bool)
    ensures
        r == (log@.running is Some),
{
    log.logger.is_some()
}

/// The file of the log, where it runs.
pub fn path(log: &ModelCallLog) -> (r: Option<String>)
    ensures
        text::optional(r) == match log@.running {
            Some(l) => Some(l.path),
            None => None,
        },
{
    match &log.logger {
        Some(l) => Some(l.path.clone()),
        None => None,
    }
}

/// A record with its kind, the run and the time.
pub open spec fn stamped(record: JsonModel, kind: Seq<char>, run_id: Seq<char>, ts_ms: u64) -> JsonModel {
    record.with("type"@, JsonModel::Text(kind)).with("run_id"@, JsonModel::Text(run_id)).with(
        "ts_ms"@,
        JsonModel::Number(text::decimal(ts_ms as nat)),
    )
}

fn stamp(record: Json, kind: &str, run_id: &str, ts_ms: u64) -> (r: Json)
    ensures
        r@ == stamped(record@, kind@, run_id@, ts_ms),
{
    record.with("type", Json::text(kind)).with("run_id", Json::text(run_id)).with(
        "ts_ms",
        Json::number(ts_ms),
    )
}

/// A model call: the request as it was sent, the text as it was generated, and what
/// was read of it.
#[derive(Debug)]
pub struct ModelCall {
    pub transport: String,
    pub request: Json,
    pub raw_generation: Option<String>,
    pub reasoning: String,
    pub content: String,
    pub tool_calls: Vec<Json>,
    pub finish_reason: Option<String>,
    pub usage: Option<Json>,
    pub error: Option<String>,
}

pub open spec fn text_or_null(t: Option<String>) -> JsonModel {
    match t {
        Some(s) => JsonModel::Text(s@),
        None => JsonModel::Null,
    }
}

pub open spec fn value_or_null(j: Option<Json>) -> JsonModel {
    match j {
        Some(v) => v@,
        None => JsonModel::Null,
    }
}

pub open spec fn response_of(c: ModelCall) -> JsonModel {
    object().with("reasoning"@, JsonModel::Text(c.reasoning@)).with(
        "content"@,
        JsonModel::Text(c.content@),
    ).with("tool_calls"@, JsonModel::Array(json::models(c.tool_calls@))).with(
        "finish_reason"@,
        text_or_null(c.finish_reason),
    ).with("usage"@, value_or_null(c.usage))
}

/// The record of a model call.
pub open spec fn call_record(key: KeyModel, c: ModelCall) -> JsonModel {
    object().with("key"@, key.as_json()).with("transport"@, JsonModel::Text(c.transport@)).with(
        "request"@,
        c.request@,
    ).with("raw_generation"@, text_or_null(c.raw_generation)).with("response"@, response_of(c)).with(
        "error"@,
        text_or_null(c.error),
    )
}

pub open spec fn anomaly_record(key: KeyModel) -> JsonModel {
    object().with("key"@, key.as_json()).with(
        "message"@,
        JsonModel::Text("duplicate model call key; record kept separately, not merged"@),
    )
}

fn text_json(t: &Option<String>) -> (r: Json)
    ensures
        r@ == text_or_null(*t),
{
    match t {
        Some(s) => Json::text(s.as_str()),
        None => Json::Null,
    }
}

fn value_json(j: &Option<Json>) -> (r: Json)
    ensures
        r@ == value_or_null(*j),
{
    match j {
        Some(v) => v.clone(),
        None => Json::Null,
    }
}

fn copies(items: &Vec<Json>) -> (r: Vec<Json>)
    ensures
        json::models(r@) == json::models(items@),
{
    let ghost goal = json::models(items@);
    let mut out: Vec<Json> = Vec::new();
    let mut i: usize = 0;
    assert(json::models(out@) =~= goal.take(0));
    while i < items.len()
        invariant
            i <= items@.len(),
            goal == json::models(items@),
            json::models(out@) == goal.take(i as int),
        decreases items@.len() - i,
    {
        let ghost before = out@;
        let item = items[i].clone();
        out.push(item);
        assert(json::models(out@) =~= json::models(before).push(item@));
        assert(goal.take(i + 1) =~= goal.take(i as int).push(goal[i as int]));
        i += 1;
    }
    assert(goal.take(i as int) =~= goal);
    out
}

fn response_json(c: &ModelCall) -> (r: Json)
    ensures
        r@ == response_of(*c),
{
    Json::object().with("reasoning", Json::text(c.reasoning.as_str())).with(
        "content",
        Json::text(c.content.as_str()),
    ).with("tool_calls", crate::chat::array(copies(&c.tool_calls))).with(
        "finish_reason",
        text_json(&c.finish_reason),
    ).with("usage", value_json(&c.usage))
}

fn call_json(key: &ModelCallKey, c: &ModelCall) -> (r: Json)
    ensures
        r@ == call_record(key@, *c),
{
    Json::object().with("key", key.to_json()).with(
        "transport",
        Json::text(c.transport.as_str()),
    ).with("request", c.request.clone()).with("raw_generation", text_json(&c.raw_generation)).with(
        "response",
        response_json(c),
    ).with("error", text_json(&c.error))
}

fn is_seen(seen: &Vec<ModelCallKey>, key: &ModelCallKey) -> (r: bool)
    ensures
        r == key_models(seen@).contains(key@),
{
    let mut i: usize = 0;
    while i < seen.len()
        invariant
            i <= seen@.len(),
            forall|k: int| 0 <= k < i ==> (#[trigger] seen@[k])@ != key@,
        decreases seen@.len() - i,
    {
        if seen[i].same(key) {
            assert(key_models(seen@)[i as int] == key@);
            return true;
        }
        i += 1;
    }
    assert(!key_models(seen@).contains(key@)) by {
        if key_models(seen@).contains(key@) {
            let k = choose|k: int| 0 <= k < seen@.len() && key_models(seen@)[k] == key@;
            assert(seen@[k]@ == key@);
        }
    }
    false
}

/// A tool call: which model call it comes from, what was asked and what came back.
#[derive(Debug)]
pub struct ToolCallNote {
    pub call_id: String,
    pub tool_name: String,
    pub arguments: String,
    pub output_preview: String,
    pub success: bool,
    pub aborted: bool,
}

pub open spec fn tool_record(key: KeyModel, t: ToolCallNote) -> JsonModel {
    object().with("key"@, key.as_json()).with("call_id"@, JsonModel::Text(t.call_id@)).with(
        "tool"@,
        JsonModel::Text(t.tool_name@),
    ).with("arguments"@, JsonModel::Text(t.arguments@)).with(
        "output_preview"@,
        JsonModel::Text(t.output_preview@),
    ).with("success"@, JsonModel::Bool(t.success)).with("aborted"@, JsonModel::Bool(t.aborted))
}

impl ModelCallLog {
    pub fn new() -> (r: Self)
        ensures
            r@ == (LogModel { configured: None, started: false, running: None }),
    {
        ModelCallLog { configured: None, started: false, logger: None }
    }

    /// The directory that the log is to be kept in; none where it is off.
    pub fn wanted_dir(&self, env: &LogEnv) -> (r: Option<String>)
        ensures
            text::optional(r) == directory(self@.configured, *env),
    {
        let set: Option<bool> = match &env.enabled {
            Some(v) => env_flag(Some(v.as_str())),
            None => env_flag(None),
        };
        let on: bool = match set {
            Some(b) => b,
            None => match &self.configured {
                Some((b, _)) => *b,
                None => false,
            },
        };
        if !on {
            return None;
        }
        match &env.dir {
            Some(d) => {
                if !d.as_str().is_empty() {
                    return Some(d.clone());
                }
            },
            None => {},
        }
        match &self.configured {
            Some((_, d)) => {
                if !d.as_str().is_empty() {
                    return Some(d.clone());
                }
            },
            None => {},
        }
        home_dir(env)
    }

    /// Starts the log, once: in a directory that could be opened for it, or not at
    /// all.
    pub fn start(&mut self, dir: Option<&str>, run_id: String)
        ensures
            if old(self)@.started {
                final(self)@ == old(self)@
            } else {
                final(self)@ == (LogModel {
                    started: true,
                    running: match settings::value_text(dir) {
                        Some(d) => Some(
                            RunningModel {
                                run_id: run_id@,
                                path: file_of(d, run_id@),
                                seen: Seq::empty(),
                            },
                        ),
                        None => None,
                    },
                    ..old(self)@
                })
            },
    {
        if self.started {
            return ;
        }
        self.started = true;
        self.logger = match dir {
            Some(d) => {
                let mut name = "model-calls-".to_string();
                name.append(run_id.as_str());
                name.append(".jsonl");
                let file = text::join_path(d, name.as_str());
                let seen: Vec<ModelCallKey> = Vec::new();
                assert(key_models(seen@) =~= Seq::empty());
                Some(Logger { run_id, path: file, seen })
            },
            None => None,
        };
    }

    /// The records of a model call: the call itself, and before it an anomaly where its
    /// key came before. None where the log does not run.
    pub fn record_model_call(&mut self, key: &ModelCallKey, c: &ModelCall, ts_ms: u64) -> (r: Vec<
        Json,
    >)
        ensures
            final(self)@.configured == old(self)@.configured,
            final(self)@.started == old(self)@.started,
            match old(self)@.running {
                None => final(self)@.running is None && r@.len() == 0,
                Some(l) => {
                    let call = stamped(call_record(key@, *c), "model_call"@, l.run_id, ts_ms);
                    if l.seen.contains(key@) {
                        final(self)@.running == Some(l) && json::models(r@) == seq![
                            stamped(anomaly_record(key@), "anomaly"@, l.run_id, ts_ms),
                            call,
                        ]
                    } else {
                        final(self)@.running == Some(
                            RunningModel { seen: l.seen.push(key@), ..l },
                        ) && json::models(r@) == seq![call]
                    }
                },
            },
    {
        let mut out: Vec<Json> = Vec::new();
        let mut logger: Option<Logger> = None;
        std::mem::swap(&mut logger, &mut self.logger);
        match logger {
            None => {},
            Some(l) => {
                let mut l = l;
                let call = stamp(call_json(key, c), "model_call", l.run_id.as_str(), ts_ms);
                if is_seen(&l.seen, key) {
                    let note = Json::object().with("key", key.to_json()).with(
                        "message",
                        Json::text(
                            "duplicate model call key; record kept separately, not merged",
                        ),
                    );
                    let anomaly = stamp(note, "anomaly", l.run_id.as_str(), ts_ms);
                    out.push(anomaly);
                    out.push(call);
                    assert(json::models(out@) =~= seq![anomaly@, call@]);
                } else {
                    let ghost before = l.seen@;
                    let kept = key.copy();
                    l.seen.push(kept);
                    assert(key_models(l.seen@) =~= key_models(before).push(kept@));
                    out.push(call);
                    assert(json::models(out@) =~= seq![call@]);
                }
                self.logger = Some(l);
            },
        }
        out
    }

    /// The record of a tool call; none where the log does not run.
    pub fn record_tool_call(&self, key: &ModelCallKey, t: &ToolCallNote, ts_ms: u64) -> (r: Option<
        Json,
    >)
        ensures
            match self@.running {
                None => r is None,
                Some(l) => r matches Some(j) && j@ == stamped(
                    tool_record(key@, *t),
                    "tool_call"@,
                    l.run_id,
                    ts_ms,
                ),
            },
    {
        match &self.logger {
            None => None,
            Some(l) => {
                let record = Json::object().with("key", key.to_json()).with(
                    "call_id",
                    Json::text(t.call_id.as_str()),
                ).with("tool", Json::text(t.tool_name.as_str())).with(
                    "arguments",
                    Json::text(t.arguments.as_str()),
                ).with("output_preview", Json::text(t.output_preview.as_str())).with(
                    "success",
                    Json::Bool(t.success),
                ).with("aborted", Json::Bool(t.aborted));
                Some(stamp(record, "tool_call", l.run_id.as_str(), ts_ms))
            },
        }
    }

    /// The record of something else that belongs to a model call; none where the log
    /// does not run.
    pub fn record_event(
        &self,
        kind: &str,
        key: &ModelCallKey,
        call_id: &Option<String>,
        payload: &Json,
        ts_ms: u64,
    ) -> (r: Option<Json>)
        ensures
            match self@.running {
                None => r is None,
                Some(l) => r matches Some(j) && j@ == stamped(
                    object().with("key"@, key@.as_json()).with(
                        "call_id"@,
                        text_or_null(*call_id),
                    ).with("payload"@, payload@),
                    kind@,
                    l.run_id,
                    ts_ms,
                ),
            },
    {
        match &self.logger {
            None => None,
            Some(l) => {
                let record = Json::object().with("key", key.to_json()).with(
                    "call_id",
                    text_json(call_id),
                ).with("payload", payload.clone());
                Some(stamp(record, kind, l.run_id.as_str(), ts_ms))
            },
        }
    }
}

// ---------------------------------------------------------------------------
// Laws.

proof fn call_keys_differ()
    ensures
        "thread_id"@ != "turn_id"@,
        "thread_id"@ != "call_ordinal"@,
        "turn_id"@ != "call_ordinal"@,
{
    reveal_strlit("thread_id");
    assert("thread_id"@.len() == 9);
    reveal_strlit("turn_id");
    assert("turn_id"@.len() == 7);
    reveal_strlit("call_ordinal");
    assert("call_ordinal"@.len() == 12);
}

proof fn response_keys_differ()
    ensures
        "reasoning"@ != "content"@,
        "reasoning"@ != "tool_calls"@,
        "reasoning"@ != "finish_reason"@,
        "reasoning"@ != "usage"@,
        "content"@ != "tool_calls"@,
        "content"@ != "finish_reason"@,
        "content"@ != "usage"@,
        "tool_calls"@ != "finish_reason"@,
        "tool_calls"@ != "usage"@,
        "finish_reason"@ != "usage"@,
{
    reveal_strlit("reasoning");
    assert("reasoning"@.len() == 9);
    reveal_strlit("content");
    assert("content"@.len() == 7);
    reveal_strlit("tool_calls");
    assert("tool_calls"@.len() == 10);
    reveal_strlit("finish_reason");
    assert("finish_reason"@.len() == 13);
    reveal_strlit("usage");
    assert("usage"@.len() == 5);
}

proof fn record_keys_differ()
    ensures
        "key"@ != "transport"@,
        "key"@ != "request"@,
        "key"@ != "raw_generation"@,
        "key"@ != "response"@,
        "key"@ != "error"@,
        "key"@ != "call_id"@,
        "key"@ != "tool"@,
        "key"@ != "arguments"@,
        "key"@ != "output_preview"@,
        "key"@ != "success"@,
        "key"@ != "aborted"@,
        "key"@ != "type"@,
        "key"@ != "run_id"@,
        "key"@ != "ts_ms"@,
        "transport"@ != "request"@,
        "transport"@ != "raw_generation"@,
        "transport"@ != "response"@,
        "transport"@ != "error"@,
        "transport"@ != "call_id"@,
        "transport"@ != "tool"@,
        "transport"@ != "arguments"@,
        "transport"@ != "output_preview"@,
        "transport"@ != "success"@,
        "transport"@ != "aborted"@,
        "transport"@ != "type"@,
        "transport"@ != "run_id"@,
        "transport"@ != "ts_ms"@,
        "request"@ != "raw_generation"@,
        "request"@ != "response"@,
        "request"@ != "error"@,
        "request"@ != "call_id"@,
        "request"@ != "tool"@,
        "request"@ != "arguments"@,
        "request"@ != "output_preview"@,
        "request"@ != "success"@,
        "request"@ != "aborted"@,
        "request"@ != "type"@,
        "request"@ != "run_id"@,
        "request"@ != "ts_ms"@,
        "raw_generation"@ != "response"@,
        "raw_generation"@ != "error"@,
        "raw_generation"@ != "call_id"@,
        "raw_generation"@ != "tool"@,
        "raw_generation"@ != "arguments"@,
        "raw_generation"@ != "output_preview"@,
        "raw_generation"@ != "success"@,
        "raw_generation"@ != "aborted"@,
        "raw_generation"@ != "type"@,
        "raw_generation"@ != "run_id"@,
        "raw_generation"@ != "ts_ms"@,
        "response"@ != "error"@,
        "response"@ != "call_id"@,
        "response"@ != "tool"@,
        "response"@ != "arguments"@,
        "response"@ != "output_preview"@,
        "response"@ != "success"@,
        "response"@ != "aborted"@,
        "response"@ != "type"@,
        "response"@ != "run_id"@,
        "response"@ != "ts_ms"@,
        "error"@ != "call_id"@,
        "error"@ != "tool"@,
        "error"@ != "arguments"@,
        "error"@ != "output_preview"@,
        "error"@ != "success"@,
        "error"@ != "aborted"@,
        "error"@ != "type"@,
        "error"@ != "run_id"@,
        "error"@ != "ts_ms"@,
        "call_id"@ != "tool"@,
        "call_id"@ != "arguments"@,
        "call_id"@ != "output_preview"@,
        "call_id"@ != "success"@,
        "call_id"@ != "aborted"@,
        "call_id"@ != "type"@,
        "call_id"@ != "run_id"@,
        "call_id"@ != "ts_ms"@,
        "tool"@ != "arguments"@,
        "tool"@ != "output_preview"@,
        "tool"@ != "success"@,
        "tool"@ != "aborted"@,
        "tool"@ != "type"@,
        "tool"@ != "run_id"@,
        "tool"@ != "ts_ms"@,
        "arguments"@ != "output_preview"@,
        "arguments"@ != "success"@,
        "arguments"@ != "aborted"@,
        "arguments"@ != "type"@,
        "arguments"@ != "run_id"@,
        "arguments"@ != "ts_ms"@,
        "output_preview"@ != "success"@,
        "output_preview"@ != "aborted"@,
        "output_preview"@ != "type"@,
        "output_preview"@ != "run_id"@,
        "output_preview"@ != "ts_ms"@,
        "success"@ != "aborted"@,
        "success"@ != "type"@,
        "success"@ != "run_id"@,
        "success"@ != "ts_ms"@,
        "aborted"@ != "type"@,
        "aborted"@ != "run_id"@,
        "aborted"@ != "ts_ms"@,
        "type"@ != "run_id"@,
        "type"@ != "ts_ms"@,
        "run_id"@ != "ts_ms"@,
{
    reveal_strlit("key");
    assert("key"@.len() == 3);
    reveal_strlit("transport");
    assert("transport"@.len() == 9);
    reveal_strlit("request");
    assert("request"@.len() == 7);
    reveal_strlit("raw_generation");
    assert("raw_generation"@.len() == 14);
    reveal_strlit("response");
    assert("response"@.len() == 8);
    reveal_strlit("error");
    assert("error"@.len() == 5);
    reveal_strlit("call_id");
    assert("call_id"@.len() == 7);
    reveal_strlit("tool");
    assert("tool"@.len() == 4);
    reveal_strlit("arguments");
    assert("arguments"@.len() == 9);
    reveal_strlit("output_preview");
    assert("output_preview"@.len() == 14);
    reveal_strlit("success");
    assert("success"@.len() == 7);
    reveal_strlit("aborted");
    assert("aborted"@.len() == 7);
    reveal_strlit("type");
    assert("type"@.len() == 4);
    reveal_strlit("run_id");
    assert("run_id"@.len() == 6);
    reveal_strlit("ts_ms");
    assert("ts_ms"@.len() == 5);
    assert("transport"@[0] != "arguments"@[0]);
    assert("request"@[0] != "call_id"@[0]);
    assert("request"@[0] != "success"@[0]);
    assert("request"@[0] != "aborted"@[0]);
    assert("raw_generation"@[0] != "output_preview"@[0]);
    assert("error"@[0] != "ts_ms"@[0]);
    assert("call_id"@[0] != "success"@[0]);
    assert("call_id"@[0] != "aborted"@[0]);
    assert("tool"@[1] != "type"@[1]);
    assert("success"@[0] != "aborted"@[0]);
}

/// A key says the thread, the turn and which call of the turn it is.
pub proof fn keys_say_which_call(key: KeyModel)
    ensures
        key.as_json().at("thread_id"@) == Some(JsonModel::Text(key.thread_id)),
        key.as_json().at("turn_id"@) == Some(JsonModel::Text(key.turn_id)),
        key.as_json().at("call_ordinal"@) == Some(JsonModel::Number(text::decimal(key.call_ordinal as nat))),
{
    call_keys_differ();
    let none = object();
    let bv0 = JsonModel::Text(key.thread_id);
    json::only_one_member_is_set(none, "thread_id"@, bv0);
    let b0 = none.with("thread_id"@, bv0);
    let bv1 = JsonModel::Text(key.turn_id);
    json::only_one_member_is_set(b0, "turn_id"@, bv1);
    let b1 = b0.with("turn_id"@, bv1);
    let bv2 = JsonModel::Number(text::decimal(key.call_ordinal as nat));
    json::only_one_member_is_set(b1, "call_ordinal"@, bv2);
}

/// Every record carries what kind it is, the run and the time, beside all else that it
/// says.
pub proof fn records_are_stamped(record: JsonModel, kind: Seq<char>, run_id: Seq<char>, ts_ms: u64)
    requires
        record is Object,
    ensures
        ({
            let r = stamped(record, kind, run_id, ts_ms);
            &&& r.at("type"@) == Some(JsonModel::Text(kind))
            &&& r.at("run_id"@) == Some(JsonModel::Text(run_id))
            &&& r.at("ts_ms"@) == Some(JsonModel::Number(text::decimal(ts_ms as nat)))
            &&& forall|key: Seq<char>|
                key != "type"@ && key != "run_id"@ && key != "ts_ms"@ ==> #[trigger] r.at(key)
                    == record.at(key)
        }),
{
    record_keys_differ();
    let bv0 = JsonModel::Text(kind);
    json::only_one_member_is_set(record, "type"@, bv0);
    let b0 = record.with("type"@, bv0);
    let bv1 = JsonModel::Text(run_id);
    json::only_one_member_is_set(b0, "run_id"@, bv1);
    let b1 = b0.with("run_id"@, bv1);
    let bv2 = JsonModel::Number(text::decimal(ts_ms as nat));
    json::only_one_member_is_set(b1, "ts_ms"@, bv2);
    assert forall|key: Seq<char>|
        key != "type"@ && key != "run_id"@ && key != "ts_ms"@ implies #[trigger] stamped(
        record,
        kind,
        run_id,
        ts_ms,
    ).at(key) == record.at(key) by {
        assert(b1.with("ts_ms"@, bv2).at(key) == b1.at(key));
        assert(b1.at(key) == b0.at(key));
        assert(b0.at(key) == record.at(key));
    }
}

/// The record of a call says its key, what was sent and what came back: the generation as it
/// came, and the reasoning, the text and the calls that were read from it.
pub proof fn model_calls_are_recorded(
    key: KeyModel,
    c: ModelCall,
    kind: Seq<char>,
    run_id: Seq<char>,
    ts_ms: u64,
)
    ensures
        ({
            let r = stamped(call_record(key, c), kind, run_id, ts_ms);
            &&& r.at("key"@) == Some(key.as_json())
            &&& r.at("transport"@) == Some(JsonModel::Text(c.transport@))
            &&& r.at("request"@) == Some(c.request@)
            &&& r.at("raw_generation"@) == Some(
                match c.raw_generation {
                    Some(s) => JsonModel::Text(s@),
                    None => JsonModel::Null,
                },
            )
            &&& r.at("error"@) == Some(
                match c.error {
                    Some(s) => JsonModel::Text(s@),
                    None => JsonModel::Null,
                },
            )
            &&& r.at("response"@) matches Some(a) && {
                &&& a.at("reasoning"@) == Some(JsonModel::Text(c.reasoning@))
                &&& a.at("content"@) == Some(JsonModel::Text(c.content@))
                &&& a.at("tool_calls"@) == Some(JsonModel::Array(json::models(c.tool_calls@)))
                &&& a.at("finish_reason"@) == Some(
                match c.finish_reason {
                    Some(s) => JsonModel::Text(s@),
                    None => JsonModel::Null,
                },
                )
                &&& a.at("usage"@) == Some(
                    match c.usage {
                        Some(u) => u@,
                        None => JsonModel::Null,
                    },
                )
            }
        }),
{
    record_keys_differ();
    response_keys_differ();
    let none = object();
    let av0 = JsonModel::Text(c.reasoning@);
    json::only_one_member_is_set(none, "reasoning"@, av0);
    let a0 = none.with("reasoning"@, av0);
    let av1 = JsonModel::Text(c.content@);
    json::only_one_member_is_set(a0, "content"@, av1);
    let a1 = a0.with("content"@, av1);
    let av2 = JsonModel::Array(json::models(c.tool_calls@));
    json::only_one_member_is_set(a1, "tool_calls"@, av2);
    let a2 = a1.with("tool_calls"@, av2);
    let av3 = text_or_null(c.finish_reason);
    json::only_one_member_is_set(a2, "finish_reason"@, av3);
    let a3 = a2.with("finish_reason"@, av3);
    let av4 = value_or_null(c.usage);
    json::only_one_member_is_set(a3, "usage"@, av4);
    let mv0 = key.as_json();
    json::only_one_member_is_set(none, "key"@, mv0);
    let m0 = none.with("key"@, mv0);
    let mv1 = JsonModel::Text(c.transport@);
    json::only_one_member_is_set(m0, "transport"@, mv1);
    let m1 = m0.with("transport"@, mv1);
    let mv2 = c.request@;
    json::only_one_member_is_set(m1, "request"@, mv2);
    let m2 = m1.with("request"@, mv2);
    let mv3 = text_or_null(c.raw_generation);
    json::only_one_member_is_set(m2, "raw_generation"@, mv3);
    let m3 = m2.with("raw_generation"@, mv3);
    let mv4 = response_of(c);
    json::only_one_member_is_set(m3, "response"@, mv4);
    let m4 = m3.with("response"@, mv4);
    let mv5 = text_or_null(c.error);
    json::only_one_member_is_set(m4, "error"@, mv5);
    records_are_stamped(call_record(key, c), kind, run_id, ts_ms);
}

/// The record of a tool call says its key, the call and what came of it.
pub proof fn tool_calls_are_recorded(
    key: KeyModel,
    t: ToolCallNote,
    kind: Seq<char>,
    run_id: Seq<char>,
    ts_ms: u64,
)
    ensures
        ({
            let r = stamped(tool_record(key, t), kind, run_id, ts_ms);
            &&& r.at("key"@) == Some(key.as_json())
            &&& r.at("call_id"@) == Some(JsonModel::Text(t.call_id@))
            &&& r.at("tool"@) == Some(JsonModel::Text(t.tool_name@))
            &&& r.at("arguments"@) == Some(JsonModel::Text(t.arguments@))
            &&& r.at("output_preview"@) == Some(JsonModel::Text(t.output_preview@))
            &&& r.at("success"@) == Some(JsonModel::Bool(t.success))
            &&& r.at("aborted"@) == Some(JsonModel::Bool(t.aborted))
        }),
{
    record_keys_differ();
    let none = object();
    let mv0 = key.as_json();
    json::only_one_member_is_set(none, "key"@, mv0);
    let m0 = none.with("key"@, mv0);
    let mv1 = JsonModel::Text(t.call_id@);
    json::only_one_member_is_set(m0, "call_id"@, mv1);
    let m1 = m0.with("call_id"@, mv1);
    let mv2 = JsonModel::Text(t.tool_name@);
    json::only_one_member_is_set(m1, "tool"@, mv2);
    let m2 = m1.with("tool"@, mv2);
    let mv3 = JsonModel::Text(t.arguments@);
    json::only_one_member_is_set(m2, "arguments"@, mv3);
    let m3 = m2.with("arguments"@, mv3);
    let mv4 = JsonModel::Text(t.output_preview@);
    json::only_one_member_is_set(m3, "output_preview"@, mv4);
    let m4 = m3.with("output_preview"@, mv4);
    let mv5 = JsonModel::Bool(t.success);
    json::only_one_member_is_set(m4, "success"@, mv5);
    let m5 = m4.with("success"@, mv5);
    let mv6 = JsonModel::Bool(t.aborted);
    json::only_one_member_is_set(m5, "aborted"@, mv6);
    records_are_stamped(tool_record(key, t), kind, run_id, ts_ms);
}

/// Calls are logged where a switch says so, or the configuration where no switch is set; the
/// place is the one of the environment, else the configured one, else one below the home.
pub proof fn logs_have_their_place(configured: Option<(bool, Seq<char>)>, env: LogEnv, d: Seq<char>)
    ensures
        switch(text::optional(env.enabled)) == Some(false) ==> directory(configured, env) is None,
        switch(text::optional(env.enabled)) is None && !(configured matches Some((on, _)) && on)
            ==> directory(configured, env) is None,
        ({
            let on = switch(text::optional(env.enabled)) == Some(true) || (switch(
                text::optional(env.enabled),
            ) is None && (configured matches Some((on, _)) && on));
            let unset = !(text::optional(env.dir) matches Some(e) && e.len() > 0);
            let nowhere = unset && !(configured matches Some((_, e)) && e.len() > 0);
            &&& on && text::optional(env.dir) == Some(d) && d.len() > 0 ==> directory(
                configured,
                env,
            ) == Some(d)
            &&& on && unset && (configured matches Some((_, e)) && e == d) && d.len() > 0
                ==> directory(configured, env) == Some(d)
            &&& on && nowhere && text::optional(env.millie_home) == Some(d) ==> directory(
                configured,
                env,
            ) == Some(text::path_under(d, "model-calls"@))
            &&& on && nowhere && env.millie_home is None && text::optional(env.home) == Some(d)
                ==> directory(configured, env) == Some(
                text::path_under(text::path_under(d, ".millie"@), "model-calls"@),
            )
            &&& nowhere && env.millie_home is None && env.home is None ==> directory(
                configured,
                env,
            ) is None
        }),
{
}

/// A switch is off where it says so or says nothing, and on where it says anything else.
pub proof fn only_a_no_switches_off(a: Seq<char>, s: Seq<char>, b: Seq<char>)
    requires
        text::is_blank(a),
        text::is_blank(b),
        s.len() > 0,
        !text::is_white(s[0]),
        !text::is_white(s.last()),
    ensures
        switch(None) is None,
        switch(Some(a)) == Some(false),
        switch(Some(a + s + b)) == Some(s != "0"@ && s != "false"@ && s != "no"@ && s != "off"@),
{
    text::trim_takes_off_the_white(a, s, b);
    text::trim_of_blank(a);
}

} // verus!
