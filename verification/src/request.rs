//! Requests to a model server: where they go and what they hold.

use crate::chat;
use crate::json;
use crate::json::Json;
use crate::json::JsonModel;
use crate::pathology;
use crate::text;
use vstd::prelude::*;
use vstd::string::*;

verus! {

// ---------------------------------------------------------------------------
// Where requests go.

/// The root of a server: its address without slashes at the end and without the
/// version.
pub open spec fn root_of(base_url: Seq<char>) -> Seq<char> {
    let base = text::drop_back(base_url, '/');
    if text::ends_in(base, "/v1"@) {
        text::drop_back(base.take(base.len() - "/v1"@.len()), '/')
    } else {
        base
    }
}

/// The root of a server.
pub fn local_server_root(base_url: &str) -> (r: String)
    ensures
        r@ == root_of(base_url@),
{
    let base = text::trim_end_matches(base_url, '/');
    let cs = text::chars_of(base.as_str());
    let version = text::chars_of("/v1");
    if text::ends(cs.as_slice(), version.as_slice()) {
        let head = text::substring_of(cs.as_slice(), 0, cs.len() - version.len());
        assert(head@ =~= base@.take(base@.len() - "/v1"@.len()));
        text::trim_end_matches(head.as_str(), '/')
    } else {
        base
    }
}

fn endpoint(base_url: &str, path: &str) -> (r: String)
    ensures
        r@ == root_of(base_url@) + path@,
{
    let mut out = local_server_root(base_url);
    out.append(path);
    out
}

/// Where raw completions are asked for.
pub fn completion_endpoint(base_url: &str) -> (r: String)
    ensures
        r@ == root_of(base_url@) + "/completion"@,
{
    endpoint(base_url, "/completion")
}

/// Where chat completions are asked for.
pub fn chat_endpoint(base_url: &str) -> (r: String)
    ensures
        r@ == root_of(base_url@) + "/v1/chat/completions"@,
{
    endpoint(base_url, "/v1/chat/completions")
}

/// Where texts are cut into tokens.
pub fn tokenize_endpoint(base_url: &str) -> (r: String)
    ensures
        r@ == root_of(base_url@) + "/tokenize"@,
{
    endpoint(base_url, "/tokenize")
}

proof fn drop_back_again(s: Seq<char>, c: char)
    ensures
        text::drop_back(text::drop_back(s, c), c) == text::drop_back(s, c),
        text::drop_back(s.push(c), c) == text::drop_back(s, c),
    decreases s.len(),
{
    assert(s.push(c).drop_last() =~= s);
    if s.len() > 0 && s.last() == c {
        drop_back_again(s.drop_last(), c);
    }
}

/// A slash behind the address makes no difference.
pub proof fn trailing_slash_does_not_matter(base_url: Seq<char>)
    ensures
        root_of(base_url.push('/')) == root_of(base_url),
{
    drop_back_again(base_url, '/');
}

/// The delays before the attempts to reach a server, in milliseconds. Only a
/// failure to connect is tried again.
pub open spec fn attempt_delays() -> Seq<u64> {
    seq![0u64, 500u64, 1000u64, 2000u64]
}

/// What to do behind an attempt that failed.
#[derive(Debug, Clone, Copy, PartialEq, Eq, Structural)]
pub enum AttemptStep {
    /// Try again behind so many milliseconds.
    RetryAfter(u64),
    GiveUp,
}

/// What to do when attempt number `attempt`, counted from zero, failed.
pub fn after_failed_attempt(attempt: u32, could_not_connect: bool) -> (r: AttemptStep)
    ensures
        r == (if could_not_connect && attempt < 3 {
            AttemptStep::RetryAfter(attempt_delays()[attempt + 1])
        } else {
            AttemptStep::GiveUp
        }),
{
    if !could_not_connect || attempt >= 3 {
        AttemptStep::GiveUp
    } else if attempt == 0 {
        AttemptStep::RetryAfter(500)
    } else if attempt == 1 {
        AttemptStep::RetryAfter(1000)
    } else {
        AttemptStep::RetryAfter(2000)
    }
}

// ---------------------------------------------------------------------------
// What requests hold.

/// Which server a request is for.
#[derive(Clone, Copy, Debug, PartialEq, Eq, Structural)]
pub enum Backend {
    /// Extra fields stand in the request itself, and the server stops loops.
    LlamaServer,
    /// Extra fields stand in a member of their own, and loops are stopped here.
    Vllm,
}

/// Whether a provider's model is served locally.
pub fn is_local_backend(provider_name: &str) -> (r: bool)
    ensures
        r == (provider_name@ == "llamacpp"@ || provider_name@ == "vllm"@),
{
    text::same_text(provider_name, "llamacpp") || text::same_text(provider_name, "vllm")
}

/// How a completion is sampled. Fractions are JSON numbers.
#[derive(Debug)]
pub struct RequestSettings {
    pub max_output_tokens: u32,
    pub thinking_budget: u32,
    pub temperature: String,
    pub min_p: String,
    pub top_k: i32,
    pub top_p: String,
}

pub open spec fn whole(n: nat) -> JsonModel {
    JsonModel::Number(text::decimal(n))
}

pub open spec fn sampled(body: JsonModel, s: RequestSettings) -> JsonModel {
    body.with("temperature"@, JsonModel::Number(s.temperature@)).with(
        "min_p"@,
        JsonModel::Number(s.min_p@),
    ).with("top_k"@, JsonModel::Number(text::signed_decimal(s.top_k as int))).with(
        "top_p"@,
        JsonModel::Number(s.top_p@),
    )
}

fn with_sampling(body: Json, s: &RequestSettings) -> (r: Json)
    ensures
        r@ == sampled(body@, *s),
{
    body.with("temperature", Json::Number(s.temperature.clone())).with(
        "min_p",
        Json::Number(s.min_p.clone()),
    ).with("top_k", Json::Number(text::signed_decimal_string(s.top_k as i64))).with(
        "top_p",
        Json::Number(s.top_p.clone()),
    )
}

/// The fields that every chat request has.
pub open spec fn chat_fields(messages: Seq<JsonModel>, s: RequestSettings) -> JsonModel {
    let none = JsonModel::Object(Seq::empty());
    sampled(
        none.with("messages"@, JsonModel::Array(messages)).with(
            "stream"@,
            JsonModel::Bool(true),
        ).with("stream_options"@, none.with("include_usage"@, JsonModel::Bool(true))).with(
            "max_tokens"@,
            whole(s.max_output_tokens as nat),
        ).with("thinking_budget"@, whole(s.thinking_budget as nat)),
        s,
    )
}

/// The fields of a body with the first `n` members of another behind them, or in
/// their places.
pub open spec fn overridden(body: JsonModel, members: Seq<(Seq<char>, JsonModel)>, n: int) -> JsonModel
    decreases n,
{
    if n <= 0 {
        body
    } else {
        overridden(body, members, n - 1).with(members[n - 1].0, members[n - 1].1)
    }
}

fn override_with(body: Json, members: &Vec<(String, Json)>) -> (r: Json)
    ensures
        r@ == overridden(body@, json::member_models(members@), members@.len() as int),
{
    let ghost all = json::member_models(members@);
    let ghost start = body@;
    let mut body = body;
    let mut i: usize = 0;
    while i < members.len()
        invariant
            i <= members@.len(),
            all == json::member_models(members@),
            body@ == overridden(start, all, i as int),
        decreases members@.len() - i,
    {
        assert(all[i as int] == (members@[i as int].0@, members@[i as int].1@));
        body = body.with(members[i].0.as_str(), members[i].1.clone());
        i += 1;
    }
    body
}

/// `members` without those named `key`.
pub open spec fn without(members: Seq<(Seq<char>, JsonModel)>, key: Seq<char>, n: int) -> Seq<
    (Seq<char>, JsonModel),
>
    decreases n,
{
    if n <= 0 {
        Seq::empty()
    } else if members[n - 1].0 == key {
        without(members, key, n - 1)
    } else {
        without(members, key, n - 1).push(members[n - 1])
    }
}

/// The members of an object.
pub open spec fn members_of(j: Option<JsonModel>) -> Seq<(Seq<char>, JsonModel)> {
    match j {
        Some(JsonModel::Object(m)) => m,
        _ => Seq::empty(),
    }
}

pub open spec fn extra_model(extra: Option<&Json>) -> Option<JsonModel> {
    match extra {
        Some(j) => Some(j@),
        None => None,
    }
}

/// The member `key` of the extra fields.
pub open spec fn extra_at(extra: Option<JsonModel>, key: Seq<char>) -> Option<JsonModel> {
    match extra {
        Some(j) => j.at(key),
        None => None,
    }
}

/// The texts among the first `n` items.
pub open spec fn texts_in(items: Seq<JsonModel>, n: int) -> Seq<Seq<char>>
    decreases n,
{
    if n <= 0 {
        Seq::empty()
    } else {
        match items[n - 1].text() {
            Some(t) => texts_in(items, n - 1).push(t),
            None => texts_in(items, n - 1),
        }
    }
}

/// The texts that a request penalizes.
pub open spec fn penalized_spans(extra: Option<JsonModel>) -> Seq<Seq<char>> {
    match extra_at(extra, "ngram_penalty"@) {
        Some(p) => match p.items_at("spans"@) {
            Some(items) => texts_in(items, items.len() as int),
            None => Seq::empty(),
        },
        None => Seq::empty(),
    }
}

/// The texts that a request penalizes; they are to be cut into tokens.
pub fn spans_to_tokenize(extra: Option<&Json>) -> (r: Vec<String>)
    ensures
        text::strings(r@) == penalized_spans(extra_model(extra)),
{
    let mut out: Vec<String> = Vec::new();
    assert(text::strings(out@) =~= Seq::empty());
    let penalty = match extra {
        Some(j) => j.get("ngram_penalty"),
        None => None,
    };
    match penalty {
        Some(p) => match p.array_at("spans") {
            Some(items) => {
                let ghost all = json::models(items@);
                let mut i: usize = 0;
                while i < items.len()
                    invariant
                        i <= items@.len(),
                        all == json::models(items@),
                        text::strings(out@) == texts_in(all, i as int),
                    decreases items@.len() - i,
                {
                    assert(all[i as int] == items@[i as int]@);
                    match items[i].as_str() {
                        Some(t) => {
                            let ghost before = out@;
                            let s = t.to_string();
                            out.push(s);
                            assert(text::strings(out@) =~= text::strings(before).push(s@));
                        },
                        None => {},
                    }
                    i += 1;
                }
            },
            None => {},
        },
        None => {},
    }
    out
}

/// The first `n` numbers with commas between them.
pub open spec fn id_list(ids: Seq<u64>, n: int) -> Seq<char>
    decreases n,
{
    if n <= 0 {
        Seq::empty()
    } else if n == 1 {
        text::decimal(ids[0] as nat)
    } else {
        id_list(ids, n - 1) + ","@ + text::decimal(ids[n - 1] as nat)
    }
}

pub open spec fn id_rows(spans: Seq<Vec<u64>>) -> Seq<Seq<char>> {
    spans.map_values(|s: Vec<u64>| id_list(s@, s@.len() as int))
}

fn list_of_ids(ids: &Vec<u64>) -> (r: String)
    ensures
        r@ == id_list(ids@, ids@.len() as int),
{
    let mut out = String::new();
    let mut i: usize = 0;
    assert(out@ =~= Seq::empty());
    while i < ids.len()
        invariant
            i <= ids@.len(),
            out@ == id_list(ids@, i as int),
        decreases ids@.len() - i,
    {
        if i > 0 {
            out.append(",");
        }
        out.append(text::decimal_string(ids[i] as u128).as_str());
        i += 1;
        assert(out@ =~= id_list(ids@, i as int));
    }
    out
}

fn rows_of_ids(spans: &Vec<Vec<u64>>) -> (r: String)
    ensures
        r@ == text::join(id_rows(spans@), ";"@),
{
    let ghost goal = id_rows(spans@);
    let mut rows: Vec<String> = Vec::new();
    let mut i: usize = 0;
    assert(text::strings(rows@) =~= goal.take(0));
    while i < spans.len()
        invariant
            i <= spans@.len(),
            goal == id_rows(spans@),
            text::strings(rows@) == goal.take(i as int),
        decreases spans@.len() - i,
    {
        let ghost before = rows@;
        let row = list_of_ids(&spans[i]);
        rows.push(row);
        assert(text::strings(rows@) =~= text::strings(before).push(row@));
        assert(goal.take(i + 1) =~= goal.take(i as int).push(goal[i as int]));
        i += 1;
    }
    assert(goal.take(i as int) =~= goal);
    text::join_strings(&rows, ";")
}

/// `xargs` with the member `key` of the penalty under its longer name.
pub open spec fn with_penalty_part(xargs: JsonModel, penalty: JsonModel, key: Seq<char>, name: Seq<char>) -> JsonModel {
    match penalty.at(key) {
        Some(v) => xargs.with(name, v),
        None => xargs,
    }
}

fn add_penalty_part(xargs: Json, penalty: &Json, key: &str, name: &str) -> (r: Json)
    ensures
        r@ == with_penalty_part(xargs@, penalty@, key@, name@),
{
    match penalty.get(key) {
        Some(v) => xargs.with(name, v.clone()),
        None => xargs,
    }
}

/// The extra fields of a request to a vLLM server: the thinking budget where it is
/// above zero, and the penalty with its texts as token ids.
pub open spec fn vllm_fields(thinking_budget: u32, extra: Option<JsonModel>, spans: Seq<Vec<u64>>) -> JsonModel {
    let none = JsonModel::Object(Seq::empty());
    let first = if thinking_budget > 0 {
        none.with("thinking_budget"@, whole(thinking_budget as nat))
    } else {
        none
    };
    match extra_at(extra, "ngram_penalty"@) {
        Some(p) if spans.len() > 0 => with_penalty_part(
            with_penalty_part(
                with_penalty_part(
                    first.with("ngram_penalty_spans"@, JsonModel::Text(
                        text::join(id_rows(spans), ";"@),
                    )),
                    p,
                    "start_n"@,
                    "ngram_penalty_start_n"@,
                ),
                p,
                "scale"@,
                "ngram_penalty_scale"@,
            ),
            p,
            "max"@,
            "ngram_penalty_max"@,
        ),
        _ => first,
    }
}

fn build_vllm_fields(thinking_budget: u32, extra: Option<&Json>, spans: &Vec<Vec<u64>>) -> (r: Json)
    ensures
        r@ == vllm_fields(thinking_budget, extra_model(extra), spans@),
        r@ is Object,
{
    let first = if thinking_budget > 0 {
        Json::object().with("thinking_budget", Json::number(thinking_budget as u64))
    } else {
        Json::object()
    };
    let penalty = match extra {
        Some(j) => j.get("ngram_penalty"),
        None => None,
    };
    match penalty {
        Some(p) => {
            if spans.len() == 0 {
                return first;
            }
            let joined = rows_of_ids(spans);
            let with_spans = first.with("ngram_penalty_spans", Json::Text(joined));
            let a = add_penalty_part(with_spans, p, "start_n", "ngram_penalty_start_n");
            let b = add_penalty_part(a, p, "scale", "ngram_penalty_scale");
            add_penalty_part(b, p, "max", "ngram_penalty_max")
        },
        None => first,
    }
}

/// The body with the fields of its server. `pin` is how many tokens before the end
/// the checkpoint of a turn is to stand.
pub open spec fn backend_fields(
    body: JsonModel,
    backend: Backend,
    s: RequestSettings,
    extra: Option<JsonModel>,
    pin: Option<u64>,
    model: Seq<char>,
    spans: Seq<Vec<u64>>,
) -> JsonModel {
    match backend {
        Backend::LlamaServer => {
            let all = overridden(body, members_of(extra), members_of(extra).len() as int);
            match pin {
                Some(n) => all.with("pin_checkpoint_from_end"@, whole(n as nat)),
                None => all,
            }
        },
        Backend::Vllm => {
            let named = body.with("model"@, JsonModel::Text(model));
            let bare = match named {
                JsonModel::Object(m) => JsonModel::Object(
                    without(m, "thinking_budget"@, m.len() as int),
                ),
                other => other,
            };
            let xargs = vllm_fields(s.thinking_budget, extra, spans);
            if xargs == JsonModel::Object(Seq::empty()) {
                bare
            } else {
                bare.with("vllm_xargs"@, xargs)
            }
        },
    }
}

/// The body with the tools that are offered, and where the generation is logged
/// with the wish to have it in full.
pub open spec fn tool_fields(body: JsonModel, tools: Seq<JsonModel>, echo: bool) -> JsonModel {
    let all = if tools.len() == 0 {
        body
    } else {
        body.with("tools"@, JsonModel::Array(tools)).with(
            "tool_choice"@,
            JsonModel::Text("auto"@),
        ).with("parallel_tool_calls"@, JsonModel::Bool(true))
    };
    if echo {
        all.with("include_raw_generation"@, JsonModel::Bool(true))
    } else {
        all
    }
}

fn drop_member(body: Json, key: &str) -> (r: Json)
    requires
        body@ is Object,
    ensures
        r@ == JsonModel::Object(without(body@->Object_0, key@, body@->Object_0.len() as int)),
{
    match body {
        Json::Object(members) => {
            proof {
                json::object_model(members);
            }
            let ghost all = json::member_models(members@);
            let mut out: Vec<(String, Json)> = Vec::new();
            let mut i: usize = 0;
            assert(json::member_models(out@) =~= Seq::empty());
            while i < members.len()
                invariant
                    i <= members@.len(),
                    all == json::member_models(members@),
                    json::member_models(out@) == without(all, key@, i as int),
                decreases members@.len() - i,
            {
                assert(all[i as int] == (members@[i as int].0@, members@[i as int].1@));
                if !text::same_text(members[i].0.as_str(), key) {
                    let ghost before = out@;
                    let copy = (members[i].0.clone(), members[i].1.clone());
                    out.push(copy);
                    assert(json::member_models(out@) =~= json::member_models(before).push(
                        all[i as int],
                    ));
                }
                i += 1;
            }
            proof {
                json::object_model(out);
            }
            Json::Object(out)
        },
        other => other,
    }
}

/// The body of a chat request.
pub fn chat_request(
    messages: Vec<Json>,
    tools: Vec<Json>,
    s: &RequestSettings,
    backend: Backend,
    extra: Option<&Json>,
    pin: Option<u64>,
    model: &str,
    spans: &Vec<Vec<u64>>,
    log_generation: bool,
) -> (r: Json)
    ensures
        r@ == tool_fields(
            backend_fields(
                chat_fields(json::models(messages@), *s),
                backend,
                *s,
                extra_model(extra),
                pin,
                model@,
                spans@,
            ),
            json::models(tools@),
            log_generation && backend == Backend::LlamaServer,
        ),
{
    let any_tools: bool = tools.len() > 0;
    let ghost tool_models = json::models(tools@);
    let base = Json::object().with("messages", chat::array(messages)).with(
        "stream",
        Json::Bool(true),
    ).with("stream_options", Json::object().with("include_usage", Json::Bool(true))).with(
        "max_tokens",
        Json::number(s.max_output_tokens as u64),
    ).with("thinking_budget", Json::number(s.thinking_budget as u64));
    let body = with_sampling(base, s);
    let llama: bool = match backend {
        Backend::LlamaServer => true,
        Backend::Vllm => false,
    };
    let body = if llama {
        let mut body = body;
        match extra {
            Some(j) => match j.as_object() {
                Some(members) => {
                    body = override_with(body, members);
                },
                None => {
                    assert(members_of(Some(j@)).len() == 0);
                },
            },
            None => {},
        }
        match pin {
            Some(n) => body.with("pin_checkpoint_from_end", Json::number(n)),
            None => body,
        }
    } else {
        let named = body.with("model", Json::text(model));
        let bare = drop_member(named, "thinking_budget");
        let xargs = build_vllm_fields(s.thinking_budget, extra, spans);
        let empty: bool = match xargs.as_object() {
            Some(m) => m.len() == 0,
            None => false,
        };
        proof {
            if empty {
                assert(xargs@->Object_0 =~= Seq::empty());
            }
        }
        if empty {
            bare
        } else {
            bare.with("vllm_xargs", xargs)
        }
    };
    let body = if any_tools {
        body.with("tools", chat::array(tools)).with("tool_choice", Json::text("auto")).with(
            "parallel_tool_calls",
            Json::Bool(true),
        )
    } else {
        body
    };
    if log_generation && llama {
        body.with("include_raw_generation", Json::Bool(true))
    } else {
        body
    }
}

/// The prompt of a raw request: text alone, or text with the payloads of its media.
pub open spec fn raw_prompt(rendered: Seq<char>, media: Seq<Seq<char>>) -> JsonModel {
    if media.len() == 0 {
        JsonModel::Text(rendered)
    } else {
        JsonModel::Object(Seq::empty()).with("prompt_string"@, JsonModel::Text(rendered)).with(
            "multimodal_data"@,
            pathology::text_array(media),
        )
    }
}

/// A grammar that comes in when a call begins.
pub open spec fn lazy_grammar(body: JsonModel, grammar: Seq<char>) -> JsonModel {
    let none = JsonModel::Object(Seq::empty());
    body.with("grammar"@, JsonModel::Text(grammar)).with(
        "grammar_lazy"@,
        JsonModel::Bool(true),
    ).with(
        "grammar_triggers"@,
        JsonModel::Array(
            seq![none.with("type"@, whole(1)).with("value"@, JsonModel::Text("<tool_call>"@))],
        ),
    ).with("preserved_tokens"@, JsonModel::Array(seq![JsonModel::Text("<tool_call>"@)]))
}

/// The body of a raw request.
pub open spec fn raw_fields(
    rendered: Seq<char>,
    media: Seq<Seq<char>>,
    s: RequestSettings,
    grammar: Option<Seq<char>>,
    pin: Option<u64>,
) -> JsonModel {
    let base = sampled(
        JsonModel::Object(Seq::empty()).with("prompt"@, raw_prompt(rendered, media)).with(
            "n_predict"@,
            whole(s.max_output_tokens as nat),
        ).with("thinking_budget"@, whole(s.thinking_budget as nat)).with(
            "cache_prompt"@,
            JsonModel::Bool(true),
        ).with("stream"@, JsonModel::Bool(true)),
        s,
    );
    let ruled = match grammar {
        Some(g) => lazy_grammar(base, g),
        None => base,
    };
    match pin {
        Some(n) => ruled.with("pin_checkpoint_from_end"@, whole(n as nat)),
        None => ruled,
    }
}

/// The body of a raw request.
pub fn raw_request(
    rendered: &str,
    media: &Vec<String>,
    s: &RequestSettings,
    grammar: &Option<String>,
    pin: Option<u64>,
) -> (r: Json)
    ensures
        r@ == raw_fields(
            rendered@,
            text::strings(media@),
            *s,
            text::optional(*grammar),
            pin,
        ),
{
    let prompt = if media.len() == 0 {
        Json::text(rendered)
    } else {
        Json::object().with("prompt_string", Json::text(rendered)).with(
            "multimodal_data",
            pathology::text_items(media),
        )
    };
    let base = Json::object().with("prompt", prompt).with(
        "n_predict",
        Json::number(s.max_output_tokens as u64),
    ).with("thinking_budget", Json::number(s.thinking_budget as u64)).with(
        "cache_prompt",
        Json::Bool(true),
    ).with("stream", Json::Bool(true));
    let body = with_sampling(base, s);
    let body = match grammar {
        Some(g) => {
            let mut triggers: Vec<Json> = Vec::new();
            let trigger = Json::object().with("type", Json::number(1)).with(
                "value",
                Json::text("<tool_call>"),
            );
            triggers.push(trigger);
            assert(json::models(triggers@) =~= seq![trigger@]);
            let mut kept: Vec<Json> = Vec::new();
            let mark = Json::text("<tool_call>");
            kept.push(mark);
            assert(json::models(kept@) =~= seq![mark@]);
            body.with("grammar", Json::text(g.as_str())).with(
                "grammar_lazy",
                Json::Bool(true),
            ).with("grammar_triggers", chat::array(triggers)).with(
                "preserved_tokens",
                chat::array(kept),
            )
        },
        None => body,
    };
    match pin {
        Some(n) => body.with("pin_checkpoint_from_end", Json::number(n)),
        None => body,
    }
}

/// The body of a request for the tokens of a text, for both kinds of server.
pub open spec fn tokenize_fields(model: Seq<char>, span: Seq<char>) -> JsonModel {
    JsonModel::Object(Seq::empty()).with("model"@, JsonModel::Text(model)).with(
        "prompt"@,
        JsonModel::Text(span),
    ).with("add_special_tokens"@, JsonModel::Bool(false)).with(
        "content"@,
        JsonModel::Text(span),
    ).with("add_special"@, JsonModel::Bool(false))
}

/// The body of a request for the tokens of a text.
pub fn tokenize_request(model: &str, span: &str) -> (r: Json)
    ensures
        r@ == tokenize_fields(model@, span@),
{
    Json::object().with("model", Json::text(model)).with("prompt", Json::text(span)).with(
        "add_special_tokens",
        Json::Bool(false),
    ).with("content", Json::text(span)).with("add_special", Json::Bool(false))
}

/// What the tokens of a text are remembered under: the server, the model and the
/// text.
pub fn tokenize_cache_key(base_url: &str, model: &str, span: &str) -> (r: String)
    ensures
        r@ == root_of(base_url@) + seq!['\0'] + model@ + seq!['\0'] + span@,
{
    let mut out = local_server_root(base_url);
    out.push('\0');
    out.append(model);
    out.push('\0');
    out.append(span);
    assert(out@ =~= root_of(base_url@) + seq!['\0'] + model@ + seq!['\0'] + span@);
    out
}

// ---------------------------------------------------------------------------
// Laws.

proof fn chat_keys_differ()
    ensures
        "messages"@ != "stream"@,
        "messages"@ != "stream_options"@,
        "messages"@ != "include_usage"@,
        "messages"@ != "max_tokens"@,
        "messages"@ != "thinking_budget"@,
        "messages"@ != "temperature"@,
        "messages"@ != "min_p"@,
        "messages"@ != "top_k"@,
        "messages"@ != "top_p"@,
        "messages"@ != "pin_checkpoint_from_end"@,
        "messages"@ != "model"@,
        "messages"@ != "vllm_xargs"@,
        "messages"@ != "tools"@,
        "messages"@ != "tool_choice"@,
        "messages"@ != "parallel_tool_calls"@,
        "messages"@ != "include_raw_generation"@,
        "stream"@ != "stream_options"@,
        "stream"@ != "include_usage"@,
        "stream"@ != "max_tokens"@,
        "stream"@ != "thinking_budget"@,
        "stream"@ != "temperature"@,
        "stream"@ != "min_p"@,
        "stream"@ != "top_k"@,
        "stream"@ != "top_p"@,
        "stream"@ != "pin_checkpoint_from_end"@,
        "stream"@ != "model"@,
        "stream"@ != "vllm_xargs"@,
        "stream"@ != "tools"@,
        "stream"@ != "tool_choice"@,
        "stream"@ != "parallel_tool_calls"@,
        "stream"@ != "include_raw_generation"@,
        "stream_options"@ != "include_usage"@,
        "stream_options"@ != "max_tokens"@,
        "stream_options"@ != "thinking_budget"@,
        "stream_options"@ != "temperature"@,
        "stream_options"@ != "min_p"@,
        "stream_options"@ != "top_k"@,
        "stream_options"@ != "top_p"@,
        "stream_options"@ != "pin_checkpoint_from_end"@,
        "stream_options"@ != "model"@,
        "stream_options"@ != "vllm_xargs"@,
        "stream_options"@ != "tools"@,
        "stream_options"@ != "tool_choice"@,
        "stream_options"@ != "parallel_tool_calls"@,
        "stream_options"@ != "include_raw_generation"@,
        "include_usage"@ != "max_tokens"@,
        "include_usage"@ != "thinking_budget"@,
        "include_usage"@ != "temperature"@,
        "include_usage"@ != "min_p"@,
        "include_usage"@ != "top_k"@,
        "include_usage"@ != "top_p"@,
        "include_usage"@ != "pin_checkpoint_from_end"@,
        "include_usage"@ != "model"@,
        "include_usage"@ != "vllm_xargs"@,
        "include_usage"@ != "tools"@,
        "include_usage"@ != "tool_choice"@,
        "include_usage"@ != "parallel_tool_calls"@,
        "include_usage"@ != "include_raw_generation"@,
        "max_tokens"@ != "thinking_budget"@,
        "max_tokens"@ != "temperature"@,
        "max_tokens"@ != "min_p"@,
        "max_tokens"@ != "top_k"@,
        "max_tokens"@ != "top_p"@,
        "max_tokens"@ != "pin_checkpoint_from_end"@,
        "max_tokens"@ != "model"@,
        "max_tokens"@ != "vllm_xargs"@,
        "max_tokens"@ != "tools"@,
        "max_tokens"@ != "tool_choice"@,
        "max_tokens"@ != "parallel_tool_calls"@,
        "max_tokens"@ != "include_raw_generation"@,
        "thinking_budget"@ != "temperature"@,
        "thinking_budget"@ != "min_p"@,
        "thinking_budget"@ != "top_k"@,
        "thinking_budget"@ != "top_p"@,
        "thinking_budget"@ != "pin_checkpoint_from_end"@,
        "thinking_budget"@ != "model"@,
        "thinking_budget"@ != "vllm_xargs"@,
        "thinking_budget"@ != "tools"@,
        "thinking_budget"@ != "tool_choice"@,
        "thinking_budget"@ != "parallel_tool_calls"@,
        "thinking_budget"@ != "include_raw_generation"@,
        "temperature"@ != "min_p"@,
        "temperature"@ != "top_k"@,
        "temperature"@ != "top_p"@,
        "temperature"@ != "pin_checkpoint_from_end"@,
        "temperature"@ != "model"@,
        "temperature"@ != "vllm_xargs"@,
        "temperature"@ != "tools"@,
        "temperature"@ != "tool_choice"@,
        "temperature"@ != "parallel_tool_calls"@,
        "temperature"@ != "include_raw_generation"@,
        "min_p"@ != "top_k"@,
        "min_p"@ != "top_p"@,
        "min_p"@ != "pin_checkpoint_from_end"@,
        "min_p"@ != "model"@,
        "min_p"@ != "vllm_xargs"@,
        "min_p"@ != "tools"@,
        "min_p"@ != "tool_choice"@,
        "min_p"@ != "parallel_tool_calls"@,
        "min_p"@ != "include_raw_generation"@,
        "top_k"@ != "top_p"@,
        "top_k"@ != "pin_checkpoint_from_end"@,
        "top_k"@ != "model"@,
        "top_k"@ != "vllm_xargs"@,
        "top_k"@ != "tools"@,
        "top_k"@ != "tool_choice"@,
        "top_k"@ != "parallel_tool_calls"@,
        "top_k"@ != "include_raw_generation"@,
        "top_p"@ != "pin_checkpoint_from_end"@,
        "top_p"@ != "model"@,
        "top_p"@ != "vllm_xargs"@,
        "top_p"@ != "tools"@,
        "top_p"@ != "tool_choice"@,
        "top_p"@ != "parallel_tool_calls"@,
        "top_p"@ != "include_raw_generation"@,
        "pin_checkpoint_from_end"@ != "model"@,
        "pin_checkpoint_from_end"@ != "vllm_xargs"@,
        "pin_checkpoint_from_end"@ != "tools"@,
        "pin_checkpoint_from_end"@ != "tool_choice"@,
        "pin_checkpoint_from_end"@ != "parallel_tool_calls"@,
        "pin_checkpoint_from_end"@ != "include_raw_generation"@,
        "model"@ != "vllm_xargs"@,
        "model"@ != "tools"@,
        "model"@ != "tool_choice"@,
        "model"@ != "parallel_tool_calls"@,
        "model"@ != "include_raw_generation"@,
        "vllm_xargs"@ != "tools"@,
        "vllm_xargs"@ != "tool_choice"@,
        "vllm_xargs"@ != "parallel_tool_calls"@,
        "vllm_xargs"@ != "include_raw_generation"@,
        "tools"@ != "tool_choice"@,
        "tools"@ != "parallel_tool_calls"@,
        "tools"@ != "include_raw_generation"@,
        "tool_choice"@ != "parallel_tool_calls"@,
        "tool_choice"@ != "include_raw_generation"@,
        "parallel_tool_calls"@ != "include_raw_generation"@,
{
    reveal_strlit("messages");
    assert("messages"@.len() == 8);
    reveal_strlit("stream");
    assert("stream"@.len() == 6);
    reveal_strlit("stream_options");
    assert("stream_options"@.len() == 14);
    reveal_strlit("include_usage");
    assert("include_usage"@.len() == 13);
    reveal_strlit("max_tokens");
    assert("max_tokens"@.len() == 10);
    reveal_strlit("thinking_budget");
    assert("thinking_budget"@.len() == 15);
    reveal_strlit("temperature");
    assert("temperature"@.len() == 11);
    reveal_strlit("min_p");
    assert("min_p"@.len() == 5);
    reveal_strlit("top_k");
    assert("top_k"@.len() == 5);
    reveal_strlit("top_p");
    assert("top_p"@.len() == 5);
    reveal_strlit("pin_checkpoint_from_end");
    assert("pin_checkpoint_from_end"@.len() == 23);
    reveal_strlit("model");
    assert("model"@.len() == 5);
    reveal_strlit("vllm_xargs");
    assert("vllm_xargs"@.len() == 10);
    reveal_strlit("tools");
    assert("tools"@.len() == 5);
    reveal_strlit("tool_choice");
    assert("tool_choice"@.len() == 11);
    reveal_strlit("parallel_tool_calls");
    assert("parallel_tool_calls"@.len() == 19);
    reveal_strlit("include_raw_generation");
    assert("include_raw_generation"@.len() == 22);
    assert("max_tokens"@[0] != "vllm_xargs"@[0]);
    assert("temperature"@[1] != "tool_choice"@[1]);
    assert("min_p"@[0] != "top_k"@[0]);
    assert("min_p"@[0] != "top_p"@[0]);
    assert("min_p"@[1] != "model"@[1]);
    assert("min_p"@[0] != "tools"@[0]);
    assert("top_k"@[4] != "top_p"@[4]);
    assert("top_k"@[0] != "model"@[0]);
    assert("top_k"@[2] != "tools"@[2]);
    assert("top_p"@[0] != "model"@[0]);
    assert("top_p"@[2] != "tools"@[2]);
    assert("model"@[0] != "tools"@[0]);
}

proof fn raw_keys_differ()
    ensures
        "prompt"@ != "n_predict"@,
        "prompt"@ != "thinking_budget"@,
        "prompt"@ != "cache_prompt"@,
        "prompt"@ != "stream"@,
        "prompt"@ != "temperature"@,
        "prompt"@ != "min_p"@,
        "prompt"@ != "top_k"@,
        "prompt"@ != "top_p"@,
        "prompt"@ != "grammar"@,
        "prompt"@ != "grammar_lazy"@,
        "prompt"@ != "grammar_triggers"@,
        "prompt"@ != "preserved_tokens"@,
        "prompt"@ != "pin_checkpoint_from_end"@,
        "prompt"@ != "prompt_string"@,
        "prompt"@ != "multimodal_data"@,
        "prompt"@ != "type"@,
        "prompt"@ != "value"@,
        "n_predict"@ != "thinking_budget"@,
        "n_predict"@ != "cache_prompt"@,
        "n_predict"@ != "stream"@,
        "n_predict"@ != "temperature"@,
        "n_predict"@ != "min_p"@,
        "n_predict"@ != "top_k"@,
        "n_predict"@ != "top_p"@,
        "n_predict"@ != "grammar"@,
        "n_predict"@ != "grammar_lazy"@,
        "n_predict"@ != "grammar_triggers"@,
        "n_predict"@ != "preserved_tokens"@,
        "n_predict"@ != "pin_checkpoint_from_end"@,
        "n_predict"@ != "prompt_string"@,
        "n_predict"@ != "multimodal_data"@,
        "n_predict"@ != "type"@,
        "n_predict"@ != "value"@,
        "thinking_budget"@ != "cache_prompt"@,
        "thinking_budget"@ != "stream"@,
        "thinking_budget"@ != "temperature"@,
        "thinking_budget"@ != "min_p"@,
        "thinking_budget"@ != "top_k"@,
        "thinking_budget"@ != "top_p"@,
        "thinking_budget"@ != "grammar"@,
        "thinking_budget"@ != "grammar_lazy"@,
        "thinking_budget"@ != "grammar_triggers"@,
        "thinking_budget"@ != "preserved_tokens"@,
        "thinking_budget"@ != "pin_checkpoint_from_end"@,
        "thinking_budget"@ != "prompt_string"@,
        "thinking_budget"@ != "multimodal_data"@,
        "thinking_budget"@ != "type"@,
        "thinking_budget"@ != "value"@,
        "cache_prompt"@ != "stream"@,
        "cache_prompt"@ != "temperature"@,
        "cache_prompt"@ != "min_p"@,
        "cache_prompt"@ != "top_k"@,
        "cache_prompt"@ != "top_p"@,
        "cache_prompt"@ != "grammar"@,
        "cache_prompt"@ != "grammar_lazy"@,
        "cache_prompt"@ != "grammar_triggers"@,
        "cache_prompt"@ != "preserved_tokens"@,
        "cache_prompt"@ != "pin_checkpoint_from_end"@,
        "cache_prompt"@ != "prompt_string"@,
        "cache_prompt"@ != "multimodal_data"@,
        "cache_prompt"@ != "type"@,
        "cache_prompt"@ != "value"@,
        "stream"@ != "temperature"@,
        "stream"@ != "min_p"@,
        "stream"@ != "top_k"@,
        "stream"@ != "top_p"@,
        "stream"@ != "grammar"@,
        "stream"@ != "grammar_lazy"@,
        "stream"@ != "grammar_triggers"@,
        "stream"@ != "preserved_tokens"@,
        "stream"@ != "pin_checkpoint_from_end"@,
        "stream"@ != "prompt_string"@,
        "stream"@ != "multimodal_data"@,
        "stream"@ != "type"@,
        "stream"@ != "value"@,
        "temperature"@ != "min_p"@,
        "temperature"@ != "top_k"@,
        "temperature"@ != "top_p"@,
        "temperature"@ != "grammar"@,
        "temperature"@ != "grammar_lazy"@,
        "temperature"@ != "grammar_triggers"@,
        "temperature"@ != "preserved_tokens"@,
        "temperature"@ != "pin_checkpoint_from_end"@,
        "temperature"@ != "prompt_string"@,
        "temperature"@ != "multimodal_data"@,
        "temperature"@ != "type"@,
        "temperature"@ != "value"@,
        "min_p"@ != "top_k"@,
        "min_p"@ != "top_p"@,
        "min_p"@ != "grammar"@,
        "min_p"@ != "grammar_lazy"@,
        "min_p"@ != "grammar_triggers"@,
        "min_p"@ != "preserved_tokens"@,
        "min_p"@ != "pin_checkpoint_from_end"@,
        "min_p"@ != "prompt_string"@,
        "min_p"@ != "multimodal_data"@,
        "min_p"@ != "type"@,
        "min_p"@ != "value"@,
        "top_k"@ != "top_p"@,
        "top_k"@ != "grammar"@,
        "top_k"@ != "grammar_lazy"@,
        "top_k"@ != "grammar_triggers"@,
        "top_k"@ != "preserved_tokens"@,
        "top_k"@ != "pin_checkpoint_from_end"@,
        "top_k"@ != "prompt_string"@,
        "top_k"@ != "multimodal_data"@,
        "top_k"@ != "type"@,
        "top_k"@ != "value"@,
        "top_p"@ != "grammar"@,
        "top_p"@ != "grammar_lazy"@,
        "top_p"@ != "grammar_triggers"@,
        "top_p"@ != "preserved_tokens"@,
        "top_p"@ != "pin_checkpoint_from_end"@,
        "top_p"@ != "prompt_string"@,
        "top_p"@ != "multimodal_data"@,
        "top_p"@ != "type"@,
        "top_p"@ != "value"@,
        "grammar"@ != "grammar_lazy"@,
        "grammar"@ != "grammar_triggers"@,
        "grammar"@ != "preserved_tokens"@,
        "grammar"@ != "pin_checkpoint_from_end"@,
        "grammar"@ != "prompt_string"@,
        "grammar"@ != "multimodal_data"@,
        "grammar"@ != "type"@,
        "grammar"@ != "value"@,
        "grammar_lazy"@ != "grammar_triggers"@,
        "grammar_lazy"@ != "preserved_tokens"@,
        "grammar_lazy"@ != "pin_checkpoint_from_end"@,
        "grammar_lazy"@ != "prompt_string"@,
        "grammar_lazy"@ != "multimodal_data"@,
        "grammar_lazy"@ != "type"@,
        "grammar_lazy"@ != "value"@,
        "grammar_triggers"@ != "preserved_tokens"@,
        "grammar_triggers"@ != "pin_checkpoint_from_end"@,
        "grammar_triggers"@ != "prompt_string"@,
        "grammar_triggers"@ != "multimodal_data"@,
        "grammar_triggers"@ != "type"@,
        "grammar_triggers"@ != "value"@,
        "preserved_tokens"@ != "pin_checkpoint_from_end"@,
        "preserved_tokens"@ != "prompt_string"@,
        "preserved_tokens"@ != "multimodal_data"@,
        "preserved_tokens"@ != "type"@,
        "preserved_tokens"@ != "value"@,
        "pin_checkpoint_from_end"@ != "prompt_string"@,
        "pin_checkpoint_from_end"@ != "multimodal_data"@,
        "pin_checkpoint_from_end"@ != "type"@,
        "pin_checkpoint_from_end"@ != "value"@,
        "prompt_string"@ != "multimodal_data"@,
        "prompt_string"@ != "type"@,
        "prompt_string"@ != "value"@,
        "multimodal_data"@ != "type"@,
        "multimodal_data"@ != "value"@,
        "type"@ != "value"@,
{
    reveal_strlit("prompt");
    assert("prompt"@.len() == 6);
    reveal_strlit("n_predict");
    assert("n_predict"@.len() == 9);
    reveal_strlit("thinking_budget");
    assert("thinking_budget"@.len() == 15);
    reveal_strlit("cache_prompt");
    assert("cache_prompt"@.len() == 12);
    reveal_strlit("stream");
    assert("stream"@.len() == 6);
    reveal_strlit("temperature");
    assert("temperature"@.len() == 11);
    reveal_strlit("min_p");
    assert("min_p"@.len() == 5);
    reveal_strlit("top_k");
    assert("top_k"@.len() == 5);
    reveal_strlit("top_p");
    assert("top_p"@.len() == 5);
    reveal_strlit("grammar");
    assert("grammar"@.len() == 7);
    reveal_strlit("grammar_lazy");
    assert("grammar_lazy"@.len() == 12);
    reveal_strlit("grammar_triggers");
    assert("grammar_triggers"@.len() == 16);
    reveal_strlit("preserved_tokens");
    assert("preserved_tokens"@.len() == 16);
    reveal_strlit("pin_checkpoint_from_end");
    assert("pin_checkpoint_from_end"@.len() == 23);
    reveal_strlit("prompt_string");
    assert("prompt_string"@.len() == 13);
    reveal_strlit("multimodal_data");
    assert("multimodal_data"@.len() == 15);
    reveal_strlit("type");
    assert("type"@.len() == 4);
    reveal_strlit("value");
    assert("value"@.len() == 5);
    assert("prompt"@[0] != "stream"@[0]);
    assert("thinking_budget"@[0] != "multimodal_data"@[0]);
    assert("cache_prompt"@[0] != "grammar_lazy"@[0]);
    assert("min_p"@[0] != "top_k"@[0]);
    assert("min_p"@[0] != "top_p"@[0]);
    assert("min_p"@[0] != "value"@[0]);
    assert("top_k"@[4] != "top_p"@[4]);
    assert("top_k"@[0] != "value"@[0]);
    assert("top_p"@[0] != "value"@[0]);
    assert("grammar_triggers"@[0] != "preserved_tokens"@[0]);
}

proof fn penalty_keys_differ()
    ensures
        "thinking_budget"@ != "ngram_penalty_spans"@,
        "thinking_budget"@ != "ngram_penalty_start_n"@,
        "thinking_budget"@ != "ngram_penalty_scale"@,
        "thinking_budget"@ != "ngram_penalty_max"@,
        "ngram_penalty_spans"@ != "ngram_penalty_start_n"@,
        "ngram_penalty_spans"@ != "ngram_penalty_scale"@,
        "ngram_penalty_spans"@ != "ngram_penalty_max"@,
        "ngram_penalty_start_n"@ != "ngram_penalty_scale"@,
        "ngram_penalty_start_n"@ != "ngram_penalty_max"@,
        "ngram_penalty_scale"@ != "ngram_penalty_max"@,
{
    reveal_strlit("thinking_budget");
    assert("thinking_budget"@.len() == 15);
    reveal_strlit("ngram_penalty_spans");
    assert("ngram_penalty_spans"@.len() == 19);
    reveal_strlit("ngram_penalty_start_n");
    assert("ngram_penalty_start_n"@.len() == 21);
    reveal_strlit("ngram_penalty_scale");
    assert("ngram_penalty_scale"@.len() == 19);
    reveal_strlit("ngram_penalty_max");
    assert("ngram_penalty_max"@.len() == 17);
    assert("ngram_penalty_spans"@[15] != "ngram_penalty_scale"@[15]);
}

proof fn tokenize_keys_differ()
    ensures
        "model"@ != "prompt"@,
        "model"@ != "add_special_tokens"@,
        "model"@ != "content"@,
        "model"@ != "add_special"@,
        "prompt"@ != "add_special_tokens"@,
        "prompt"@ != "content"@,
        "prompt"@ != "add_special"@,
        "add_special_tokens"@ != "content"@,
        "add_special_tokens"@ != "add_special"@,
        "content"@ != "add_special"@,
{
    reveal_strlit("model");
    assert("model"@.len() == 5);
    reveal_strlit("prompt");
    assert("prompt"@.len() == 6);
    reveal_strlit("add_special_tokens");
    assert("add_special_tokens"@.len() == 18);
    reveal_strlit("content");
    assert("content"@.len() == 7);
    reveal_strlit("add_special");
    assert("add_special"@.len() == 11);
}

/// Whether no member of the extra fields is named `key`.
pub open spec fn leaves_alone(extra: Option<JsonModel>, key: Seq<char>) -> bool {
    forall|i: int| 0 <= i < members_of(extra).len() ==> (#[trigger] members_of(extra)[i]).0 != key
}

/// Whether the last of the members named `key` says `value`.
pub open spec fn says_last(
    members: Seq<(Seq<char>, JsonModel)>,
    i: int,
    key: Seq<char>,
    value: JsonModel,
) -> bool {
    &&& 0 <= i < members.len()
    &&& members[i] == (key, value)
    &&& forall|k: int| i < k < members.len() ==> (#[trigger] members[k]).0 != key
}

proof fn overriding_keeps_the_rest(
    body: JsonModel,
    members: Seq<(Seq<char>, JsonModel)>,
    n: int,
    key: Seq<char>,
)
    requires
        body is Object,
        0 <= n <= members.len(),
    ensures
        overridden(body, members, n) is Object,
        (forall|i: int| 0 <= i < n ==> (#[trigger] members[i]).0 != key) ==> overridden(
            body,
            members,
            n,
        ).at(key) == body.at(key),
        forall|i: int|
            0 <= i < n && (#[trigger] members[i]).0 == key && (forall|k: int|
                i < k < n ==> (#[trigger] members[k]).0 != key) ==> overridden(body, members, n).at(
                key,
            ) == Some(members[i].1),
    decreases n,
{
    if n > 0 {
        overriding_keeps_the_rest(body, members, n - 1, key);
        json::only_one_member_is_set(
            overridden(body, members, n - 1),
            members[n - 1].0,
            members[n - 1].1,
        );
    }
}

proof fn without_one_key(members: Seq<(Seq<char>, JsonModel)>, key: Seq<char>, n: int, other: Seq<char>)
    requires
        0 <= n <= members.len(),
    ensures
        JsonModel::Object(without(members, key, n)).at(key) is None,
        other != key ==> JsonModel::Object(without(members, key, n)).at(other)
            == JsonModel::Object(members.take(n)).at(other),
    decreases n,
{
    let kept = without(members, key, n);
    if n > 0 {
        without_one_key(members, key, n - 1, other);
        let before = without(members, key, n - 1);
        pushed_is_found_last(members.take(n - 1), members[n - 1], other);
        assert(members.take(n) =~= members.take(n - 1).push(members[n - 1]));
        if members[n - 1].0 != key {
            pushed_is_found_last(before, members[n - 1], other);
            pushed_is_found_last(before, members[n - 1], key);
        }
    } else {
        assert(members.take(0) =~= Seq::empty());
    }
}

proof fn pushed_is_found_last(
    members: Seq<(Seq<char>, JsonModel)>,
    last: (Seq<char>, JsonModel),
    key: Seq<char>,
)
    ensures
        JsonModel::Object(members.push(last)).at(key) == if JsonModel::Object(members).at(key) is Some {
            JsonModel::Object(members).at(key)
        } else if last.0 == key {
            Some(last.1)
        } else {
            None
        },
    decreases members.len(),
{
    let all = members.push(last);
    reveal_with_fuel(json::lookup, 2);
    if members.len() > 0 {
        assert(all[0] == members[0]);
        pushed_is_found_last(members.skip(1), last, key);
        assert(all.skip(1) =~= members.skip(1).push(last));
    } else {
        assert(all[0] == last);
        assert(all.skip(1) =~= Seq::empty());
    }
}

/// What a chat request is made of.
pub open spec fn chat_body(
    messages: Seq<JsonModel>,
    tools: Seq<JsonModel>,
    s: RequestSettings,
    backend: Backend,
    extra: Option<JsonModel>,
    pin: Option<u64>,
    model: Seq<char>,
    spans: Seq<Vec<u64>>,
    echo: bool,
) -> JsonModel {
    tool_fields(
        backend_fields(chat_fields(messages, s), backend, s, extra, pin, model, spans),
        tools,
        echo,
    )
}

proof fn chat_base(messages: Seq<JsonModel>, s: RequestSettings)
    ensures
        ({
            let b = chat_fields(messages, s);
            &&& b is Object
            &&& b.at("messages"@) == Some(JsonModel::Array(messages))
            &&& b.at("stream"@) == Some(JsonModel::Bool(true))
            &&& b.at("stream_options"@) is Some
            &&& b.at("stream_options"@).unwrap().at("include_usage"@) == Some(JsonModel::Bool(true))
            &&& b.at("max_tokens"@) == Some(whole(s.max_output_tokens as nat))
            &&& b.at("thinking_budget"@) == Some(whole(s.thinking_budget as nat))
            &&& b.at("temperature"@) == Some(JsonModel::Number(s.temperature@))
            &&& b.at("min_p"@) == Some(JsonModel::Number(s.min_p@))
            &&& b.at("top_k"@) == Some(JsonModel::Number(text::signed_decimal(s.top_k as int)))
            &&& b.at("top_p"@) == Some(JsonModel::Number(s.top_p@))
            &&& b.at("pin_checkpoint_from_end"@) is None
            &&& b.at("model"@) is None
            &&& b.at("vllm_xargs"@) is None
            &&& b.at("tools"@) is None
            &&& b.at("tool_choice"@) is None
            &&& b.at("parallel_tool_calls"@) is None
            &&& b.at("include_raw_generation"@) is None
        }),
{
    chat_keys_differ();
    let none = JsonModel::Object(Seq::empty());
    let usage = none.with("include_usage"@, JsonModel::Bool(true));
    json::only_one_member_is_set(none, "include_usage"@, JsonModel::Bool(true));
    let b1 = none.with("messages"@, JsonModel::Array(messages));
    json::only_one_member_is_set(none, "messages"@, JsonModel::Array(messages));
    let b2 = b1.with("stream"@, JsonModel::Bool(true));
    json::only_one_member_is_set(b1, "stream"@, JsonModel::Bool(true));
    let b3 = b2.with("stream_options"@, usage);
    json::only_one_member_is_set(b2, "stream_options"@, usage);
    let b4 = b3.with("max_tokens"@, whole(s.max_output_tokens as nat));
    json::only_one_member_is_set(b3, "max_tokens"@, whole(s.max_output_tokens as nat));
    let b5 = b4.with("thinking_budget"@, whole(s.thinking_budget as nat));
    json::only_one_member_is_set(b4, "thinking_budget"@, whole(s.thinking_budget as nat));
    sampling_is_given(b5, s);
}

proof fn sampling_is_given(body: JsonModel, s: RequestSettings)
    requires
        body is Object,
    ensures
        sampled(body, s) is Object,
        sampled(body, s).at("temperature"@) == Some(JsonModel::Number(s.temperature@)),
        sampled(body, s).at("min_p"@) == Some(JsonModel::Number(s.min_p@)),
        sampled(body, s).at("top_k"@) == Some(
            JsonModel::Number(text::signed_decimal(s.top_k as int)),
        ),
        sampled(body, s).at("top_p"@) == Some(JsonModel::Number(s.top_p@)),
        forall|key: Seq<char>|
            key != "temperature"@ && key != "min_p"@ && key != "top_k"@ && key != "top_p"@
                ==> #[trigger] sampled(body, s).at(key) == body.at(key),
{
    chat_keys_differ();
    let c1 = body.with("temperature"@, JsonModel::Number(s.temperature@));
    json::only_one_member_is_set(body, "temperature"@, JsonModel::Number(s.temperature@));
    let c2 = c1.with("min_p"@, JsonModel::Number(s.min_p@));
    json::only_one_member_is_set(c1, "min_p"@, JsonModel::Number(s.min_p@));
    let k = JsonModel::Number(text::signed_decimal(s.top_k as int));
    let c3 = c2.with("top_k"@, k);
    json::only_one_member_is_set(c2, "top_k"@, k);
    json::only_one_member_is_set(c3, "top_p"@, JsonModel::Number(s.top_p@));
    assert forall|key: Seq<char>|
        key != "temperature"@ && key != "min_p"@ && key != "top_k"@ && key != "top_p"@
            implies #[trigger] sampled(body, s).at(key) == body.at(key) by {
        assert(c3.with("top_p"@, JsonModel::Number(s.top_p@)).at(key) == c3.at(key));
        assert(c3.at(key) == c2.at(key));
        assert(c2.at(key) == c1.at(key));
        assert(c1.at(key) == body.at(key));
    }
}

proof fn tools_are_given(body: JsonModel, tools: Seq<JsonModel>, echo: bool)
    requires
        body is Object,
    ensures
        ({
            let r = tool_fields(body, tools, echo);
            &&& r is Object
            &&& tools.len() > 0 ==> {
                &&& r.at("tools"@) == Some(JsonModel::Array(tools))
                &&& r.at("tool_choice"@) == Some(JsonModel::Text("auto"@))
                &&& r.at("parallel_tool_calls"@) == Some(JsonModel::Bool(true))
            }
            &&& tools.len() == 0 ==> {
                &&& r.at("tools"@) == body.at("tools"@)
                &&& r.at("tool_choice"@) == body.at("tool_choice"@)
                &&& r.at("parallel_tool_calls"@) == body.at("parallel_tool_calls"@)
            }
            &&& echo ==> r.at("include_raw_generation"@) == Some(JsonModel::Bool(true))
            &&& !echo ==> r.at("include_raw_generation"@) == body.at("include_raw_generation"@)
            &&& forall|key: Seq<char>|
                key != "tools"@ && key != "tool_choice"@ && key != "parallel_tool_calls"@ && key
                    != "include_raw_generation"@ ==> #[trigger] r.at(key) == body.at(key)
        }),
{
    chat_keys_differ();
    let t = JsonModel::Array(tools);
    let c1 = body.with("tools"@, t);
    json::only_one_member_is_set(body, "tools"@, t);
    let c2 = c1.with("tool_choice"@, JsonModel::Text("auto"@));
    json::only_one_member_is_set(c1, "tool_choice"@, JsonModel::Text("auto"@));
    let c3 = c2.with("parallel_tool_calls"@, JsonModel::Bool(true));
    json::only_one_member_is_set(c2, "parallel_tool_calls"@, JsonModel::Bool(true));
    let all = if tools.len() == 0 {
        body
    } else {
        c3
    };
    json::only_one_member_is_set(all, "include_raw_generation"@, JsonModel::Bool(true));
    assert forall|key: Seq<char>|
        key != "tools"@ && key != "tool_choice"@ && key != "parallel_tool_calls"@ && key
            != "include_raw_generation"@ implies #[trigger] tool_fields(body, tools, echo).at(key)
        == body.at(key) by {
        assert(c3.at(key) == c2.at(key));
        assert(c2.at(key) == c1.at(key));
        assert(c1.at(key) == body.at(key));
        assert(all.with("include_raw_generation"@, JsonModel::Bool(true)).at(key) == all.at(key));
    }
}

proof fn backend_is_served(
    body: JsonModel,
    backend: Backend,
    s: RequestSettings,
    extra: Option<JsonModel>,
    pin: Option<u64>,
    model: Seq<char>,
    spans: Seq<Vec<u64>>,
    key: Seq<char>,
)
    requires
        body is Object,
    ensures
        ({
            let r = backend_fields(body, backend, s, extra, pin, model, spans);
            &&& r is Object
            &&& backend is LlamaServer ==> {
                &&& pin matches Some(n) ==> r.at("pin_checkpoint_from_end"@) == Some(whole(n as nat))
                &&& pin is None || key != "pin_checkpoint_from_end"@ ==> {
                    &&& leaves_alone(extra, key) ==> r.at(key) == body.at(key)
                    &&& forall|i: int, value: JsonModel|
                        says_last(members_of(extra), i, key, value) ==> r.at(key) == Some(value)
                }
            }
            &&& backend is Vllm ==> {
                &&& r.at("model"@) == Some(JsonModel::Text(model))
                &&& r.at("thinking_budget"@) is None
                &&& key != "model"@ && key != "thinking_budget"@ && key != "vllm_xargs"@ ==> r.at(
                    key,
                ) == body.at(key)
                &&& r.at("vllm_xargs"@) == if vllm_fields(s.thinking_budget, extra, spans)
                    == JsonModel::Object(Seq::empty()) {
                    body.at("vllm_xargs"@)
                } else {
                    Some(vllm_fields(s.thinking_budget, extra, spans))
                }
            }
        }),
{
    chat_keys_differ();
    match backend {
        Backend::LlamaServer => {
            let m = members_of(extra);
            let n = m.len() as int;
            overriding_keeps_the_rest(body, m, n, key);
            let all = overridden(body, m, n);
            match pin {
                Some(p) => {
                    json::only_one_member_is_set(
                        all,
                        "pin_checkpoint_from_end"@,
                        whole(p as nat),
                    );
                },
                None => {},
            }
        },
        Backend::Vllm => {
            let named = body.with("model"@, JsonModel::Text(model));
            json::only_one_member_is_set(body, "model"@, JsonModel::Text(model));
            let m = named->Object_0;
            assert(m.take(m.len() as int) =~= m);
            without_one_key(m, "thinking_budget"@, m.len() as int, key);
            without_one_key(m, "thinking_budget"@, m.len() as int, "model"@);
            without_one_key(m, "thinking_budget"@, m.len() as int, "vllm_xargs"@);
            let bare = JsonModel::Object(without(m, "thinking_budget"@, m.len() as int));
            let xargs = vllm_fields(s.thinking_budget, extra, spans);
            json::only_one_member_is_set(bare, "vllm_xargs"@, xargs);
        },
    }
}

/// Whichever server answers, a request carries the conversation, asks for the answer in
/// pieces with the count of tokens at its end, and says how long the answer may get and how
/// it is to be sampled, unless the extra fields say so themselves.
pub proof fn requests_carry_what_was_said(
    messages: Seq<JsonModel>,
    tools: Seq<JsonModel>,
    s: RequestSettings,
    backend: Backend,
    extra: Option<JsonModel>,
    pin: Option<u64>,
    model: Seq<char>,
    spans: Seq<Vec<u64>>,
    echo: bool,
)
    ensures
        ({
            let r = chat_body(messages, tools, s, backend, extra, pin, model, spans, echo);
            let free = |key: Seq<char>| backend is Vllm || leaves_alone(extra, key);
            &&& free("messages"@) ==> r.at("messages"@) == Some(JsonModel::Array(messages))
            &&& free("stream"@) ==> r.at("stream"@) == Some(JsonModel::Bool(true))
            &&& free("stream_options"@) ==> r.at("stream_options"@) is Some && r.at(
                "stream_options"@,
            ).unwrap().at("include_usage"@) == Some(JsonModel::Bool(true))
            &&& free("max_tokens"@) ==> r.at("max_tokens"@) == Some(
                JsonModel::Number(text::decimal(s.max_output_tokens as nat)),
            )
            &&& free("temperature"@) ==> r.at("temperature"@) == Some(
                JsonModel::Number(s.temperature@),
            )
            &&& free("min_p"@) ==> r.at("min_p"@) == Some(JsonModel::Number(s.min_p@))
            &&& free("top_k"@) ==> r.at("top_k"@) == Some(
                JsonModel::Number(text::signed_decimal(s.top_k as int)),
            )
            &&& free("top_p"@) ==> r.at("top_p"@) == Some(JsonModel::Number(s.top_p@))
        }),
{
    chat_keys_differ();
    chat_base(messages, s);
    let b = chat_fields(messages, s);
    let f = backend_fields(b, backend, s, extra, pin, model, spans);
    backend_is_served(b, backend, s, extra, pin, model, spans, "messages"@);
    backend_is_served(b, backend, s, extra, pin, model, spans, "stream"@);
    backend_is_served(b, backend, s, extra, pin, model, spans, "stream_options"@);
    backend_is_served(b, backend, s, extra, pin, model, spans, "max_tokens"@);
    backend_is_served(b, backend, s, extra, pin, model, spans, "temperature"@);
    backend_is_served(b, backend, s, extra, pin, model, spans, "min_p"@);
    backend_is_served(b, backend, s, extra, pin, model, spans, "top_k"@);
    backend_is_served(b, backend, s, extra, pin, model, spans, "top_p"@);
    tools_are_given(f, tools, echo);
}

/// A request declares the tools and leaves the choice to the model exactly where there are
/// any, and asks for the generation as it came exactly where it is to be logged.
pub proof fn tools_are_declared(
    messages: Seq<JsonModel>,
    tools: Seq<JsonModel>,
    s: RequestSettings,
    backend: Backend,
    extra: Option<JsonModel>,
    pin: Option<u64>,
    model: Seq<char>,
    spans: Seq<Vec<u64>>,
    echo: bool,
)
    ensures
        ({
            let r = chat_body(messages, tools, s, backend, extra, pin, model, spans, echo);
            let free = |key: Seq<char>| backend is Vllm || leaves_alone(extra, key);
            &&& tools.len() > 0 ==> {
                &&& r.at("tools"@) == Some(JsonModel::Array(tools))
                &&& r.at("tool_choice"@) == Some(JsonModel::Text("auto"@))
                &&& r.at("parallel_tool_calls"@) == Some(JsonModel::Bool(true))
            }
            &&& tools.len() == 0 ==> {
                &&& free("tools"@) ==> r.at("tools"@) is None
                &&& free("tool_choice"@) ==> r.at("tool_choice"@) is None
                &&& free("parallel_tool_calls"@) ==> r.at("parallel_tool_calls"@) is None
            }
            &&& echo ==> r.at("include_raw_generation"@) == Some(JsonModel::Bool(true))
            &&& !echo && free("include_raw_generation"@) ==> r.at("include_raw_generation"@) is None
        }),
{
    chat_keys_differ();
    chat_base(messages, s);
    let b = chat_fields(messages, s);
    let f = backend_fields(b, backend, s, extra, pin, model, spans);
    backend_is_served(b, backend, s, extra, pin, model, spans, "tools"@);
    backend_is_served(b, backend, s, extra, pin, model, spans, "tool_choice"@);
    backend_is_served(b, backend, s, extra, pin, model, spans, "parallel_tool_calls"@);
    backend_is_served(b, backend, s, extra, pin, model, spans, "include_raw_generation"@);
    tools_are_given(f, tools, echo);
}

/// The server that takes extra fields in the request itself gets each of them there, the
/// last of those that share a name, beside the thinking budget and the place of the pin.
pub proof fn extra_fields_are_sent(
    messages: Seq<JsonModel>,
    tools: Seq<JsonModel>,
    s: RequestSettings,
    extra: Option<JsonModel>,
    pin: Option<u64>,
    model: Seq<char>,
    spans: Seq<Vec<u64>>,
    echo: bool,
    i: int,
    key: Seq<char>,
    value: JsonModel,
)
    requires
        key != "tools"@ && key != "tool_choice"@ && key != "parallel_tool_calls"@,
        key != "include_raw_generation"@,
        key != "pin_checkpoint_from_end"@,
    ensures
        ({
            let r = chat_body(
                messages,
                tools,
                s,
                Backend::LlamaServer,
                extra,
                pin,
                model,
                spans,
                echo,
            );
            &&& says_last(members_of(extra), i, key, value) ==> r.at(key) == Some(value)
            &&& leaves_alone(extra, "thinking_budget"@) ==> r.at("thinking_budget"@) == Some(
                JsonModel::Number(text::decimal(s.thinking_budget as nat)),
            )
            &&& pin matches Some(n) ==> r.at("pin_checkpoint_from_end"@) == Some(
                JsonModel::Number(text::decimal(n as nat)),
            )
            &&& pin is None && leaves_alone(extra, "pin_checkpoint_from_end"@) ==> r.at(
                "pin_checkpoint_from_end"@,
            ) is None
            &&& leaves_alone(extra, "vllm_xargs"@) ==> r.at("vllm_xargs"@) is None
        }),
{
    chat_keys_differ();
    chat_base(messages, s);
    let b = chat_fields(messages, s);
    let back = Backend::LlamaServer;
    let f = backend_fields(b, back, s, extra, pin, model, spans);
    backend_is_served(b, back, s, extra, pin, model, spans, key);
    backend_is_served(b, back, s, extra, pin, model, spans, "thinking_budget"@);
    backend_is_served(b, back, s, extra, pin, model, spans, "pin_checkpoint_from_end"@);
    backend_is_served(b, back, s, extra, pin, model, spans, "vllm_xargs"@);
    tools_are_given(f, tools, echo);
}

/// The server that takes them in a member of their own gets the model's name, no thinking
/// budget beside it, and in that member the budget, where there is one, and the penalized
/// spans with the settings given for them; it gets no such member where it would be empty.
pub proof fn penalties_are_sent_apart(
    messages: Seq<JsonModel>,
    tools: Seq<JsonModel>,
    s: RequestSettings,
    extra: Option<JsonModel>,
    pin: Option<u64>,
    model: Seq<char>,
    spans: Seq<Vec<u64>>,
    echo: bool,
)
    ensures
        ({
            let r = chat_body(messages, tools, s, Backend::Vllm, extra, pin, model, spans, echo);
            let penalty = extra_at(extra, "ngram_penalty"@);
            let penalized = penalty is Some && spans.len() > 0;
            &&& r.at("model"@) == Some(JsonModel::Text(model))
            &&& r.at("thinking_budget"@) is None
            &&& r.at("pin_checkpoint_from_end"@) is None
            &&& r.at("vllm_xargs"@) is Some <==> s.thinking_budget > 0 || penalized
            &&& r.at("vllm_xargs"@) matches Some(x) ==> {
                &&& x.at("thinking_budget"@) == if s.thinking_budget > 0 {
                    Some(JsonModel::Number(text::decimal(s.thinking_budget as nat)))
                } else {
                    None
                }
                &&& x.at("ngram_penalty_spans"@) == if penalized {
                    Some(JsonModel::Text(text::join(id_rows(spans), ";"@)))
                } else {
                    None
                }
                &&& x.at("ngram_penalty_start_n"@) == if penalized {
                    penalty.unwrap().at("start_n"@)
                } else {
                    None
                }
                &&& x.at("ngram_penalty_scale"@) == if penalized {
                    penalty.unwrap().at("scale"@)
                } else {
                    None
                }
                &&& x.at("ngram_penalty_max"@) == if penalized {
                    penalty.unwrap().at("max"@)
                } else {
                    None
                }
            }
        }),
{
    chat_keys_differ();
    penalty_keys_differ();
    chat_base(messages, s);
    let b = chat_fields(messages, s);
    let back = Backend::Vllm;
    let f = backend_fields(b, back, s, extra, pin, model, spans);
    backend_is_served(b, back, s, extra, pin, model, spans, "pin_checkpoint_from_end"@);
    tools_are_given(f, tools, echo);
    let none = JsonModel::Object(Seq::empty());
    let budget = whole(s.thinking_budget as nat);
    json::only_one_member_is_set(none, "thinking_budget"@, budget);
    let first = if s.thinking_budget > 0 {
        none.with("thinking_budget"@, budget)
    } else {
        none
    };
    assert(none.at("thinking_budget"@) is None);
    match extra_at(extra, "ngram_penalty"@) {
        Some(p) if spans.len() > 0 => {
            let rows = JsonModel::Text(text::join(id_rows(spans), ";"@));
            let c1 = first.with("ngram_penalty_spans"@, rows);
            json::only_one_member_is_set(first, "ngram_penalty_spans"@, rows);
            let c2 = with_penalty_part(c1, p, "start_n"@, "ngram_penalty_start_n"@);
            penalty_part_is_set(c1, p, "start_n"@, "ngram_penalty_start_n"@);
            let c3 = with_penalty_part(c2, p, "scale"@, "ngram_penalty_scale"@);
            penalty_part_is_set(c2, p, "scale"@, "ngram_penalty_scale"@);
            penalty_part_is_set(c3, p, "max"@, "ngram_penalty_max"@);
        },
        _ => {},
    }
}

proof fn penalty_part_is_set(xargs: JsonModel, penalty: JsonModel, key: Seq<char>, name: Seq<char>)
    requires
        xargs is Object,
        xargs.at(name) is None,
    ensures
        with_penalty_part(xargs, penalty, key, name) is Object,
        with_penalty_part(xargs, penalty, key, name).at(name) == penalty.at(key),
        forall|other: Seq<char>|
            other != name ==> #[trigger] with_penalty_part(xargs, penalty, key, name).at(other)
                == xargs.at(other),
{
    match penalty.at(key) {
        Some(v) => {
            json::only_one_member_is_set(xargs, name, v);
        },
        None => {},
    }
}

pub open spec fn decimals_of(ids: Seq<u64>) -> Seq<Seq<char>> {
    ids.map_values(|n: u64| text::decimal(n as nat))
}

/// The tokens of a span are written as their numbers, in order, with a comma between two.
pub proof fn token_numbers_are_listed(ids: Seq<u64>)
    ensures
        id_list(ids, ids.len() as int) == text::join(decimals_of(ids), ","@),
{
    let d = decimals_of(ids);
    listed_upto(ids, ids.len() as int);
    assert(d.take(ids.len() as int) =~= d);
}

proof fn listed_upto(ids: Seq<u64>, n: int)
    requires
        0 <= n <= ids.len(),
    ensures
        id_list(ids, n) == text::join(decimals_of(ids).take(n), ","@),
    decreases n,
{
    let d = decimals_of(ids);
    if n > 1 {
        listed_upto(ids, n - 1);
        assert(d.take(n).drop_last() =~= d.take(n - 1));
    } else if n == 1 {
        assert(d.take(1).len() == 1);
    }
}

/// A request for a raw completion carries the text that was rendered, with its images beside
/// it where there are any, asks for pieces and for the prompt's state to be kept, and says
/// how long the answer may get and how it is to be sampled.
pub proof fn raw_requests_carry_the_prompt(
    rendered: Seq<char>,
    media: Seq<Seq<char>>,
    s: RequestSettings,
    grammar: Option<Seq<char>>,
    pin: Option<u64>,
)
    ensures
        ({
            let r = raw_fields(rendered, media, s, grammar, pin);
            &&& media.len() == 0 ==> r.at("prompt"@) == Some(JsonModel::Text(rendered))
            &&& media.len() > 0 ==> r.at("prompt"@) is Some && {
                let p = r.at("prompt"@).unwrap();
                &&& p.at("prompt_string"@) == Some(JsonModel::Text(rendered))
                &&& p.at("multimodal_data"@) == Some(
                    JsonModel::Array(media.map_values(|m: Seq<char>| JsonModel::Text(m))),
                )
            }
            &&& r.at("n_predict"@) == Some(
                JsonModel::Number(text::decimal(s.max_output_tokens as nat)),
            )
            &&& r.at("thinking_budget"@) == Some(
                JsonModel::Number(text::decimal(s.thinking_budget as nat)),
            )
            &&& r.at("cache_prompt"@) == Some(JsonModel::Bool(true))
            &&& r.at("stream"@) == Some(JsonModel::Bool(true))
            &&& r.at("temperature"@) == Some(JsonModel::Number(s.temperature@))
            &&& r.at("min_p"@) == Some(JsonModel::Number(s.min_p@))
            &&& r.at("top_k"@) == Some(JsonModel::Number(text::signed_decimal(s.top_k as int)))
            &&& r.at("top_p"@) == Some(JsonModel::Number(s.top_p@))
        }),
{
    raw_keys_differ();
    let b = raw_base(rendered, media, s);
    raw_rest(b, grammar, pin);
}

/// A grammar is sent to take hold once a tool call begins, and no member of its kind where
/// there is none; the pin is sent where one is set.
pub proof fn grammars_wait_for_a_tool_call(
    rendered: Seq<char>,
    media: Seq<Seq<char>>,
    s: RequestSettings,
    grammar: Option<Seq<char>>,
    pin: Option<u64>,
)
    ensures
        ({
            let r = raw_fields(rendered, media, s, grammar, pin);
            &&& r.at("grammar"@) == match grammar {
                Some(g) => Some(JsonModel::Text(g)),
                None => None,
            }
            &&& r.at("grammar_lazy"@) == match grammar {
                Some(_) => Some(JsonModel::Bool(true)),
                None => None,
            }
            &&& grammar is None ==> r.at("grammar_triggers"@) is None && r.at(
                "preserved_tokens"@,
            ) is None
            &&& grammar is Some ==> {
                &&& r.at("preserved_tokens"@) == Some(
                    JsonModel::Array(seq![JsonModel::Text("<tool_call>"@)]),
                )
                &&& r.at("grammar_triggers"@) matches Some(JsonModel::Array(t)) && t.len() == 1
                    && t[0].at("type"@) == Some(JsonModel::Number(text::decimal(1)))
                    && t[0].at("value"@) == Some(JsonModel::Text("<tool_call>"@))
            }
            &&& r.at("pin_checkpoint_from_end"@) == match pin {
                Some(n) => Some(JsonModel::Number(text::decimal(n as nat))),
                None => None,
            }
        }),
{
    raw_keys_differ();
    let b = raw_base(rendered, media, s);
    raw_rest(b, grammar, pin);
}

proof fn raw_base(rendered: Seq<char>, media: Seq<Seq<char>>, s: RequestSettings) -> (b: JsonModel)
    ensures
        b is Object,
        forall|grammar: Option<Seq<char>>, pin: Option<u64>| #[trigger]
            raw_fields(rendered, media, s, grammar, pin) == raw_end(b, grammar, pin),
        b.at("prompt"@) == Some(raw_prompt(rendered, media)),
        media.len() > 0 ==> {
            let p = raw_prompt(rendered, media);
            &&& p.at("prompt_string"@) == Some(JsonModel::Text(rendered))
            &&& p.at("multimodal_data"@) == Some(
                JsonModel::Array(media.map_values(|m: Seq<char>| JsonModel::Text(m))),
            )
        },
        b.at("n_predict"@) == Some(whole(s.max_output_tokens as nat)),
        b.at("thinking_budget"@) == Some(whole(s.thinking_budget as nat)),
        b.at("cache_prompt"@) == Some(JsonModel::Bool(true)),
        b.at("stream"@) == Some(JsonModel::Bool(true)),
        b.at("temperature"@) == Some(JsonModel::Number(s.temperature@)),
        b.at("min_p"@) == Some(JsonModel::Number(s.min_p@)),
        b.at("top_k"@) == Some(JsonModel::Number(text::signed_decimal(s.top_k as int))),
        b.at("top_p"@) == Some(JsonModel::Number(s.top_p@)),
        b.at("grammar"@) is None,
        b.at("grammar_lazy"@) is None,
        b.at("grammar_triggers"@) is None,
        b.at("preserved_tokens"@) is None,
        b.at("pin_checkpoint_from_end"@) is None,
{
    raw_keys_differ();
    let none = JsonModel::Object(Seq::empty());
    let p = raw_prompt(rendered, media);
    let text = JsonModel::Text(rendered);
    let data = pathology::text_array(media);
    json::only_one_member_is_set(none, "prompt_string"@, text);
    json::only_one_member_is_set(none.with("prompt_string"@, text), "multimodal_data"@, data);
    assert(data == JsonModel::Array(media.map_values(|m: Seq<char>| JsonModel::Text(m))));
    let b1 = none.with("prompt"@, p);
    json::only_one_member_is_set(none, "prompt"@, p);
    let b2 = b1.with("n_predict"@, whole(s.max_output_tokens as nat));
    json::only_one_member_is_set(b1, "n_predict"@, whole(s.max_output_tokens as nat));
    let b3 = b2.with("thinking_budget"@, whole(s.thinking_budget as nat));
    json::only_one_member_is_set(b2, "thinking_budget"@, whole(s.thinking_budget as nat));
    let b4 = b3.with("cache_prompt"@, JsonModel::Bool(true));
    json::only_one_member_is_set(b3, "cache_prompt"@, JsonModel::Bool(true));
    let b5 = b4.with("stream"@, JsonModel::Bool(true));
    json::only_one_member_is_set(b4, "stream"@, JsonModel::Bool(true));
    sampling_is_given(b5, s);
    sampled(b5, s)
}

spec fn raw_end(b: JsonModel, grammar: Option<Seq<char>>, pin: Option<u64>) -> JsonModel {
    let ruled = match grammar {
        Some(g) => lazy_grammar(b, g),
        None => b,
    };
    match pin {
        Some(n) => ruled.with("pin_checkpoint_from_end"@, whole(n as nat)),
        None => ruled,
    }
}

proof fn raw_rest(b: JsonModel, grammar: Option<Seq<char>>, pin: Option<u64>)
    requires
        b is Object,
    ensures
        ({
            let r = raw_end(b, grammar, pin);
            &&& grammar is None ==> {
                &&& r.at("grammar"@) == b.at("grammar"@)
                &&& r.at("grammar_lazy"@) == b.at("grammar_lazy"@)
                &&& r.at("grammar_triggers"@) == b.at("grammar_triggers"@)
                &&& r.at("preserved_tokens"@) == b.at("preserved_tokens"@)
            }
            &&& grammar matches Some(g) ==> {
                &&& r.at("grammar"@) == Some(JsonModel::Text(g))
                &&& r.at("grammar_lazy"@) == Some(JsonModel::Bool(true))
                &&& r.at("preserved_tokens"@) == Some(
                    JsonModel::Array(seq![JsonModel::Text("<tool_call>"@)]),
                )
                &&& r.at("grammar_triggers"@) matches Some(JsonModel::Array(t)) && t.len() == 1
                    && t[0].at("type"@) == Some(whole(1)) && t[0].at("value"@) == Some(
                    JsonModel::Text("<tool_call>"@),
                )
            }
            &&& r.at("pin_checkpoint_from_end"@) == match pin {
                Some(n) => Some(whole(n as nat)),
                None => b.at("pin_checkpoint_from_end"@),
            }
            &&& forall|key: Seq<char>|
                key != "grammar"@ && key != "grammar_lazy"@ && key != "grammar_triggers"@ && key
                    != "preserved_tokens"@ && key != "pin_checkpoint_from_end"@ ==> #[trigger] r.at(
                    key,
                ) == b.at(key)
        }),
{
    raw_keys_differ();
    let none = JsonModel::Object(Seq::empty());
    let call = JsonModel::Text("<tool_call>"@);
    let t1 = none.with("type"@, whole(1));
    json::only_one_member_is_set(none, "type"@, whole(1));
    json::only_one_member_is_set(t1, "value"@, call);
    let t = JsonModel::Array(seq![t1.with("value"@, call)]);
    let kept = JsonModel::Array(seq![call]);
    match grammar {
        Some(g) => {
            let c1 = b.with("grammar"@, JsonModel::Text(g));
            json::only_one_member_is_set(b, "grammar"@, JsonModel::Text(g));
            let c2 = c1.with("grammar_lazy"@, JsonModel::Bool(true));
            json::only_one_member_is_set(c1, "grammar_lazy"@, JsonModel::Bool(true));
            let c3 = c2.with("grammar_triggers"@, t);
            json::only_one_member_is_set(c2, "grammar_triggers"@, t);
            let c4 = c3.with("preserved_tokens"@, kept);
            json::only_one_member_is_set(c3, "preserved_tokens"@, kept);
            assert(c4 == lazy_grammar(b, g));
            pinned(c4, pin);
            assert forall|key: Seq<char>|
                key != "grammar"@ && key != "grammar_lazy"@ && key != "grammar_triggers"@ && key
                    != "preserved_tokens"@ && key
                    != "pin_checkpoint_from_end"@ implies #[trigger] raw_end(b, grammar, pin).at(
                key,
            ) == b.at(key) by {
                assert(c4.at(key) == c3.at(key));
                assert(c3.at(key) == c2.at(key));
                assert(c2.at(key) == c1.at(key));
            }
        },
        None => {
            pinned(b, pin);
        },
    }
}

proof fn pinned(b: JsonModel, pin: Option<u64>)
    requires
        b is Object,
    ensures
        pin matches Some(n) ==> {
            let r = b.with("pin_checkpoint_from_end"@, whole(n as nat));
            &&& r.at("pin_checkpoint_from_end"@) == Some(whole(n as nat))
            &&& forall|key: Seq<char>|
                key != "pin_checkpoint_from_end"@ ==> #[trigger] r.at(key) == b.at(key)
        },
{
    match pin {
        Some(n) => {
            json::only_one_member_is_set(b, "pin_checkpoint_from_end"@, whole(n as nat));
        },
        None => {},
    }
}

/// A request for the tokens of a span says the model and the span, under the names that
/// either server reads, and asks for no tokens around it.
pub proof fn spans_are_sent_to_be_tokenized(model: Seq<char>, span: Seq<char>)
    ensures
        ({
            let r = tokenize_fields(model, span);
            &&& r.at("model"@) == Some(JsonModel::Text(model))
            &&& r.at("prompt"@) == Some(JsonModel::Text(span))
            &&& r.at("content"@) == Some(JsonModel::Text(span))
            &&& r.at("add_special_tokens"@) == Some(JsonModel::Bool(false))
            &&& r.at("add_special"@) == Some(JsonModel::Bool(false))
        }),
{
    tokenize_keys_differ();
    let none = JsonModel::Object(Seq::empty());
    let t = JsonModel::Text(span);
    let no = JsonModel::Bool(false);
    json::only_one_member_is_set(none, "model"@, JsonModel::Text(model));
    let b1 = none.with("model"@, JsonModel::Text(model));
    json::only_one_member_is_set(b1, "prompt"@, t);
    let b2 = b1.with("prompt"@, t);
    json::only_one_member_is_set(b2, "add_special_tokens"@, no);
    let b3 = b2.with("add_special_tokens"@, no);
    json::only_one_member_is_set(b3, "content"@, t);
    let b4 = b3.with("content"@, t);
    json::only_one_member_is_set(b4, "add_special"@, no);
}

/// The root of a server is the address that was given, less a last `/v1` and the slashes
/// behind and before it: an address that ends in neither is its own root, and what is put
/// behind a root is taken off again.
pub proof fn addresses_lead_to_their_root(root: Seq<char>)
    requires
        root.len() > 0 ==> root.last() != '/',
        !text::ends_in(root, "/v1"@),
    ensures
        root_of(root) == root,
        root_of(root + "/v1"@) == root,
        root_of(root + "/v1/"@) == root,
        root_of(root + "//v1"@) == root,
{
    reveal_strlit("/v1");
    reveal_strlit("/v1/");
    reveal_strlit("//v1");
    let v1 = root + "/v1"@;
    assert(v1.last() == '1');
    assert(v1.skip(v1.len() - 3) =~= "/v1"@);
    assert(v1.take(v1.len() - 3) =~= root);
    assert(text::ends_in(v1, "/v1"@));
    let slashed = root + "/v1/"@;
    assert(slashed.drop_last() =~= v1);
    trailing_slash_does_not_matter(v1);
    assert(slashed =~= v1.push('/'));
    let double = root + "//v1"@;
    assert(double.last() == '1');
    assert(double.skip(double.len() - 3) =~= "/v1"@);
    assert(text::ends_in(double, "/v1"@));
    let front = double.take(double.len() - 3);
    assert(front =~= root.push('/'));
    assert(front.drop_last() =~= root);
    reveal_with_fuel(text::drop_back, 3);
}

/// The texts among the items are all penalized, in their order, and nothing else is.
pub proof fn spans_are_the_texts(items: Seq<JsonModel>, texts: Seq<Seq<char>>)
    ensures
        texts_in(
            texts.map_values(|t: Seq<char>| JsonModel::Text(t)),
            texts.len() as int,
        ) == texts,
        forall|t: Seq<char>|
            texts_in(items, items.len() as int).contains(t) <==> items.contains(JsonModel::Text(t)),
{
    all_texts(texts, texts.len() as int);
    assert(texts.take(texts.len() as int) =~= texts);
    assert forall|t: Seq<char>|
        texts_in(items, items.len() as int).contains(t) <==> items.contains(JsonModel::Text(t)) by {
        text_among(items, items.len() as int, t);
        assert(items.take(items.len() as int) =~= items);
    }
}

proof fn all_texts(texts: Seq<Seq<char>>, n: int)
    requires
        0 <= n <= texts.len(),
    ensures
        texts_in(texts.map_values(|t: Seq<char>| JsonModel::Text(t)), n) == texts.take(n),
    decreases n,
{
    if n > 0 {
        all_texts(texts, n - 1);
        assert(texts.take(n) =~= texts.take(n - 1).push(texts[n - 1]));
    }
}

proof fn text_among(items: Seq<JsonModel>, n: int, t: Seq<char>)
    requires
        0 <= n <= items.len(),
    ensures
        texts_in(items, n).contains(t) <==> items.take(n).contains(JsonModel::Text(t)),
    decreases n,
{
    if n > 0 {
        text_among(items, n - 1, t);
        let before = texts_in(items, n - 1);
        let wanted = JsonModel::Text(t);
        assert(items.take(n) =~= items.take(n - 1).push(items[n - 1]));
        if items.take(n - 1).contains(wanted) {
            let i = choose|i: int| 0 <= i < n - 1 && #[trigger] items.take(n - 1)[i] == wanted;
            assert(items.take(n)[i] == wanted);
        }
        if items[n - 1] == wanted {
            assert(items.take(n)[n - 1] == wanted);
        }
        match items[n - 1].text() {
            Some(x) => {
                let after = before.push(x);
                if before.contains(t) {
                    let i = choose|i: int| 0 <= i < before.len() && before[i] == t;
                    assert(after[i] == t);
                }
                if x == t {
                    assert(after[before.len() as int] == t);
                }
            },
            None => {},
        }
    }
}

/// The waits between attempts to connect double, from half a second on.
pub proof fn waits_between_attempts_double(k: int)
    requires
        1 <= k < 3,
    ensures
        attempt_delays().len() == 4,
        attempt_delays()[0] == 0,
        attempt_delays()[1] == 500,
        attempt_delays()[k + 1] == 2 * attempt_delays()[k],
{
}

} // verus!
