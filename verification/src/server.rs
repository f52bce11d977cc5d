//! The running model server: whether it may be attached to, what its answers mean,
//! and what is prepared in its cache.

use crate::json;
use crate::json::Json;
use crate::json::JsonModel;
use crate::text;
use vstd::prelude::*;
use vstd::string::*;

verus! {

// ---------------------------------------------------------------------------
// Attaching to a server.

/// What a health check found.
#[derive(Debug)]
pub enum Health {
    /// The server is ready.
    Ready,
    /// Something answers, but is not ready.
    NotReady,
    /// Nothing listens.
    Refused,
    /// It could not be found out.
    Unknown(String),
}

/// What to do at startup.
#[derive(Debug)]
pub enum StartupStep {
    /// Check the model of the server and attach to it.
    Attach,
    /// Launch a server.
    Launch,
    Fail(String),
}

/// What to do at startup: a server is launched only where nothing listens.
pub fn startup_step(health: &Health) -> (r: StartupStep)
    ensures
        match health {
            Health::Ready => r is Attach,
            Health::Refused => r is Launch,
            Health::NotReady => r matches StartupStep::Fail(m) && m@
                == "Existing model server is loading or unhealthy. Retry after it is ready; no replacement was launched."@,
            Health::Unknown(e) => r matches StartupStep::Fail(m) && m@
                == "Could not determine model server status: "@ + e@
                + ". No replacement was launched."@,
        },
{
    match health {
        Health::Ready => StartupStep::Attach,
        Health::Refused => StartupStep::Launch,
        Health::NotReady => StartupStep::Fail(
            "Existing model server is loading or unhealthy. Retry after it is ready; no replacement was launched.".to_string(),
        ),
        Health::Unknown(e) => {
            let mut m = "Could not determine model server status: ".to_string();
            m.append(e.as_str());
            m.append(". No replacement was launched.");
            StartupStep::Fail(m)
        },
    }
}

/// What to do before a download.
#[derive(Debug)]
pub enum PreflightStep {
    /// Check the model of the server.
    Check,
    /// Nothing is in the way.
    Pass,
    Fail(String),
}

/// What to do before a download: a server with another model must be seen before
/// anything is fetched.
pub fn preflight_step(health: &Health) -> (r: PreflightStep)
    ensures
        match health {
            Health::Ready => r is Check,
            Health::Refused => r is Pass,
            Health::NotReady => r matches PreflightStep::Fail(m) && m@
                == "Existing model server is loading or unhealthy. Retry after it is ready; no download or replacement was started."@,
            Health::Unknown(e) => r matches PreflightStep::Fail(m) && m@
                == "Could not determine model server status: "@ + e@
                + "; no download was started."@,
        },
{
    match health {
        Health::Ready => PreflightStep::Check,
        Health::Refused => PreflightStep::Pass,
        Health::NotReady => PreflightStep::Fail(
            "Existing model server is loading or unhealthy. Retry after it is ready; no download or replacement was started.".to_string(),
        ),
        Health::Unknown(e) => {
            let mut m = "Could not determine model server status: ".to_string();
            m.append(e.as_str());
            m.append("; no download was started.");
            PreflightStep::Fail(m)
        },
    }
}

/// What comes next while a server that was launched gets ready.
#[derive(Debug)]
pub enum WaitStep {
    Done,
    Wait,
    Fail(String),
}

/// The error of a server that ended before it was ready.
pub open spec fn ended_early(status: Seq<char>, log: Seq<char>, tail: Seq<char>) -> Seq<char> {
    "llama-server exited during startup ("@ + status + "). Last lines of "@ + log + ":\n"@ + tail
}

/// The error of a server that takes too long.
pub open spec fn never_ready(base_url: Seq<char>, log: Seq<char>) -> Seq<char> {
    "llama-server did not become ready at "@ + base_url
        + " within the startup timeout; its output is in "@ + log
}

/// What comes next while a server gets ready: nothing where it is, an error where it has
/// ended (`exited` says how) or the time is over, else another wait. `tail` is the end of
/// its log.
pub fn wait_step(
    ready: bool,
    exited: Option<&str>,
    past_deadline: bool,
    base_url: &str,
    log: &str,
    tail: &str,
) -> (r: WaitStep)
    ensures
        if ready {
            r is Done
        } else {
            match exited {
                Some(status) => r matches WaitStep::Fail(m) && m@ == ended_early(
                    status@,
                    log@,
                    tail@,
                ),
                None => if past_deadline {
                    r matches WaitStep::Fail(m) && m@ == never_ready(base_url@, log@)
                } else {
                    r is Wait
                },
            }
        },
{
    if ready {
        return WaitStep::Done;
    }
    match exited {
        Some(status) => {
            let mut m = "llama-server exited during startup (".to_string();
            m.append(status);
            m.append("). Last lines of ");
            m.append(log);
            m.append(":\n");
            m.append(tail);
            WaitStep::Fail(m)
        },
        None => if past_deadline {
            let mut m = "llama-server did not become ready at ".to_string();
            m.append(base_url);
            m.append(" within the startup timeout; its output is in ");
            m.append(log);
            WaitStep::Fail(m)
        } else {
            WaitStep::Wait
        },
    }
}

/// What a try at a lock gave.
#[derive(Debug, Clone, Copy, PartialEq, Eq, Structural)]
pub enum LockTry {
    Taken,
    /// Another process holds it.
    Held,
    /// It cannot be tried at all.
    Broken,
}

/// What comes next behind a try at a lock.
#[derive(Debug)]
pub enum LockStep {
    Done,
    Wait,
    /// The error of the try stands.
    Broken,
    /// It was held for too long.
    Fail(String),
}

/// What comes next behind a try at a lock: only one that another process holds is waited
/// for, and not past the deadline.
pub fn lock_step(tried: LockTry, past_deadline: bool) -> (r: LockStep)
    ensures
        match tried {
            LockTry::Taken => r is Done,
            LockTry::Broken => r is Broken,
            LockTry::Held => if past_deadline {
                r matches LockStep::Fail(m) && m@
                    == "Another Millie startup or download is still in progress; retry after it finishes."@
            } else {
                r is Wait
            },
        },
{
    match tried {
        LockTry::Taken => LockStep::Done,
        LockTry::Broken => LockStep::Broken,
        LockTry::Held => if past_deadline {
            LockStep::Fail(
                "Another Millie startup or download is still in progress; retry after it finishes.".to_string(),
            )
        } else {
            LockStep::Wait
        },
    }
}

/// The vision mode that a server reports.
pub open spec fn reported_vision(props: JsonModel) -> Option<bool> {
    match props.at("modalities"@) {
        Some(m) => m.flag_at("vision"@),
        None => None,
    }
}

pub open spec fn mode_word(on: bool) -> Seq<char> {
    if on {
        "on"@
    } else {
        "off"@
    }
}

pub open spec fn vision_conflict(running: bool, requested: bool) -> Seq<char> {
    "A model server with different vision mode is already running (running: "@ + mode_word(running)
        + ", requested: "@ + mode_word(requested)
        + "). Close existing Millie sessions before changing vision mode. An independently launched server must be stopped by its owner."@
}

/// The model file that a server with the requested vision mode serves; else why it
/// cannot be attached to.
pub open spec fn attachable_model(props: JsonModel, vision: bool) -> Result<Seq<char>, Seq<char>> {
    match reported_vision(props) {
        None => Err(
            "The existing server does not report its vision mode; cannot safely attach."@,
        ),
        Some(running) => if running != vision {
            Err(vision_conflict(running, vision))
        } else {
            match props.text_at("model_path"@) {
                Some(path) => Ok(path),
                None => Err(
                    "The existing server does not report its model path; cannot safely verify the selected model."@,
                ),
            }
        },
    }
}

fn word(on: bool) -> (r: &'static str)
    ensures
        r@ == mode_word(on),
{
    if on {
        "on"
    } else {
        "off"
    }
}

/// The model file that a server with the requested vision mode serves.
pub fn served_model_path(props: &Json, vision: bool) -> (r: Result<String, String>)
    ensures
        match attachable_model(props@, vision) {
            Ok(p) => r matches Ok(s) && s@ == p,
            Err(e) => r matches Err(m) && m@ == e,
        },
{
    let running: Option<bool> = match props.get("modalities") {
        Some(m) => m.bool_at("vision"),
        None => None,
    };
    match running {
        None => Err(
            "The existing server does not report its vision mode; cannot safely attach.".to_string(),
        ),
        Some(running) => {
            if running != vision {
                let mut m =
                    "A model server with different vision mode is already running (running: ".to_string();
                m.append(word(running));
                m.append(", requested: ");
                m.append(word(vision));
                m.append(
                    "). Close existing Millie sessions before changing vision mode. An independently launched server must be stopped by its owner.",
                );
                return Err(m);
            }
            match props.str_at("model_path") {
                Some(p) => Ok(p.to_string()),
                None => Err(
                    "The existing server does not report its model path; cannot safely verify the selected model.".to_string(),
                ),
            }
        },
    }
}

/// Whether a server may be attached to. `same` says whether the file that it
/// serves, in full, is the one that is wanted.
pub fn check_model_path(same: bool, base_url: &str, served: &str) -> (r: Result<(), String>)
    ensures
        if same {
            r is Ok
        } else {
            r matches Err(m) && m@ == "A different model is already running at "@ + base_url@
                + " ("@ + served@
                + "). Close existing Millie sessions before launching another model. An independently launched server must be stopped by its owner."@
        },
{
    if same {
        return Ok(());
    }
    let mut m = "A different model is already running at ".to_string();
    m.append(base_url);
    m.append(" (");
    m.append(served);
    m.append(
        "). Close existing Millie sessions before launching another model. An independently launched server must be stopped by its owner.",
    );
    Err(m)
}

/// A server is attached to only with the vision mode that is requested, in both
/// directions.
pub proof fn attachment_needs_the_same_vision_mode(props: JsonModel, vision: bool)
    requires
        attachable_model(props, vision) is Ok,
    ensures
        reported_vision(props) == Some(vision),
        attachable_model(props, !vision) is Err,
{
}

/// What the supervisor replied: whether this session owns the server; else its
/// error.
pub open spec fn supervisor_reply(reply: JsonModel) -> Result<bool, Seq<char>> {
    match reply.text_at("error"@) {
        Some(e) => Err(e),
        None => Ok(reply.flag_at("owned"@) == Some(true)),
    }
}

/// What the supervisor replied.
pub fn read_supervisor_reply(reply: &Json) -> (r: Result<bool, String>)
    ensures
        match supervisor_reply(reply@) {
            Ok(b) => r matches Ok(c) && c == b,
            Err(e) => r matches Err(m) && m@ == e,
        },
{
    match reply.str_at("error") {
        Some(e) => Err(e.to_string()),
        None => match reply.bool_at("owned") {
            Some(b) => Ok(b),
            None => Ok(false),
        },
    }
}

/// The line that the supervisor replies with when it owns the server or not.
pub fn owned_reply(owned: bool) -> (r: Json)
    ensures
        r@ == JsonModel::Object(Seq::empty()).with("owned"@, JsonModel::Bool(owned)),
        supervisor_reply(r@) == Ok::<bool, Seq<char>>(owned),
{
    let r = Json::object().with("owned", Json::Bool(owned));
    proof {
        let none = JsonModel::Object(Seq::empty());
        json::with_sets_one_member(none, "owned"@, JsonModel::Bool(owned), "error"@);
        reveal_strlit("owned");
        reveal_strlit("error");
        assert("owned"@[0] != "error"@[0]);
        assert(none.at("error"@) is None);
    }
    r
}

/// The line that the supervisor replies with on an error.
pub fn error_reply(error: &str) -> (r: Json)
    ensures
        r@ == JsonModel::Object(Seq::empty()).with("error"@, JsonModel::Text(error@)),
        supervisor_reply(r@) == Err::<bool, Seq<char>>(error@),
{
    let r = Json::object().with("error", Json::text(error));
    proof {
        json::with_sets_one_member(
            JsonModel::Object(Seq::empty()),
            "error"@,
            JsonModel::Text(error@),
            "error"@,
        );
    }
    r
}

/// The name of the lock that a port belongs to.
pub fn endpoint_lock_name(port: u16) -> (r: String)
    ensures
        r@ == "millie-llama-server-"@ + text::decimal(port as nat) + ".lock"@,
{
    let mut out = "millie-llama-server-".to_string();
    out.append(text::decimal_string(port as u128).as_str());
    out.append(".lock");
    out
}

/// The context size that a server reports.
pub open spec fn context_size(props: JsonModel) -> Option<nat> {
    match props.at("default_generation_settings"@) {
        Some(s) => match s.at("n_ctx"@) {
            Some(n) => match n.whole() {
                Some(v) if v <= u32::MAX => Some(v),
                _ => None,
            },
            None => None,
        },
        None => None,
    }
}

/// The context size that a server reports.
pub fn server_ctx_size(props: &Json) -> (r: Option<u32>)
    ensures
        match r {
            Some(n) => context_size(props@) == Some(n as nat),
            None => context_size(props@) is None,
        },
{
    match props.get("default_generation_settings") {
        Some(s) => match s.get("n_ctx") {
            Some(n) => match n.as_u64() {
                Some(v) => if v <= u32::MAX as u64 {
                    Some(v as u32)
                } else {
                    None
                },
                None => None,
            },
            None => None,
        },
        None => None,
    }
}

/// How many tokens an answer of the tokenizer holds.
pub fn token_count(body: &Json) -> (r: Option<usize>)
    ensures
        match body@.items_at("tokens"@) {
            Some(items) => r matches Some(n) && n == items.len(),
            None => r is None,
        },
{
    match body.array_at("tokens") {
        Some(items) => Some(items.len()),
        None => None,
    }
}

/// The ids among the first `n` items of an answer of the tokenizer.
pub open spec fn ids_in(items: Seq<JsonModel>, n: int) -> Seq<u64>
    decreases n,
{
    if n <= 0 {
        Seq::empty()
    } else {
        match items[n - 1].whole() {
            Some(v) => ids_in(items, n - 1).push(v as u64),
            None => ids_in(items, n - 1),
        }
    }
}

/// The token ids of an answer of the tokenizer; none where it holds none, for then
/// the text is left out.
pub fn token_ids(body: &Json) -> (r: Option<Vec<u64>>)
    ensures
        match body@.items_at("tokens"@) {
            Some(items) => if ids_in(items, items.len() as int).len() > 0 {
                r matches Some(v) && v@ == ids_in(items, items.len() as int)
            } else {
                r is None
            },
            None => r is None,
        },
{
    match body.array_at("tokens") {
        Some(items) => {
            let ghost all = json::models(items@);
            let mut out: Vec<u64> = Vec::new();
            let mut i: usize = 0;
            assert(out@ =~= Seq::empty());
            while i < items.len()
                invariant
                    i <= items@.len(),
                    all == json::models(items@),
                    out@ == ids_in(all, i as int),
                decreases items@.len() - i,
            {
                assert(all[i as int] == items@[i as int]@);
                match items[i].as_u64() {
                    Some(v) => {
                        out.push(v);
                    },
                    None => {},
                }
                i += 1;
            }
            if out.len() > 0 {
                Some(out)
            } else {
                None
            }
        },
        None => None,
    }
}

// ---------------------------------------------------------------------------
// The prompt cache of a server.

/// The part of every prompt that the system prompt makes up.
pub fn system_prefix(system_prompt: &str) -> (r: String)
    ensures
        r@ == "<|im_start|>system\n"@ + system_prompt@ + "<|im_end|>\n"@,
{
    let mut out = "<|im_start|>system\n".to_string();
    out.append(system_prompt);
    out.append("<|im_end|>\n");
    out
}

/// A request that reads a prompt into the cache and generates nothing.
pub open spec fn prefill_fields(prompt: Seq<char>) -> JsonModel {
    JsonModel::Object(Seq::empty()).with("prompt"@, JsonModel::Text(prompt)).with(
        "n_predict"@,
        JsonModel::Number(text::decimal(0)),
    ).with("cache_prompt"@, JsonModel::Bool(true))
}

/// A request that reads a prompt into the cache and generates nothing.
pub fn prefill_body(prompt: &str) -> (r: Json)
    ensures
        r@ == prefill_fields(prompt@),
{
    Json::object().with("prompt", Json::text(prompt)).with("n_predict", Json::number(0)).with(
        "cache_prompt",
        Json::Bool(true),
    )
}

/// Whether an answer says that a state of the cache was saved.
pub open spec fn says_saved(body: JsonModel) -> bool {
    match body.at("n_saved"@) {
        Some(n) => match n.whole() {
            Some(v) => v > 0,
            None => false,
        },
        None => false,
    }
}

/// Whether a cache was saved: both requests went through and the second one says
/// so.
pub fn cache_was_saved(prefilled: bool, saved: &Option<Json>) -> (r: bool)
    ensures
        r == (prefilled && match saved {
            Some(body) => says_saved(body@),
            None => false,
        }),
{
    if !prefilled {
        return false;
    }
    match saved {
        Some(body) => match body.get("n_saved") {
            Some(n) => match n.as_u64() {
                Some(v) => v > 0,
                None => false,
            },
            None => false,
        },
        None => false,
    }
}

/// The last place at which `needle` stands in `s`, before `to`.
pub open spec fn last_place(s: Seq<char>, needle: Seq<char>, to: int) -> Option<int>
    decreases to,
{
    if to <= 0 {
        None
    } else if text::occurs_at(s, needle, to - 1) {
        Some(to - 1)
    } else {
        last_place(s, needle, to - 1)
    }
}

/// What a rendered conversation is without its last user turn, which was put there
/// for the rendering alone.
pub open spec fn history_of(prompt: Seq<char>) -> Option<Seq<char>> {
    match last_place(prompt, "<|im_start|>user"@, prompt.len() as int) {
        Some(i) => Some(prompt.take(i)),
        None => None,
    }
}

/// What a rendered conversation is without its last user turn.
pub fn conversation_prefix(prompt: &str) -> (r: Option<String>)
    ensures
        text::optional(r) == history_of(prompt@),
{
    let cs = text::chars_of(prompt);
    let mark = text::chars_of("<|im_start|>user");
    let mut n: usize = cs.len();
    while n > 0
        invariant
            n <= cs@.len(),
            cs@ == prompt@,
            mark@ == "<|im_start|>user"@,
            last_place(prompt@, mark@, prompt@.len() as int) == last_place(
                prompt@,
                mark@,
                n as int,
            ),
        decreases n,
    {
        if text::is_at(cs.as_slice(), mark.as_slice(), n - 1) {
            let head = text::substring_of(cs.as_slice(), 0, n - 1);
            assert(head@ =~= prompt@.take(n - 1));
            return Some(head);
        }
        n -= 1;
    }
    None
}

// ---------------------------------------------------------------------------
// A server that others run.

/// What asking a server for its models gave.
#[derive(Debug)]
pub enum ModelsReply {
    /// It answered; `status` says how.
    Answered { success: bool, status: String },
    /// It could not be reached.
    Unreachable(String),
}

/// The address at which a server lists its models.
pub fn models_url(base_url: &str) -> (r: String)
    ensures
        r@ == text::drop_back(base_url@, '/') + "/models"@,
{
    let mut out = text::trim_end_matches(base_url, '/');
    out.append("/models");
    out
}

/// Whether a server that others run can be used.
pub fn check_remote(base_url: &str, reply: &ModelsReply) -> (r: Result<(), String>)
    ensures
        match *reply {
            ModelsReply::Answered { success, status } => if success {
                r is Ok
            } else {
                r matches Err(m) && m@ == "vLLM server at "@ + base_url@ + " answered "@ + status@
                    + " on /models; is the Millie model served there?"@
            },
            ModelsReply::Unreachable(e) => r matches Err(m) && m@
                == "no vLLM server reachable at "@ + base_url@ + " ("@ + e@
                + "); start it first (see docs/config.md, \"vLLM backend\")"@,
        },
{
    match reply {
        ModelsReply::Answered { success, status } => {
            if *success {
                return Ok(());
            }
            let mut m = "vLLM server at ".to_string();
            m.append(base_url);
            m.append(" answered ");
            m.append(status.as_str());
            m.append(" on /models; is the Millie model served there?");
            Err(m)
        },
        ModelsReply::Unreachable(e) => {
            let mut m = "no vLLM server reachable at ".to_string();
            m.append(base_url);
            m.append(" (");
            m.append(e.as_str());
            m.append("); start it first (see docs/config.md, \"vLLM backend\")");
            Err(m)
        },
    }
}

/// Whether the system prompt is put into the cache at start: where this session started
/// the server, nothing is in the cache yet, and there is a prompt and a place for it.
pub fn warms_up(owned: bool, cache_present: bool, cache_possible: bool, system_prompt: &str) -> (r:
    bool)
    ensures
        r == (owned && !cache_present && cache_possible && !text::is_blank(system_prompt@)),
{
    owned && !cache_present && cache_possible && !text::str_blank(system_prompt)
}

// ---------------------------------------------------------------------------
// Laws.

/// A running server can be attached to exactly where it reports the vision mode that is asked
/// for and the path of its model, and that path is the one that is told.
pub proof fn only_known_servers_are_attached_to(props: JsonModel, vision: bool, path: Seq<char>)
    ensures
        attachable_model(props, vision) == Ok::<Seq<char>, Seq<char>>(path) <==> {
            &&& props.at("modalities"@) matches Some(m) && m.at("vision"@) == Some(
                JsonModel::Bool(vision),
            )
            &&& props.at("model_path"@) == Some(JsonModel::Text(path))
        },
        attachable_model(props, vision) is Err ==> {
            ||| !(props.at("modalities"@) matches Some(m) && m.at("vision"@) == Some(
                JsonModel::Bool(vision),
            ))
            ||| !(props.at("model_path"@) matches Some(JsonModel::Text(_)))
        },
{
}

/// A conflict says how the server runs before it says how it was asked to.
pub proof fn conflicts_say_how_the_server_runs(running: bool)
    ensures
        ({
            let said = "A model server with different vision mode is already running (running: "@ + (
            if running {
                "on"@
            } else {
                "off"@
            }) + ", requested: "@ + (if running {
                "off"@
            } else {
                "on"@
            });
            text::begins_with(vision_conflict(running, !running), said)
        }),
{
    let said = "A model server with different vision mode is already running (running: "@
        + mode_word(running) + ", requested: "@ + mode_word(!running);
    assert(vision_conflict(running, !running).take(said.len() as int) =~= said);
}

/// What stands before the last turn of the user is the history.
pub proof fn history_ends_before_the_last_user_turn(before: Seq<char>, rest: Seq<char>)
    requires
        forall|j: int|
            before.len() < j ==> !text::occurs_at(
                before + "<|im_start|>user"@ + rest,
                "<|im_start|>user"@,
                j,
            ),
    ensures
        history_of(before + "<|im_start|>user"@ + rest) == Some(before),
{
    reveal_strlit("<|im_start|>user");
    let all = before + "<|im_start|>user"@ + rest;
    let mark = "<|im_start|>user"@;
    assert(mark.len() == 16);
    assert(all.subrange(before.len() as int, before.len() as int + mark.len()) =~= mark);
    assert(text::occurs_at(all, mark, before.len() as int));
    last_of(all, mark, before.len() as int, all.len() as int);
    assert(all.take(before.len() as int) =~= before);
}

proof fn last_of(s: Seq<char>, needle: Seq<char>, at: int, to: int)
    requires
        0 <= at < to,
        text::occurs_at(s, needle, at),
        forall|j: int| at < j ==> !text::occurs_at(s, needle, j),
    ensures
        last_place(s, needle, to) == Some(at),
    decreases to,
{
    if at < to - 1 {
        assert(!text::occurs_at(s, needle, to - 1));
        last_of(s, needle, at, to - 1);
    }
}

/// A prompt in which the user never speaks has no history.
pub proof fn prompts_without_a_user_have_no_history(prompt: Seq<char>)
    requires
        forall|j: int| !text::occurs_at(prompt, "<|im_start|>user"@, j),
    ensures
        history_of(prompt) is None,
{
    no_last(prompt, "<|im_start|>user"@, prompt.len() as int);
}

proof fn no_last(s: Seq<char>, needle: Seq<char>, to: int)
    requires
        forall|j: int| !text::occurs_at(s, needle, j),
    ensures
        last_place(s, needle, to) is None,
    decreases to,
{
    if to > 0 {
        assert(!text::occurs_at(s, needle, to - 1));
        no_last(s, needle, to - 1);
    }
}

/// The tokens that a server lists are all taken, in their order.
pub proof fn listed_tokens_are_taken(ids: Seq<u64>)
    ensures
        ids_in(
            ids.map_values(|n: u64| JsonModel::Number(text::decimal(n as nat))),
            ids.len() as int,
        ) == ids,
{
    tokens_upto(ids, ids.len() as int);
    assert(ids.take(ids.len() as int) =~= ids);
}

proof fn tokens_upto(ids: Seq<u64>, n: int)
    requires
        0 <= n <= ids.len(),
    ensures
        ids_in(ids.map_values(|n: u64| JsonModel::Number(text::decimal(n as nat))), n) == ids.take(n),
    decreases n,
{
    if n > 0 {
        tokens_upto(ids, n - 1);
        numeral_is_whole(ids[n - 1] as nat);
        assert(ids.take(n) =~= ids.take(n - 1).push(ids[n - 1]));
    }
}

proof fn numeral_is_whole(n: nat)
    ensures
        JsonModel::Number(text::decimal(n)).whole() == if n <= u64::MAX {
            Some(n)
        } else {
            None
        },
{
    text::decimal_is_read_back(n);
    text::numbers_are_read_back(n, u64::MAX as nat, Seq::empty());
    assert(Seq::<char>::empty() + text::decimal(n) =~= text::decimal(n));
}

/// The size of the context is the one that the server reports for its generations, where it
/// is one of 32 bits; a cache was saved where the server says that it saved anything.
pub proof fn reported_sizes_are_read(props: JsonModel, settings: JsonModel, n: nat)
    ensures
        props.at("default_generation_settings"@) == Some(settings) && settings.at("n_ctx"@) == Some(
            JsonModel::Number(text::decimal(n)),
        ) ==> context_size(props) == if n <= u32::MAX {
            Some(n)
        } else {
            None
        },
        props.at("default_generation_settings"@) is None ==> context_size(props) is None,
        props.at("default_generation_settings"@) == Some(settings) && settings.at("n_ctx"@)
            is None ==> context_size(props) is None,
        n <= u64::MAX && props.at("n_saved"@) == Some(JsonModel::Number(text::decimal(n))) ==> (
        says_saved(props) <==> n > 0),
        props.at("n_saved"@) is None ==> !says_saved(props),
{
    numeral_is_whole(n);
}

proof fn prefill_keys_differ()
    ensures
        "prompt"@ != "n_predict"@,
        "prompt"@ != "cache_prompt"@,
        "n_predict"@ != "cache_prompt"@,
{
    reveal_strlit("prompt");
    assert("prompt"@.len() == 6);
    reveal_strlit("n_predict");
    assert("n_predict"@.len() == 9);
    reveal_strlit("cache_prompt");
    assert("cache_prompt"@.len() == 12);
}

/// A request to warm up hands in the prompt, asks for nothing behind it and for its state to
/// be kept.
pub proof fn warming_up_predicts_nothing(prompt: Seq<char>)
    ensures
        prefill_fields(prompt).at("prompt"@) == Some(JsonModel::Text(prompt)),
        prefill_fields(prompt).at("n_predict"@) == Some(JsonModel::Number(seq!['0'])),
        prefill_fields(prompt).at("cache_prompt"@) == Some(JsonModel::Bool(true)),
{
    prefill_keys_differ();
    let none = JsonModel::Object(Seq::empty());
    let t = JsonModel::Text(prompt);
    let zero = JsonModel::Number(text::decimal(0));
    json::only_one_member_is_set(none, "prompt"@, t);
    let b1 = none.with("prompt"@, t);
    json::only_one_member_is_set(b1, "n_predict"@, zero);
    let b2 = b1.with("n_predict"@, zero);
    json::only_one_member_is_set(b2, "cache_prompt"@, JsonModel::Bool(true));
    assert(text::decimal(0) =~= seq!['0']);
}

/// A reply that holds an error is that error; another says whether the server is owned.
pub proof fn replies_are_errors_or_ownership(reply: JsonModel, error: Seq<char>, owned: bool)
    ensures
        reply.at("error"@) == Some(JsonModel::Text(error)) ==> supervisor_reply(reply) == Err::<
            bool,
            Seq<char>,
        >(error),
        reply.at("error"@) is None && reply.at("owned"@) == Some(JsonModel::Bool(owned))
            ==> supervisor_reply(reply) == Ok::<bool, Seq<char>>(owned),
        reply.at("error"@) is None && reply.at("owned"@) is None ==> supervisor_reply(reply)
            == Ok::<bool, Seq<char>>(false),
{
}

} // verus!
