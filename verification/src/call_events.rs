//! What the log is told of a tool call: that it repeats an earlier one, that it was
//! left out, what its repeat did to the loop guard, and how an edit was corrected.

use crate::correction::Correction;
use crate::correction::Declined;
use crate::correction::Posterior;
use crate::edit::AutocorrectMode;
use crate::json;
use crate::json::Json;
use crate::json::JsonModel;
use crate::line_diff;
use crate::repeat_guard;
use crate::repeat_guard::RepeatGuardMode;
use crate::repeat_guard::RepeatVerdict;
use crate::text;
use vstd::prelude::*;
use vstd::string::*;

verus! {

pub open spec fn empty_object() -> JsonModel {
    JsonModel::Object(Seq::empty())
}

// ---------------------------------------------------------------------------
// Repeats.

/// What the log calls a mode of the repeat guard.
pub open spec fn guard_word(mode: RepeatGuardMode) -> Seq<char> {
    match mode {
        RepeatGuardMode::Off => "off"@,
        RepeatGuardMode::Log => "log"@,
        RepeatGuardMode::Warn => "warn"@,
    }
}

fn word_of_guard(mode: RepeatGuardMode) -> (r: &'static str)
    ensures
        r@ == guard_word(mode),
{
    match mode {
        RepeatGuardMode::Off => "off",
        RepeatGuardMode::Log => "log",
        RepeatGuardMode::Warn => "warn",
    }
}

/// The record of a call that repeats an earlier one.
pub open spec fn repeat_fields(
    mode: RepeatGuardMode,
    tool: Seq<char>,
    arguments: Seq<char>,
    signature: Seq<char>,
    verdict: RepeatVerdict,
) -> JsonModel {
    empty_object().with("mode"@, JsonModel::Text(guard_word(mode))).with(
        "tool"@,
        JsonModel::Text(tool),
    ).with("arguments"@, JsonModel::Text(arguments)).with(
        "signature"@,
        JsonModel::Text(signature),
    ).with("immediate_repeat"@, JsonModel::Bool(verdict.immediate_repeat)).with(
        "repeats_in_window"@,
        JsonModel::Number(text::decimal(verdict.repeats_in_window as nat)),
    ).with("warning_appended"@, JsonModel::Bool(mode == RepeatGuardMode::Warn)).with(
        "warning_text"@,
        JsonModel::Text(repeat_guard::warning(tool, arguments, verdict)),
    )
}

/// The record of a call that repeats an earlier one, whether or not the model is
/// warned.
pub fn repeat_event(
    mode: RepeatGuardMode,
    tool: &str,
    arguments: &str,
    signature: &str,
    verdict: &RepeatVerdict,
) -> (r: Json)
    ensures
        r@ == repeat_fields(mode, tool@, arguments@, signature@, *verdict),
{
    let warned: bool = match mode {
        RepeatGuardMode::Warn => true,
        _ => false,
    };
    Json::object().with("mode", Json::text(word_of_guard(mode))).with("tool", Json::text(tool)).with(
        "arguments",
        Json::text(arguments),
    ).with("signature", Json::text(signature)).with(
        "immediate_repeat",
        Json::Bool(verdict.immediate_repeat),
    ).with("repeats_in_window", Json::number(verdict.repeats_in_window as u64)).with(
        "warning_appended",
        Json::Bool(warned),
    ).with(
        "warning_text",
        Json::text(repeat_guard::warning_text(tool, arguments, verdict).as_str()),
    )
}

/// The record of a call that was left out, for its completion is sampled again.
pub fn skip_event(tool: &str, signature: &str) -> (r: Json)
    ensures
        r@ == empty_object().with("action"@, JsonModel::Text("resample_skip_call"@)).with(
            "tool"@,
            JsonModel::Text(tool@),
        ).with("signature"@, JsonModel::Text(signature@)),
{
    Json::object().with("action", Json::text("resample_skip_call")).with("tool", Json::text(tool)).with(
        "signature",
        Json::text(signature),
    )
}

/// The record of a repeat that the loop guard counts as a failure, with the state it is
/// in now.
pub fn penalty_event(state: Json) -> (r: Json)
    ensures
        r@ == empty_object().with("trigger"@, JsonModel::Text("repeated_tool_call"@)).with(
            "state"@,
            state@,
        ),
{
    Json::object().with("trigger", Json::text("repeated_tool_call")).with("state", state)
}

// ---------------------------------------------------------------------------
// Corrections.

/// What the log calls a mode of the corrector.
pub open spec fn corrector_word(mode: AutocorrectMode) -> Seq<char> {
    match mode {
        AutocorrectMode::Off => "off"@,
        AutocorrectMode::Log => "log"@,
        AutocorrectMode::Correct => "correct"@,
    }
}

fn word_of_corrector(mode: AutocorrectMode) -> (r: &'static str)
    ensures
        r@ == corrector_word(mode),
{
    match mode {
        AutocorrectMode::Off => "off",
        AutocorrectMode::Log => "log",
        AutocorrectMode::Correct => "correct",
    }
}

/// A distance, or null where there is none.
pub open spec fn distance_json(d: Option<usize>) -> JsonModel {
    match d {
        Some(n) => JsonModel::Number(text::decimal(n as nat)),
        None => JsonModel::Null,
    }
}

fn json_of_distance(d: Option<usize>) -> (r: Json)
    ensures
        r@ == distance_json(d),
{
    match d {
        Some(n) => Json::number(n as u64),
        None => Json::Null,
    }
}

/// A posterior as a number: one where it is certain, else as the caller shows it.
pub open spec fn posterior_json(p: Posterior, shown: Seq<char>) -> JsonModel {
    match p {
        Posterior::Certain => JsonModel::Number("1.0"@),
        Posterior::Evaluated => JsonModel::Number(shown),
    }
}

fn json_of_posterior(p: Posterior, shown: &str) -> (r: Json)
    ensures
        r@ == posterior_json(p, shown@),
{
    match p {
        Posterior::Certain => Json::Number("1.0".to_string()),
        Posterior::Evaluated => Json::Number(shown.to_string()),
    }
}

/// An edit as it is logged.
pub open spec fn edit_fields(path: Seq<char>, old_str: Seq<char>, new_str: Seq<char>) -> JsonModel {
    empty_object().with("path"@, JsonModel::Text(path)).with(
        "old_str"@,
        JsonModel::Text(old_str),
    ).with("new_str"@, JsonModel::Text(new_str))
}

fn json_of_edit(path: &str, old_str: &str, new_str: &str) -> (r: Json)
    ensures
        r@ == edit_fields(path@, old_str@, new_str@),
{
    Json::object().with("path", Json::text(path)).with("old_str", Json::text(old_str)).with(
        "new_str",
        Json::text(new_str),
    )
}

/// How the record of every correction begins.
pub open spec fn correction_head(
    mode: AutocorrectMode,
    path: Seq<char>,
    old_str: Seq<char>,
    new_str: Seq<char>,
) -> JsonModel {
    empty_object().with("tool"@, JsonModel::Text("str_replace"@)).with(
        "mode"@,
        JsonModel::Text(corrector_word(mode)),
    ).with("original"@, edit_fields(path, old_str, new_str))
}

fn head_of_correction(mode: AutocorrectMode, path: &str, old_str: &str, new_str: &str) -> (r: Json)
    ensures
        r@ == correction_head(mode, path@, old_str@, new_str@),
{
    Json::object().with("tool", Json::text("str_replace")).with(
        "mode",
        Json::text(word_of_corrector(mode)),
    ).with("original", json_of_edit(path, old_str, new_str))
}

/// The record of an edit that was not corrected.
pub open spec fn declined_fields(head: JsonModel, d: Declined, shown: Seq<char>) -> JsonModel {
    head.with("decision"@, JsonModel::Text("declined"@)).with(
        "reason"@,
        JsonModel::Text(d.reason@),
    ).with("best_distance"@, distance_json(d.best_distance)).with(
        "runner_up_distance"@,
        distance_json(d.runner_up_distance),
    ).with(
        "posterior"@,
        match d.posterior {
            Some(p) => posterior_json(p, shown),
            None => JsonModel::Null,
        },
    ).with("applied"@, JsonModel::Bool(false))
}

/// The record of an edit that was not corrected. `shown` is the evaluated posterior as a
/// JSON number.
pub fn declined_event(
    mode: AutocorrectMode,
    path: &str,
    old_str: &str,
    new_str: &str,
    d: &Declined,
    shown: &str,
) -> (r: Json)
    ensures
        r@ == declined_fields(correction_head(mode, path@, old_str@, new_str@), *d, shown@),
{
    let posterior: Json = match d.posterior {
        Some(p) => json_of_posterior(p, shown),
        None => Json::Null,
    };
    head_of_correction(mode, path, old_str, new_str).with(
        "decision",
        Json::text("declined"),
    ).with("reason", Json::text(d.reason.as_str())).with(
        "best_distance",
        json_of_distance(d.best_distance),
    ).with("runner_up_distance", json_of_distance(d.runner_up_distance)).with(
        "posterior",
        posterior,
    ).with("applied", Json::Bool(false))
}

/// What takes the place of the text that was found.
pub open spec fn effective_new_str(c: Correction, new_str: Seq<char>) -> Seq<char> {
    match c.adjusted_new_str {
        Some(s) => s@,
        None => new_str,
    }
}

/// The record of an edit that was corrected.
pub open spec fn corrected_fields(
    head: JsonModel,
    mode: AutocorrectMode,
    path: Seq<char>,
    old_str: Seq<char>,
    new_str: Seq<char>,
    c: Correction,
    shown: Seq<char>,
) -> JsonModel {
    head.with(
        "corrected"@,
        edit_fields(path, c.matched@, effective_new_str(c, new_str)),
    ).with("decision"@, JsonModel::Text("corrected"@)).with(
        "tier"@,
        JsonModel::Text(c.tier@),
    ).with("distance"@, JsonModel::Number(text::decimal(c.distance as nat))).with(
        "posterior"@,
        posterior_json(c.posterior, shown),
    ).with("runner_up_distance"@, distance_json(c.runner_up_distance)).with(
        "diff"@,
        JsonModel::Text(line_diff::short_diff_spec(old_str, c.matched@, 12)),
    ).with("applied"@, JsonModel::Bool(mode == AutocorrectMode::Correct))
}

/// The record of an edit that was corrected, whether or not the correction is applied.
/// `shown` is the evaluated posterior as a JSON number.
pub fn corrected_event(
    mode: AutocorrectMode,
    path: &str,
    old_str: &str,
    new_str: &str,
    c: &Correction,
    shown: &str,
) -> (r: Json)
    ensures
        r@ == corrected_fields(
            correction_head(mode, path@, old_str@, new_str@),
            mode,
            path@,
            old_str@,
            new_str@,
            *c,
            shown@,
        ),
{
    let applied: bool = match mode {
        AutocorrectMode::Correct => true,
        _ => false,
    };
    let effective: &str = match &c.adjusted_new_str {
        Some(s) => s.as_str(),
        None => new_str,
    };
    let diff = line_diff::short_diff(old_str, c.matched.as_str(), 12);
    head_of_correction(mode, path, old_str, new_str).with(
        "corrected",
        json_of_edit(path, c.matched.as_str(), effective),
    ).with("decision", Json::text("corrected")).with("tier", Json::text(c.tier)).with(
        "distance",
        Json::number(c.distance as u64),
    ).with("posterior", json_of_posterior(c.posterior, shown)).with(
        "runner_up_distance",
        json_of_distance(c.runner_up_distance),
    ).with("diff", Json::text(diff.as_str())).with("applied", Json::Bool(applied))
}

// ---------------------------------------------------------------------------
// Laws.

proof fn repeat_keys_differ()
    ensures
        "mode"@ != "tool"@,
        "mode"@ != "arguments"@,
        "mode"@ != "signature"@,
        "mode"@ != "immediate_repeat"@,
        "mode"@ != "repeats_in_window"@,
        "mode"@ != "warning_appended"@,
        "mode"@ != "warning_text"@,
        "tool"@ != "arguments"@,
        "tool"@ != "signature"@,
        "tool"@ != "immediate_repeat"@,
        "tool"@ != "repeats_in_window"@,
        "tool"@ != "warning_appended"@,
        "tool"@ != "warning_text"@,
        "arguments"@ != "signature"@,
        "arguments"@ != "immediate_repeat"@,
        "arguments"@ != "repeats_in_window"@,
        "arguments"@ != "warning_appended"@,
        "arguments"@ != "warning_text"@,
        "signature"@ != "immediate_repeat"@,
        "signature"@ != "repeats_in_window"@,
        "signature"@ != "warning_appended"@,
        "signature"@ != "warning_text"@,
        "immediate_repeat"@ != "repeats_in_window"@,
        "immediate_repeat"@ != "warning_appended"@,
        "immediate_repeat"@ != "warning_text"@,
        "repeats_in_window"@ != "warning_appended"@,
        "repeats_in_window"@ != "warning_text"@,
        "warning_appended"@ != "warning_text"@,
{
    reveal_strlit("mode");
    assert("mode"@.len() == 4);
    reveal_strlit("tool");
    assert("tool"@.len() == 4);
    reveal_strlit("arguments");
    assert("arguments"@.len() == 9);
    reveal_strlit("signature");
    assert("signature"@.len() == 9);
    reveal_strlit("immediate_repeat");
    assert("immediate_repeat"@.len() == 16);
    reveal_strlit("repeats_in_window");
    assert("repeats_in_window"@.len() == 17);
    reveal_strlit("warning_appended");
    assert("warning_appended"@.len() == 16);
    reveal_strlit("warning_text");
    assert("warning_text"@.len() == 12);
    assert("mode"@[0] != "tool"@[0]);
    assert("arguments"@[0] != "signature"@[0]);
    assert("immediate_repeat"@[0] != "warning_appended"@[0]);
}

proof fn edit_keys_differ()
    ensures
        "path"@ != "old_str"@,
        "path"@ != "new_str"@,
        "old_str"@ != "new_str"@,
{
    reveal_strlit("path");
    assert("path"@.len() == 4);
    reveal_strlit("old_str");
    assert("old_str"@.len() == 7);
    reveal_strlit("new_str");
    assert("new_str"@.len() == 7);
    assert("old_str"@[0] != "new_str"@[0]);
}

proof fn correction_keys_differ()
    ensures
        "tool"@ != "mode"@,
        "tool"@ != "original"@,
        "tool"@ != "decision"@,
        "tool"@ != "reason"@,
        "tool"@ != "best_distance"@,
        "tool"@ != "runner_up_distance"@,
        "tool"@ != "posterior"@,
        "tool"@ != "applied"@,
        "tool"@ != "corrected"@,
        "tool"@ != "tier"@,
        "tool"@ != "distance"@,
        "tool"@ != "diff"@,
        "mode"@ != "original"@,
        "mode"@ != "decision"@,
        "mode"@ != "reason"@,
        "mode"@ != "best_distance"@,
        "mode"@ != "runner_up_distance"@,
        "mode"@ != "posterior"@,
        "mode"@ != "applied"@,
        "mode"@ != "corrected"@,
        "mode"@ != "tier"@,
        "mode"@ != "distance"@,
        "mode"@ != "diff"@,
        "original"@ != "decision"@,
        "original"@ != "reason"@,
        "original"@ != "best_distance"@,
        "original"@ != "runner_up_distance"@,
        "original"@ != "posterior"@,
        "original"@ != "applied"@,
        "original"@ != "corrected"@,
        "original"@ != "tier"@,
        "original"@ != "distance"@,
        "original"@ != "diff"@,
        "decision"@ != "reason"@,
        "decision"@ != "best_distance"@,
        "decision"@ != "runner_up_distance"@,
        "decision"@ != "posterior"@,
        "decision"@ != "applied"@,
        "decision"@ != "corrected"@,
        "decision"@ != "tier"@,
        "decision"@ != "distance"@,
        "decision"@ != "diff"@,
        "reason"@ != "best_distance"@,
        "reason"@ != "runner_up_distance"@,
        "reason"@ != "posterior"@,
        "reason"@ != "applied"@,
        "reason"@ != "corrected"@,
        "reason"@ != "tier"@,
        "reason"@ != "distance"@,
        "reason"@ != "diff"@,
        "best_distance"@ != "runner_up_distance"@,
        "best_distance"@ != "posterior"@,
        "best_distance"@ != "applied"@,
        "best_distance"@ != "corrected"@,
        "best_distance"@ != "tier"@,
        "best_distance"@ != "distance"@,
        "best_distance"@ != "diff"@,
        "runner_up_distance"@ != "posterior"@,
        "runner_up_distance"@ != "applied"@,
        "runner_up_distance"@ != "corrected"@,
        "runner_up_distance"@ != "tier"@,
        "runner_up_distance"@ != "distance"@,
        "runner_up_distance"@ != "diff"@,
        "posterior"@ != "applied"@,
        "posterior"@ != "corrected"@,
        "posterior"@ != "tier"@,
        "posterior"@ != "distance"@,
        "posterior"@ != "diff"@,
        "applied"@ != "corrected"@,
        "applied"@ != "tier"@,
        "applied"@ != "distance"@,
        "applied"@ != "diff"@,
        "corrected"@ != "tier"@,
        "corrected"@ != "distance"@,
        "corrected"@ != "diff"@,
        "tier"@ != "distance"@,
        "tier"@ != "diff"@,
        "distance"@ != "diff"@,
{
    reveal_strlit("tool");
    assert("tool"@.len() == 4);
    reveal_strlit("mode");
    assert("mode"@.len() == 4);
    reveal_strlit("original");
    assert("original"@.len() == 8);
    reveal_strlit("decision");
    assert("decision"@.len() == 8);
    reveal_strlit("reason");
    assert("reason"@.len() == 6);
    reveal_strlit("best_distance");
    assert("best_distance"@.len() == 13);
    reveal_strlit("runner_up_distance");
    assert("runner_up_distance"@.len() == 18);
    reveal_strlit("posterior");
    assert("posterior"@.len() == 9);
    reveal_strlit("applied");
    assert("applied"@.len() == 7);
    reveal_strlit("corrected");
    assert("corrected"@.len() == 9);
    reveal_strlit("tier");
    assert("tier"@.len() == 4);
    reveal_strlit("distance");
    assert("distance"@.len() == 8);
    reveal_strlit("diff");
    assert("diff"@.len() == 4);
    assert("tool"@[0] != "mode"@[0]);
    assert("tool"@[1] != "tier"@[1]);
    assert("tool"@[0] != "diff"@[0]);
    assert("mode"@[0] != "tier"@[0]);
    assert("mode"@[0] != "diff"@[0]);
    assert("original"@[0] != "decision"@[0]);
    assert("original"@[0] != "distance"@[0]);
    assert("decision"@[1] != "distance"@[1]);
    assert("posterior"@[0] != "corrected"@[0]);
    assert("tier"@[0] != "diff"@[0]);
}

/// The record of a repeat says the call, what was found of it, and whether and how the model
/// was warned.
pub proof fn repeats_are_recorded(
    mode: RepeatGuardMode,
    tool: Seq<char>,
    arguments: Seq<char>,
    signature: Seq<char>,
    verdict: RepeatVerdict,
)
    ensures
        ({
            let r = repeat_fields(mode, tool, arguments, signature, verdict);
            &&& r.at("tool"@) == Some(JsonModel::Text(tool))
            &&& r.at("arguments"@) == Some(JsonModel::Text(arguments))
            &&& r.at("signature"@) == Some(JsonModel::Text(signature))
            &&& r.at("immediate_repeat"@) == Some(JsonModel::Bool(verdict.immediate_repeat))
            &&& r.at("repeats_in_window"@) == Some(JsonModel::Number(text::decimal(verdict.repeats_in_window as nat)))
            &&& r.at("warning_appended"@) == Some(JsonModel::Bool(mode == RepeatGuardMode::Warn))
            &&& r.at("warning_text"@) == Some(JsonModel::Text(repeat_guard::warning(tool, arguments, verdict)))
            &&& r.at("mode"@) == Some(
                JsonModel::Text(
                    if mode == RepeatGuardMode::Off {
                        "off"@
                    } else if mode == RepeatGuardMode::Log {
                        "log"@
                    } else {
                        "warn"@
                    },
                ),
            )
        }),
{
    repeat_keys_differ();
    let none = empty_object();
    let bv0 = JsonModel::Text(guard_word(mode));
    json::only_one_member_is_set(none, "mode"@, bv0);
    let b0 = none.with("mode"@, bv0);
    let bv1 = JsonModel::Text(tool);
    json::only_one_member_is_set(b0, "tool"@, bv1);
    let b1 = b0.with("tool"@, bv1);
    let bv2 = JsonModel::Text(arguments);
    json::only_one_member_is_set(b1, "arguments"@, bv2);
    let b2 = b1.with("arguments"@, bv2);
    let bv3 = JsonModel::Text(signature);
    json::only_one_member_is_set(b2, "signature"@, bv3);
    let b3 = b2.with("signature"@, bv3);
    let bv4 = JsonModel::Bool(verdict.immediate_repeat);
    json::only_one_member_is_set(b3, "immediate_repeat"@, bv4);
    let b4 = b3.with("immediate_repeat"@, bv4);
    let bv5 = JsonModel::Number(text::decimal(verdict.repeats_in_window as nat));
    json::only_one_member_is_set(b4, "repeats_in_window"@, bv5);
    let b5 = b4.with("repeats_in_window"@, bv5);
    let bv6 = JsonModel::Bool(mode == RepeatGuardMode::Warn);
    json::only_one_member_is_set(b5, "warning_appended"@, bv6);
    let b6 = b5.with("warning_appended"@, bv6);
    let bv7 = JsonModel::Text(repeat_guard::warning(tool, arguments, verdict));
    json::only_one_member_is_set(b6, "warning_text"@, bv7);
}

proof fn edits_are_shown(path: Seq<char>, old_str: Seq<char>, new_str: Seq<char>)
    ensures
        edit_fields(path, old_str, new_str).at("path"@) == Some(JsonModel::Text(path)),
        edit_fields(path, old_str, new_str).at("old_str"@) == Some(JsonModel::Text(old_str)),
        edit_fields(path, old_str, new_str).at("new_str"@) == Some(JsonModel::Text(new_str)),
{
    edit_keys_differ();
    let none = empty_object();
    let bv0 = JsonModel::Text(path);
    json::only_one_member_is_set(none, "path"@, bv0);
    let b0 = none.with("path"@, bv0);
    let bv1 = JsonModel::Text(old_str);
    json::only_one_member_is_set(b0, "old_str"@, bv1);
    let b1 = b0.with("old_str"@, bv1);
    let bv2 = JsonModel::Text(new_str);
    json::only_one_member_is_set(b1, "new_str"@, bv2);
}

proof fn heads_are_shown(mode: AutocorrectMode, path: Seq<char>, old_str: Seq<char>, new_str: Seq<char>)
    ensures
        ({
            let r = correction_head(mode, path, old_str, new_str);
            &&& r is Object
            &&& r.at("tool"@) == Some(JsonModel::Text("str_replace"@))
            &&& r.at("mode"@) == Some(JsonModel::Text(corrector_word(mode)))
            &&& r.at("original"@) == Some(edit_fields(path, old_str, new_str))
        }),
{
    correction_keys_differ();
    let none = empty_object();
    let bv0 = JsonModel::Text("str_replace"@);
    json::only_one_member_is_set(none, "tool"@, bv0);
    let b0 = none.with("tool"@, bv0);
    let bv1 = JsonModel::Text(corrector_word(mode));
    json::only_one_member_is_set(b0, "mode"@, bv1);
    let b1 = b0.with("mode"@, bv1);
    let bv2 = edit_fields(path, old_str, new_str);
    json::only_one_member_is_set(b1, "original"@, bv2);
}

/// The record of an edit that was not corrected says the edit as it was asked for, why it was
/// left and how near the nearest places came, and that nothing was applied.
pub proof fn declined_corrections_are_recorded(
    mode: AutocorrectMode,
    path: Seq<char>,
    old_str: Seq<char>,
    new_str: Seq<char>,
    d: Declined,
    shown: Seq<char>,
)
    ensures
        ({
            let r = declined_fields(correction_head(mode, path, old_str, new_str), d, shown);
            &&& r.at("tool"@) == Some(JsonModel::Text("str_replace"@))
            &&& r.at("mode"@) == Some(JsonModel::Text(corrector_word(mode)))
            &&& r.at("original"@) matches Some(o) && o.at("path"@) == Some(JsonModel::Text(path))
                && o.at("old_str"@) == Some(JsonModel::Text(old_str)) && o.at("new_str"@) == Some(
                JsonModel::Text(new_str),
            )
            &&& r.at("decision"@) == Some(JsonModel::Text("declined"@))
            &&& r.at("reason"@) == Some(JsonModel::Text(d.reason@))
            &&& r.at("best_distance"@) == Some(
                match d.best_distance {
                    Some(n) => JsonModel::Number(text::decimal(n as nat)),
                    None => JsonModel::Null,
                },
            )
            &&& r.at("runner_up_distance"@) == Some(
                match d.runner_up_distance {
                    Some(n) => JsonModel::Number(text::decimal(n as nat)),
                    None => JsonModel::Null,
                },
            )
            &&& r.at("posterior"@) == Some(
                match d.posterior {
                    Some(Posterior::Certain) => JsonModel::Number("1.0"@),
                    Some(Posterior::Evaluated) => JsonModel::Number(shown),
                    None => JsonModel::Null,
                },
            )
            &&& r.at("applied"@) == Some(JsonModel::Bool(false))
        }),
{
    correction_keys_differ();
    edits_are_shown(path, old_str, new_str);
    heads_are_shown(mode, path, old_str, new_str);
    let head = correction_head(mode, path, old_str, new_str);
    let bv0 = JsonModel::Text("declined"@);
    json::only_one_member_is_set(head, "decision"@, bv0);
    let b0 = head.with("decision"@, bv0);
    let bv1 = JsonModel::Text(d.reason@);
    json::only_one_member_is_set(b0, "reason"@, bv1);
    let b1 = b0.with("reason"@, bv1);
    let bv2 = distance_json(d.best_distance);
    json::only_one_member_is_set(b1, "best_distance"@, bv2);
    let b2 = b1.with("best_distance"@, bv2);
    let bv3 = distance_json(d.runner_up_distance);
    json::only_one_member_is_set(b2, "runner_up_distance"@, bv3);
    let b3 = b2.with("runner_up_distance"@, bv3);
    let bv4 = match d.posterior {
        Some(p) => posterior_json(p, shown),
        None => JsonModel::Null,
    };
    json::only_one_member_is_set(b3, "posterior"@, bv4);
    let b4 = b3.with("posterior"@, bv4);
    let bv5 = JsonModel::Bool(false);
    json::only_one_member_is_set(b4, "applied"@, bv5);
}

/// The record of an edit that was corrected says the edit as it was asked for and as it was
/// corrected, by what rule, how near it came and with what doubt, and whether it was applied.
pub proof fn corrections_are_recorded(
    mode: AutocorrectMode,
    path: Seq<char>,
    old_str: Seq<char>,
    new_str: Seq<char>,
    c: Correction,
    shown: Seq<char>,
)
    ensures
        ({
            let r = corrected_fields(
                correction_head(mode, path, old_str, new_str),
                mode,
                path,
                old_str,
                new_str,
                c,
                shown,
            );
            &&& r.at("tool"@) == Some(JsonModel::Text("str_replace"@))
            &&& r.at("mode"@) == Some(JsonModel::Text(corrector_word(mode)))
            &&& r.at("original"@) matches Some(o) && o.at("path"@) == Some(JsonModel::Text(path))
                && o.at("old_str"@) == Some(JsonModel::Text(old_str)) && o.at("new_str"@) == Some(
                JsonModel::Text(new_str),
            )
            &&& r.at("corrected"@) matches Some(o) && o.at("path"@) == Some(JsonModel::Text(path))
                && o.at("old_str"@) == Some(JsonModel::Text(c.matched@)) && o.at("new_str"@) == Some(
                JsonModel::Text(
                    match c.adjusted_new_str {
                        Some(s) => s@,
                        None => new_str,
                    },
                ),
            )
            &&& r.at("decision"@) == Some(JsonModel::Text("corrected"@))
            &&& r.at("tier"@) == Some(JsonModel::Text(c.tier@))
            &&& r.at("distance"@) == Some(JsonModel::Number(text::decimal(c.distance as nat)))
            &&& r.at("posterior"@) == Some(
                match c.posterior {
                    Posterior::Certain => JsonModel::Number("1.0"@),
                    Posterior::Evaluated => JsonModel::Number(shown),
                },
            )
            &&& r.at("runner_up_distance"@) == Some(
                match c.runner_up_distance {
                    Some(n) => JsonModel::Number(text::decimal(n as nat)),
                    None => JsonModel::Null,
                },
            )
            &&& r.at("diff"@) == Some(
                JsonModel::Text(line_diff::short_diff_spec(old_str, c.matched@, 12)),
            )
            &&& r.at("applied"@) == Some(JsonModel::Bool(mode == AutocorrectMode::Correct))
        }),
{
    correction_keys_differ();
    edits_are_shown(path, old_str, new_str);
    edits_are_shown(path, c.matched@, effective_new_str(c, new_str));
    heads_are_shown(mode, path, old_str, new_str);
    let head = correction_head(mode, path, old_str, new_str);
    let bv0 = edit_fields(path, c.matched@, effective_new_str(c, new_str));
    json::only_one_member_is_set(head, "corrected"@, bv0);
    let b0 = head.with("corrected"@, bv0);
    let bv1 = JsonModel::Text("corrected"@);
    json::only_one_member_is_set(b0, "decision"@, bv1);
    let b1 = b0.with("decision"@, bv1);
    let bv2 = JsonModel::Text(c.tier@);
    json::only_one_member_is_set(b1, "tier"@, bv2);
    let b2 = b1.with("tier"@, bv2);
    let bv3 = JsonModel::Number(text::decimal(c.distance as nat));
    json::only_one_member_is_set(b2, "distance"@, bv3);
    let b3 = b2.with("distance"@, bv3);
    let bv4 = posterior_json(c.posterior, shown);
    json::only_one_member_is_set(b3, "posterior"@, bv4);
    let b4 = b3.with("posterior"@, bv4);
    let bv5 = distance_json(c.runner_up_distance);
    json::only_one_member_is_set(b4, "runner_up_distance"@, bv5);
    let b5 = b4.with("runner_up_distance"@, bv5);
    let bv6 = JsonModel::Text(line_diff::short_diff_spec(old_str, c.matched@, 12));
    json::only_one_member_is_set(b5, "diff"@, bv6);
    let b6 = b5.with("diff"@, bv6);
    let bv7 = JsonModel::Bool(mode == AutocorrectMode::Correct);
    json::only_one_member_is_set(b6, "applied"@, bv7);
}

/// The modes have the names by which they are set.
pub proof fn modes_have_their_names()
    ensures
        corrector_word(AutocorrectMode::Off) == "off"@,
        corrector_word(AutocorrectMode::Log) == "log"@,
        corrector_word(AutocorrectMode::Correct) == "correct"@,
        guard_word(RepeatGuardMode::Off) == "off"@,
        guard_word(RepeatGuardMode::Log) == "log"@,
        guard_word(RepeatGuardMode::Warn) == "warn"@,
{
}

} // verus!
