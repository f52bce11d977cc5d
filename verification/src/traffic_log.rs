//! The log of what is exchanged with model servers: one record for each request and
//! each response, and one for each whole exchange.

use crate::json;
use crate::json::Json;
use crate::json::JsonModel;
use crate::redaction;
use crate::redaction::HeaderText;
use crate::redaction::LoggedHeader;
use crate::settings;
use crate::text;
use std::collections::HashMap;
use vstd::prelude::*;
use vstd::string::*;

verus! {

/// The number behind `n`; the numbers start over at their end.
pub open spec fn following(n: u64) -> u64 {
    if n == u64::MAX {
        0
    } else {
        (n + 1) as u64
    }
}

/// The number that the call behind `k` others gets, from a counter that stands
/// at `start`.
pub open spec fn number_of_call(start: u64, k: nat) -> u64
    decreases k,
{
    if k == 0 {
        start
    } else {
        following(number_of_call(start, (k - 1) as nat))
    }
}

/// The number of the next exchange.
pub fn next_exchange_id(counter: &mut u64) -> (r: u64)
    ensures
        r == *old(counter),
        *final(counter) == following(*old(counter)),
{
    let id: u64 = *counter;
    *counter = if id == u64::MAX {
        0
    } else {
        id + 1
    };
    id
}

proof fn number_of_call_counts(start: u64, k: nat)
    requires
        k <= u64::MAX,
    ensures
        number_of_call(start, k) == if start + k <= u64::MAX {
            start + k
        } else {
            start + k - u64::MAX - 1
        },
    decreases k,
{
    if k > 0 {
        number_of_call_counts(start, (k - 1) as nat);
    }
}

/// No two exchanges have the same number, and a later one has the higher number
/// up to where the numbers start over.
pub proof fn exchange_numbers_differ_and_rise(start: u64, i: nat, j: nat)
    requires
        i < j <= u64::MAX,
    ensures
        number_of_call(start, i) != number_of_call(start, j),
        start + j <= u64::MAX ==> number_of_call(start, i) < number_of_call(start, j),
{
    number_of_call_counts(start, i);
    number_of_call_counts(start, j);
}

// ---------------------------------------------------------------------------
// Bodies.

pub open spec fn object() -> JsonModel {
    JsonModel::Object(Seq::empty())
}

pub open spec fn number(n: nat) -> JsonModel {
    JsonModel::Number(text::decimal(n))
}

/// A text as a body: the JSON value it is, else the text.
pub open spec fn body_of_text(t: Seq<char>) -> JsonModel {
    match json::parsed(t) {
        Some(j) => j,
        None => JsonModel::Text(t),
    }
}

/// What stands for a body that is no text.
pub open spec fn binary(n: nat) -> JsonModel {
    object().with("encoding"@, JsonModel::Text("binary"@)).with("bytes"@, number(n))
}

/// Bytes as a body.
pub open spec fn body_of_bytes(bytes: Seq<u8>) -> JsonModel {
    match text::decoded(bytes) {
        Some(t) => body_of_text(t),
        None => binary(bytes.len()),
    }
}

/// A text as a body.
pub fn text_body(t: &str) -> (r: Json)
    ensures
        r@ == body_of_text(t@),
{
    match json::parse(t) {
        Some(j) => j,
        None => Json::text(t),
    }
}

fn binary_body(n: usize) -> (r: Json)
    ensures
        r@ == binary(n as nat),
{
    Json::object().with("encoding", Json::text("binary")).with("bytes", Json::number(n as u64))
}

/// Bytes as a body.
pub fn bytes_body(bytes: &[u8]) -> (r: Json)
    ensures
        r@ == body_of_bytes(bytes@),
{
    match text::utf8_text(bytes) {
        Some(t) => text_body(t.as_str()),
        None => binary_body(bytes.len()),
    }
}

/// The data of a line of a stream, where it has some.
pub open spec fn data_of(line: Seq<char>) -> Option<Seq<char>> {
    match text::without_prefix(line, "data:"@) {
        Some(rest) => {
            let data = text::trim(rest);
            if data.len() == 0 || data == "[DONE]"@ {
                None
            } else {
                Some(data)
            }
        },
        None => None,
    }
}

fn line_data(line: &[char]) -> (r: Option<String>)
    ensures
        text::optional(r) == data_of(line@),
{
    match text::strip_prefix(line, "data:") {
        Some(rest) => {
            let data = text::trimmed(rest.as_slice());
            if data.len() == 0 {
                return None;
            }
            let s = text::string_of(data.as_slice());
            if text::same_text(s.as_str(), "[DONE]") {
                None
            } else {
                Some(s)
            }
        },
        None => None,
    }
}

/// The events of the first `n` lines.
pub open spec fn events_of(lines: Seq<Seq<char>>, n: int) -> Seq<JsonModel>
    decreases n,
{
    if n <= 0 {
        Seq::empty()
    } else {
        match data_of(lines[n - 1]) {
            Some(d) => events_of(lines, n - 1).push(body_of_text(d)),
            None => events_of(lines, n - 1),
        }
    }
}

/// A streamed body: its events; where there are none, the text.
pub open spec fn body_of_stream(bytes: Seq<u8>) -> JsonModel {
    match text::decoded(bytes) {
        Some(t) => {
            let events = events_of(text::lines(t), text::lines(t).len() as int);
            if events.len() == 0 {
                body_of_text(t)
            } else {
                JsonModel::Array(events)
            }
        },
        None => binary(bytes.len()),
    }
}

/// A streamed body.
pub fn stream_body(bytes: &[u8]) -> (r: Json)
    ensures
        r@ == body_of_stream(bytes@),
{
    let t = match text::utf8_text(bytes) {
        Some(t) => t,
        None => {
            return binary_body(bytes.len());
        },
    };
    let cs = text::chars_of(t.as_str());
    let lines = text::lines_of(cs.as_slice());
    let ghost all = text::texts(lines@);
    let mut events: Vec<Json> = Vec::new();
    let mut i: usize = 0;
    assert(json::models(events@) =~= Seq::empty());
    while i < lines.len()
        invariant
            i <= lines@.len(),
            all == text::texts(lines@),
            json::models(events@) == events_of(all, i as int),
        decreases lines@.len() - i,
    {
        assert(all[i as int] == lines@[i as int]@);
        match line_data(lines[i].as_slice()) {
            Some(d) => {
                let ghost before = events@;
                let event = text_body(d.as_str());
                events.push(event);
                assert(json::models(events@) =~= json::models(before).push(event@));
            },
            None => {},
        }
        i += 1;
    }
    assert(json::models(events@).len() == events@.len());
    if events.len() == 0 {
        text_body(t.as_str())
    } else {
        crate::chat::array(events)
    }
}

// ---------------------------------------------------------------------------
// What the model said.

pub open spec fn or_nothing(t: Option<Seq<char>>) -> Seq<char> {
    match t {
        Some(s) => s,
        None => Seq::empty(),
    }
}

/// The text at a member of a member.
pub open spec fn inner_text(j: JsonModel, outer: Seq<char>, inner: Seq<char>) -> Seq<char> {
    match j.at(outer) {
        Some(o) => or_nothing(o.text_at(inner)),
        None => Seq::empty(),
    }
}

/// What a value of its own says: the whole text, a piece of it, or the text at its
/// end.
pub open spec fn said_itself(value: JsonModel) -> Seq<char> {
    let given = or_nothing(value.text_at("output_text"@));
    if value.text_at("type"@) == Some("response.output_text.delta"@) {
        given + or_nothing(value.text_at("delta"@))
    } else if value.text_at("type"@) == Some("response.output_text.done"@) {
        match value.text_at("text"@) {
            Some(t) => t,
            None => given,
        }
    } else {
        given
    }
}

/// What the first `n` choices say.
pub open spec fn said_by_choices(choices: Seq<JsonModel>, n: int) -> Seq<char>
    decreases n,
{
    if n <= 0 {
        Seq::empty()
    } else {
        let c = choices[n - 1];
        said_by_choices(choices, n - 1) + (inner_text(c, "delta"@, "content"@) + inner_text(
            c,
            "message"@,
            "content"@,
        ) + or_nothing(c.text_at("text"@)))
    }
}

/// What the first `n` parts say.
pub open spec fn said_by_parts(parts: Seq<JsonModel>, n: int) -> Seq<char>
    decreases n,
{
    if n <= 0 {
        Seq::empty()
    } else {
        said_by_parts(parts, n - 1) + or_nothing(parts[n - 1].text_at("text"@))
    }
}

/// What the first `n` items say.
pub open spec fn said_by_items(items: Seq<JsonModel>, n: int) -> Seq<char>
    decreases n,
{
    if n <= 0 {
        Seq::empty()
    } else {
        said_by_items(items, n - 1) + match items[n - 1].items_at("content"@) {
            Some(parts) => said_by_parts(parts, parts.len() as int),
            None => Seq::empty(),
        }
    }
}

/// What a response says.
pub open spec fn said(value: JsonModel) -> Seq<char> {
    said_itself(value) + match value.items_at("choices"@) {
        Some(c) => said_by_choices(c, c.len() as int),
        None => Seq::empty(),
    } + match value.items_at("output"@) {
        Some(o) => said_by_items(o, o.len() as int),
        None => Seq::empty(),
    }
}

fn text_at_or_nothing(j: &Json, key: &str) -> (r: String)
    ensures
        r@ == or_nothing(j@.text_at(key@)),
{
    match j.str_at(key) {
        Some(t) => t.to_string(),
        None => {
            let none = String::new();
            assert(none@ =~= Seq::empty());
            none
        },
    }
}

fn inner_text_of(j: &Json, outer: &str, inner: &str) -> (r: String)
    ensures
        r@ == inner_text(j@, outer@, inner@),
{
    match j.get(outer) {
        Some(o) => text_at_or_nothing(o, inner),
        None => {
            let none = String::new();
            assert(none@ =~= Seq::empty());
            none
        },
    }
}

fn own_text(value: &Json) -> (r: String)
    ensures
        r@ == said_itself(value@),
{
    let mut given = text_at_or_nothing(value, "output_text");
    match value.str_at("type") {
        Some(kind) => {
            if text::same_text(kind, "response.output_text.delta") {
                given.append(text_at_or_nothing(value, "delta").as_str());
            } else if text::same_text(kind, "response.output_text.done") {
                match value.str_at("text") {
                    Some(t) => {
                        return t.to_string();
                    },
                    None => {},
                }
            }
        },
        None => {},
    }
    given
}

fn choices_text(choices: &Vec<Json>) -> (r: String)
    ensures
        r@ == said_by_choices(json::models(choices@), choices@.len() as int),
{
    let ghost all = json::models(choices@);
    let mut out = String::new();
    let mut i: usize = 0;
    assert(out@ =~= Seq::empty());
    while i < choices.len()
        invariant
            i <= choices@.len(),
            all == json::models(choices@),
            out@ == said_by_choices(all, i as int),
        decreases choices@.len() - i,
    {
        assert(all[i as int] == choices@[i as int]@);
        let mut here = inner_text_of(&choices[i], "delta", "content");
        here.append(inner_text_of(&choices[i], "message", "content").as_str());
        here.append(text_at_or_nothing(&choices[i], "text").as_str());
        out.append(here.as_str());
        i += 1;
    }
    out
}

fn parts_text(parts: &Vec<Json>) -> (r: String)
    ensures
        r@ == said_by_parts(json::models(parts@), parts@.len() as int),
{
    let ghost all = json::models(parts@);
    let mut out = String::new();
    let mut i: usize = 0;
    assert(out@ =~= Seq::empty());
    while i < parts.len()
        invariant
            i <= parts@.len(),
            all == json::models(parts@),
            out@ == said_by_parts(all, i as int),
        decreases parts@.len() - i,
    {
        assert(all[i as int] == parts@[i as int]@);
        out.append(text_at_or_nothing(&parts[i], "text").as_str());
        i += 1;
    }
    out
}

fn items_text(items: &Vec<Json>) -> (r: String)
    ensures
        r@ == said_by_items(json::models(items@), items@.len() as int),
{
    let ghost all = json::models(items@);
    let mut out = String::new();
    let mut i: usize = 0;
    assert(out@ =~= Seq::empty());
    while i < items.len()
        invariant
            i <= items@.len(),
            all == json::models(items@),
            out@ == said_by_items(all, i as int),
        decreases items@.len() - i,
    {
        assert(all[i as int] == items@[i as int]@);
        let ghost before = out@;
        match items[i].array_at("content") {
            Some(parts) => {
                assert(json::models(parts@).len() == parts@.len());
                out.append(parts_text(parts).as_str());
            },
            None => {
                assert(before + Seq::empty() =~= before);
            },
        }
        i += 1;
    }
    out
}

/// What a response says: its whole text, the pieces of its choices, the parts of its
/// items.
pub fn output_text_from_value(value: &Json) -> (r: String)
    ensures
        r@ == said(value@),
{
    let mut out = own_text(value);
    let ghost own = out@;
    match value.array_at("choices") {
        Some(c) => {
            assert(json::models(c@).len() == c@.len());
            out.append(choices_text(c).as_str());
        },
        None => {
            assert(own + Seq::empty() =~= own);
        },
    }
    let ghost sofar = out@;
    match value.array_at("output") {
        Some(o) => {
            assert(json::models(o@).len() == o@.len());
            out.append(items_text(o).as_str());
        },
        None => {
            assert(sofar + Seq::empty() =~= sofar);
        },
    }
    out
}

/// What the events of the first `n` lines say: a text at the end takes the place of
/// the pieces before it.
pub open spec fn said_in_lines(lines: Seq<Seq<char>>, n: int) -> Seq<char>
    decreases n,
{
    if n <= 0 {
        Seq::empty()
    } else {
        let before = said_in_lines(lines, n - 1);
        match data_of(lines[n - 1]) {
            Some(d) => match json::parsed(d) {
                Some(v) => if v.text_at("type"@) == Some("response.output_text.done"@) {
                    match v.text_at("text"@) {
                        Some(t) => t,
                        None => before,
                    }
                } else {
                    before + said(v)
                },
                None => before,
            },
            None => before,
        }
    }
}

/// What a streamed response says.
pub open spec fn said_in_stream(bytes: Seq<u8>) -> Seq<char> {
    match text::decoded(bytes) {
        Some(t) => said_in_lines(text::lines(t), text::lines(t).len() as int),
        None => Seq::empty(),
    }
}

/// What a streamed response says.
pub fn output_text_from_stream_body(bytes: &[u8]) -> (r: String)
    ensures
        r@ == said_in_stream(bytes@),
{
    let mut out = String::new();
    assert(out@ =~= Seq::empty());
    let t = match text::utf8_text(bytes) {
        Some(t) => t,
        None => {
            return out;
        },
    };
    let cs = text::chars_of(t.as_str());
    let lines = text::lines_of(cs.as_slice());
    let ghost all = text::texts(lines@);
    let mut i: usize = 0;
    while i < lines.len()
        invariant
            i <= lines@.len(),
            all == text::texts(lines@),
            out@ == said_in_lines(all, i as int),
        decreases lines@.len() - i,
    {
        assert(all[i as int] == lines@[i as int]@);
        match line_data(lines[i].as_slice()) {
            Some(d) => match json::parse(d.as_str()) {
                Some(v) => {
                    let is_end: bool = match v.str_at("type") {
                        Some(k) => text::same_text(k, "response.output_text.done"),
                        None => false,
                    };
                    if is_end {
                        match v.str_at("text") {
                            Some(t) => {
                                out = t.to_string();
                            },
                            None => {},
                        }
                    } else {
                        out.append(output_text_from_value(&v).as_str());
                    }
                },
                None => {},
            },
            None => {},
        }
        i += 1;
    }
    out
}

// ---------------------------------------------------------------------------
// What the log of exchanges leaves out.

/// The length of a value: that of a text, else that of its JSON form, in bytes.
pub open spec fn length_of(j: JsonModel) -> nat {
    match j {
        JsonModel::Text(s) => vstd::utf8::encode_utf8(s).len() as usize as nat,
        other => vstd::utf8::encode_utf8(json::text_of(other)).len() as usize as nat,
    }
}

pub open spec fn omitted(j: JsonModel) -> JsonModel {
    JsonModel::Text(
        "[omitted encrypted_content: "@ + text::decimal(length_of(j)) + " chars]"@,
    )
}

/// A value without what is encrypted in it.
pub open spec fn sanitized(j: JsonModel) -> JsonModel
    decreases j, 0nat,
{
    match j {
        JsonModel::Array(items) => JsonModel::Array(sanitized_items(items, items.len())),
        JsonModel::Object(members) => JsonModel::Object(sanitized_members(members, members.len())),
        other => other,
    }
}

pub open spec fn sanitized_items(items: Seq<JsonModel>, n: nat) -> Seq<JsonModel>
    decreases items, n,
{
    if n == 0 || n > items.len() {
        Seq::empty()
    } else {
        sanitized_items(items, (n - 1) as nat).push(sanitized(items[n - 1]))
    }
}

pub open spec fn sanitized_members(members: Seq<(Seq<char>, JsonModel)>, n: nat) -> Seq<
    (Seq<char>, JsonModel),
>
    decreases members, n,
{
    if n == 0 || n > members.len() {
        Seq::empty()
    } else {
        sanitized_members(members, (n - 1) as nat).push(
            (
                members[n - 1].0,
                if members[n - 1].0 == "encrypted_content"@ {
                    omitted(members[n - 1].1)
                } else {
                    sanitized(members[n - 1].1)
                },
            ),
        )
    }
}

fn value_len(j: &Json) -> (r: usize)
    ensures
        r == length_of(j@),
{
    match j {
        Json::Text(s) => s.as_str().len(),
        _ => j.to_text().as_str().len(),
    }
}

fn omission(j: &Json) -> (r: Json)
    ensures
        r@ == omitted(j@),
{
    let mut out = "[omitted encrypted_content: ".to_string();
    out.append(text::decimal_string(value_len(j) as u128).as_str());
    out.append(" chars]");
    Json::Text(out)
}

/// A value without what is encrypted in it.
pub fn sanitize_for_clean_log(value: &Json) -> (r: Json)
    ensures
        r@ == sanitized(value@),
    decreases value,
{
    match value {
        Json::Array(items) => {
            let ghost all = json::models(items@);
            let mut out: Vec<Json> = Vec::new();
            let mut i: usize = 0;
            assert(json::models(out@) =~= Seq::empty());
            while i < items.len()
                invariant
                    i <= items@.len(),
                    value == Json::Array(*items),
                    all == json::models(items@),
                    json::models(out@) == sanitized_items(all, i as nat),
                decreases items@.len() - i,
            {
                let ghost before = out@;
                assert(decreases_to!(*value => (*value)->Array_0@[i as int]));
                assert(all[i as int] == items@[i as int]@);
                let item = sanitize_for_clean_log(&items[i]);
                out.push(item);
                assert(json::models(out@) =~= json::models(before).push(item@));
                i += 1;
            }
            proof {
                json::array_model(*items);
            }
            crate::chat::array(out)
        },
        Json::Object(members) => {
            let ghost all = json::member_models(members@);
            let mut out: Vec<(String, Json)> = Vec::new();
            let mut i: usize = 0;
            assert(json::member_models(out@) =~= Seq::empty());
            while i < members.len()
                invariant
                    i <= members@.len(),
                    value == Json::Object(*members),
                    all == json::member_models(members@),
                    json::member_models(out@) == sanitized_members(all, i as nat),
                decreases members@.len() - i,
            {
                let ghost before = out@;
                assert(decreases_to!(*value => (*value)->Object_0@[i as int].1));
                assert(all[i as int] == (members@[i as int].0@, members@[i as int].1@));
                let shown = if text::same_text(members[i].0.as_str(), "encrypted_content") {
                    omission(&members[i].1)
                } else {
                    sanitize_for_clean_log(&members[i].1)
                };
                let key = members[i].0.clone();
                out.push((key, shown));
                assert(json::member_models(out@) =~= json::member_models(before).push(
                    (key@, shown@),
                ));
                i += 1;
            }
            proof {
                json::object_model(*members);
                json::object_model(out);
            }
            Json::Object(out)
        },
        other => other.clone(),
    }
}

/// The usage that a response reports: at its top, or in the response that it wraps.
pub open spec fn usage_of(value: JsonModel) -> Option<JsonModel> {
    let wrapped = |j: JsonModel|
        match j.at("response"@) {
            Some(r) => r.at("usage"@),
            None => None,
        };
    match value.at("usage"@) {
        Some(u) => Some(u),
        None => match wrapped(value) {
            Some(u) => Some(u),
            None => match value.at("completed"@) {
                Some(c) => wrapped(c),
                None => None,
            },
        },
    }
}

fn wrapped_usage(value: &Json) -> (r: Option<&Json>)
    ensures
        match r {
            Some(u) => value@.at("response"@) matches Some(x) && x.at("usage"@) == Some(u@),
            None => value@.at("response"@) matches Some(x) ==> x.at("usage"@) is None,
        },
{
    match value.get("response") {
        Some(x) => x.get("usage"),
        None => None,
    }
}

/// The usage that a response reports.
pub fn extract_usage(value: &Json) -> (r: Option<Json>)
    ensures
        match r {
            Some(u) => usage_of(value@) == Some(u@),
            None => usage_of(value@) is None,
        },
{
    match value.get("usage") {
        Some(u) => {
            return Some(u.clone());
        },
        None => {},
    }
    match wrapped_usage(value) {
        Some(u) => {
            return Some(u.clone());
        },
        None => {},
    }
    match value.get("completed") {
        Some(c) => match wrapped_usage(c) {
            Some(u) => Some(u.clone()),
            None => None,
        },
        None => None,
    }
}

// ---------------------------------------------------------------------------
// Records.

/// A record with the run it belongs to and the time.
pub fn stamped(record: Json, run_id: &str, ts_ms: u64) -> (r: Json)
    ensures
        r@ == record@.with("run_id"@, JsonModel::Text(run_id@)).with(
            "ts_ms"@,
            number(ts_ms as nat),
        ),
{
    record.with("run_id", Json::text(run_id)).with("ts_ms", Json::number(ts_ms))
}

pub open spec fn record(kind: Seq<char>, id: u64) -> JsonModel {
    object().with("type"@, JsonModel::Text(kind)).with("id"@, number(id as nat))
}

fn record_of(kind: &str, id: u64) -> (r: Json)
    ensures
        r@ == record(kind@, id),
{
    Json::object().with("type", Json::text(kind)).with("id", Json::number(id))
}

/// The record of a request.
pub fn http_request_record(
    exchange_id: u64,
    method: &str,
    url: &str,
    headers: &Vec<LoggedHeader>,
    body: &Json,
) -> (r: Json)
    ensures
        r@ == record("llm_request"@, exchange_id).with(
            "transport"@,
            JsonModel::Text("http"@),
        ).with("method"@, JsonModel::Text(method@)).with(
            "url"@,
            JsonModel::Text(redaction::shown_url(url@)),
        ).with(
            "headers"@,
            redaction::shown_headers(headers@, headers@.len() as int),
        ).with("request"@, body@),
{
    let shown = redaction::redact_url(url);
    record_of("llm_request", exchange_id).with("transport", Json::text("http")).with(
        "method",
        Json::text(method),
    ).with("url", Json::text(shown.as_str())).with(
        "headers",
        redaction::headers_to_json(headers),
    ).with("request", body.clone())
}

/// The record of the headers of a response.
pub fn http_response_headers_record(
    exchange_id: u64,
    status: u16,
    headers: &Vec<LoggedHeader>,
) -> (r: Json)
    ensures
        r@ == record("llm_http_response_headers"@, exchange_id).with(
            "status"@,
            number(status as nat),
        ).with("headers"@, redaction::shown_headers(headers@, headers@.len() as int)),
{
    record_of("llm_http_response_headers", exchange_id).with(
        "status",
        Json::number(status as u64),
    ).with("headers", redaction::headers_to_json(headers))
}

/// The record of a response, with what it says where it says something.
pub open spec fn response_record(
    id: u64,
    transport: Seq<char>,
    response: JsonModel,
    output: Seq<char>,
) -> JsonModel {
    let bare = record("llm_response"@, id).with("transport"@, JsonModel::Text(transport)).with(
        "response"@,
        response,
    );
    if output.len() == 0 {
        bare
    } else {
        bare.with("output_text"@, JsonModel::Text(output))
    }
}

fn record_of_response(id: u64, transport: &str, response: &Json, output: &str) -> (r: Json)
    ensures
        r@ == response_record(id, transport@, response@, output@),
{
    let bare = record_of("llm_response", id).with("transport", Json::text(transport)).with(
        "response",
        response.clone(),
    );
    if output.is_empty() {
        bare
    } else {
        bare.with("output_text", Json::text(output))
    }
}

/// A whole response body: its record, the body, and what it says.
pub fn http_response_body_record(exchange_id: u64, body: &[u8]) -> (r: (Json, Json, String))
    ensures
        r.1@ == body_of_bytes(body@),
        r.2@ == said(r.1@),
        r.0@ == response_record(exchange_id, "http"@, r.1@, r.2@),
{
    let response = bytes_body(body);
    let output = output_text_from_value(&response);
    (record_of_response(exchange_id, "http", &response, output.as_str()), response, output)
}

/// The record of a stream that broke off.
pub fn stream_aborted_record(exchange_id: u64, message: &str) -> (r: Json)
    ensures
        r@ == record("llm_response"@, exchange_id).with(
            "transport"@,
            JsonModel::Text("http_stream"@),
        ).with("error"@, JsonModel::Text(message@)),
{
    record_of("llm_response", exchange_id).with("transport", Json::text("http_stream")).with(
        "error",
        Json::text(message),
    )
}

/// The record of an error.
pub fn error_record(exchange_id: u64, message: &str) -> (r: Json)
    ensures
        r@ == record("llm_error"@, exchange_id).with("error"@, JsonModel::Text(message@)),
{
    record_of("llm_error", exchange_id).with("error", Json::text(message))
}

/// The record of a connection that is being opened.
pub fn websocket_connect_record(exchange_id: u64, url: &str, headers: &Vec<LoggedHeader>) -> (r: Json)
    ensures
        r@ == record("llm_connection"@, exchange_id).with(
            "transport"@,
            JsonModel::Text("websocket"@),
        ).with("phase"@, JsonModel::Text("connect"@)).with(
            "url"@,
            JsonModel::Text(redaction::shown_url(url@)),
        ).with("headers"@, redaction::shown_headers(headers@, headers@.len() as int)),
{
    let shown = redaction::redact_url(url);
    record_of("llm_connection", exchange_id).with("transport", Json::text("websocket")).with(
        "phase",
        Json::text("connect"),
    ).with("url", Json::text(shown.as_str())).with("headers", redaction::headers_to_json(headers))
}

/// The record of a connection that is open.
pub fn websocket_connected_record(
    exchange_id: u64,
    status: u16,
    headers: &Vec<LoggedHeader>,
) -> (r: Json)
    ensures
        r@ == record("llm_connection"@, exchange_id).with(
            "transport"@,
            JsonModel::Text("websocket"@),
        ).with("phase"@, JsonModel::Text("connected"@)).with(
            "status"@,
            number(status as nat),
        ).with("headers"@, redaction::shown_headers(headers@, headers@.len() as int)),
{
    record_of("llm_connection", exchange_id).with("transport", Json::text("websocket")).with(
        "phase",
        Json::text("connected"),
    ).with("status", Json::number(status as u64)).with(
        "headers",
        redaction::headers_to_json(headers),
    )
}

/// The record of a message that is sent.
pub fn websocket_outgoing_record(exchange_id: u64, message: &str) -> (r: (Json, Json))
    ensures
        r.1@ == body_of_text(message@),
        r.0@ == record("llm_request"@, exchange_id).with(
            "transport"@,
            JsonModel::Text("websocket"@),
        ).with("request"@, r.1@),
{
    let request = text_body(message);
    (
        record_of("llm_request", exchange_id).with("transport", Json::text("websocket")).with(
            "request",
            request.clone(),
        ),
        request,
    )
}

/// The body of a request.
#[derive(Debug)]
pub enum RequestBody {
    Json(Json),
    Raw(Vec<u8>),
    Empty,
}

/// The body of a request as it is logged.
pub fn request_body(body: &RequestBody) -> (r: Json)
    ensures
        r@ == match *body {
            RequestBody::Json(j) => j@,
            RequestBody::Raw(b) => body_of_bytes(b@),
            RequestBody::Empty => JsonModel::Null,
        },
{
    match body {
        RequestBody::Json(j) => j.clone(),
        RequestBody::Raw(b) => bytes_body(b.as_slice()),
        RequestBody::Empty => Json::Null,
    }
}

/// The body of a request as it is traced.
pub fn request_body_for_trace(body: &RequestBody) -> (r: String)
    ensures
        r@ == match *body {
            RequestBody::Json(j) => json::text_of(j@),
            RequestBody::Raw(b) => "<raw body: "@ + text::decimal(b@.len()) + " bytes>"@,
            RequestBody::Empty => ""@,
        },
{
    match body {
        RequestBody::Json(j) => j.to_text(),
        RequestBody::Raw(b) => {
            let mut out = "<raw body: ".to_string();
            out.append(text::decimal_string(b.len() as u128).as_str());
            out.append(" bytes>");
            out
        },
        RequestBody::Empty => "".to_string(),
    }
}

// ---------------------------------------------------------------------------
// Recorders.

/// Gathers a streamed response.
#[derive(Debug)]
pub struct HttpStreamResponseRecorder {
    pub exchange_id: u64,
    pub body: Vec<u8>,
}

/// A recorder for the response of an exchange.
pub fn http_stream_response_recorder(exchange_id: u64) -> (r: HttpStreamResponseRecorder)
    ensures
        r.exchange_id == exchange_id,
        r.body@.len() == 0,
{
    HttpStreamResponseRecorder { exchange_id, body: Vec::new() }
}

impl HttpStreamResponseRecorder {
    /// Takes more bytes.
    pub fn append(&mut self, chunk: &[u8])
        ensures
            final(self).exchange_id == old(self).exchange_id,
            final(self).body@ == old(self).body@ + chunk@,
    {
        let ghost before = self.body@;
        let mut i: usize = 0;
        assert(before + chunk@.take(0) =~= before);
        while i < chunk.len()
            invariant
                i <= chunk@.len(),
                self.exchange_id == old(self).exchange_id,
                self.body@ == before + chunk@.take(i as int),
            decreases chunk@.len() - i,
        {
            self.body.push(chunk[i]);
            assert(before + chunk@.take(i + 1) =~= (before + chunk@.take(i as int)).push(
                chunk@[i as int],
            ));
            i += 1;
        }
        assert(chunk@.take(i as int) =~= chunk@);
    }

    /// The record of the response, its body, and what it says, once it has ended.
    pub fn finish(&self) -> (r: (Json, Json, String))
        ensures
            r.1@ == body_of_stream(self.body@),
            r.2@ == said_in_stream(self.body@),
            r.0@ == response_record(self.exchange_id, "http_stream"@, r.1@, r.2@),
    {
        let response = stream_body(self.body.as_slice());
        let output = output_text_from_stream_body(self.body.as_slice());
        (
            record_of_response(self.exchange_id, "http_stream", &response, output.as_str()),
            response,
            output,
        )
    }
}

/// Gathers a response that comes as messages.
#[derive(Debug)]
pub struct WebsocketResponseRecorder {
    exchange_id: u64,
    output_text: String,
    completed: Option<Json>,
    output_items: Vec<Json>,
}

pub struct GatheredModel {
    pub exchange_id: u64,
    pub output: Seq<char>,
    pub completed: Option<JsonModel>,
    pub items: Seq<JsonModel>,
}

impl GatheredModel {
    /// What is gathered once a message has come.
    pub open spec fn after(self, message: Seq<char>) -> GatheredModel {
        match json::parsed(message) {
            None => self,
            Some(v) => {
                let kind = or_nothing(v.text_at("type"@));
                if kind == "response.output_text.delta"@ {
                    GatheredModel { output: self.output + or_nothing(v.text_at("delta"@)), ..self }
                } else if kind == "response.output_text.done"@ {
                    GatheredModel {
                        output: match v.text_at("text"@) {
                            Some(t) => t,
                            None => self.output,
                        },
                        ..self
                    }
                } else if kind == "response.output_item.done"@ {
                    GatheredModel {
                        items: match v.at("item"@) {
                            Some(i) => self.items.push(i),
                            None => self.items,
                        },
                        ..self
                    }
                } else if kind == "response.completed"@ {
                    GatheredModel { completed: Some(v), ..self }
                } else {
                    self
                }
            },
        }
    }

    pub open spec fn as_record(self) -> JsonModel {
        let bare = record("llm_response"@, self.exchange_id).with(
            "transport"@,
            JsonModel::Text("websocket"@),
        ).with("output_text"@, JsonModel::Text(self.output)).with(
            "output_items"@,
            JsonModel::Array(self.items),
        );
        match self.completed {
            Some(c) => bare.with("completed"@, c),
            None => bare,
        }
    }
}

pub open spec fn optional_model(j: Option<Json>) -> Option<JsonModel> {
    match j {
        Some(v) => Some(v@),
        None => None,
    }
}

impl View for WebsocketResponseRecorder {
    type V = GatheredModel;

    closed spec fn view(&self) -> GatheredModel {
        GatheredModel {
            exchange_id: self.exchange_id,
            output: self.output_text@,
            completed: optional_model(self.completed),
            items: json::models(self.output_items@),
        }
    }
}

/// A recorder for the response of an exchange.
pub fn websocket_response_recorder(exchange_id: u64) -> (r: WebsocketResponseRecorder)
    ensures
        r@ == (GatheredModel {
            exchange_id,
            output: Seq::empty(),
            completed: None,
            items: Seq::empty(),
        }),
{
    let r = WebsocketResponseRecorder {
        exchange_id,
        output_text: String::new(),
        completed: None,
        output_items: Vec::new(),
    };
    assert(r.output_text@ =~= Seq::empty());
    assert(json::models(r.output_items@) =~= Seq::empty());
    r
}

impl WebsocketResponseRecorder {
    /// Takes a message in.
    pub fn ingest(&mut self, message: &str)
        ensures
            final(self)@ == old(self)@.after(message@),
    {
        let value = match json::parse(message) {
            Some(v) => v,
            None => {
                return ;
            },
        };
        let kind = text_at_or_nothing(&value, "type");
        let kind = kind.as_str();
        let ghost was = self@;
        if text::same_text(kind, "response.output_text.delta") {
            match value.str_at("delta") {
                Some(d) => {
                    self.output_text.append(d);
                },
                None => {
                    assert(was.output + Seq::empty() =~= was.output);
                },
            }
        } else if text::same_text(kind, "response.output_text.done") {
            match value.str_at("text") {
                Some(t) => {
                    self.output_text = t.to_string();
                },
                None => {},
            }
        } else if text::same_text(kind, "response.output_item.done") {
            match value.get("item") {
                Some(item) => {
                    let ghost before = self.output_items@;
                    let item = item.clone();
                    self.output_items.push(item);
                    assert(json::models(self.output_items@) =~= json::models(before).push(item@));
                },
                None => {},
            }
        } else if text::same_text(kind, "response.completed") {
            self.completed = Some(value);
        }
    }

    /// Notes that the response broke off.
    pub fn abort(&mut self, message: &str)
        ensures
            final(self)@ == (GatheredModel {
                completed: Some(
                    object().with("type"@, JsonModel::Text("error"@)).with(
                        "error"@,
                        JsonModel::Text(message@),
                    ),
                ),
                ..old(self)@
            }),
    {
        self.completed = Some(
            Json::object().with("type", Json::text("error")).with("error", Json::text(message)),
        );
    }

    /// The record of the response, how it ended, what it says and its items.
    pub fn finish(&self) -> (r: (Json, Option<Json>, String, Json))
        ensures
            r.0@ == self@.as_record(),
            optional_model(r.1) == self@.completed,
            r.2@ == self@.output,
            r.3@ == JsonModel::Array(self@.items),
    {
        let items = crate::chat::array(copies(&self.output_items));
        let bare = record_of("llm_response", self.exchange_id).with(
            "transport",
            Json::text("websocket"),
        ).with("output_text", Json::text(self.output_text.as_str())).with(
            "output_items",
            items.clone(),
        );
        let completed: Option<Json> = match &self.completed {
            Some(c) => Some(c.clone()),
            None => None,
        };
        let whole = match &self.completed {
            Some(c) => bare.with("completed", c.clone()),
            None => bare,
        };
        (whole, completed, self.output_text.clone(), items)
    }
}

fn copies(items: &Vec<Json>) -> (r: Vec<Json>)
    ensures
        json::models(r@) == json::models(items@),
{
    let ghost goal = json::models(items@);
    let mut out: Vec<Json> = Vec::new();
    let mut i: usize = 0;
    assert(json::models(out@) =~= goal.take(0));
    while i < items.len()
        invariant
            i <= items@.len(),
            goal == json::models(items@),
            json::models(out@) == goal.take(i as int),
        decreases items@.len() - i,
    {
        let ghost before = out@;
        let item = items[i].clone();
        out.push(item);
        assert(json::models(out@) =~= json::models(before).push(item@));
        assert(goal.take(i + 1) =~= goal.take(i as int).push(goal[i as int]));
        i += 1;
    }
    assert(goal.take(i as int) =~= goal);
    out
}

// ---------------------------------------------------------------------------
// Turns of a conversation.

pub type Counts = Seq<(Seq<char>, u64)>;

/// The number under a key.
pub open spec fn count_of(counts: Counts, key: Seq<char>, i: int) -> Option<int>
    decreases counts.len() - i,
{
    if i >= counts.len() {
        None
    } else if counts[i].0 == key {
        Some(i)
    } else {
        count_of(counts, key, i + 1)
    }
}

/// Which turns have been seen, and how many of each conversation.
pub struct TurnsModel {
    pub turns: Counts,
    pub next: Counts,
}

pub open spec fn count_models(v: Seq<(String, u64)>) -> Counts {
    v.map_values(|c: (String, u64)| (c.0@, c.1))
}

/// The conversation that metadata name.
pub open spec fn conversation_in(metadata: JsonModel) -> Option<Seq<char>> {
    match metadata.at("thread_id"@) {
        Some(t) => t.text(),
        None => metadata.text_at("session_id"@),
    }
}

/// The turn that metadata name.
pub open spec fn turn_in(metadata: JsonModel) -> Option<Seq<char>> {
    match metadata.text_at("turn_id"@) {
        Some(t) if t.len() > 0 => Some(t),
        _ => None,
    }
}

pub open spec fn turn_key(conversation: Seq<char>, turn: Seq<char>) -> Seq<char> {
    conversation + seq![':'] + turn
}

impl TurnsModel {
    /// The number of a turn.
    pub open spec fn index(self, conversation: Seq<char>, turn: Seq<char>) -> u64 {
        match count_of(self.turns, turn_key(conversation, turn), 0) {
            Some(i) => self.turns[i].1,
            None => match count_of(self.next, conversation, 0) {
                Some(i) => self.next[i].1,
                None => 0,
            },
        }
    }

    /// What is known once a turn has been seen.
    pub open spec fn seen(self, conversation: Seq<char>, turn: Seq<char>) -> TurnsModel {
        match count_of(self.turns, turn_key(conversation, turn), 0) {
            Some(_) => self,
            None => {
                let n = self.index(conversation, turn);
                let then_next: u64 = if n == u64::MAX {
                    0
                } else {
                    (n + 1) as u64
                };
                TurnsModel {
                    turns: self.turns.push((turn_key(conversation, turn), n)),
                    next: match count_of(self.next, conversation, 0) {
                        Some(i) => self.next.update(i, (conversation, then_next)),
                        None => self.next.push((conversation, then_next)),
                    },
                }
            },
        }
    }
}

/// Metadata with the conversation and the number of the turn in it.
pub open spec fn enriched(turns: TurnsModel, metadata: JsonModel) -> (TurnsModel, JsonModel) {
    match (conversation_in(metadata), turn_in(metadata)) {
        (Some(c), Some(t)) => (
            turns.seen(c, t),
            metadata.with("conversation_id"@, JsonModel::Text(c)).with(
                "turn_index"@,
                number(turns.index(c, t) as nat),
            ),
        ),
        _ => (turns, metadata),
    }
}

/// Which turns have been seen, and how many of each conversation.
#[derive(Debug)]
pub struct TurnIndices {
    turns: Vec<(String, u64)>,
    next: Vec<(String, u64)>,
}

impl View for TurnIndices {
    type V = TurnsModel;

    closed spec fn view(&self) -> TurnsModel {
        TurnsModel { turns: count_models(self.turns@), next: count_models(self.next@) }
    }
}

fn place_of_count(counts: &Vec<(String, u64)>, key: &str) -> (r: Option<usize>)
    ensures
        match r {
            Some(i) => i < counts@.len() && count_of(count_models(counts@), key@, 0) == Some(
                i as int,
            ),
            None => count_of(count_models(counts@), key@, 0) is None,
        },
{
    let ghost all = count_models(counts@);
    let mut i: usize = 0;
    while i < counts.len()
        invariant
            i <= counts@.len(),
            all == count_models(counts@),
            count_of(all, key@, 0) == count_of(all, key@, i as int),
        decreases counts@.len() - i,
    {
        assert(all[i as int] == (counts@[i as int].0@, counts@[i as int].1));
        if text::same_text(counts[i].0.as_str(), key) {
            return Some(i);
        }
        i += 1;
    }
    None
}

impl TurnIndices {
    pub fn new() -> (r: Self)
        ensures
            r@.turns.len() == 0,
            r@.next.len() == 0,
    {
        TurnIndices { turns: Vec::new(), next: Vec::new() }
    }

    /// The number of a turn in its conversation, which is the same each time it is
    /// asked for.
    pub fn take_index(&mut self, conversation: &str, turn: &str) -> (r: u64)
        ensures
            r == old(self)@.index(conversation@, turn@),
            final(self)@ == old(self)@.seen(conversation@, turn@),
    {
        let ghost was = self@;
        let mut key = conversation.to_string();
        key.push(':');
        key.append(turn);
        assert(key@ =~= turn_key(conversation@, turn@));
        match place_of_count(&self.turns, key.as_str()) {
            Some(i) => {
                return self.turns[i].1;
            },
            None => {},
        }
        let ghost turns_before = self.turns@;
        let ghost next_before = self.next@;
        let place = place_of_count(&self.next, conversation);
        let n: u64 = match place {
            Some(i) => self.next[i].1,
            None => 0,
        };
        let later: u64 = if n == u64::MAX {
            0
        } else {
            n + 1
        };
        self.turns.push((key, n));
        assert(count_models(self.turns@) =~= count_models(turns_before).push((key@, n)));
        match place {
            Some(i) => {
                self.next.set(i, (conversation.to_string(), later));
                assert(count_models(self.next@) =~= count_models(next_before).update(
                    i as int,
                    (conversation@, later),
                ));
            },
            None => {
                self.next.push((conversation.to_string(), later));
                assert(count_models(self.next@) =~= count_models(next_before).push(
                    (conversation@, later),
                ));
            },
        }
        n
    }

    /// Metadata with the conversation and the number of the turn in it.
    pub fn enrich_turn_metadata(&mut self, metadata: Json) -> (r: Json)
        ensures
            (final(self)@, r@) == enriched(old(self)@, metadata@),
    {
        let conversation: Option<String> = match metadata.get("thread_id") {
            Some(t) => match t.as_str() {
                Some(s) => Some(s.to_string()),
                None => None,
            },
            None => match metadata.str_at("session_id") {
                Some(s) => Some(s.to_string()),
                None => None,
            },
        };
        let turn: Option<String> = match metadata.str_at("turn_id") {
            Some(t) => if t.is_empty() {
                None
            } else {
                Some(t.to_string())
            },
            None => None,
        };
        match (conversation, turn) {
            (Some(c), Some(t)) => {
                let n = self.take_index(c.as_str(), t.as_str());
                metadata.with("conversation_id", Json::text(c.as_str())).with(
                    "turn_index",
                    Json::number(n),
                )
            },
            _ => metadata,
        }
    }
}

proof fn count_of_pushed(counts: Counts, key: Seq<char>, n: u64, i: int)
    requires
        0 <= i <= counts.len(),
        count_of(counts, key, i) is None,
    ensures
        count_of(counts.push((key, n)), key, i) == Some(counts.len() as int),
    decreases counts.len() - i,
{
    let after = counts.push((key, n));
    if i < counts.len() {
        assert(after[i] == counts[i]);
        count_of_pushed(counts, key, n, i + 1);
    } else {
        assert(after[i].0 == key);
    }
}

proof fn count_of_found(counts: Counts, key: Seq<char>, i: int)
    requires
        0 <= i <= counts.len(),
    ensures
        count_of(counts, key, i) matches Some(p) ==> i <= p < counts.len() && counts[p].0 == key,
    decreases counts.len() - i,
{
    if i < counts.len() && counts[i].0 != key {
        count_of_found(counts, key, i + 1);
    }
}

proof fn count_of_updated(counts: Counts, key: Seq<char>, n: u64, p: int, i: int)
    requires
        0 <= i <= p < counts.len(),
        count_of(counts, key, i) == Some(p),
    ensures
        count_of(counts.update(p, (key, n)), key, i) == Some(p),
    decreases p - i,
{
    if i < p {
        count_of_found(counts, key, i);
        assert(counts[i].0 != key);
        count_of_updated(counts, key, n, p, i + 1);
    }
}

/// A turn keeps its number: seeing it again changes nothing.
pub proof fn turns_keep_their_number(turns: TurnsModel, conversation: Seq<char>, turn: Seq<char>)
    ensures
        turns.seen(conversation, turn).index(conversation, turn) == turns.index(
            conversation,
            turn,
        ),
        turns.seen(conversation, turn).seen(conversation, turn) == turns.seen(
            conversation,
            turn,
        ),
{
    let key = turn_key(conversation, turn);
    if count_of(turns.turns, key, 0) is None {
        count_of_pushed(turns.turns, key, turns.index(conversation, turn), 0);
    }
}

/// New turns of one conversation are numbered one after another.
pub proof fn new_turns_are_numbered_in_order(
    turns: TurnsModel,
    conversation: Seq<char>,
    one: Seq<char>,
    other: Seq<char>,
)
    requires
        count_of(turns.turns, turn_key(conversation, one), 0) is None,
        count_of(turns.seen(conversation, one).turns, turn_key(conversation, other), 0) is None,
        turns.index(conversation, one) < u64::MAX,
    ensures
        turns.seen(conversation, one).index(conversation, other) == turns.index(conversation, one)
            + 1,
{
    let n = turns.index(conversation, one);
    match count_of(turns.next, conversation, 0) {
        Some(p) => {
            count_of_found(turns.next, conversation, 0);
            count_of_updated(turns.next, conversation, (n + 1) as u64, p, 0);
        },
        None => {
            count_of_pushed(turns.next, conversation, (n + 1) as u64, 0);
        },
    }
}

// ---------------------------------------------------------------------------
// The log of exchanges.

/// Requests that wait for their response.
pub struct CleanLog {
    run_id: String,
    pending: HashMap<u64, Json>,
    metadata: HashMap<u64, Json>,
    turns: TurnIndices,
}

pub struct CleanLogModel {
    pub run_id: Seq<char>,
    pub pending: Map<u64, JsonModel>,
    pub metadata: Map<u64, JsonModel>,
    pub turns: TurnsModel,
}

pub open spec fn value_models(m: Map<u64, Json>) -> Map<u64, JsonModel> {
    m.map_values(|j: Json| j@)
}

impl View for CleanLog {
    type V = CleanLogModel;

    closed spec fn view(&self) -> CleanLogModel {
        CleanLogModel {
            run_id: self.run_id@,
            pending: value_models(self.pending@),
            metadata: value_models(self.metadata@),
            turns: self.turns@,
        }
    }
}

pub open spec fn held(m: Map<u64, JsonModel>, id: u64) -> Option<JsonModel> {
    if m.dom().contains(id) {
        Some(m[id])
    } else {
        None
    }
}

pub open spec fn or_null(j: Option<JsonModel>) -> JsonModel {
    match j {
        Some(v) => v,
        None => JsonModel::Null,
    }
}

/// What a finished exchange came with.
pub struct ExchangeModel {
    pub transport: Seq<char>,
    pub response: Option<JsonModel>,
    pub output_text: Option<Seq<char>>,
    pub output_items: Option<JsonModel>,
    pub error: Option<Seq<char>>,
}

pub open spec fn sanitized_option(j: Option<JsonModel>) -> Option<JsonModel> {
    match j {
        Some(v) => Some(sanitized(v)),
        None => None,
    }
}

/// The record of a whole exchange.
pub open spec fn exchange_record(
    run_id: Seq<char>,
    id: u64,
    request: Option<JsonModel>,
    metadata: Option<JsonModel>,
    e: ExchangeModel,
    ts_ms: u64,
) -> JsonModel {
    let response = sanitized_option(e.response);
    let inner = object().with(
        "output_text"@,
        JsonModel::Text(or_nothing(e.output_text)),
    ).with("output_items"@, or_null(sanitized_option(e.output_items))).with(
        "raw"@,
        or_null(response),
    ).with(
        "usage"@,
        or_null(
            match response {
                Some(v) => usage_of(v),
                None => None,
            },
        ),
    );
    object().with("type"@, JsonModel::Text("model_call"@)).with(
        "run_id"@,
        JsonModel::Text(run_id),
    ).with("id"@, number(id as nat)).with("transport"@, JsonModel::Text(e.transport)).with(
        "model"@,
        or_null(
            match request {
                Some(v) => v.at("model"@),
                None => None,
            },
        ),
    ).with("metadata"@, or_null(metadata)).with("request"@, or_null(request)).with(
        "response"@,
        inner,
    ).with(
        "error"@,
        match e.error {
            Some(m) => JsonModel::Text(m),
            None => JsonModel::Null,
        },
    ).with("ts_ms"@, number(ts_ms as nat))
}

/// What a finished exchange came with.
#[derive(Debug)]
pub struct FinishedExchange {
    pub transport: String,
    pub response: Option<Json>,
    pub output_text: Option<String>,
    pub output_items: Option<Json>,
    pub error: Option<String>,
}

impl View for FinishedExchange {
    type V = ExchangeModel;

    open spec fn view(&self) -> ExchangeModel {
        ExchangeModel {
            transport: self.transport@,
            response: optional_model(self.response),
            output_text: text::optional(self.output_text),
            output_items: optional_model(self.output_items),
            error: text::optional(self.error),
        }
    }
}

fn sanitized_copy(j: &Option<Json>) -> (r: Option<Json>)
    ensures
        optional_model(r) == sanitized_option(optional_model(*j)),
{
    match j {
        Some(v) => Some(sanitize_for_clean_log(v)),
        None => None,
    }
}

fn copy_or_null(j: &Option<Json>) -> (r: Json)
    ensures
        r@ == or_null(optional_model(*j)),
{
    match j {
        Some(v) => v.clone(),
        None => Json::Null,
    }
}

fn response_part(e: &FinishedExchange) -> (r: Json)
    ensures
        r@ == object().with("output_text"@, JsonModel::Text(or_nothing(e@.output_text))).with(
            "output_items"@,
            or_null(sanitized_option(e@.output_items)),
        ).with("raw"@, or_null(sanitized_option(e@.response))).with(
            "usage"@,
            or_null(
                match sanitized_option(e@.response) {
                    Some(v) => usage_of(v),
                    None => None,
                },
            ),
        ),
{
    let response = sanitized_copy(&e.response);
    let usage: Option<Json> = match &response {
        Some(v) => extract_usage(v),
        None => None,
    };
    let said = match &e.output_text {
        Some(t) => t.clone(),
        None => {
            let none = String::new();
            assert(none@ =~= Seq::empty());
            none
        },
    };
    Json::object().with("output_text", Json::text(said.as_str())).with(
        "output_items",
        copy_or_null(&sanitized_copy(&e.output_items)),
    ).with("raw", copy_or_null(&response)).with("usage", copy_or_null(&usage))
}

fn whole_record(
    run_id: &str,
    id: u64,
    request: &Option<Json>,
    metadata: &Option<Json>,
    e: &FinishedExchange,
    ts_ms: u64,
) -> (r: Json)
    ensures
        r@ == exchange_record(
            run_id@,
            id,
            optional_model(*request),
            optional_model(*metadata),
            e@,
            ts_ms,
        ),
{
    let model: Option<Json> = match request {
        Some(v) => match v.get("model") {
            Some(m) => Some(m.clone()),
            None => None,
        },
        None => None,
    };
    let error = match &e.error {
        Some(m) => Json::text(m.as_str()),
        None => Json::Null,
    };
    Json::object().with("type", Json::text("model_call")).with("run_id", Json::text(run_id)).with(
        "id",
        Json::number(id),
    ).with("transport", Json::text(e.transport.as_str())).with(
        "model",
        copy_or_null(&model),
    ).with("metadata", copy_or_null(metadata)).with("request", copy_or_null(request)).with(
        "response",
        response_part(e),
    ).with("error", error).with("ts_ms", Json::number(ts_ms))
}

impl CleanLog {
    pub fn new(run_id: String) -> (r: Self)
        ensures
            r@.run_id == run_id@,
            r@.pending == Map::<u64, JsonModel>::empty(),
            r@.metadata == Map::<u64, JsonModel>::empty(),
            r@.turns.turns.len() == 0,
            r@.turns.next.len() == 0,
    {
        let r = CleanLog {
            run_id,
            pending: HashMap::new(),
            metadata: HashMap::new(),
            turns: TurnIndices::new(),
        };
        assert(value_models(r.pending@) =~= Map::empty());
        assert(value_models(r.metadata@) =~= Map::empty());
        r
    }

    /// Keeps a request until its response comes, without what is encrypted in it.
    pub fn remember_request(&mut self, exchange_id: u64, request: &Json)
        ensures
            final(self)@ == (CleanLogModel {
                pending: old(self)@.pending.insert(exchange_id, sanitized(request@)),
                ..old(self)@
            }),
    {
        broadcast use vstd::std_specs::hash::group_hash_axioms;

        let ghost before = self.pending@;
        let kept = sanitize_for_clean_log(request);
        self.pending.insert(exchange_id, kept);
        assert(value_models(self.pending@) =~= value_models(before).insert(exchange_id, kept@));
    }

    /// Keeps what the headers of a request say of its turn.
    pub fn remember_exchange_metadata(&mut self, exchange_id: u64, metadata: Option<Json>)
        ensures
            match metadata {
                None => final(self)@ == old(self)@,
                Some(m) => final(self)@ == (CleanLogModel {
                    metadata: old(self)@.metadata.insert(
                        exchange_id,
                        enriched(old(self)@.turns, m@).1,
                    ),
                    turns: enriched(old(self)@.turns, m@).0,
                    ..old(self)@
                }),
            },
    {
        broadcast use vstd::std_specs::hash::group_hash_axioms;

        match metadata {
            Some(m) => {
                let ghost before = self.metadata@;
                let kept = self.turns.enrich_turn_metadata(m);
                self.metadata.insert(exchange_id, kept);
                assert(value_models(self.metadata@) =~= value_models(before).insert(
                    exchange_id,
                    kept@,
                ));
            },
            None => {},
        }
    }

    /// Ends an exchange: the record of it, with the request and the metadata that were
    /// kept for it. None where there is nothing to record.
    pub fn finish_exchange(&mut self, exchange_id: u64, e: &FinishedExchange, ts_ms: u64) -> (r:
        Option<Json>)
        ensures
            final(self)@ == (CleanLogModel {
                pending: old(self)@.pending.remove(exchange_id),
                metadata: old(self)@.metadata.remove(exchange_id),
                ..old(self)@
            }),
            ({
                let request = held(old(self)@.pending, exchange_id);
                if request is None && e@.response is None && e@.output_items is None && e@.error
                    is None {
                    r is None
                } else {
                    r matches Some(j) && j@ == exchange_record(
                        old(self)@.run_id,
                        exchange_id,
                        request,
                        held(old(self)@.metadata, exchange_id),
                        e@,
                        ts_ms,
                    )
                }
            }),
    {
        broadcast use vstd::std_specs::hash::group_hash_axioms;

        let ghost pending = self.pending@;
        let ghost kept = self.metadata@;
        let request = self.pending.remove(&exchange_id);
        let metadata = self.metadata.remove(&exchange_id);
        assert(value_models(self.pending@) =~= value_models(pending).remove(exchange_id));
        assert(value_models(self.metadata@) =~= value_models(kept).remove(exchange_id));
        assert(optional_model(request) == held(value_models(pending), exchange_id));
        assert(optional_model(metadata) == held(value_models(kept), exchange_id));
        if request.is_none() && e.response.is_none() && e.output_items.is_none()
            && e.error.is_none() {
            return None;
        }
        Some(whole_record(self.run_id.as_str(), exchange_id, &request, &metadata, e, ts_ms))
    }
}

// ---------------------------------------------------------------------------
// Where the log is kept.

/// What the first of some headers that carries a turn's metadata says, from header `i` on.
pub open spec fn metadata_in_headers(headers: Seq<LoggedHeader>, i: int) -> Option<JsonModel>
    decreases headers.len() - i,
{
    if i < 0 || i >= headers.len() {
        None
    } else if headers[i].name@ == "x-codex-turn-metadata"@ {
        match headers[i].value {
            HeaderText::Text(t) => json::parsed(t@),
            HeaderText::Binary(_) => None,
        }
    } else {
        metadata_in_headers(headers, i + 1)
    }
}

/// What the headers of a request say of its turn. Header names are in lower case.
pub fn metadata_from_headers(headers: &Vec<LoggedHeader>) -> (r: Option<Json>)
    ensures
        match r {
            Some(m) => metadata_in_headers(headers@, 0) == Some(m@),
            None => metadata_in_headers(headers@, 0) is None,
        },
{
    let mut i: usize = 0;
    while i < headers.len()
        invariant
            i <= headers@.len(),
            metadata_in_headers(headers@, 0) == metadata_in_headers(headers@, i as int),
        decreases headers@.len() - i,
    {
        if text::same_text(headers[i].name.as_str(), "x-codex-turn-metadata") {
            return match &headers[i].value {
                HeaderText::Text(t) => json::parse(t.as_str()),
                HeaderText::Binary(_) => None,
            };
        }
        i += 1;
    }
    None
}

/// Whether a switch of the log is on.
pub fn env_enabled(value: Option<&str>) -> (r: bool)
    ensures
        r == (settings::value_text(value) matches Some(v) && ({
            let t = text::lower(text::trim(v));
            t == text::lower("1"@) || t == text::lower("true"@) || t == text::lower("yes"@) || t
                == text::lower("on"@)
        })),
{
    match value {
        Some(v) => {
            let t = text::str_trim(v);
            let t = t.as_str();
            text::same_ignoring_case(t, "1") || text::same_ignoring_case(t, "true")
                || text::same_ignoring_case(t, "yes") || text::same_ignoring_case(t, "on")
        },
        None => false,
    }
}

/// The directory of the log: the one that is set, else one below the home, else
/// the one for temporary files.
pub open spec fn log_directory(
    set: Option<Seq<char>>,
    also_set: Option<Seq<char>>,
    home: Option<Seq<char>>,
    temporary: Seq<char>,
) -> Seq<char> {
    match set {
        Some(d) => d,
        None => match also_set {
            Some(d) => d,
            None => match home {
                Some(h) => text::path_under(text::path_under(h, ".millie"@), "llm-traffic"@),
                None => temporary,
            },
        },
    }
}

/// The directory of the log.
pub fn log_dir(
    set: Option<&str>,
    also_set: Option<&str>,
    home: Option<&str>,
    temporary: &str,
) -> (r: String)
    ensures
        r@ == log_directory(
            settings::value_text(set),
            settings::value_text(also_set),
            settings::value_text(home),
            temporary@,
        ),
{
    match set {
        Some(d) => d.to_string(),
        None => match also_set {
            Some(d) => d.to_string(),
            None => match home {
                Some(h) => {
                    let base = text::join_path(h, ".millie");
                    text::join_path(base.as_str(), "llm-traffic")
                },
                None => temporary.to_string(),
            },
        },
    }
}

/// Whether a character can stand in a file name of the log.
pub open spec fn is_safe(c: char) -> bool {
    text::is_alphanumeric(c) || c == '-' || c == '_' || c == '.'
}

/// A text with a dash for each character that cannot stand in a file name.
pub open spec fn made_safe(s: Seq<char>) -> Seq<char> {
    s.map_values(
        |c: char|
            if is_safe(c) {
                c
            } else {
                '-'
            },
    )
}

/// A part of a file name.
pub open spec fn file_part(s: Seq<char>, otherwise: Seq<char>) -> Seq<char> {
    let part = text::drop_back(text::drop_front(made_safe(s), '-'), '-');
    if part.len() == 0 {
        otherwise
    } else {
        part
    }
}

/// A part of a file name; `otherwise` where nothing is left of the text.
pub fn safe_file_component(value: &str, otherwise: &str) -> (r: String)
    ensures
        r@ == file_part(value@, otherwise@),
{
    let cs = text::chars_of(value);
    let mut out: Vec<char> = Vec::new();
    let mut i: usize = 0;
    assert(out@ =~= made_safe(cs@).take(0));
    while i < cs.len()
        invariant
            i <= cs@.len(),
            out@ == made_safe(cs@).take(i as int),
        decreases cs@.len() - i,
    {
        let c = cs[i];
        if text::alphanumeric(c) || c == '-' || c == '_' || c == '.' {
            out.push(c);
        } else {
            out.push('-');
        }
        assert(made_safe(cs@).take(i + 1) =~= made_safe(cs@).take(i as int).push(
            made_safe(cs@)[i as int],
        ));
        i += 1;
    }
    assert(made_safe(cs@).take(i as int) =~= made_safe(cs@));
    let whole = text::string_of(out.as_slice());
    let trimmed = text::trim_matches(whole.as_str(), '-');
    if trimmed.as_str().is_empty() {
        otherwise.to_string()
    } else {
        trimmed
    }
}

/// The name of a run that has none: when it began and its process.
pub fn default_run_id(ts_ms: u64, process: u32) -> (r: String)
    ensures
        r@ == text::decimal(ts_ms as nat) + "-p"@ + text::decimal(process as nat),
{
    let mut out = text::decimal_string(ts_ms as u128);
    out.append("-p");
    out.append(text::decimal_string(process as u128).as_str());
    out
}

/// The name of a run: the one that is set, made fit for a file name.
pub fn run_id(value: Option<&str>, otherwise: &str) -> (r: String)
    ensures
        r@ == match settings::filled(settings::value_text(value)) {
            Some(v) => file_part(text::trim(v), otherwise@),
            None => otherwise@,
        },
{
    match value {
        Some(v) => if text::str_blank(v) {
            otherwise.to_string()
        } else {
            safe_file_component(text::str_trim(v).as_str(), otherwise)
        },
        None => otherwise.to_string(),
    }
}

// ---------------------------------------------------------------------------
// Laws.

proof fn exchange_keys_differ()
    ensures
        "type"@ != "run_id"@,
        "type"@ != "id"@,
        "type"@ != "transport"@,
        "type"@ != "model"@,
        "type"@ != "metadata"@,
        "type"@ != "request"@,
        "type"@ != "response"@,
        "type"@ != "error"@,
        "type"@ != "ts_ms"@,
        "run_id"@ != "id"@,
        "run_id"@ != "transport"@,
        "run_id"@ != "model"@,
        "run_id"@ != "metadata"@,
        "run_id"@ != "request"@,
        "run_id"@ != "response"@,
        "run_id"@ != "error"@,
        "run_id"@ != "ts_ms"@,
        "id"@ != "transport"@,
        "id"@ != "model"@,
        "id"@ != "metadata"@,
        "id"@ != "request"@,
        "id"@ != "response"@,
        "id"@ != "error"@,
        "id"@ != "ts_ms"@,
        "transport"@ != "model"@,
        "transport"@ != "metadata"@,
        "transport"@ != "request"@,
        "transport"@ != "response"@,
        "transport"@ != "error"@,
        "transport"@ != "ts_ms"@,
        "model"@ != "metadata"@,
        "model"@ != "request"@,
        "model"@ != "response"@,
        "model"@ != "error"@,
        "model"@ != "ts_ms"@,
        "metadata"@ != "request"@,
        "metadata"@ != "response"@,
        "metadata"@ != "error"@,
        "metadata"@ != "ts_ms"@,
        "request"@ != "response"@,
        "request"@ != "error"@,
        "request"@ != "ts_ms"@,
        "response"@ != "error"@,
        "response"@ != "ts_ms"@,
        "error"@ != "ts_ms"@,
{
    reveal_strlit("type");
    assert("type"@.len() == 4);
    reveal_strlit("run_id");
    assert("run_id"@.len() == 6);
    reveal_strlit("id");
    assert("id"@.len() == 2);
    reveal_strlit("transport");
    assert("transport"@.len() == 9);
    reveal_strlit("model");
    assert("model"@.len() == 5);
    reveal_strlit("metadata");
    assert("metadata"@.len() == 8);
    reveal_strlit("request");
    assert("request"@.len() == 7);
    reveal_strlit("response");
    assert("response"@.len() == 8);
    reveal_strlit("error");
    assert("error"@.len() == 5);
    reveal_strlit("ts_ms");
    assert("ts_ms"@.len() == 5);
    assert("model"@[0] != "error"@[0]);
    assert("model"@[0] != "ts_ms"@[0]);
    assert("metadata"@[0] != "response"@[0]);
    assert("error"@[0] != "ts_ms"@[0]);
}

proof fn answer_keys_differ()
    ensures
        "output_text"@ != "output_items"@,
        "output_text"@ != "raw"@,
        "output_text"@ != "usage"@,
        "output_items"@ != "raw"@,
        "output_items"@ != "usage"@,
        "raw"@ != "usage"@,
{
    reveal_strlit("output_text");
    assert("output_text"@.len() == 11);
    reveal_strlit("output_items");
    assert("output_items"@.len() == 12);
    reveal_strlit("raw");
    assert("raw"@.len() == 3);
    reveal_strlit("usage");
    assert("usage"@.len() == 5);
}

proof fn gathered_keys_differ()
    ensures
        "type"@ != "id"@,
        "type"@ != "transport"@,
        "type"@ != "output_text"@,
        "type"@ != "output_items"@,
        "type"@ != "completed"@,
        "type"@ != "response"@,
        "id"@ != "transport"@,
        "id"@ != "output_text"@,
        "id"@ != "output_items"@,
        "id"@ != "completed"@,
        "id"@ != "response"@,
        "transport"@ != "output_text"@,
        "transport"@ != "output_items"@,
        "transport"@ != "completed"@,
        "transport"@ != "response"@,
        "output_text"@ != "output_items"@,
        "output_text"@ != "completed"@,
        "output_text"@ != "response"@,
        "output_items"@ != "completed"@,
        "output_items"@ != "response"@,
        "completed"@ != "response"@,
{
    reveal_strlit("type");
    assert("type"@.len() == 4);
    reveal_strlit("id");
    assert("id"@.len() == 2);
    reveal_strlit("transport");
    assert("transport"@.len() == 9);
    reveal_strlit("output_text");
    assert("output_text"@.len() == 11);
    reveal_strlit("output_items");
    assert("output_items"@.len() == 12);
    reveal_strlit("completed");
    assert("completed"@.len() == 9);
    reveal_strlit("response");
    assert("response"@.len() == 8);
    assert("transport"@[0] != "completed"@[0]);
}

/// The record of an exchange says the run, the exchange, what was asked and what came back,
/// with the usage that the answer reports, the error where there was one, and the time.
pub proof fn exchanges_are_recorded(
    run_id: Seq<char>,
    id: u64,
    request: Option<JsonModel>,
    metadata: Option<JsonModel>,
    e: ExchangeModel,
    ts_ms: u64,
)
    ensures
        ({
            let r = exchange_record(run_id, id, request, metadata, e, ts_ms);
            &&& r.at("type"@) == Some(JsonModel::Text("model_call"@))
            &&& r.at("run_id"@) == Some(JsonModel::Text(run_id))
            &&& r.at("id"@) == Some(JsonModel::Number(text::decimal(id as nat)))
            &&& r.at("transport"@) == Some(JsonModel::Text(e.transport))
            &&& r.at("ts_ms"@) == Some(JsonModel::Number(text::decimal(ts_ms as nat)))
            &&& r.at("request"@) == Some(
                match request {
                    Some(v) => v,
                    None => JsonModel::Null,
                },
            )
            &&& r.at("model"@) == Some(
                if request is Some && request.unwrap().at("model"@) is Some {
                    request.unwrap().at("model"@).unwrap()
                } else {
                    JsonModel::Null
                },
            )
            &&& r.at("metadata"@) == Some(
                match metadata {
                    Some(v) => v,
                    None => JsonModel::Null,
                },
            )
            &&& r.at("error"@) == Some(
                match e.error {
                    Some(m) => JsonModel::Text(m),
                    None => JsonModel::Null,
                },
            )
            &&& r.at("response"@) matches Some(a) && {
                &&& a.at("output_text"@) == Some(
                    JsonModel::Text(
                        match e.output_text {
                            Some(t) => t,
                            None => Seq::empty(),
                        },
                    ),
                )
                &&& a.at("output_items"@) == Some(
                    match e.output_items {
                        Some(v) => sanitized(v),
                        None => JsonModel::Null,
                    },
                )
                &&& a.at("raw"@) == Some(
                    match e.response {
                        Some(v) => sanitized(v),
                        None => JsonModel::Null,
                    },
                )
                &&& a.at("usage"@) == Some(
                    if e.response is Some && usage_of(sanitized(e.response.unwrap())) is Some {
                        usage_of(sanitized(e.response.unwrap())).unwrap()
                    } else {
                        JsonModel::Null
                    },
                )
            }
        }),
{
    exchange_keys_differ();
    answer_keys_differ();
    let none = object();
    let response = sanitized_option(e.response);
    let av0 = JsonModel::Text(or_nothing(e.output_text));
    json::only_one_member_is_set(none, "output_text"@, av0);
    let a0 = none.with("output_text"@, av0);
    let av1 = or_null(sanitized_option(e.output_items));
    json::only_one_member_is_set(a0, "output_items"@, av1);
    let a1 = a0.with("output_items"@, av1);
    let av2 = or_null(response);
    json::only_one_member_is_set(a1, "raw"@, av2);
    let a2 = a1.with("raw"@, av2);
    let av3 = or_null(
        match response {
            Some(v) => usage_of(v),
            None => None,
        },
    );
    json::only_one_member_is_set(a2, "usage"@, av3);
    let inner = a2.with("usage"@, av3);
    let xv0 = JsonModel::Text("model_call"@);
    json::only_one_member_is_set(none, "type"@, xv0);
    let x0 = none.with("type"@, xv0);
    let xv1 = JsonModel::Text(run_id);
    json::only_one_member_is_set(x0, "run_id"@, xv1);
    let x1 = x0.with("run_id"@, xv1);
    let xv2 = number(id as nat);
    json::only_one_member_is_set(x1, "id"@, xv2);
    let x2 = x1.with("id"@, xv2);
    let xv3 = JsonModel::Text(e.transport);
    json::only_one_member_is_set(x2, "transport"@, xv3);
    let x3 = x2.with("transport"@, xv3);
    let xv4 = or_null(
        match request {
            Some(v) => v.at("model"@),
            None => None,
        },
    );
    json::only_one_member_is_set(x3, "model"@, xv4);
    let x4 = x3.with("model"@, xv4);
    let xv5 = or_null(metadata);
    json::only_one_member_is_set(x4, "metadata"@, xv5);
    let x5 = x4.with("metadata"@, xv5);
    let xv6 = or_null(request);
    json::only_one_member_is_set(x5, "request"@, xv6);
    let x6 = x5.with("request"@, xv6);
    let xv7 = inner;
    json::only_one_member_is_set(x6, "response"@, xv7);
    let x7 = x6.with("response"@, xv7);
    let xv8 = match e.error {
        Some(m) => JsonModel::Text(m),
        None => JsonModel::Null,
    };
    json::only_one_member_is_set(x7, "error"@, xv8);
    let x8 = x7.with("error"@, xv8);
    let xv9 = number(ts_ms as nat);
    json::only_one_member_is_set(x8, "ts_ms"@, xv9);
}

/// The record of what was gathered says the exchange, the text and the items, and how it was
/// completed where it was.
pub proof fn gathered_responses_are_recorded(g: GatheredModel)
    ensures
        ({
            let r = g.as_record();
            &&& r.at("type"@) == Some(JsonModel::Text("llm_response"@))
            &&& r.at("id"@) == Some(JsonModel::Number(text::decimal(g.exchange_id as nat)))
            &&& r.at("transport"@) == Some(JsonModel::Text("websocket"@))
            &&& r.at("output_text"@) == Some(JsonModel::Text(g.output))
            &&& r.at("output_items"@) == Some(JsonModel::Array(g.items))
            &&& r.at("completed"@) == g.completed
        }),
{
    gathered_keys_differ();
    let none = object();
    let wv0 = JsonModel::Text("llm_response"@);
    json::only_one_member_is_set(none, "type"@, wv0);
    let w0 = none.with("type"@, wv0);
    let wv1 = number(g.exchange_id as nat);
    json::only_one_member_is_set(w0, "id"@, wv1);
    let w1 = w0.with("id"@, wv1);
    let wv2 = JsonModel::Text("websocket"@);
    json::only_one_member_is_set(w1, "transport"@, wv2);
    let w2 = w1.with("transport"@, wv2);
    let wv3 = JsonModel::Text(g.output);
    json::only_one_member_is_set(w2, "output_text"@, wv3);
    let w3 = w2.with("output_text"@, wv3);
    let wv4 = JsonModel::Array(g.items);
    json::only_one_member_is_set(w3, "output_items"@, wv4);
    let bare = w3.with("output_items"@, wv4);
    assert(none.at("completed"@) is None);
    match g.completed {
        Some(c) => {
            json::only_one_member_is_set(bare, "completed"@, c);
        },
        None => {},
    }
}

proof fn event_kinds_differ()
    ensures
        "response.output_text.delta"@ != "response.output_text.done"@,
        "response.output_text.delta"@ != "response.output_item.done"@,
        "response.output_text.delta"@ != "response.completed"@,
        "response.output_text.done"@ != "response.output_item.done"@,
        "response.output_text.done"@ != "response.completed"@,
        "response.output_item.done"@ != "response.completed"@,
{
    reveal_strlit("response.output_text.delta");
    assert("response.output_text.delta"@.len() == 26);
    reveal_strlit("response.output_text.done");
    assert("response.output_text.done"@.len() == 25);
    reveal_strlit("response.output_item.done");
    assert("response.output_item.done"@.len() == 25);
    reveal_strlit("response.completed");
    assert("response.completed"@.len() == 18);
    assert("response.output_text.done"@[16] != "response.output_item.done"@[16]);
}

/// What comes over the wire is gathered by its kind: a piece of text goes behind the text, a
/// text that is done takes its place, an item goes behind the items, the end is kept, and
/// nothing else changes anything.
pub proof fn messages_are_gathered_by_kind(
    g: GatheredModel,
    message: Seq<char>,
    v: JsonModel,
    kind: Seq<char>,
    t: Seq<char>,
    item: JsonModel,
)
    requires
        json::parsed(message) == Some(v),
        v.at("type"@) == Some(JsonModel::Text(kind)),
    ensures
        ({
            let next = g.after(message);
            &&& next.exchange_id == g.exchange_id
            &&& kind == "response.output_text.delta"@ && v.at("delta"@) == Some(JsonModel::Text(t))
                ==> next == (GatheredModel { output: g.output + t, ..g })
            &&& kind == "response.output_text.done"@ && v.at("text"@) == Some(JsonModel::Text(t))
                ==> next == (GatheredModel { output: t, ..g })
            &&& kind == "response.output_text.done"@ && v.at("text"@) is None ==> next == g
            &&& kind == "response.output_item.done"@ && v.at("item"@) == Some(item) ==> next == (
            GatheredModel { items: g.items.push(item), ..g })
            &&& kind == "response.completed"@ ==> next == (GatheredModel { completed: Some(v), ..g })
            &&& kind != "response.output_text.delta"@ && kind != "response.output_text.done"@ && kind
                != "response.output_item.done"@ && kind != "response.completed"@ ==> next == g
        }),
{
    event_kinds_differ();
}

/// A message that cannot be read, or that is of no kind, changes nothing.
pub proof fn other_messages_change_nothing(g: GatheredModel, message: Seq<char>)
    requires
        json::parsed(message) is None || json::parsed(message).unwrap().at("type"@) is None,
    ensures
        g.after(message) == g,
{
    reveal_strlit("response.output_text.delta");
    reveal_strlit("response.output_text.done");
    reveal_strlit("response.output_item.done");
    reveal_strlit("response.completed");
    assert("response.output_text.delta"@.len() > 0);
    assert("response.output_text.done"@.len() > 0);
    assert("response.output_item.done"@.len() > 0);
    assert("response.completed"@.len() > 0);
}

/// A record of a response holds its text only where there is any.
pub proof fn responses_are_recorded(id: u64, transport: Seq<char>, response: JsonModel, output: Seq<char>)
    ensures
        ({
            let r = response_record(id, transport, response, output);
            &&& r.at("type"@) == Some(JsonModel::Text("llm_response"@))
            &&& r.at("id"@) == Some(JsonModel::Number(text::decimal(id as nat)))
            &&& r.at("transport"@) == Some(JsonModel::Text(transport))
            &&& r.at("response"@) == Some(response)
            &&& r.at("output_text"@) == if output.len() > 0 {
                Some(JsonModel::Text(output))
            } else {
                None
            }
        }),
{
    gathered_keys_differ();
    let none = object();
    let wv0 = JsonModel::Text("llm_response"@);
    json::only_one_member_is_set(none, "type"@, wv0);
    let w0 = none.with("type"@, wv0);
    let wv1 = number(id as nat);
    json::only_one_member_is_set(w0, "id"@, wv1);
    let w1 = w0.with("id"@, wv1);
    let wv2 = JsonModel::Text(transport);
    json::only_one_member_is_set(w1, "transport"@, wv2);
    let w2 = w1.with("transport"@, wv2);
    let wv3 = response;
    json::only_one_member_is_set(w2, "response"@, wv3);
    let bare = w2.with("response"@, wv3);
    assert(none.at("output_text"@) is None);
    json::only_one_member_is_set(bare, "output_text"@, JsonModel::Text(output));
}

/// What stands behind the name of a data line is taken, less the blanks around it; a line
/// with nothing behind it, the last line and any other line hold none.
pub proof fn data_lines_hold_their_data(a: Seq<char>, d: Seq<char>, b: Seq<char>, line: Seq<char>)
    requires
        text::is_blank(a),
        text::is_blank(b),
        d.len() > 0,
        !text::is_white(d[0]),
        !text::is_white(d.last()),
    ensures
        data_of("data:"@ + (a + d + b)) == if d == "[DONE]"@ {
            None
        } else {
            Some(d)
        },
        data_of("data:"@ + a) is None,
        !text::begins_with(line, "data:"@) ==> data_of(line) is None,
{
    text::trim_takes_off_the_white(a, d, b);
    text::trim_of_blank(a);
    let one = "data:"@ + (a + d + b);
    let n = "data:"@.len() as int;
    assert(one.take(n) =~= "data:"@ && one.skip(n) =~= a + d + b);
    let other = "data:"@ + a;
    assert(other.take(n) =~= "data:"@ && other.skip(n) =~= a);
}

/// The events of a stream are what its data lines hold, in their order: read where they can
/// be, and kept as texts where not.
pub proof fn events_are_the_data_lines(lines: Seq<Seq<char>>, more: Seq<char>, d: Seq<char>, v: JsonModel)
    ensures
        ({
            let n = lines.len() as int;
            let before = events_of(lines, n);
            let after = events_of(lines.push(more), n + 1);
            &&& data_of(more) is None ==> after == before
            &&& data_of(more) == Some(d) && json::parsed(d) == Some(v) ==> after == before.push(v)
            &&& data_of(more) == Some(d) && json::parsed(d) is None ==> after == before.push(
                JsonModel::Text(d),
            )
        }),
{
    same_events(lines, more, lines.len() as int);
    assert(lines.push(more)[lines.len() as int] == more);
}

proof fn same_events(lines: Seq<Seq<char>>, more: Seq<char>, n: int)
    requires
        0 <= n <= lines.len(),
    ensures
        events_of(lines.push(more), n) == events_of(lines, n),
    decreases n,
{
    if n > 0 {
        same_events(lines, more, n - 1);
        assert(lines.push(more)[n - 1] == lines[n - 1]);
    }
}

/// What an answer says is its own text, then what its choices say, then what its items say,
/// each in their order.
pub proof fn answers_say_what_their_parts_say(value: JsonModel, t: Seq<char>)
    ensures
        value.at("type"@) is None && value.at("output_text"@) == Some(JsonModel::Text(t))
            && value.at("choices"@) is None && value.at("output"@) is None ==> said(value) == t,
        value.at("type"@) == Some(JsonModel::Text("response.output_text.delta"@)) && value.at(
            "delta"@,
        ) == Some(JsonModel::Text(t)) && value.at("output_text"@) is None && value.at("choices"@)
            is None && value.at("output"@) is None ==> said(value) == t,
        value.at("type"@) == Some(JsonModel::Text("response.output_text.done"@)) && value.at(
            "text"@,
        ) == Some(JsonModel::Text(t)) && value.at("choices"@) is None && value.at("output"@) is None
            ==> said(value) == t,
        value.at("type"@) is None && value.at("output_text"@) is None && value.at("choices"@) is None
            && value.at("output"@) is None ==> said(value).len() == 0,
{
    event_kinds_differ();
    let none = Seq::<char>::empty();
    assert(none + t + none + none =~= t);
    assert(t + none + none =~= t);
    assert(none + t =~= t);
}

pub open spec fn piece_of(c: JsonModel, t: Seq<char>) -> bool {
    let d = c.at("delta"@);
    let m = c.at("message"@);
    let in_delta = d is Some && d.unwrap().at("content"@) == Some(JsonModel::Text(t)) && m is None
        && c.at("text"@) is None;
    let in_message = m is Some && m.unwrap().at("content"@) == Some(JsonModel::Text(t)) && d is None
        && c.at("text"@) is None;
    let bare = c.at("text"@) == Some(JsonModel::Text(t)) && d is None && m is None;
    in_delta || in_message || bare
}

/// The pieces of the choices are put together in the order of the choices, whether they
/// come as pieces, as whole messages or as bare texts.
pub proof fn choices_are_put_together(choices: Seq<JsonModel>, texts: Seq<Seq<char>>, n: int)
    requires
        choices.len() == texts.len(),
        0 <= n <= choices.len(),
        forall|i: int| 0 <= i < choices.len() ==> piece_of(#[trigger] choices[i], texts[i]),
    ensures
        said_by_choices(choices, n) == text::join(texts.take(n), Seq::empty()),
    decreases n,
{
    if n > 0 {
        choices_are_put_together(choices, texts, n - 1);
        assert(piece_of(choices[n - 1], texts[n - 1]));
        joined_on(texts, n);
        let none = Seq::<char>::empty();
        let t = texts[n - 1];
        assert(t + none + none =~= t);
        assert(none + t + none =~= t);
        assert(none + none + t =~= t);
    }
}

proof fn joined_on(texts: Seq<Seq<char>>, n: int)
    requires
        0 < n <= texts.len(),
    ensures
        text::join(texts.take(n), Seq::empty()) == text::join(texts.take(n - 1), Seq::empty())
            + texts[n - 1],
{
    let none = Seq::<char>::empty();
    assert(texts.take(n).drop_last() =~= texts.take(n - 1));
    assert(texts.take(n).last() == texts[n - 1]);
    if n == 1 {
        assert(texts.take(0).len() == 0);
        assert(none + texts[0] =~= texts[0]);
    } else {
        assert(text::join(texts.take(n - 1), none) + none + texts[n - 1] =~= text::join(
            texts.take(n - 1),
            none,
        ) + texts[n - 1]);
    }
}

/// The parts of an item are put together in their order.
pub proof fn parts_are_put_together(parts: Seq<JsonModel>, texts: Seq<Seq<char>>, n: int)
    requires
        parts.len() == texts.len(),
        0 <= n <= parts.len(),
        forall|i: int|
            0 <= i < parts.len() ==> (#[trigger] parts[i]).at("text"@) == Some(
                JsonModel::Text(texts[i]),
            ),
    ensures
        said_by_parts(parts, n) == text::join(texts.take(n), Seq::empty()),
    decreases n,
{
    if n > 0 {
        parts_are_put_together(parts, texts, n - 1);
        assert(parts[n - 1].text_at("text"@) == Some(texts[n - 1]));
        joined_on(texts, n);
    }
}

/// A clean log keeps every item and every member in its place and under its name, and
/// withholds nothing but encrypted contents, of which it tells the length alone.
pub proof fn clean_logs_keep_all_but_encrypted_contents(
    members: Seq<(Seq<char>, JsonModel)>,
    items: Seq<JsonModel>,
    i: int,
    k: int,
)
    requires
        0 <= i < members.len(),
        0 <= k < items.len(),
    ensures
        sanitized(JsonModel::Object(members)) matches JsonModel::Object(kept) && {
            &&& kept.len() == members.len()
            &&& kept[i].0 == members[i].0
            &&& members[i].0 != "encrypted_content"@ ==> kept[i].1 == sanitized(members[i].1)
            &&& members[i].0 == "encrypted_content"@ ==> kept[i].1 == JsonModel::Text(
                "[omitted encrypted_content: "@ + text::decimal(length_of(members[i].1))
                    + " chars]"@,
            )
        },
        sanitized(JsonModel::Array(items)) matches JsonModel::Array(kept) && kept.len() == items.len()
            && kept[k] == sanitized(items[k]),
        sanitized(JsonModel::Null) == JsonModel::Null,
        forall|t: Seq<char>|
            #![trigger JsonModel::Text(t).text()]
            sanitized(JsonModel::Text(t)) == JsonModel::Text(t),
        forall|b: bool|
            #![trigger JsonModel::Bool(b).flag()]
            sanitized(JsonModel::Bool(b)) == JsonModel::Bool(b),
        forall|t: Seq<char>|
            #![trigger JsonModel::Number(t).whole()]
            sanitized(JsonModel::Number(t)) == JsonModel::Number(t),
{
    members_are_kept(members, members.len(), i);
    items_are_kept(items, items.len(), k);
}

proof fn members_are_kept(members: Seq<(Seq<char>, JsonModel)>, n: nat, i: int)
    requires
        n <= members.len(),
    ensures
        sanitized_members(members, n).len() == n,
        0 <= i < n ==> sanitized_members(members, n)[i] == (
            members[i].0,
            if members[i].0 == "encrypted_content"@ {
                omitted(members[i].1)
            } else {
                sanitized(members[i].1)
            },
        ),
    decreases n,
{
    if n > 0 {
        members_are_kept(members, (n - 1) as nat, i);
    }
}

proof fn items_are_kept(items: Seq<JsonModel>, n: nat, k: int)
    requires
        n <= items.len(),
    ensures
        sanitized_items(items, n).len() == n,
        0 <= k < n ==> sanitized_items(items, n)[k] == sanitized(items[k]),
    decreases n,
{
    if n > 0 {
        items_are_kept(items, (n - 1) as nat, k);
    }
}

/// The usage is the one of the answer itself, else the one of the response that it wraps, else
/// the one of the response that its end wraps.
pub proof fn usage_is_found_where_it_stands(value: JsonModel, u: JsonModel, response: JsonModel, end: JsonModel)
    ensures
        value.at("usage"@) == Some(u) ==> usage_of(value) == Some(u),
        value.at("usage"@) is None && value.at("response"@) == Some(response) && response.at(
            "usage"@,
        ) == Some(u) ==> usage_of(value) == Some(u),
        value.at("usage"@) is None && value.at("response"@) is None && value.at("completed"@)
            == Some(end) && end.at("response"@) == Some(response) && response.at("usage"@) == Some(u)
            ==> usage_of(value) == Some(u),
        value.at("usage"@) is None && value.at("response"@) is None && value.at("completed"@) is None
            ==> usage_of(value) is None,
{
}

/// The first of the headers that carry metadata is read, and where there is none there is
/// nothing to read.
pub proof fn the_first_metadata_is_read(headers: Seq<LoggedHeader>, i: int, at: int)
    requires
        0 <= i <= at <= headers.len(),
        forall|k: int| 0 <= k < at ==> (#[trigger] headers[k]).name@ != "x-codex-turn-metadata"@,
    ensures
        at == headers.len() ==> metadata_in_headers(headers, i) is None,
        at < headers.len() && headers[at].name@ == "x-codex-turn-metadata"@ ==> (
        headers[at].value matches HeaderText::Text(t) ==> metadata_in_headers(headers, i)
            == json::parsed(t@)),
    decreases at - i,
{
    if i < at {
        assert(headers[i].name@ != "x-codex-turn-metadata"@);
        the_first_metadata_is_read(headers, i + 1, at);
    }
}

/// A turn is numbered within its conversation, which is the thread, or the session where no
/// thread is named; metadata without either, or without a turn, stays as it is.
pub proof fn metadata_is_numbered(turns: TurnsModel, metadata: JsonModel, c: Seq<char>, t: Seq<char>)
    requires
        metadata is Object,
    ensures
        ({
            let (next, r) = enriched(turns, metadata);
            let threaded = metadata.at("thread_id"@) == Some(JsonModel::Text(c));
            let in_session = metadata.at("thread_id"@) is None && metadata.at("session_id"@) == Some(
                JsonModel::Text(c),
            );
            let turned = metadata.at("turn_id"@) == Some(JsonModel::Text(t)) && t.len() > 0;
            &&& (threaded || in_session) && turned ==> {
                &&& r.at("conversation_id"@) == Some(JsonModel::Text(c))
                &&& r.at("turn_index"@) == Some(
                    JsonModel::Number(text::decimal(turns.index(c, t) as nat)),
                )
                &&& next == turns.seen(c, t)
            }
            &&& metadata.at("turn_id"@) is None ==> r == metadata && next == turns
            &&& metadata.at("thread_id"@) is None && metadata.at("session_id"@) is None ==> r
                == metadata && next == turns
        }),
{
    reveal_strlit("conversation_id");
    reveal_strlit("turn_index");
    assert("conversation_id"@.len() != "turn_index"@.len());
    let m = metadata.with("conversation_id"@, JsonModel::Text(c));
    json::only_one_member_is_set(metadata, "conversation_id"@, JsonModel::Text(c));
    json::only_one_member_is_set(m, "turn_index"@, number(turns.index(c, t) as nat));
}

/// The log lies where it is said to, first by the one name, then by the other, else below
/// the home, else in the place for what is temporary.
pub proof fn logs_lie_where_they_are_said_to(
    d: Seq<char>,
    also: Option<Seq<char>>,
    home: Option<Seq<char>>,
    temporary: Seq<char>,
)
    ensures
        log_directory(Some(d), also, home, temporary) == d,
        log_directory(None, Some(d), home, temporary) == d,
        log_directory(None, None, Some(d), temporary) == text::path_under(
            text::path_under(d, ".millie"@),
            "llm-traffic"@,
        ),
        log_directory(None, None, None, temporary) == temporary,
{
}

/// A part of a file's name holds letters, digits, dashes, underscores and dots only, each where
/// it stood, with no dash at either end; where nothing is left of it, another takes its place.
pub proof fn file_parts_are_plain(front: Seq<char>, s: Seq<char>, back: Seq<char>, otherwise: Seq<char>)
    requires
        s.len() > 0,
        is_safe(s[0]) && s[0] != '-',
        is_safe(s.last()) && s.last() != '-',
        forall|i: int| 0 <= i < front.len() ==> !is_safe(#[trigger] front[i]) || front[i] == '-',
        forall|i: int| 0 <= i < back.len() ==> !is_safe(#[trigger] back[i]) || back[i] == '-',
    ensures
        file_part(front + s + back, otherwise).len() == s.len(),
        forall|i: int|
            0 <= i < s.len() ==> #[trigger] file_part(front + s + back, otherwise)[i] == if is_safe(
                s[i],
            ) {
                s[i]
            } else {
                '-'
            },
        file_part(front, otherwise) == otherwise,
{
    let all = made_safe(front + s + back);
    let (f, m, b) = (made_safe(front), made_safe(s), made_safe(back));
    assert(all =~= f + (m + b));
    dashes_in_front(f, m + b);
    assert((m + b)[0] == m[0]);
    assert(text::drop_front(m + b, '-') == m + b);
    dashes_behind(m, b);
    assert(text::drop_back(m, '-') == m);
    let none = Seq::<char>::empty();
    dashes_in_front(f, none);
    assert(f + none =~= f);
    assert(text::drop_front(none, '-') == none);
}

proof fn dashes_in_front(f: Seq<char>, s: Seq<char>)
    requires
        forall|i: int| 0 <= i < f.len() ==> #[trigger] f[i] == '-',
    ensures
        text::drop_front(f + s, '-') == text::drop_front(s, '-'),
    decreases f.len(),
{
    if f.len() > 0 {
        assert((f + s)[0] == f[0]);
        assert((f + s).skip(1) =~= f.skip(1) + s);
        dashes_in_front(f.skip(1), s);
    } else {
        assert(f + s =~= s);
    }
}

proof fn dashes_behind(s: Seq<char>, b: Seq<char>)
    requires
        forall|i: int| 0 <= i < b.len() ==> #[trigger] b[i] == '-',
    ensures
        text::drop_back(s + b, '-') == text::drop_back(s, '-'),
    decreases b.len(),
{
    if b.len() > 0 {
        assert((s + b).last() == b.last());
        assert(b.last() == b[b.len() - 1]);
        assert((s + b).drop_last() =~= s + b.drop_last());
        dashes_behind(s, b.drop_last());
    } else {
        assert(s + b =~= s);
    }
}

} // verus!
