//! Tool calls in the text that the model produces: the XML form
//! `<tool_call><function=NAME><parameter=KEY>value</parameter></function></tool_call>`
//! and the JSON form inside the same tags.

use crate::decimals;
use crate::json;
use crate::json::Json;
use crate::json::JsonModel;
use crate::text;
use vstd::prelude::*;
use vstd::string::*;

verus! {

/// One call as it was parsed.
#[derive(Debug, PartialEq, Eq)]
pub struct ParsedToolCall {
    pub name: String,
    /// Present when the model emitted a call id, which only the JSON form does.
    pub call_id: Option<String>,
    /// The raw text of each parameter, in the order in which they appeared.
    pub arguments: Vec<(String, String)>,
}

/// What one whole completion holds.
#[derive(Debug, PartialEq, Eq)]
pub struct ExtractedToolCalls {
    pub tools_called: bool,
    pub tool_calls: Vec<ParsedToolCall>,
    /// Plain content before the first tool call, or the whole output where no
    /// call was found.
    pub content: Option<String>,
}

/// A call with texts as character sequences.
pub struct CallModel {
    pub name: Seq<char>,
    pub call_id: Option<Seq<char>>,
    pub arguments: Seq<(Seq<char>, Seq<char>)>,
}

/// The names and raw values of arguments.
pub open spec fn argument_texts(v: Seq<(String, String)>) -> Seq<(Seq<char>, Seq<char>)> {
    v.map_values(|a: (String, String)| (a.0@, a.1@))
}

impl View for ParsedToolCall {
    type V = CallModel;

    open spec fn view(&self) -> CallModel {
        CallModel {
            name: self.name@,
            call_id: match self.call_id {
                Some(s) => Some(s@),
                None => None,
            },
            arguments: argument_texts(self.arguments@),
        }
    }
}

/// The calls that a sequence of parsed calls holds.
pub open spec fn call_models(v: Seq<ParsedToolCall>) -> Seq<CallModel> {
    v.map_values(|c: ParsedToolCall| c@)
}

// ---------------------------------------------------------------------------
// The grammar.

/// The spans between `<tool_call>` and the next `</tool_call>`; one that is not
/// closed takes the rest of the text.
pub open spec fn tool_call_bodies(s: Seq<char>) -> Seq<Seq<char>>
    decreases s.len(),
    via tool_call_bodies_decreases
{
    match text::find_from(s, "<tool_call>"@, 0) {
        None => Seq::empty(),
        Some(i) => {
            let after = s.skip(i + "<tool_call>"@.len());
            match text::find_from(after, "</tool_call>"@, 0) {
                None => seq![after],
                Some(e) => seq![after.take(e)] + tool_call_bodies(
                    after.skip(e + "</tool_call>"@.len()),
                ),
            }
        },
    }
}

#[via_fn]
proof fn tool_call_bodies_decreases(s: Seq<char>) {
    reveal_strlit("<tool_call>");
    text::find_from_is_first(s, "<tool_call>"@, 0);
    match text::find_from(s, "<tool_call>"@, 0) {
        None => {},
        Some(i) => {
            text::find_from_is_first(s.skip(i + "<tool_call>"@.len()), "</tool_call>"@, 0);
        },
    }
}

/// What stands behind the first `<function=` of a body, up to `</function>`
/// where it is closed.
pub open spec fn function_body(body: Seq<char>) -> Option<Seq<char>> {
    match text::find_from(body, "<function="@, 0) {
        None => None,
        Some(i) => {
            let after = body.skip(i + "<function="@.len());
            match text::find_from(after, "</function>"@, 0) {
                Some(e) => Some(after.take(e)),
                None => Some(after),
            }
        },
    }
}

/// A character that no tool name has: whitespace, a quote, a brace, a colon or
/// a comma.
pub open spec fn is_foreign_to_names(c: char) -> bool {
    text::is_white(c) || c == '"' || c == '\'' || c == '{' || c == '}' || c == ':' || c == ','
}

pub open spec fn is_tool_name(name: Seq<char>) -> bool {
    name.len() > 0 && forall|i: int| 0 <= i < name.len() ==> !is_foreign_to_names(#[trigger] name[i])
}

/// `value` without one line feed at its front and one at its back.
pub open spec fn without_outer_newlines(value: Seq<char>) -> Seq<char> {
    let front = if value.len() > 0 && value[0] == '\n' {
        value.skip(1)
    } else {
        value
    };
    if front.len() > 0 && front.last() == '\n' {
        front.drop_last()
    } else {
        front
    }
}

/// Where a parameter value that begins a text ends: at the first
/// `</parameter>` or `<parameter=`, or at the end of the text.
pub open spec fn value_end(region: Seq<char>) -> int {
    let closed = text::find_from(region, "</parameter>"@, 0);
    let opened = text::find_from(region, "<parameter="@, 0);
    match (closed, opened) {
        (Some(a), Some(b)) => if a <= b {
            a
        } else {
            b
        },
        (Some(a), None) => a,
        (None, Some(b)) => b,
        (None, None) => region.len() as int,
    }
}

/// The parameters of a text, in order.
pub open spec fn parameters(s: Seq<char>) -> Seq<(Seq<char>, Seq<char>)>
    decreases s.len(),
    via parameters_decreases
{
    match text::find_from(s, "<parameter="@, 0) {
        None => Seq::empty(),
        Some(i) => {
            let after = s.skip(i + "<parameter="@.len());
            let n = text::upto(after, '>');
            if n >= after.len() {
                Seq::empty()
            } else {
                let region = after.skip(n + 1);
                let end = value_end(region);
                let next = if text::occurs_at(region, "</parameter>"@, end) {
                    end + "</parameter>"@.len()
                } else {
                    end
                };
                seq![(after.take(n), without_outer_newlines(region.take(end)))] + parameters(
                    region.skip(next),
                )
            }
        },
    }
}

#[via_fn]
proof fn parameters_decreases(s: Seq<char>) {
    reveal_strlit("<parameter=");
    text::find_from_is_first(s, "<parameter="@, 0);
    match text::find_from(s, "<parameter="@, 0) {
        None => {},
        Some(i) => {
            let after = s.skip(i + "<parameter="@.len());
            text::upto_shape(after, '>');
            let region = after.skip(text::upto(after, '>') + 1);
            value_end_in_range(region);
        },
    }
}

proof fn value_end_in_range(region: Seq<char>)
    ensures
        0 <= value_end(region) <= region.len(),
{
    text::find_from_is_first(region, "</parameter>"@, 0);
    text::find_from_is_first(region, "<parameter="@, 0);
}

/// The call that a function body spells; none where its name is no tool name.
pub open spec fn function_call(body: Seq<char>) -> Option<CallModel> {
    let n = text::upto(body, '>');
    if n >= body.len() || !is_tool_name(body.take(n)) {
        None
    } else {
        Some(
            CallModel {
                name: body.take(n),
                call_id: None,
                arguments: parameters(body.skip(n + 1)),
            },
        )
    }
}

/// The raw text of a JSON argument: that of a string as it is, JSON text of
/// anything else.
pub open spec fn raw_text(value: JsonModel) -> Seq<char> {
    match value {
        JsonModel::Text(s) => s,
        other => json::text_of(other),
    }
}

/// The first `n` pairs with each key once: where it came first, with what came last.
pub open spec fn merged(pairs: Seq<(Seq<char>, JsonModel)>, n: int) -> Seq<(Seq<char>, JsonModel)>
    decreases n,
{
    if n <= 0 {
        Seq::empty()
    } else {
        json::set_member(merged(pairs, n - 1), pairs[n - 1].0, pairs[n - 1].1)
    }
}

/// The arguments that pairs of a JSON text name, in the order of the text.
pub open spec fn json_arguments(pairs: Option<Seq<(Seq<char>, JsonModel)>>) -> Seq<
    (Seq<char>, Seq<char>),
> {
    match pairs {
        Some(pairs) => merged(pairs, pairs.len() as int).map_values(
            |m: (Seq<char>, JsonModel)| (m.0, raw_text(m.1)),
        ),
        None => Seq::empty(),
    }
}

/// The members of the `arguments` of a JSON call, which is the value `v` of the text
/// `source`, in the order of the text. They may also be JSON text in a string.
pub open spec fn argument_pairs(v: JsonModel, source: Seq<char>) -> Option<
    Seq<(Seq<char>, JsonModel)>,
> {
    match v.at("arguments"@) {
        Some(JsonModel::Text(inner)) => json::ordered_pairs(inner),
        Some(JsonModel::Object(_)) => match json::member_source(source, "arguments"@) {
            Some(t) => json::ordered_pairs(t),
            None => None,
        },
        _ => None,
    }
}

/// The call that a JSON value with these arguments names.
pub open spec fn json_value_call(v: JsonModel, pairs: Option<Seq<(Seq<char>, JsonModel)>>) -> Option<
    CallModel,
> {
    match v.text_at("name"@) {
        Some(name) if name.len() > 0 => Some(
            CallModel { name, call_id: v.text_at("call_id"@), arguments: json_arguments(pairs) },
        ),
        _ => None,
    }
}

/// The call that a body spells in the JSON form.
pub open spec fn json_call(body: Seq<char>) -> Option<CallModel> {
    let trimmed = text::trim(body);
    if trimmed.len() == 0 || trimmed[0] != '{' {
        None
    } else {
        match json::parsed(trimmed) {
            None => None,
            Some(v) => json_value_call(v, argument_pairs(v, trimmed)),
        }
    }
}

/// The call that a body spells in either form. A body with `<function=` is in
/// the XML form, whether or not that yields a call.
pub open spec fn call_in(body: Seq<char>) -> Option<CallModel> {
    match function_body(body) {
        Some(fb) => function_call(fb),
        None => json_call(body),
    }
}

/// The calls of the first `n` bodies.
pub open spec fn calls_in(bodies: Seq<Seq<char>>, n: int) -> Seq<CallModel>
    decreases n,
{
    if n <= 0 {
        Seq::empty()
    } else {
        match call_in(bodies[n - 1]) {
            Some(c) => calls_in(bodies, n - 1).push(c),
            None => calls_in(bodies, n - 1),
        }
    }
}

/// The bodies to look into: the tagged ones, or the whole text where none is
/// tagged.
pub open spec fn bodies_of(s: Seq<char>) -> Seq<Seq<char>> {
    if tool_call_bodies(s).len() == 0 {
        seq![s]
    } else {
        tool_call_bodies(s)
    }
}

/// Every call of a completion.
pub open spec fn calls_of(s: Seq<char>) -> Seq<CallModel> {
    if !text::contains(s, "<function="@) && !text::contains(s, "<tool_call>"@) {
        Seq::empty()
    } else {
        calls_in(bodies_of(s), bodies_of(s).len() as int)
    }
}

/// Where the plain content of a completion with calls ends.
pub open spec fn content_end(s: Seq<char>) -> int {
    match (
        text::find_from(s, "<tool_call>"@, 0),
        text::find_from(s, "<function="@, 0),
    ) {
        (Some(a), Some(b)) => if a <= b {
            a
        } else {
            b
        },
        (Some(a), None) => a,
        (None, Some(b)) => b,
        (None, None) => s.len() as int,
    }
}

/// The plain content of a completion: all of it where it has no call, else what
/// stands before the first; none where that is empty.
pub open spec fn content_of(s: Seq<char>) -> Option<Seq<char>> {
    if calls_of(s).len() == 0 {
        Some(s)
    } else if content_end(s) == 0 {
        None
    } else {
        Some(s.take(content_end(s)))
    }
}

// ---------------------------------------------------------------------------
// The parser.

fn literal(s: &str) -> (r: Vec<char>)
    ensures
        r@ == s@,
{
    text::chars_of(s)
}

/// The spans between `<tool_call>` and `</tool_call>`.
fn find_tool_call_bodies(s: &[char]) -> (r: Vec<Vec<char>>)
    ensures
        text::texts(r@) == tool_call_bodies(s@),
{
    let open = literal("<tool_call>");
    let close = literal("</tool_call>");
    let mut out: Vec<Vec<char>> = Vec::new();
    let mut from: usize = 0;
    let ghost goal = tool_call_bodies(s@);
    assert(s@.skip(0) =~= s@);
    assert(text::texts(out@) + goal =~= goal);
    loop
        invariant
            from <= s@.len() == s.len(),
            open@ == "<tool_call>"@,
            close@ == "</tool_call>"@,
            goal == tool_call_bodies(s@),
            text::texts(out@) + tool_call_bodies(s@.skip(from as int)) == goal,
        decreases s@.len() - from,
    {
        let ghost rest = s@.skip(from as int);
        let ghost before = text::texts(out@);
        proof {
            text::find_from_skips(s@, open@, from as int);
            reveal_strlit("<tool_call>");
        }
        match text::find(s, open.as_slice(), from) {
            None => {
                assert(before + Seq::<Seq<char>>::empty() =~= before);
                return out;
            },
            Some(i) => {
                let start: usize = i + open.len();
                let ghost after = rest.skip(i - from + open@.len());
                assert(after =~= s@.skip(start as int));
                proof {
                    text::find_from_skips(s@, close@, start as int);
                }
                match text::find(s, close.as_slice(), start) {
                    None => {
                        let body = text::slice_of(s, start, s.len());
                        assert(body@ =~= after);
                        out.push(body);
                        assert(text::texts(out@) =~= before + seq![after]);
                        return out;
                    },
                    Some(e) => {
                        let body = text::slice_of(s, start, e);
                        assert(body@ =~= after.take(e - start));
                        out.push(body);
                        from = e + close.len();
                        assert(after.skip(e - start + close@.len()) =~= s@.skip(from as int));
                        assert(text::texts(out@) =~= before.push(body@));
                        assert(before + (seq![body@] + tool_call_bodies(s@.skip(from as int)))
                            =~= text::texts(out@) + tool_call_bodies(s@.skip(from as int)));
                    },
                }
            },
        }
    }
}

/// What stands behind the first `<function=`.
fn find_function_body(body: &[char]) -> (r: Option<Vec<char>>)
    ensures
        match r {
            Some(v) => function_body(body@) == Some(v@),
            None => function_body(body@) is None,
        },
{
    let open = literal("<function=");
    let close = literal("</function>");
    let n: usize = body.len();
    match text::find(body, open.as_slice(), 0) {
        None => None,
        Some(i) => {
            let after = text::slice_of(body, i + open.len(), n);
            assert(after@ =~= body@.skip(i + open@.len()));
            match text::find(after.as_slice(), close.as_slice(), 0) {
                Some(e) => {
                    let inner = text::slice_of(after.as_slice(), 0, e);
                    assert(inner@ =~= after@.take(e as int));
                    Some(inner)
                },
                None => Some(after),
            }
        },
    }
}

/// Whether `name` can be a tool name.
fn can_be_name(name: &[char]) -> (r: bool)
    ensures
        r == is_tool_name(name@),
{
    let mut i: usize = 0;
    while i < name.len()
        invariant
            i <= name@.len(),
            forall|k: int| 0 <= k < i ==> !is_foreign_to_names(#[trigger] name@[k]),
        decreases name@.len() - i,
    {
        let c = name[i];
        if text::white(c) || c == '"' || c == '\'' || c == '{' || c == '}' || c == ':' || c == ','
        {
            assert(is_foreign_to_names(name@[i as int]));
            return false;
        }
        i += 1;
    }
    name.len() > 0
}

/// `value` without one line feed at either end.
fn strip_outer_newlines(value: &[char]) -> (r: Vec<char>)
    ensures
        r@ == without_outer_newlines(value@),
{
    let lo: usize = if value.len() > 0 && value[0] == '\n' {
        1
    } else {
        0
    };
    let hi: usize = if value.len() > lo && value[value.len() - 1] == '\n' {
        value.len() - 1
    } else {
        value.len()
    };
    let out = text::slice_of(value, lo, hi);
    assert(out@ =~= without_outer_newlines(value@));
    out
}

/// Where a parameter value that begins a text ends.
fn find_value_end(region: &[char], close: &[char], open: &[char]) -> (r: usize)
    requires
        close@ == "</parameter>"@,
        open@ == "<parameter="@,
    ensures
        r == value_end(region@),
        r <= region@.len(),
{
    let closed = text::find(region, close, 0);
    let opened = text::find(region, open, 0);
    match (closed, opened) {
        (Some(a), Some(b)) => if a <= b {
            a
        } else {
            b
        },
        (Some(a), None) => a,
        (None, Some(b)) => b,
        (None, None) => region.len(),
    }
}

/// The parameters of a text, in order.
fn parse_parameters(s: &[char]) -> (r: Vec<(String, String)>)
    ensures
        argument_texts(r@) == parameters(s@),
{
    let open = literal("<parameter=");
    let close = literal("</parameter>");
    let mut out: Vec<(String, String)> = Vec::new();
    let mut from: usize = 0;
    let ghost goal = parameters(s@);
    assert(s@.skip(0) =~= s@);
    assert(argument_texts(out@) + goal =~= goal);
    loop
        invariant
            from <= s@.len() == s.len(),
            open@ == "<parameter="@,
            close@ == "</parameter>"@,
            goal == parameters(s@),
            argument_texts(out@) + parameters(s@.skip(from as int)) == goal,
        decreases s@.len() - from,
    {
        let ghost rest = s@.skip(from as int);
        let ghost before = argument_texts(out@);
        proof {
            text::find_from_skips(s@, open@, from as int);
            reveal_strlit("<parameter=");
        }
        let i = match text::find(s, open.as_slice(), from) {
            None => {
                assert(before + Seq::<(Seq<char>, Seq<char>)>::empty() =~= before);
                return out;
            },
            Some(i) => i,
        };
        let start: usize = i + open.len();
        let ghost after = rest.skip(i - from + open@.len());
        assert(after =~= s@.skip(start as int));
        let gt = text::index_of_char(s, '>', start);
        if gt == s.len() {
            assert(before + Seq::<(Seq<char>, Seq<char>)>::empty() =~= before);
            return out;
        }
        let region = text::slice_of(s, gt + 1, s.len());
        let ghost n = gt - start;
        assert(region@ =~= after.skip(n + 1));
        let end = find_value_end(region.as_slice(), close.as_slice(), open.as_slice());
        let name = text::substring_of(s, start, gt);
        assert(name@ =~= after.take(n));
        let raw = text::slice_of(region.as_slice(), 0, end);
        assert(raw@ =~= region@.take(end as int));
        let value = strip_outer_newlines(raw.as_slice());
        let value_text = text::string_of(value.as_slice());
        let closes = text::is_at(region.as_slice(), close.as_slice(), end);
        let next: usize = if closes {
            end + close.len()
        } else {
            end
        };
        let ghost one = (name@, value_text@);
        out.push((name, value_text));
        from = gt + 1 + next;
        assert(region@.skip(next as int) =~= s@.skip(from as int));
        assert(argument_texts(out@) =~= before.push(one));
        assert(before + (seq![one] + parameters(s@.skip(from as int))) =~= argument_texts(out@)
            + parameters(s@.skip(from as int)));
    }
}

/// The call that a function body spells.
fn parse_function_call(body: &[char]) -> (r: Option<ParsedToolCall>)
    ensures
        match r {
            Some(c) => function_call(body@) == Some(c@),
            None => function_call(body@) is None,
        },
{
    let n = text::index_of_char(body, '>', 0);
    assert(body@.skip(0) =~= body@);
    if n == body.len() {
        return None;
    }
    let name = text::slice_of(body, 0, n);
    assert(name@ =~= body@.take(n as int));
    if !can_be_name(name.as_slice()) {
        return None;
    }
    let rest = text::slice_of(body, n + 1, body.len());
    assert(rest@ =~= body@.skip(n + 1));
    Some(
        ParsedToolCall {
            name: text::string_of(name.as_slice()),
            call_id: None,
            arguments: parse_parameters(rest.as_slice()),
        },
    )
}

/// The raw text of a JSON argument.
fn raw_of(value: &Json) -> (r: String)
    ensures
        r@ == raw_text(value@),
{
    match value {
        Json::Text(s) => s.clone(),
        other => other.to_text(),
    }
}

/// The raw texts of the members of a JSON object.
fn raw_members(value: &Json) -> (r: Vec<(String, String)>)
    ensures
        argument_texts(r@) == match value@ {
            JsonModel::Object(members) => members.map_values(
                |m: (Seq<char>, JsonModel)| (m.0, raw_text(m.1)),
            ),
            _ => Seq::empty(),
        },
{
    let mut out: Vec<(String, String)> = Vec::new();
    assert(argument_texts(out@) =~= Seq::empty());
    match value.as_object() {
        None => {},
        Some(members) => {
            let ghost all = json::member_models(members@).map_values(
                |m: (Seq<char>, JsonModel)| (m.0, raw_text(m.1)),
            );
            let mut i: usize = 0;
            while i < members.len()
                invariant
                    i <= members@.len(),
                    all == json::member_models(members@).map_values(
                        |m: (Seq<char>, JsonModel)| (m.0, raw_text(m.1)),
                    ),
                    argument_texts(out@) == all.take(i as int),
                decreases members@.len() - i,
            {
                let ghost before = argument_texts(out@);
                let key = members[i].0.clone();
                let raw = raw_of(&members[i].1);
                let ghost one = (key@, raw@);
                out.push((key, raw));
                assert(argument_texts(out@) =~= before.push(one));
                assert(all.take(i + 1) =~= all.take(i as int).push(all[i as int]));
                i += 1;
            }
            assert(all.take(all.len() as int) =~= all);
        },
    }
    out
}

pub open spec fn pair_models(pairs: Option<Vec<(String, Json)>>) -> Option<
    Seq<(Seq<char>, JsonModel)>,
> {
    match pairs {
        Some(v) => Some(json::member_models(v@)),
        None => None,
    }
}

/// The arguments that pairs of a JSON text name, in the order of the text.
fn arguments_from(pairs: Option<Vec<(String, Json)>>) -> (r: Vec<(String, String)>)
    ensures
        argument_texts(r@) == json_arguments(pair_models(pairs)),
{
    let pairs = match pairs {
        Some(v) => v,
        None => {
            let none: Vec<(String, String)> = Vec::new();
            assert(argument_texts(none@) =~= Seq::empty());
            return none;
        },
    };
    let ghost all = json::member_models(pairs@);
    let mut object = Json::object();
    let mut i: usize = 0;
    while i < pairs.len()
        invariant
            i <= pairs@.len(),
            all == json::member_models(pairs@),
            object@ == JsonModel::Object(merged(all, i as int)),
        decreases pairs@.len() - i,
    {
        assert(all[i as int] == (pairs@[i as int].0@, pairs@[i as int].1@));
        object = object.with(pairs[i].0.as_str(), pairs[i].1.clone());
        i += 1;
    }
    raw_members(&object)
}

/// The members of the `arguments` of a JSON call, which is the value `v` of the text
/// `source`, in the order of the text.
fn pairs_of_arguments(v: &Json, source: &str) -> (r: Option<Vec<(String, Json)>>)
    ensures
        pair_models(r) == argument_pairs(v@, source@),
{
    match v.get("arguments") {
        Some(Json::Text(inner)) => json::ordered_object_pairs(inner.as_str()),
        Some(Json::Object(_)) => match json::source_of_member(source, "arguments") {
            Some(t) => json::ordered_object_pairs(t.as_str()),
            None => None,
        },
        _ => None,
    }
}

/// The call that a body spells in the JSON form
/// `{"name": "...", "arguments": {...}}`.
pub fn parse_json_call(body: &[char]) -> (r: Option<ParsedToolCall>)
    ensures
        match r {
            Some(c) => json_call(body@) == Some(c@),
            None => json_call(body@) is None,
        },
{
    let trimmed = text::trimmed(body);
    if trimmed.len() == 0 || trimmed[0] != '{' {
        return None;
    }
    let source = text::string_of(trimmed.as_slice());
    match json::parse(source.as_str()) {
        None => None,
        Some(v) => {
            let pairs = pairs_of_arguments(&v, source.as_str());
            call_from_json(&v, pairs)
        },
    }
}

/// The call that a JSON value with these arguments names; none where it has no name.
pub fn call_from_json(v: &Json, pairs: Option<Vec<(String, Json)>>) -> (r: Option<ParsedToolCall>)
    ensures
        match r {
            Some(c) => json_value_call(v@, pair_models(pairs)) == Some(c@),
            None => json_value_call(v@, pair_models(pairs)) is None,
        },
{
    let name = match v.str_at("name") {
        Some(name) if !name.is_empty() => name,
        _ => {
            return None;
        },
    };
    let call_id = match v.str_at("call_id") {
        Some(id) => Some(id.to_string()),
        None => None,
    };
    let arguments = arguments_from(pairs);
    Some(ParsedToolCall { name: name.to_string(), call_id, arguments })
}

/// The call that a body spells in either form.
fn parse_call(body: &[char]) -> (r: Option<ParsedToolCall>)
    ensures
        match r {
            Some(c) => call_in(body@) == Some(c@),
            None => call_in(body@) is None,
        },
{
    match find_function_body(body) {
        Some(fb) => parse_function_call(fb.as_slice()),
        None => parse_json_call(body),
    }
}

/// Extracts the tool calls of one whole completion.
pub fn extract_tool_calls(model_output: &str) -> (r: ExtractedToolCalls)
    ensures
        call_models(r.tool_calls@) == calls_of(model_output@),
        r.tools_called == (calls_of(model_output@).len() > 0),
        match r.content {
            Some(c) => content_of(model_output@) == Some(c@),
            None => content_of(model_output@) is None,
        },
{
    let chars = text::chars_of(model_output);
    let s = chars.as_slice();
    let function = literal("<function=");
    let open = literal("<tool_call>");
    if !text::has(s, function.as_slice()) && !text::has(s, open.as_slice()) {
        let none: Vec<ParsedToolCall> = Vec::new();
        assert(call_models(none@) =~= Seq::empty());
        return ExtractedToolCalls {
            tools_called: false,
            tool_calls: none,
            content: Some(model_output.to_string()),
        };
    }
    let mut bodies = find_tool_call_bodies(s);
    if bodies.len() == 0 {
        bodies.push(text::slice_of(s, 0, s.len()));
        assert(s@.subrange(0, s@.len() as int) =~= s@);
        assert(text::texts(bodies@) =~= seq![s@]);
    }
    let ghost all = bodies_of(s@);
    assert(text::texts(bodies@) == all);
    let mut calls: Vec<ParsedToolCall> = Vec::new();
    let mut i: usize = 0;
    assert(call_models(calls@) =~= Seq::empty());
    while i < bodies.len()
        invariant
            i <= bodies@.len(),
            text::texts(bodies@) == all,
            call_models(calls@) == calls_in(all, i as int),
        decreases bodies@.len() - i,
    {
        let ghost before = call_models(calls@);
        assert(all[i as int] == bodies@[i as int]@);
        match parse_call(bodies[i].as_slice()) {
            Some(c) => {
                calls.push(c);
                assert(call_models(calls@) =~= before.push(c@));
            },
            None => {},
        }
        i += 1;
    }
    assert(calls_of(s@).len() == calls@.len());
    if calls.len() == 0 {
        return ExtractedToolCalls {
            tools_called: false,
            tool_calls: calls,
            content: Some(model_output.to_string()),
        };
    }
    let end: usize = match (
        text::find(s, open.as_slice(), 0),
        text::find(s, function.as_slice(), 0),
    ) {
        (Some(a), Some(b)) => if a <= b {
            a
        } else {
            b
        },
        (Some(a), None) => a,
        (None, Some(b)) => b,
        (None, None) => s.len(),
    };
    let content = if end == 0 {
        None
    } else {
        let before = text::substring_of(s, 0, end);
        assert(before@ =~= s@.take(end as int));
        Some(before)
    };
    ExtractedToolCalls { tools_called: true, tool_calls: calls, content }
}

// ---------------------------------------------------------------------------
// Arguments as JSON.

/// How a text reads as a 64-bit floating-point number; the caller reads it.
#[derive(Debug)]
pub struct FloatReading {
    /// Its value where it has no fraction and is nearer to zero than 9.0e15.
    pub whole: Option<i64>,
    /// Its JSON text; none where JSON has no such number.
    pub json: Option<String>,
}

pub struct FloatModel {
    pub whole: Option<i64>,
    pub json: Option<Seq<char>>,
}

impl View for FloatReading {
    type V = FloatModel;

    open spec fn view(&self) -> FloatModel {
        FloatModel {
            whole: self.whole,
            json: match self.json {
                Some(s) => Some(s@),
                None => None,
            },
        }
    }
}

/// What is read as a float for a parameter: nothing where the text is no float.
pub open spec fn reading_of(r: Option<FloatReading>) -> Option<FloatModel> {
    match r {
        Some(f) => Some(f@),
        None => None,
    }
}

pub open spec fn integer_json(n: int) -> JsonModel {
    JsonModel::Number(text::signed_decimal(n))
}

/// A raw parameter value as the JSON type that the tool's schema declares for
/// it; as a string where the schema names no type or the value is not of that
/// type. An integer is read exactly; `float` is how the trimmed value reads as a
/// float.
pub open spec fn coerced(raw: Seq<char>, schema_type: Option<Seq<char>>, float: Option<FloatModel>) -> JsonModel {
    let t = text::trim(raw);
    let as_string = JsonModel::Text(raw);
    match schema_type {
        None => as_string,
        Some(ty) => if ty == "integer"@ {
            match decimals::exact_integer(t) {
                Some(n) if i64::MIN <= n <= i64::MAX => integer_json(n),
                _ => as_string,
            }
        } else if ty == "number"@ {
            match float {
                None => as_string,
                Some(f) => match (f.whole, f.json) {
                    (Some(n), _) => integer_json(n as int),
                    (None, Some(n)) => JsonModel::Number(n),
                    (None, None) => as_string,
                },
            }
        } else if ty == "boolean"@ {
            if t == "true"@ {
                JsonModel::Bool(true)
            } else if t == "false"@ {
                JsonModel::Bool(false)
            } else {
                as_string
            }
        } else if ty == "object"@ || ty == "array"@ {
            match json::parsed(raw) {
                Some(v) => v,
                None => as_string,
            }
        } else {
            as_string
        },
    }
}

fn integer_value(n: i64) -> (r: Json)
    ensures
        r@ == integer_json(n as int),
{
    Json::Number(text::signed_decimal_string(n))
}

/// Coerces a raw parameter value to the JSON type that the tool's schema
/// declares for it. Never fails: a value that is not of that type stays a
/// string.
pub fn coerce_param_value(raw: &str, schema_type: Option<&str>, float: &Option<FloatReading>) -> (r:
    Json)
    ensures
        r@ == coerced(
            raw@,
            match schema_type {
                Some(t) => Some(t@),
                None => None,
            },
            reading_of(*float),
        ),
{
    let ty = match schema_type {
        None => {
            return Json::text(raw);
        },
        Some(ty) => ty,
    };
    let raw_chars = text::chars_of(raw);
    let t = text::trimmed(raw_chars.as_slice());
    if text::same_text(ty, "integer") {
        match decimals::read_exact_integer(t.as_slice()) {
            Some(n) => integer_value(n),
            None => Json::text(raw),
        }
    } else if text::same_text(ty, "number") {
        match float {
            None => Json::text(raw),
            Some(f) => match f.whole {
                Some(n) => integer_value(n),
                None => match &f.json {
                    Some(n) => Json::Number(n.clone()),
                    None => Json::text(raw),
                },
            },
        }
    } else if text::same_text(ty, "boolean") {
        let word = text::string_of(t.as_slice());
        if text::same_text(word.as_str(), "true") {
            Json::Bool(true)
        } else if text::same_text(word.as_str(), "false") {
            Json::Bool(false)
        } else {
            Json::text(raw)
        }
    } else if text::same_text(ty, "object") || text::same_text(ty, "array") {
        match json::parse(raw) {
            Some(v) => v,
            None => Json::text(raw),
        }
    } else {
        Json::text(raw)
    }
}

/// The type that `types` declares for the parameter `name`.
pub open spec fn declared_type(types: Seq<(Seq<char>, Seq<char>)>, name: Seq<char>) -> Option<
    Seq<char>,
>
    decreases types.len(),
{
    if types.len() == 0 {
        None
    } else if types[0].0 == name {
        Some(types[0].1)
    } else {
        declared_type(types.skip(1), name)
    }
}

/// The first `n` arguments as members of a JSON object, without its braces.
pub open spec fn arguments_text(
    arguments: Seq<(Seq<char>, Seq<char>)>,
    types: Seq<(Seq<char>, Seq<char>)>,
    floats: Seq<Option<FloatModel>>,
    n: int,
) -> Seq<char>
    decreases n,
{
    if n <= 0 {
        Seq::empty()
    } else {
        let (name, raw) = arguments[n - 1];
        arguments_text(arguments, types, floats, n - 1) + if n > 1 {
            seq![',']
        } else {
            Seq::empty()
        } + json::quoted(name) + seq![':'] + json::text_of(
            coerced(raw, declared_type(types, name), floats[n - 1]),
        )
    }
}

/// The type that `types` declares for the parameter `name`.
pub fn type_of_param<'a>(types: &'a Vec<(String, String)>, name: &str) -> (r: Option<&'a str>)
    ensures
        match r {
            Some(t) => declared_type(argument_texts(types@), name@) == Some(t@),
            None => declared_type(argument_texts(types@), name@) is None,
        },
{
    let ghost all = argument_texts(types@);
    let mut i: usize = 0;
    assert(all.skip(0) =~= all);
    while i < types.len()
        invariant
            i <= types@.len(),
            all == argument_texts(types@),
            declared_type(all, name@) == declared_type(all.skip(i as int), name@),
        decreases types@.len() - i,
    {
        assert(all.skip(i as int)[0] == all[i as int]);
        assert(all.skip(i as int).skip(1) =~= all.skip(i + 1));
        if text::same_text(types[i].0.as_str(), name) {
            return Some(types[i].1.as_str());
        }
        i += 1;
    }
    None
}

/// How each argument of a call reads as a float.
pub open spec fn readings(floats: Seq<Option<FloatReading>>) -> Seq<Option<FloatModel>> {
    floats.map_values(|f: Option<FloatReading>| reading_of(f))
}

/// The arguments of a call as the JSON text of an object, in the order in which
/// the model produced them.
pub fn arguments_to_json_string(
    call: &ParsedToolCall,
    types: &Vec<(String, String)>,
    floats: &Vec<Option<FloatReading>>,
) -> (r: String)
    requires
        floats@.len() == call.arguments@.len(),
    ensures
        r@ == seq!['{'] + arguments_text(
            call@.arguments,
            argument_texts(types@),
            readings(floats@),
            call@.arguments.len() as int,
        ) + seq!['}'],
{
    let mut out = String::new();
    let ghost args = call@.arguments;
    let ghost ts = argument_texts(types@);
    let ghost fs = readings(floats@);
    let mut i: usize = 0;
    while i < call.arguments.len()
        invariant
            i <= call.arguments@.len() == floats@.len(),
            args == call@.arguments,
            ts == argument_texts(types@),
            fs == readings(floats@),
            out@ == arguments_text(args, ts, fs, i as int),
        decreases call.arguments@.len() - i,
    {
        let name = call.arguments[i].0.as_str();
        let raw = call.arguments[i].1.as_str();
        let ghost before = out@;
        if i > 0 {
            out.push(',');
        }
        out.append(json::quote(name).as_str());
        out.push(':');
        let value = coerce_param_value(raw, type_of_param(types, name), &floats[i]);
        out.append(value.to_text().as_str());
        assert(args[i as int] == (name@, raw@));
        assert(fs[i as int] == reading_of(floats@[i as int]));
        i += 1;
        assert(out@ =~= arguments_text(args, ts, fs, i as int));
    }
    let mut r = String::new();
    r.push('{');
    r.append(out.as_str());
    r.push('}');
    assert(r@ =~= seq!['{'] + out@ + seq!['}']);
    r
}

// ---------------------------------------------------------------------------
// Laws.

/// A truth value is read back from its JSON text, blanks round it aside, and nothing else is
/// taken for one.
pub proof fn truth_values_are_read_back(raw: Seq<char>, float: Option<FloatModel>)
    ensures
        forall|b: bool|
            text::trim(raw) == #[trigger] json::text_of(JsonModel::Bool(b)) ==> coerced(
                raw,
                Some("boolean"@),
                float,
            ) == JsonModel::Bool(b),
        coerced(raw, Some("boolean"@), float) matches JsonModel::Bool(b) ==> json::text_of(
            coerced(raw, Some("boolean"@), float),
        ) == text::trim(raw) && (b <==> text::trim(raw) == "true"@),
        !(coerced(raw, Some("boolean"@), float) is Bool) ==> coerced(raw, Some("boolean"@), float)
            == JsonModel::Text(raw) && text::trim(raw) != "true"@ && text::trim(raw) != "false"@,
{
    types_differ();
    reveal_strlit("true");
    reveal_strlit("false");
    assert("true"@.len() == 4 && "false"@.len() == 5);
}

proof fn types_differ()
    ensures
        "integer"@ != "number"@,
        "integer"@ != "boolean"@,
        "integer"@ != "object"@,
        "integer"@ != "array"@,
        "number"@ != "boolean"@,
        "number"@ != "object"@,
        "number"@ != "array"@,
        "boolean"@ != "object"@,
        "boolean"@ != "array"@,
{
    reveal_strlit("integer");
    reveal_strlit("number");
    reveal_strlit("boolean");
    reveal_strlit("object");
    reveal_strlit("array");
    assert("integer"@[0] == 'i' && "number"@[0] == 'n' && "boolean"@[0] == 'b' && "object"@[0]
        == 'o' && "array"@[0] == 'a');
}

/// An integer is read back from its numeral, and whatever is read as one denotes just that
/// number; a number that fits no machine integer stays text.
pub proof fn integers_are_read_back(raw: Seq<char>, n: int, float: Option<FloatModel>)
    ensures
        text::trim(raw) == text::signed_decimal(n) ==> coerced(raw, Some("integer"@), float) == if
            -0x8000_0000_0000_0000 <= n <= 0x7fff_ffff_ffff_ffff {
            JsonModel::Number(text::signed_decimal(n))
        } else {
            JsonModel::Text(raw)
        },
        coerced(raw, Some("integer"@), float) == JsonModel::Text(raw) || exists|k: int|
            #[trigger] decimals::exact_integer(text::trim(raw)) == Some(k) && coerced(
                raw,
                Some("integer"@),
                float,
            ) == JsonModel::Number(text::signed_decimal(k)),
{
    types_differ();
    decimals::integers_are_read_back(n);
}

/// A JSON value is handed on as it is where the schema asks for an object or an array; any
/// text stays the text that it is where the schema names no type or one that is not known.
pub proof fn values_are_handed_on(raw: Seq<char>, ty: Seq<char>, v: JsonModel, float: Option<FloatModel>)
    ensures
        ty == "object"@ || ty == "array"@ ==> (json::parsed(raw) == Some(v) ==> coerced(
            raw,
            Some(ty),
            float,
        ) == v),
        ty == "object"@ || ty == "array"@ ==> (json::parsed(raw) is None ==> coerced(
            raw,
            Some(ty),
            float,
        ) == JsonModel::Text(raw)),
        coerced(raw, None, float) == JsonModel::Text(raw),
        ty == "string"@ ==> coerced(raw, Some(ty), float) == JsonModel::Text(raw),
{
    types_differ();
    reveal_strlit("string");
    reveal_strlit("integer");
    reveal_strlit("number");
    reveal_strlit("boolean");
    reveal_strlit("object");
    reveal_strlit("array");
    assert("string"@[0] == 's');
}

/// A number without a fraction is written as an integer, any other as it is read; what is
/// no number stays text.
pub proof fn numbers_are_handed_on(raw: Seq<char>, f: FloatModel, n: i64, t: Seq<char>)
    ensures
        f.whole == Some(n) ==> coerced(raw, Some("number"@), Some(f)) == JsonModel::Number(
            text::signed_decimal(n as int),
        ),
        f.whole is None && f.json == Some(t) ==> coerced(raw, Some("number"@), Some(f))
            == JsonModel::Number(t),
        f.whole is None && f.json is None ==> coerced(raw, Some("number"@), Some(f))
            == JsonModel::Text(raw),
        coerced(raw, Some("number"@), None) == JsonModel::Text(raw),
{
    types_differ();
}

/// The type of a parameter is the one that the schema pairs it with, the first where it
/// names the parameter twice; none where it does not name it.
pub proof fn declared_types_are_found(types: Seq<(Seq<char>, Seq<char>)>, name: Seq<char>)
    ensures
        match declared_type(types, name) {
            Some(t) => exists|i: int|
                0 <= i < types.len() && #[trigger] types[i] == (name, t) && forall|j: int|
                    0 <= j < i ==> (#[trigger] types[j]).0 != name,
            None => forall|i: int| 0 <= i < types.len() ==> (#[trigger] types[i]).0 != name,
        },
    decreases types.len(),
{
    if types.len() > 0 && types[0].0 != name {
        let rest = types.skip(1);
        declared_types_are_found(rest, name);
        match declared_type(types, name) {
            Some(t) => {
                let i = choose|i: int|
                    0 <= i < rest.len() && #[trigger] rest[i] == (name, t) && forall|j: int|
                        0 <= j < i ==> (#[trigger] rest[j]).0 != name;
                assert(types[i + 1] == (name, t));
                assert forall|j: int| 0 <= j < i + 1 implies (#[trigger] types[j]).0 != name by {
                    if j > 0 {
                        assert(rest[j - 1] == types[j]);
                    }
                }
            },
            None => {
                assert forall|i: int| 0 <= i < types.len() implies (#[trigger] types[i]).0
                    != name by {
                    if i > 0 {
                        assert(rest[i - 1] == types[i]);
                    }
                }
            },
        }
    } else if types.len() > 0 {
        assert(types[0] == (name, types[0].1));
    }
}

/// The members of the object that a call's arguments are written as.
pub open spec fn typed_arguments(
    arguments: Seq<(Seq<char>, Seq<char>)>,
    types: Seq<(Seq<char>, Seq<char>)>,
    floats: Seq<Option<FloatModel>>,
) -> Seq<(Seq<char>, JsonModel)> {
    Seq::new(
        arguments.len(),
        |i: int| (arguments[i].0, coerced(arguments[i].1, declared_type(types, arguments[i].0), floats[i])),
    )
}

/// The arguments of a call are written as one JSON object that holds all of them, in
/// their order, each under its name and with its typed value.
pub proof fn arguments_are_written_as_an_object(
    arguments: Seq<(Seq<char>, Seq<char>)>,
    types: Seq<(Seq<char>, Seq<char>)>,
    floats: Seq<Option<FloatModel>>,
    n: nat,
)
    requires
        n <= arguments.len(),
    ensures
        arguments_text(arguments, types, floats, n as int) == json::members_text(
            typed_arguments(arguments, types, floats),
            n,
        ),
        n == arguments.len() ==> seq!['{'] + arguments_text(arguments, types, floats, n as int)
            + seq!['}'] == json::text_of(
            JsonModel::Object(typed_arguments(arguments, types, floats)),
        ),
    decreases n,
{
    let all = typed_arguments(arguments, types, floats);
    if n > 0 {
        arguments_are_written_as_an_object(arguments, types, floats, (n - 1) as nat);
        let (name, raw) = arguments[n - 1];
        assert(all[n - 1].0 == name);
        let before = arguments_text(arguments, types, floats, n - 1);
        let value = json::text_of(all[n - 1].1);
        if n == 1 {
            assert(before =~= Seq::empty());
            assert(arguments_text(arguments, types, floats, 1) =~= json::quoted(name) + seq![':']
                + value);
        } else {
            assert(arguments_text(arguments, types, floats, n as int) =~= before + seq![',']
                + json::quoted(name) + seq![':'] + value);
        }
        assert(arguments_text(arguments, types, floats, n as int) =~= json::members_text(all, n));
    }
}

/// Whether `mark` stands in `a + mark + b` nowhere before `a` ends.
pub open spec fn is_first_mark(a: Seq<char>, mark: Seq<char>, b: Seq<char>) -> bool {
    forall|j: int| 0 <= j < a.len() ==> !text::occurs_at(a + mark + b, mark, j)
}

proof fn first_mark_is_found(a: Seq<char>, mark: Seq<char>, b: Seq<char>)
    requires
        is_first_mark(a, mark, b),
    ensures
        text::find_from(a + mark + b, mark, 0) == Some(a.len() as int),
        (a + mark + b).take(a.len() as int) == a,
        (a + mark + b).skip((a.len() + mark.len()) as int) == b,
{
    let s = a + mark + b;
    assert(s.subrange(a.len() as int, (a.len() + mark.len()) as int) =~= mark);
    assert(text::occurs_at(s, mark, a.len() as int));
    text::find_from_is_first(s, mark, 0);
    assert(s.take(a.len() as int) =~= a);
    assert(s.skip((a.len() + mark.len()) as int) =~= b);
}

/// Calls are looked for between the tags: what stands between the first opening tag and the
/// next closing one is a body, and the search goes on behind it. An opening tag that is
/// never closed takes all that follows.
pub proof fn bodies_stand_between_tags(a: Seq<char>, body: Seq<char>, rest: Seq<char>)
    requires
        is_first_mark(a, "<tool_call>"@, body + "</tool_call>"@ + rest),
        is_first_mark(body, "</tool_call>"@, rest),
    ensures
        tool_call_bodies(a + "<tool_call>"@ + (body + "</tool_call>"@ + rest)) == seq![body]
            + tool_call_bodies(rest),
{
    first_mark_is_found(a, "<tool_call>"@, body + "</tool_call>"@ + rest);
    first_mark_is_found(body, "</tool_call>"@, rest);
}

/// An opening tag that is never closed takes all that follows; without one there is nothing.
pub proof fn open_bodies_take_the_rest(a: Seq<char>, body: Seq<char>)
    requires
        is_first_mark(a, "<tool_call>"@, body),
        !text::contains(body, "</tool_call>"@),
    ensures
        tool_call_bodies(a + "<tool_call>"@ + body) == seq![body],
        !text::contains(a, "<tool_call>"@) ==> tool_call_bodies(a).len() == 0,
{
    first_mark_is_found(a, "<tool_call>"@, body);
    text::contains_is_found(body, "</tool_call>"@);
    text::contains_is_found(a, "<tool_call>"@);
}

/// The function of a body stands behind its first opening tag, up to the closing one where
/// there is one.
pub proof fn functions_stand_between_tags(a: Seq<char>, inner: Seq<char>, rest: Seq<char>)
    ensures
        is_first_mark(a, "<function="@, inner + "</function>"@ + rest) && is_first_mark(
            inner,
            "</function>"@,
            rest,
        ) ==> function_body(a + "<function="@ + (inner + "</function>"@ + rest)) == Some(inner),
        is_first_mark(a, "<function="@, inner) && !text::contains(inner, "</function>"@)
            ==> function_body(a + "<function="@ + inner) == Some(inner),
        !text::contains(a, "<function="@) ==> function_body(a) is None,
{
    if is_first_mark(a, "<function="@, inner + "</function>"@ + rest) && is_first_mark(
        inner,
        "</function>"@,
        rest,
    ) {
        first_mark_is_found(a, "<function="@, inner + "</function>"@ + rest);
        first_mark_is_found(inner, "</function>"@, rest);
    }
    if is_first_mark(a, "<function="@, inner) && !text::contains(inner, "</function>"@) {
        first_mark_is_found(a, "<function="@, inner);
        text::contains_is_found(inner, "</function>"@);
    }
    text::contains_is_found(a, "<function="@);
}

proof fn upto_first(a: Seq<char>, c: char, b: Seq<char>)
    requires
        forall|i: int| 0 <= i < a.len() ==> #[trigger] a[i] != c,
    ensures
        text::upto(a + seq![c] + b, c) == a.len(),
        (a + seq![c] + b).take(a.len() as int) == a,
        (a + seq![c] + b).skip(a.len() as int + 1) == b,
{
    let s = a + seq![c] + b;
    text::upto_shape(s, c);
    assert(s[a.len() as int] == c);
    if text::upto(s, c) < a.len() {
        assert(s[text::upto(s, c)] == a[text::upto(s, c)]);
    }
    assert(s.take(a.len() as int) =~= a);
    assert(s.skip(a.len() as int + 1) =~= b);
}

/// A call has the name before the first bracket, which holds no blank, quote, brace, colon
/// or comma; where it does, or where there is no bracket, there is no call.
pub proof fn calls_have_proper_names(name: Seq<char>, rest: Seq<char>)
    requires
        forall|i: int| 0 <= i < name.len() ==> #[trigger] name[i] != '>',
    ensures
        function_call(name) is None,
        match function_call(name + seq!['>'] + rest) {
            Some(c) => {
                &&& c.name == name && c.call_id is None && c.arguments == parameters(rest)
                &&& name.len() > 0
                &&& forall|i: int|
                    0 <= i < name.len() ==> {
                        let c = #[trigger] name[i];
                        !text::is_white(c) && c != '"' && c != '\'' && c != '{' && c != '}' && c
                            != ':' && c != ','
                    }
            },
            None => name.len() == 0 || exists|i: int|
                0 <= i < name.len() && {
                    let c = #[trigger] name[i];
                    text::is_white(c) || c == '"' || c == '\'' || c == '{' || c == '}' || c == ':'
                        || c == ','
                },
        },
{
    upto_first(name, '>', rest);
    text::upto_shape(name, '>');
}

/// A value without tags in it, with one line feed on either side where `framed` holds, else
/// with none.
pub open spec fn written_value(value: Seq<char>, framed: bool) -> Seq<char> {
    if framed {
        seq!['\n'] + value + seq!['\n']
    } else {
        value
    }
}

proof fn frame_is_taken_off(value: Seq<char>)
    ensures
        without_outer_newlines(written_value(value, true)) == value,
        value.len() > 0 && value[0] != '\n' && value.last() != '\n' ==> without_outer_newlines(
            value,
        ) == value,
{
    let framed = written_value(value, true);
    assert(framed.skip(1) =~= value + seq!['\n']);
    assert(framed.skip(1).drop_last() =~= value);
}

/// A parameter is its name up to the bracket and its value up to the closing tag, without
/// the line feeds round it; the next ones are read behind the tag. What stands before it
/// is passed over.
pub proof fn parameters_are_read_in_turn(
    a: Seq<char>,
    key: Seq<char>,
    value: Seq<char>,
    framed: bool,
    rest: Seq<char>,
)
    requires
        forall|i: int| 0 <= i < key.len() ==> #[trigger] key[i] != '>',
        !framed ==> value.len() > 0 && value[0] != '\n' && value.last() != '\n',
        is_first_mark(
            a,
            "<parameter="@,
            key + seq!['>'] + (written_value(value, framed) + "</parameter>"@ + rest),
        ),
        is_first_mark(written_value(value, framed), "</parameter>"@, rest),
        forall|j: int|
            0 <= j <= written_value(value, framed).len() ==> !text::occurs_at(
                written_value(value, framed) + "</parameter>"@ + rest,
                "<parameter="@,
                j,
            ),
    ensures
        parameters(
            a + "<parameter="@ + (key + seq!['>'] + (written_value(value, framed) + "</parameter>"@
                + rest)),
        ) == seq![(key, value)] + parameters(rest),
{
    let w = written_value(value, framed);
    let region = w + "</parameter>"@ + rest;
    let after = key + seq!['>'] + region;
    first_mark_is_found(a, "<parameter="@, after);
    upto_first(key, '>', region);
    first_mark_is_found(w, "</parameter>"@, rest);
    text::find_from_is_first(region, "<parameter="@, 0);
    assert(value_end(region) == w.len());
    assert(text::occurs_at(region, "</parameter>"@, w.len() as int)) by {
        text::find_from_is_first(region, "</parameter>"@, 0);
    }
    frame_is_taken_off(value);
    assert(after.len() > key.len());
}

/// A value that is not closed ends where the next parameter begins, and the last one ends
/// with the text.
pub proof fn open_values_end_at_the_next(
    a: Seq<char>,
    key: Seq<char>,
    value: Seq<char>,
    framed: bool,
    rest: Seq<char>,
)
    requires
        forall|i: int| 0 <= i < key.len() ==> #[trigger] key[i] != '>',
        !framed ==> value.len() > 0 && value[0] != '\n' && value.last() != '\n',
        is_first_mark(
            a,
            "<parameter="@,
            key + seq!['>'] + (written_value(value, framed) + "<parameter="@ + rest),
        ),
        is_first_mark(written_value(value, framed), "<parameter="@, rest),
        forall|j: int|
            0 <= j <= written_value(value, framed).len() ==> !text::occurs_at(
                written_value(value, framed) + "<parameter="@ + rest,
                "</parameter>"@,
                j,
            ),
    ensures
        parameters(
            a + "<parameter="@ + (key + seq!['>'] + (written_value(value, framed) + "<parameter="@
                + rest)),
        ) == seq![(key, value)] + parameters("<parameter="@ + rest),
{
    let w = written_value(value, framed);
    let region = w + "<parameter="@ + rest;
    let after = key + seq!['>'] + region;
    first_mark_is_found(a, "<parameter="@, after);
    upto_first(key, '>', region);
    first_mark_is_found(w, "<parameter="@, rest);
    text::find_from_is_first(region, "</parameter>"@, 0);
    assert(value_end(region) == w.len());
    assert(region.skip(w.len() as int) =~= "<parameter="@ + rest);
    frame_is_taken_off(value);
}

/// Nothing of a completion is lost: without a call all of it is content, and with one the
/// content is all that stands before the first tag.
pub proof fn content_stands_before_the_calls(s: Seq<char>)
    ensures
        !text::contains(s, "<tool_call>"@) && !text::contains(s, "<function="@) ==> calls_of(
            s,
        ).len() == 0,
        calls_of(s).len() == 0 ==> content_of(s) == Some(s),
        calls_of(s).len() > 0 ==> {
            let content = match content_of(s) {
                Some(c) => c,
                None => Seq::empty(),
            };
            &&& content_of(s) is None <==> content.len() == 0
            &&& content.len() <= s.len() && s.take(content.len() as int) == content
            &&& text::occurs_at(s, "<tool_call>"@, content.len() as int) || text::occurs_at(
                s,
                "<function="@,
                content.len() as int,
            )
            &&& forall|j: int|
                0 <= j < content.len() ==> !text::occurs_at(s, "<tool_call>"@, j)
                    && !text::occurs_at(s, "<function="@, j)
        },
{
    text::find_from_is_first(s, "<tool_call>"@, 0);
    text::find_from_is_first(s, "<function="@, 0);
    text::contains_is_found(s, "<tool_call>"@);
    text::contains_is_found(s, "<function="@);
    assert(s.take(0) =~= Seq::empty());
}

/// Every call that is found stands in a body, in the order of the bodies, and no body with
/// a call is passed over.
pub proof fn every_body_is_looked_into(bodies: Seq<Seq<char>>, n: int)
    requires
        0 <= n < bodies.len(),
    ensures
        calls_in(bodies, n + 1) == match call_in(bodies[n]) {
            Some(c) => calls_in(bodies, n).push(c),
            None => calls_in(bodies, n),
        },
        calls_in(bodies, 0).len() == 0,
        function_body(bodies[n]) is Some ==> call_in(bodies[n]) == function_call(
            function_body(bodies[n]).unwrap(),
        ),
        function_body(bodies[n]) is None ==> call_in(bodies[n]) == json_call(bodies[n]),
{
}

/// A call in the JSON form has the name that stands in it, which is not empty, its id where
/// it is a text, and each of its arguments once: a text as it is, any other value as its
/// JSON text.
pub proof fn json_calls_say_what_they_hold(
    v: JsonModel,
    pairs: Seq<(Seq<char>, JsonModel)>,
    i: int,
)
    requires
        0 <= i < pairs.len(),
        forall|j: int, k: int| 0 <= j < k < pairs.len() ==> (#[trigger] pairs[j]).0 != (#[trigger] pairs[k]).0,
    ensures
        v.at("name"@) matches Some(JsonModel::Text(name)) && name.len() > 0 <==> json_value_call(
            v,
            Some(pairs),
        ) is Some,
        json_value_call(v, Some(pairs)) matches Some(c) ==> {
            &&& v.at("name"@) == Some(JsonModel::Text(c.name))
            &&& c.call_id matches Some(id) ==> v.at("call_id"@) == Some(JsonModel::Text(id))
            &&& c.call_id is None ==> !(v.at("call_id"@) matches Some(JsonModel::Text(_)))
            &&& c.arguments.len() == pairs.len()
            &&& c.arguments[i].0 == pairs[i].0
            &&& pairs[i].1 matches JsonModel::Text(t) ==> c.arguments[i].1 == t
            &&& !(pairs[i].1 is Text) ==> c.arguments[i].1 == json::text_of(pairs[i].1)
        },
        json_value_call(v, None) matches Some(c) ==> c.arguments.len() == 0,
{
    merged_is_the_same(pairs, pairs.len() as int);
}

proof fn merged_is_the_same(pairs: Seq<(Seq<char>, JsonModel)>, n: int)
    requires
        0 <= n <= pairs.len(),
        forall|j: int, k: int| 0 <= j < k < pairs.len() ==> (#[trigger] pairs[j]).0 != (#[trigger] pairs[k]).0,
    ensures
        merged(pairs, n) == pairs.take(n),
    decreases n,
{
    if n > 0 {
        merged_is_the_same(pairs, n - 1);
        let before = pairs.take(n - 1);
        json::new_keys_come_last(before, pairs[n - 1].0, pairs[n - 1].1);
        assert(before.push(pairs[n - 1]) =~= pairs.take(n));
    } else {
        assert(pairs.take(0) =~= Seq::empty());
    }
}

/// Of arguments that share a name the last one holds, in the place of the first; each name
/// comes once, and none is lost.
pub proof fn arguments_of_a_name_are_merged(pairs: Seq<(Seq<char>, JsonModel)>, n: int, i: int)
    requires
        0 <= i < n <= pairs.len(),
        forall|k: int| i < k < n ==> (#[trigger] pairs[k]).0 != pairs[i].0,
    ensures
        JsonModel::Object(merged(pairs, n)).at(pairs[i].0) == Some(pairs[i].1),
        merged(pairs, n).len() <= n,
        forall|a: int, b: int|
            0 <= a < b < merged(pairs, n).len() ==> (#[trigger] merged(pairs, n)[a]).0 != (
            #[trigger] merged(pairs, n)[b]).0,
    decreases n,
{
    let before = merged(pairs, n - 1);
    let (key, value) = pairs[n - 1];
    json::only_one_member_is_set(JsonModel::Object(before), key, value);
    merged_once(pairs, n);
    if i < n - 1 {
        arguments_of_a_name_are_merged(pairs, n - 1, i);
        assert(pairs[n - 1].0 != pairs[i].0);
    }
}

proof fn merged_once(pairs: Seq<(Seq<char>, JsonModel)>, n: int)
    requires
        0 <= n <= pairs.len(),
    ensures
        merged(pairs, n).len() <= n,
        forall|a: int, b: int|
            0 <= a < b < merged(pairs, n).len() ==> (#[trigger] merged(pairs, n)[a]).0 != (
            #[trigger] merged(pairs, n)[b]).0,
    decreases n,
{
    if n > 0 {
        merged_once(pairs, n - 1);
        let before = merged(pairs, n - 1);
        let (key, value) = pairs[n - 1];
        let all = merged(pairs, n);
        json::members_are_found(before, key);
        json::new_keys_come_last(before, key, value);
        match JsonModel::Object(before).at(key) {
            Some(v) => {
                let i = choose|i: int|
                    0 <= i < before.len() && #[trigger] before[i] == (key, v) && forall|k: int|
                        0 <= k < i ==> (#[trigger] before[k]).0 != key;
                assert(all == before.update(i, (key, value)));
            },
            None => {
                assert(all == before.push((key, value)));
            },
        }
    }
}

} // verus!
