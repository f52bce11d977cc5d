//! The raw prompt in the model's native format: turns between `<|im_start|>`
//! and `<|im_end|>`, tool calls in the XML form, tool results in
//! `<tool_response>` blocks inside user turns.

use crate::conversation::ContentItem;
use crate::conversation::FunctionCallOutputBody;
use crate::conversation::FunctionCallOutputContentItem;
use crate::conversation::ReasoningItemContent;
use crate::conversation::ResponseItem;
use crate::conversation::ResponsesApiTool;
use crate::conversation::ToolSpec;
use crate::canonical;
use crate::json;
use crate::json::Json;
use crate::json::JsonModel;
use crate::text;
use crate::tool_call;
use vstd::prelude::*;
use vstd::string::*;

verus! {

// ---------------------------------------------------------------------------
// Names.

/// Joins a namespace and a tool name, as in `files__read`.
pub fn flatten_tool_name(namespace: &str, name: &str) -> (r: String)
    ensures
        r@ == namespace@ + "__"@ + name@,
{
    let mut out = namespace.to_string();
    out.append("__");
    out.append(name);
    out
}

/// The parts before and behind the first separator.
pub open spec fn unflattened(flat: Seq<char>) -> Option<(Seq<char>, Seq<char>)> {
    match text::find_from(flat, "__"@, 0) {
        Some(i) => Some((flat.take(i), flat.skip(i + "__"@.len()))),
        None => None,
    }
}

/// Parts a joined name at its first separator; none where it has none.
pub fn unflatten_tool_name(flat_name: &str) -> (r: Option<(String, String)>)
    ensures
        match r {
            Some((namespace, name)) => unflattened(flat_name@) == Some((namespace@, name@)),
            None => unflattened(flat_name@) is None,
        },
{
    let chars = text::chars_of(flat_name);
    let sep = text::chars_of("__");
    let n: usize = chars.len();
    match text::find(chars.as_slice(), sep.as_slice(), 0) {
        None => None,
        Some(i) => {
            let namespace = text::substring_of(chars.as_slice(), 0, i);
            let name = text::substring_of(chars.as_slice(), i + sep.len(), n);
            assert(namespace@ =~= flat_name@.take(i as int));
            assert(name@ =~= flat_name@.skip(i + sep@.len()));
            Some((namespace, name))
        },
    }
}

/// Parting a joined name gives back its parts, for every namespace that holds no
/// separator and does not end in half of one.
pub proof fn unflatten_undoes_flatten(namespace: Seq<char>, name: Seq<char>)
    requires
        !text::contains(namespace, "__"@),
        namespace.len() > 0 ==> namespace.last() != '_',
    ensures
        unflattened(namespace + "__"@ + name) == Some((namespace, name)),
{
    let sep = "__"@;
    reveal_strlit("__");
    let flat = namespace + sep + name;
    let n = namespace.len() as int;
    assert(flat.subrange(n, n + sep.len()) =~= sep);
    assert(text::occurs_at(flat, sep, n));
    text::find_from_is_first(flat, sep, 0);
    let i = text::find_from(flat, sep, 0).unwrap();
    if i < n {
        assert(flat.subrange(i, i + 2)[0] == '_');
        assert(flat.subrange(i, i + 2)[1] == '_');
        if i + 2 <= n {
            assert(namespace.subrange(i, i + 2) =~= flat.subrange(i, i + 2));
            assert(text::occurs_at(namespace, sep, i));
        } else {
            assert(namespace.last() == flat[i]);
        }
        assert(false);
    }
    assert(flat.take(n) =~= namespace);
    assert(flat.skip(n + sep.len()) =~= name);
}

// ---------------------------------------------------------------------------
// Tools.

/// What the model is told about a function, under the name `name`. All members stand in
/// the order of their keys, so that the text of a tool does not depend on its schema's.
pub open spec fn tool_json(name: Seq<char>, tool: ResponsesApiTool) -> JsonModel {
    JsonModel::Object(
        seq![
            ("description"@, JsonModel::Text(tool.description@)),
            ("name"@, JsonModel::Text(name)),
            ("parameters"@, canonical::canonical(tool.parameters@)),
        ],
    )
}

/// What the model is told about the first `n` functions of a namespace.
pub open spec fn namespace_json(namespace: Seq<char>, tools: Seq<ResponsesApiTool>, n: int) -> Seq<
    JsonModel,
>
    decreases n,
{
    if n <= 0 {
        Seq::empty()
    } else {
        namespace_json(namespace, tools, n - 1).push(
            tool_json(namespace + "__"@ + tools[n - 1].name@, tools[n - 1]),
        )
    }
}

/// What the model is told about the first `n` tools, one entry for each
/// function; the other kinds have no place in the native format.
pub open spec fn flattened(tools: Seq<ToolSpec>, n: int) -> Seq<JsonModel>
    decreases n,
{
    if n <= 0 {
        Seq::empty()
    } else {
        let before = flattened(tools, n - 1);
        match tools[n - 1] {
            ToolSpec::Function(f) => before.push(tool_json(f.name@, f)),
            ToolSpec::Namespace { name, tools: nested } => before + namespace_json(
                name@,
                nested@,
                nested@.len() as int,
            ),
            ToolSpec::Other => before,
        }
    }
}

fn tool_to_json(name: &str, tool: &ResponsesApiTool) -> (r: Json)
    ensures
        r@ == tool_json(name@, *tool),
{
    let mut members: Vec<(String, Json)> = Vec::new();
    members.push(("description".to_string(), Json::text(tool.description.as_str())));
    members.push(("name".to_string(), Json::text(name)));
    members.push(("parameters".to_string(), canonical::sort_members(&tool.parameters)));
    proof {
        json::object_model(members);
        assert(json::member_models(members@) =~= tool_json(name@, *tool)->Object_0);
    }
    Json::Object(members)
}

/// The functions of `tools` as `{"description", "name", "parameters"}` objects.
pub fn flattened_tools_json(tools: &Vec<ToolSpec>) -> (r: Vec<Json>)
    ensures
        json::models(r@) == flattened(tools@, tools@.len() as int),
{
    let mut out: Vec<Json> = Vec::new();
    let mut i: usize = 0;
    assert(json::models(out@) =~= Seq::empty());
    while i < tools.len()
        invariant
            i <= tools@.len(),
            json::models(out@) == flattened(tools@, i as int),
        decreases tools@.len() - i,
    {
        let ghost before = json::models(out@);
        match &tools[i] {
            ToolSpec::Function(f) => {
                let j = tool_to_json(f.name.as_str(), f);
                out.push(j);
                assert(json::models(out@) =~= before.push(j@));
            },
            ToolSpec::Namespace { name, tools: nested } => {
                let mut k: usize = 0;
                assert(before + Seq::<JsonModel>::empty() =~= before);
                while k < nested.len()
                    invariant
                        k <= nested@.len(),
                        json::models(out@) == before + namespace_json(name@, nested@, k as int),
                    decreases nested@.len() - k,
                {
                    let ghost now = json::models(out@);
                    let flat = flatten_tool_name(name.as_str(), nested[k].name.as_str());
                    let j = tool_to_json(flat.as_str(), &nested[k]);
                    out.push(j);
                    assert(json::models(out@) =~= now.push(j@));
                    k += 1;
                    assert(json::models(out@) =~= before + namespace_json(
                        name@,
                        nested@,
                        k as int,
                    ));
                }
            },
            ToolSpec::Other => {},
        }
        i += 1;
    }
    out
}

/// The parameters of a function with the type that its schema declares for
/// each; those without a type are left out.
pub open spec fn typed_params(properties: Seq<(Seq<char>, JsonModel)>, n: int) -> Seq<
    (Seq<char>, Seq<char>),
>
    decreases n,
{
    if n <= 0 {
        Seq::empty()
    } else {
        let before = typed_params(properties, n - 1);
        match properties[n - 1].1.text_at("type"@) {
            Some(ty) => before.push((properties[n - 1].0, ty)),
            None => before,
        }
    }
}

/// The properties of the parameter schema of a flattened tool.
pub open spec fn properties_of(tool: JsonModel) -> Seq<(Seq<char>, JsonModel)> {
    match tool.at("parameters"@) {
        Some(p) => match p.at("properties"@) {
            Some(JsonModel::Object(members)) => members,
            _ => Seq::empty(),
        },
        None => Seq::empty(),
    }
}

pub open spec fn param_types_of(tool: JsonModel) -> Seq<(Seq<char>, Seq<char>)> {
    typed_params(properties_of(tool), properties_of(tool).len() as int)
}

/// The members of a flattened tool's parameter properties.
pub fn tool_properties(tool: &Json) -> (r: Option<&Vec<(String, Json)>>)
    ensures
        match r {
            Some(v) => properties_of(tool@) == json::member_models(v@),
            None => properties_of(tool@).len() == 0,
        },
{
    match tool.get("parameters") {
        None => None,
        Some(p) => match p.get("properties") {
            None => None,
            Some(properties) => properties.as_object(),
        },
    }
}

/// The declared types of the parameters of one flattened tool.
fn types_of_tool(tool: &Json) -> (r: Vec<(String, String)>)
    ensures
        tool_call::argument_texts(r@) == param_types_of(tool@),
{
    let mut out: Vec<(String, String)> = Vec::new();
    assert(tool_call::argument_texts(out@) =~= Seq::empty());
    match tool_properties(tool) {
        None => {},
        Some(properties) => {
            let ghost all = json::member_models(properties@);
            let mut i: usize = 0;
            while i < properties.len()
                invariant
                    i <= properties@.len(),
                    all == json::member_models(properties@),
                    tool_call::argument_texts(out@) == typed_params(all, i as int),
                decreases properties@.len() - i,
            {
                let ghost before = tool_call::argument_texts(out@);
                assert(all[i as int] == (properties@[i as int].0@, properties@[i as int].1@));
                match properties[i].1.str_at("type") {
                    Some(ty) => {
                        let key = properties[i].0.clone();
                        let ty = ty.to_string();
                        let ghost one = (key@, ty@);
                        out.push((key, ty));
                        assert(tool_call::argument_texts(out@) =~= before.push(one));
                    },
                    None => {},
                }
                i += 1;
            }
        },
    }
    out
}

/// The declared parameter types of each tool, with its flattened name.
#[derive(Debug)]
pub struct ToolTypes {
    pub name: String,
    pub params: Vec<(String, String)>,
}

pub open spec fn tool_types_models(v: Seq<ToolTypes>) -> Seq<
    (Seq<char>, Seq<(Seq<char>, Seq<char>)>),
> {
    v.map_values(|t: ToolTypes| (t.name@, tool_call::argument_texts(t.params@)))
}

/// The declared parameter types of the first `n` flattened tools.
pub open spec fn types_of_tools(tools: Seq<JsonModel>, n: int) -> Seq<
    (Seq<char>, Seq<(Seq<char>, Seq<char>)>),
>
    decreases n,
{
    if n <= 0 {
        Seq::empty()
    } else {
        let before = types_of_tools(tools, n - 1);
        match tools[n - 1].text_at("name"@) {
            Some(name) => before.push((name, param_types_of(tools[n - 1]))),
            None => before,
        }
    }
}

/// For each function that is offered, the declared types of its parameters.
pub fn tool_param_types(tools: &Vec<ToolSpec>) -> (r: Vec<ToolTypes>)
    ensures
        tool_types_models(r@) == types_of_tools(
            flattened(tools@, tools@.len() as int),
            flattened(tools@, tools@.len() as int).len() as int,
        ),
{
    let flat = flattened_tools_json(tools);
    let ghost all = json::models(flat@);
    let mut out: Vec<ToolTypes> = Vec::new();
    let mut i: usize = 0;
    assert(tool_types_models(out@) =~= Seq::empty());
    while i < flat.len()
        invariant
            i <= flat@.len(),
            all == json::models(flat@),
            tool_types_models(out@) == types_of_tools(all, i as int),
        decreases flat@.len() - i,
    {
        let ghost before = tool_types_models(out@);
        assert(all[i as int] == flat@[i as int]@);
        match flat[i].str_at("name") {
            Some(name) => {
                let entry = ToolTypes {
                    name: name.to_string(),
                    params: types_of_tool(&flat[i]),
                };
                out.push(entry);
                assert(tool_types_models(out@) =~= before.push(
                    (entry.name@, tool_call::argument_texts(entry.params@)),
                ));
            },
            None => {},
        }
        i += 1;
    }
    out
}

// ---------------------------------------------------------------------------
// Content.

/// Each occurrence of this in the prompt stands for one media payload, in
/// order.
pub open spec fn media_marker() -> Seq<char> {
    "<__media__>"@
}

/// The marker, as the server has to be told of it.
pub fn marker_text() -> (r: &'static str)
    ensures
        r@ == media_marker(),
{
    "<__media__>"
}

/// The base64 payload of an image data URL; none where the image cannot be
/// shipped.
pub open spec fn payload_of(url: Seq<char>) -> Option<Seq<char>> {
    if !text::begins_with(url, "data:"@) {
        None
    } else {
        let rest = url.skip("data:"@.len() as int);
        let n = text::upto(rest, ',');
        if n >= rest.len() || !text::ends_in(rest.take(n), ";base64"@) || n + 1 == rest.len() {
            None
        } else {
            Some(rest.skip(n + 1))
        }
    }
}

/// The base64 payload of an image data URL, when the image can be shipped.
pub fn media_payload(image_url: &str) -> (r: Option<String>)
    ensures
        match r {
            Some(p) => payload_of(image_url@) == Some(p@),
            None => payload_of(image_url@) is None,
        },
{
    let url = text::chars_of(image_url);
    let scheme = text::chars_of("data:");
    if !text::starts(url.as_slice(), scheme.as_slice()) {
        return None;
    }
    let rest = text::slice_of(url.as_slice(), scheme.len(), url.len());
    assert(rest@ =~= image_url@.skip("data:"@.len() as int));
    assert(rest@.skip(0) =~= rest@);
    let n = text::index_of_char(rest.as_slice(), ',', 0);
    if n == rest.len() {
        return None;
    }
    let meta = text::slice_of(rest.as_slice(), 0, n);
    assert(meta@ =~= rest@.take(n as int));
    let encoding = text::chars_of(";base64");
    if !text::ends(meta.as_slice(), encoding.as_slice()) || n + 1 == rest.len() {
        return None;
    }
    let payload = text::substring_of(rest.as_slice(), n + 1, rest.len());
    assert(payload@ =~= rest@.skip(n + 1));
    Some(payload)
}

/// `s` with every literal marker broken up.
pub open spec fn sanitized(s: Seq<char>) -> Seq<char> {
    text::replaced(s, media_marker(), "<_media_>"@)
}

/// Appends `s` with every literal marker broken up.
fn push_sanitized_text(out: &mut String, s: &str)
    ensures
        final(out)@ == old(out)@ + sanitized(s@),
{
    proof {
        reveal_strlit("<__media__>");
    }
    let clean = text::str_replace_all(s, marker_text(), "<_media_>");
    out.append(clean.as_str());
}

/// Sanitized text holds no marker, so it cannot be taken for an image.
pub proof fn sanitized_text_has_no_marker(s: Seq<char>)
    ensures
        !text::contains(sanitized(s), media_marker()),
    decreases s.len(),
{
    let m = "<__media__>"@;
    let t = "<_media_>"@;
    reveal_strlit("<__media__>");
    reveal_strlit("<_media_>");
    text::find_from_is_first(s, m, 0);
    match text::find_from(s, m, 0) {
        None => {
            assert(sanitized(s) == s);
        },
        Some(i) => {
            let rest = sanitized(s.skip(i + m.len()));
            sanitized_text_has_no_marker(s.skip(i + m.len()));
            let all = s.take(i) + t + rest;
            assert(sanitized(s) == all);
            assert forall|p: int| !text::occurs_at(all, m, p) by {
                if text::occurs_at(all, m, p) {
                    let here = all.subrange(p, p + m.len());
                    assert(here[0] == '<');
                    assert(here[2] == '_');
                    if p + m.len() <= i {
                        assert(s.subrange(p, p + m.len()) =~= here);
                        assert(text::occurs_at(s, m, p));
                    } else if p < i {
                        assert(all[i] == t[0]);
                        assert(here[i - p] == '<');
                        assert(m[i - p] != '<');
                    } else if p == i {
                        assert(all[p + 2] == t[2]);
                    } else if p < i + t.len() {
                        assert(all[p] == t[p - i]);
                        assert(t[p - i] != '<');
                    } else {
                        let q = p - i - t.len();
                        assert(rest.subrange(q, q + m.len()) =~= here);
                        assert(text::occurs_at(rest, m, q));
                    }
                    assert(false);
                }
            }
        },
    }
}

/// The text of the first `n` parts of a message; images add nothing.
pub open spec fn plain_text(items: Seq<ContentItem>, n: int) -> Seq<char>
    decreases n,
{
    if n <= 0 {
        Seq::empty()
    } else {
        let before = plain_text(items, n - 1);
        match items[n - 1] {
            ContentItem::InputText { text } => before + sanitized(text@),
            ContentItem::OutputText { text } => before + sanitized(text@),
            ContentItem::InputImage { .. } => before,
        }
    }
}

/// The text of the first `n` parts of a message; each image that can be shipped
/// stands as a marker.
pub open spec fn marked_text(items: Seq<ContentItem>, n: int) -> Seq<char>
    decreases n,
{
    if n <= 0 {
        Seq::empty()
    } else {
        let before = marked_text(items, n - 1);
        match items[n - 1] {
            ContentItem::InputText { text } => before + sanitized(text@),
            ContentItem::OutputText { text } => before + sanitized(text@),
            ContentItem::InputImage { image_url, .. } => if payload_of(image_url@) is Some {
                before + media_marker()
            } else {
                before
            },
        }
    }
}

/// The text of a message; images add nothing.
pub fn content_items_to_text_plain(items: &Vec<ContentItem>) -> (r: String)
    ensures
        r@ == plain_text(items@, items@.len() as int),
{
    let mut out = String::new();
    let mut i: usize = 0;
    while i < items.len()
        invariant
            i <= items@.len(),
            out@ == plain_text(items@, i as int),
        decreases items@.len() - i,
    {
        match &items[i] {
            ContentItem::InputText { text } => {
                push_sanitized_text(&mut out, text.as_str());
            },
            ContentItem::OutputText { text } => {
                push_sanitized_text(&mut out, text.as_str());
            },
            ContentItem::InputImage { .. } => {},
        }
        i += 1;
    }
    out
}

/// The text of a message; each image that can be shipped stands as a marker.
pub fn content_items_to_text(items: &Vec<ContentItem>) -> (r: String)
    ensures
        r@ == marked_text(items@, items@.len() as int),
{
    let mut out = String::new();
    let mut i: usize = 0;
    while i < items.len()
        invariant
            i <= items@.len(),
            out@ == marked_text(items@, i as int),
        decreases items@.len() - i,
    {
        match &items[i] {
            ContentItem::InputText { text } => {
                push_sanitized_text(&mut out, text.as_str());
            },
            ContentItem::OutputText { text } => {
                push_sanitized_text(&mut out, text.as_str());
            },
            ContentItem::InputImage { image_url, .. } => {
                if media_payload(image_url.as_str()).is_some() {
                    out.append(marker_text());
                }
            },
        }
        i += 1;
    }
    out
}

/// The pieces of the first `n` parts of a tool's output: text that is not
/// blank, and a marker for each image that can be shipped.
pub open spec fn output_pieces(items: Seq<FunctionCallOutputContentItem>, n: int) -> Seq<Seq<char>>
    decreases n,
{
    if n <= 0 {
        Seq::empty()
    } else {
        let before = output_pieces(items, n - 1);
        match items[n - 1] {
            FunctionCallOutputContentItem::InputText { text } => if text::is_blank(text@) {
                before
            } else {
                before.push(sanitized(text@))
            },
            FunctionCallOutputContentItem::InputImage { image_url, .. } => if payload_of(
                image_url@,
            ) is Some {
                before.push(media_marker())
            } else {
                before
            },
        }
    }
}

/// A tool's output as text.
pub open spec fn output_text(body: FunctionCallOutputBody) -> Seq<char> {
    match body {
        FunctionCallOutputBody::Text(t) => sanitized(t@),
        FunctionCallOutputBody::ContentItems(items) => text::join(
            output_pieces(items@, items@.len() as int),
            "\n"@,
        ),
    }
}

/// A tool's output as text.
pub fn function_call_output_text(body: &FunctionCallOutputBody) -> (r: String)
    ensures
        r@ == output_text(*body),
{
    match body {
        FunctionCallOutputBody::Text(t) => {
            let mut out = String::new();
            push_sanitized_text(&mut out, t.as_str());
            assert(out@ =~= sanitized(t@));
            out
        },
        FunctionCallOutputBody::ContentItems(items) => {
            let mut pieces: Vec<String> = Vec::new();
            let mut i: usize = 0;
            assert(text::strings(pieces@) =~= Seq::empty());
            while i < items.len()
                invariant
                    i <= items@.len(),
                    text::strings(pieces@) == output_pieces(items@, i as int),
                decreases items@.len() - i,
            {
                let ghost before = text::strings(pieces@);
                match &items[i] {
                    FunctionCallOutputContentItem::InputText { text } => {
                        if !text::str_blank(text.as_str()) {
                            let mut piece = String::new();
                            push_sanitized_text(&mut piece, text.as_str());
                            assert(piece@ =~= sanitized(text@));
                            pieces.push(piece);
                            assert(text::strings(pieces@) =~= before.push(piece@));
                        }
                    },
                    FunctionCallOutputContentItem::InputImage { image_url, .. } => {
                        if media_payload(image_url.as_str()).is_some() {
                            let piece = marker_text().to_string();
                            pieces.push(piece);
                            assert(text::strings(pieces@) =~= before.push(piece@));
                        }
                    },
                }
                i += 1;
            }
            text::join_strings(&pieces, "\n")
        },
    }
}

/// The payloads of the first `n` parts of a message.
pub open spec fn message_media(items: Seq<ContentItem>, n: int) -> Seq<Seq<char>>
    decreases n,
{
    if n <= 0 {
        Seq::empty()
    } else {
        let before = message_media(items, n - 1);
        match items[n - 1] {
            ContentItem::InputImage { image_url, .. } => match payload_of(image_url@) {
                Some(p) => before.push(p),
                None => before,
            },
            _ => before,
        }
    }
}

/// The payloads of the first `n` parts of a tool's output.
pub open spec fn output_media(items: Seq<FunctionCallOutputContentItem>, n: int) -> Seq<Seq<char>>
    decreases n,
{
    if n <= 0 {
        Seq::empty()
    } else {
        let before = output_media(items, n - 1);
        match items[n - 1] {
            FunctionCallOutputContentItem::InputImage { image_url, .. } => match payload_of(
                image_url@,
            ) {
                Some(p) => before.push(p),
                None => before,
            },
            _ => before,
        }
    }
}

/// The payloads of one item of the conversation.
pub open spec fn item_media(item: ResponseItem) -> Seq<Seq<char>> {
    match item {
        ResponseItem::Message { content, .. } => message_media(
            content@,
            content@.len() as int,
        ),
        ResponseItem::FunctionCallOutput {
            body: FunctionCallOutputBody::ContentItems(items),
            ..
        } => output_media(items@, items@.len() as int),
        _ => Seq::empty(),
    }
}

/// Whether an item has a place in the prompt at all.
pub open spec fn has_turn(item: ResponseItem) -> bool {
    !(item is ToolActivity || item is Other)
}

/// Whether none of the first `n` items has a place in the prompt.
pub open spec fn no_turn_before(input: Seq<ResponseItem>, n: int) -> bool {
    forall|k: int| 0 <= k < n ==> !has_turn(#[trigger] input[k])
}

pub open spec fn is_system(item: ResponseItem) -> bool {
    item matches ResponseItem::Message { role, .. } && role@ == "system"@
}

/// Whether the prompt shows what the item at `i` says. Of the system messages it shows
/// one only: a leading one, where there are no other instructions.
pub open spec fn is_shown(instructions: Seq<char>, input: Seq<ResponseItem>, i: int) -> bool {
    is_system(input[i]) ==> text::is_blank(instructions) && no_turn_before(input, i)
}

/// The payloads of the images that the prompt marks for the first `n` items of the
/// conversation.
pub open spec fn media_of(instructions: Seq<char>, input: Seq<ResponseItem>, n: int) -> Seq<
    Seq<char>,
>
    decreases n,
{
    if n <= 0 {
        Seq::empty()
    } else if is_shown(instructions, input, n - 1) {
        media_of(instructions, input, n - 1) + item_media(input[n - 1])
    } else {
        media_of(instructions, input, n - 1)
    }
}

fn add_media(media: &mut Vec<String>, image_url: &str)
    ensures
        text::strings(final(media)@) == match payload_of(image_url@) {
            Some(p) => text::strings(old(media)@).push(p),
            None => text::strings(old(media)@),
        },
{
    let ghost before = text::strings(media@);
    match media_payload(image_url) {
        Some(p) => {
            media.push(p);
            assert(text::strings(media@) =~= before.push(p@));
        },
        None => {},
    }
}

/// The payload of every image that the prompt with these instructions marks, in the
/// order of the markers.
pub fn collect_media(instructions: &str, input: &Vec<ResponseItem>) -> (r: Vec<String>)
    ensures
        text::strings(r@) == media_of(instructions@, input@, input@.len() as int),
{
    let blank: bool = text::str_blank(instructions);
    let mut leading: bool = true;
    let mut media: Vec<String> = Vec::new();
    let mut i: usize = 0;
    assert(text::strings(media@) =~= Seq::empty());
    while i < input.len()
        invariant
            i <= input@.len(),
            blank == text::is_blank(instructions@),
            leading == no_turn_before(input@, i as int),
            text::strings(media@) == media_of(instructions@, input@, i as int),
        decreases input@.len() - i,
    {
        let ghost before = text::strings(media@);
        assert(before + Seq::<Seq<char>>::empty() =~= before);
        match &input[i] {
            ResponseItem::Message { role, content } => {
                let system: bool = text::same_text(role.as_str(), "system");
                if !system || (blank && leading) {
                    let mut k: usize = 0;
                    while k < content.len()
                        invariant
                            k <= content@.len(),
                            text::strings(media@) == before + message_media(content@, k as int),
                        decreases content@.len() - k,
                    {
                        match &content[k] {
                            ContentItem::InputImage { image_url, .. } => {
                                add_media(&mut media, image_url.as_str());
                            },
                            _ => {},
                        }
                        k += 1;
                        assert(text::strings(media@) =~= before + message_media(
                            content@,
                            k as int,
                        ));
                    }
                }
            },
            ResponseItem::FunctionCallOutput { body, .. } => {
                match body {
                    FunctionCallOutputBody::ContentItems(items) => {
                        let mut k: usize = 0;
                        while k < items.len()
                            invariant
                                k <= items@.len(),
                                text::strings(media@) == before + output_media(items@, k as int),
                            decreases items@.len() - k,
                        {
                            match &items[k] {
                                FunctionCallOutputContentItem::InputImage { image_url, .. } => {
                                    add_media(&mut media, image_url.as_str());
                                },
                                _ => {},
                            }
                            k += 1;
                            assert(text::strings(media@) =~= before + output_media(
                                items@,
                                k as int,
                            ));
                        }
                    },
                    FunctionCallOutputBody::Text(_) => {},
                }
            },
            _ => {},
        }
        let turned: bool = match &input[i] {
            ResponseItem::ToolActivity | ResponseItem::Other => false,
            _ => true,
        };
        assert(turned == has_turn(input@[i as int]));
        leading = leading && !turned;
        i += 1;
    }
    media
}

/// How many pieces are markers.
pub open spec fn marker_count(pieces: Seq<Seq<char>>) -> nat
    decreases pieces.len(),
{
    if pieces.len() == 0 {
        0
    } else {
        marker_count(pieces.drop_last()) + if pieces.last() == media_marker() {
            1nat
        } else {
            0nat
        }
    }
}

/// The pieces that the text of a message is made of.
pub open spec fn message_pieces(items: Seq<ContentItem>, n: int) -> Seq<Seq<char>>
    decreases n,
{
    if n <= 0 {
        Seq::empty()
    } else {
        let before = message_pieces(items, n - 1);
        match items[n - 1] {
            ContentItem::InputText { text } => before.push(sanitized(text@)),
            ContentItem::OutputText { text } => before.push(sanitized(text@)),
            ContentItem::InputImage { image_url, .. } => if payload_of(image_url@) is Some {
                before.push(media_marker())
            } else {
                before
            },
        }
    }
}

/// Markers and payloads are one to one: the text of a message is its pieces one
/// after another, as many of them are markers as payloads are collected, and
/// every other piece is free of markers.
pub proof fn message_markers_match_media(items: Seq<ContentItem>, n: int)
    requires
        0 <= n <= items.len(),
    ensures
        marked_text(items, n) == text::join(message_pieces(items, n), Seq::empty()),
        marker_count(message_pieces(items, n)) == message_media(items, n).len(),
        forall|i: int|
            0 <= i < message_pieces(items, n).len() ==> #[trigger] message_pieces(items, n)[i]
                == media_marker() || !text::contains(message_pieces(items, n)[i], media_marker()),
    decreases n,
{
    if n > 0 {
        message_markers_match_media(items, n - 1);
        let before = message_pieces(items, n - 1);
        match items[n - 1] {
            ContentItem::InputText { text } => {
                sanitized_text_has_no_marker(text@);
                piece_added(before, sanitized(text@));
                marker_in_itself();
            },
            ContentItem::OutputText { text } => {
                sanitized_text_has_no_marker(text@);
                piece_added(before, sanitized(text@));
                marker_in_itself();
            },
            ContentItem::InputImage { image_url, .. } => {
                if payload_of(image_url@) is Some {
                    piece_added(before, media_marker());
                }
            },
        }
    }
}

proof fn piece_added(before: Seq<Seq<char>>, piece: Seq<char>)
    ensures
        text::join(before.push(piece), Seq::empty()) == text::join(before, Seq::empty()) + piece,
        marker_count(before.push(piece)) == marker_count(before) + if piece == media_marker() {
            1nat
        } else {
            0nat
        },
{
    assert(before.push(piece).drop_last() =~= before);
    let none = Seq::<char>::empty();
    if before.len() == 0 {
        assert(none + piece =~= piece);
    } else {
        assert(text::join(before, none) + none =~= text::join(before, none));
    }
}

proof fn marker_in_itself()
    ensures
        text::contains(media_marker(), media_marker()),
{
    assert(media_marker().subrange(0, media_marker().len() as int) =~= media_marker());
    assert(text::occurs_at(media_marker(), media_marker(), 0));
}

/// The same of a tool's output: as many of its pieces are markers as payloads
/// are collected from it.
pub proof fn output_markers_match_media(items: Seq<FunctionCallOutputContentItem>, n: int)
    requires
        0 <= n <= items.len(),
    ensures
        marker_count(output_pieces(items, n)) == output_media(items, n).len(),
        forall|i: int|
            0 <= i < output_pieces(items, n).len() ==> #[trigger] output_pieces(items, n)[i]
                == media_marker() || !text::contains(output_pieces(items, n)[i], media_marker()),
    decreases n,
{
    if n > 0 {
        output_markers_match_media(items, n - 1);
        let before = output_pieces(items, n - 1);
        match items[n - 1] {
            FunctionCallOutputContentItem::InputText { text } => {
                if !text::is_blank(text@) {
                    sanitized_text_has_no_marker(text@);
                    piece_added(before, sanitized(text@));
                    marker_in_itself();
                }
            },
            FunctionCallOutputContentItem::InputImage { image_url, .. } => {
                if payload_of(image_url@) is Some {
                    piece_added(before, media_marker());
                }
            },
        }
    }
}

// ---------------------------------------------------------------------------
// Laws.

/// Whether the model is told of a function under this name, with its description and its
/// parameters, whose members may come in another order.
pub open spec fn is_told(entry: JsonModel, name: Seq<char>, f: ResponsesApiTool) -> bool {
    &&& entry.at("name"@) == Some(JsonModel::Text(name))
    &&& entry.at("description"@) == Some(JsonModel::Text(f.description@))
    &&& entry.at("parameters"@) == Some(canonical::canonical(f.parameters@))
    &&& entry is Object && entry->Object_0.len() == 3
}

proof fn tool_json_tells(name: Seq<char>, f: ResponsesApiTool)
    ensures
        is_told(tool_json(name, f), name, f),
{
    reveal_strlit("name");
    reveal_strlit("description");
    reveal_strlit("parameters");
    let members = tool_json(name, f)->Object_0;
    assert("name"@.len() == 4 && "description"@.len() == 11 && "parameters"@.len() == 10);
    json::members_are_found(members, "name"@);
    json::members_are_found(members, "description"@);
    json::members_are_found(members, "parameters"@);
    assert(members[0].0 == "description"@ && members[1].0 == "name"@ && members[2].0
        == "parameters"@);
}

proof fn namespace_tells(namespace: Seq<char>, tools: Seq<ResponsesApiTool>, n: int, j: int)
    requires
        0 <= j < n <= tools.len(),
    ensures
        namespace_json(namespace, tools, n).len() == n,
        is_told(
            namespace_json(namespace, tools, n)[j],
            namespace + "__"@ + tools[j].name@,
            tools[j],
        ),
    decreases n,
{
    if j < n - 1 {
        namespace_tells(namespace, tools, n - 1, j);
    } else {
        namespace_len(namespace, tools, n);
        tool_json_tells(namespace + "__"@ + tools[j].name@, tools[j]);
    }
}

proof fn namespace_len(namespace: Seq<char>, tools: Seq<ResponsesApiTool>, n: int)
    requires
        0 <= n <= tools.len(),
    ensures
        namespace_json(namespace, tools, n).len() == n,
    decreases n,
{
    if n > 0 {
        namespace_len(namespace, tools, n - 1);
    }
}

proof fn flattened_goes_on(tools: Seq<ToolSpec>, n: int, m: int)
    requires
        0 <= n <= m <= tools.len(),
    ensures
        flattened(tools, n).is_prefix_of(flattened(tools, m)),
    decreases m,
{
    if n < m {
        flattened_goes_on(tools, n, m - 1);
    }
}

/// The model is told of every function that is offered, those of a namespace under their
/// joined names, in the order in which they are offered.
pub proof fn every_function_is_told(tools: Seq<ToolSpec>, i: int, j: int)
    requires
        0 <= i < tools.len(),
    ensures
        ({
            let all = flattened(tools, tools.len() as int);
            let k = flattened(tools, i).len() as int;
            match tools[i] {
                ToolSpec::Function(f) => k < all.len() && is_told(all[k], f.name@, f),
                ToolSpec::Namespace { name, tools: nested } => 0 <= j < nested@.len() ==> k + j
                    < all.len() && is_told(
                    all[k + j],
                    name@ + "__"@ + nested@[j].name@,
                    nested@[j],
                ),
                ToolSpec::Other => true,
            }
        }),
{
    let n = tools.len() as int;
    flattened_goes_on(tools, i + 1, n);
    let next = flattened(tools, i + 1);
    let all = flattened(tools, n);
    let k = flattened(tools, i).len() as int;
    match tools[i] {
        ToolSpec::Function(f) => {
            tool_json_tells(f.name@, f);
            assert(all[k] == next[k]);
        },
        ToolSpec::Namespace { name, tools: nested } => {
            if 0 <= j < nested@.len() {
                namespace_tells(name@, nested@, nested@.len() as int, j);
                assert(all[k + j] == next[k + j]);
            }
        },
        ToolSpec::Other => {},
    }
}

/// How many functions a tool offers.
pub open spec fn functions_in(tool: ToolSpec) -> nat {
    match tool {
        ToolSpec::Function(_) => 1,
        ToolSpec::Namespace { tools, .. } => tools@.len(),
        ToolSpec::Other => 0,
    }
}

/// And it is told of nothing else.
pub proof fn nothing_else_is_told(tools: Seq<ToolSpec>, n: int)
    requires
        0 <= n < tools.len(),
    ensures
        flattened(tools, n + 1).len() == flattened(tools, n).len() + functions_in(tools[n]),
        flattened(tools, 0).len() == 0,
{
    match tools[n] {
        ToolSpec::Namespace { name, tools: nested } => {
            namespace_len(name@, nested@, nested@.len() as int);
        },
        _ => {},
    }
}

/// The type of a parameter is the one that its schema names.
pub proof fn parameters_have_their_types(
    properties: Seq<(Seq<char>, JsonModel)>,
    n: int,
    i: int,
)
    requires
        0 <= i < n <= properties.len(),
        canonical::distinct_keys(properties),
    ensures
        tool_call::declared_type(typed_params(properties, n), properties[i].0) == match properties[i].1.at(
            "type"@,
        ) {
            Some(JsonModel::Text(t)) => Some(t),
            _ => None,
        },
    decreases n,
{
    let types = typed_params(properties, n);
    typed_params_come_from(properties, n);
    tool_call::declared_types_are_found(types, properties[i].0);
    match properties[i].1.at("type"@) {
        Some(JsonModel::Text(t)) => {
            typed_params_hold(properties, n, i, t);
        },
        _ => {},
    }
}

proof fn typed_params_come_from(properties: Seq<(Seq<char>, JsonModel)>, n: int)
    requires
        0 <= n <= properties.len(),
        canonical::distinct_keys(properties),
    ensures
        forall|k: int, i: int|
            0 <= k < typed_params(properties, n).len() && 0 <= i < properties.len() && (
            #[trigger] typed_params(properties, n)[k]).0 == (#[trigger] properties[i]).0
                ==> properties[i].1.at("type"@) == Some(
                JsonModel::Text(typed_params(properties, n)[k].1),
            ),
    decreases n,
{
    if n > 0 {
        typed_params_come_from(properties, n - 1);
        let before = typed_params(properties, n - 1);
        let all = typed_params(properties, n);
        assert forall|k: int, i: int|
            0 <= k < all.len() && 0 <= i < properties.len() && (#[trigger] all[k]).0 == (
            #[trigger] properties[i]).0 implies properties[i].1.at("type"@) == Some(
            JsonModel::Text(all[k].1),
        ) by {
            if k < before.len() {
                assert(all[k] == before[k]);
            } else {
                assert(i == n - 1);
            }
        }
    }
}

proof fn typed_params_hold(
    properties: Seq<(Seq<char>, JsonModel)>,
    n: int,
    i: int,
    t: Seq<char>,
)
    requires
        0 <= i < n <= properties.len(),
        properties[i].1.at("type"@) == Some(JsonModel::Text(t)),
    ensures
        exists|k: int|
            0 <= k < typed_params(properties, n).len() && #[trigger] typed_params(properties, n)[k]
                == (properties[i].0, t),
    decreases n,
{
    let before = typed_params(properties, n - 1);
    let all = typed_params(properties, n);
    if i < n - 1 {
        typed_params_hold(properties, n - 1, i, t);
        let k = choose|k: int|
            0 <= k < before.len() && #[trigger] before[k] == (properties[i].0, t);
        assert(all[k] == before[k]);
    } else {
        assert(all[before.len() as int] == (properties[i].0, t));
    }
}

/// An image is shipped exactly where its address is a data address with base64 content, and
/// what is shipped is that content.
pub proof fn only_data_images_are_shipped(kind: Seq<char>, payload: Seq<char>, url: Seq<char>)
    ensures
        (forall|i: int| 0 <= i < kind.len() ==> #[trigger] kind[i] != ',') && payload.len() > 0
            ==> payload_of("data:"@ + (kind + ";base64"@ + seq![','] + payload)) == Some(payload),
        payload_of("data:"@ + (kind + ";base64"@ + seq![','])) is None || !(forall|i: int|
            0 <= i < kind.len() ==> #[trigger] kind[i] != ','),
        payload_of(url) == Some(payload) ==> text::begins_with(url, "data:"@) && payload.len() > 0
            && text::ends_in(url, seq![','] + payload) && text::ends_in(
            url.take(url.len() - payload.len() - 1),
            ";base64"@,
        ),
{
    reveal_strlit("data:");
    reveal_strlit(";base64");
    let mark = ";base64"@;
    if forall|i: int| 0 <= i < kind.len() ==> #[trigger] kind[i] != ',' {
        let head = kind + mark;
        assert forall|i: int| 0 <= i < head.len() implies #[trigger] head[i] != ',' by {
            if i < kind.len() {
                assert(head[i] == kind[i]);
            } else {
                assert(head[i] == mark[i - kind.len()]);
            }
        }
        data_url_is_taken_apart(head, payload);
        data_url_is_taken_apart(head, Seq::empty());
        assert(head.subrange(head.len() - 7, head.len() as int) =~= mark);
        assert(head + seq![','] + Seq::<char>::empty() =~= head + seq![',']);
    }
    if payload_of(url) == Some(payload) {
        let rest = url.skip(5);
        text::upto_shape(rest, ',');
        let n = text::upto(rest, ',');
        assert(url.subrange(url.len() - payload.len() - 1, url.len() as int) =~= seq![',']
            + payload);
        let front = url.take(url.len() - payload.len() - 1);
        assert(front.subrange(front.len() - 7, front.len() as int) =~= rest.take(n).subrange(
            n - 7,
            n,
        ));
    }
}

proof fn data_url_is_taken_apart(head: Seq<char>, payload: Seq<char>)
    requires
        forall|i: int| 0 <= i < head.len() ==> #[trigger] head[i] != ',',
    ensures
        ({
            let url = "data:"@ + (head + seq![','] + payload);
            let rest = url.skip("data:"@.len() as int);
            &&& text::begins_with(url, "data:"@)
            &&& rest == head + seq![','] + payload
            &&& text::upto(rest, ',') == head.len()
            &&& rest.take(head.len() as int) == head
            &&& rest.skip(head.len() + 1 as int) == payload
        }),
{
    reveal_strlit("data:");
    let rest = head + seq![','] + payload;
    let url = "data:"@ + rest;
    assert(url.subrange(0, 5) =~= "data:"@);
    assert(url.skip(5) =~= rest);
    text::upto_shape(rest, ',');
    assert(rest[head.len() as int] == ',');
    if text::upto(rest, ',') < head.len() {
        assert(rest[text::upto(rest, ',')] == head[text::upto(rest, ',')]);
    }
    assert(rest.take(head.len() as int) =~= head);
    assert(rest.skip(head.len() + 1 as int) =~= payload);
}

/// Text without a marker is kept as it is; of one marker only two underscores are lost.
pub proof fn text_is_kept(a: Seq<char>, b: Seq<char>)
    requires
        !text::contains(a, "<__media__>"@),
        !text::contains(b, "<__media__>"@),
    ensures
        sanitized(a) == a,
        (forall|j: int| 0 <= j < a.len() ==> !text::occurs_at(a + "<__media__>"@ + b, "<__media__>"@, j))
            ==> sanitized(a + "<__media__>"@ + b) == a + "<_media_>"@ + b,
{
    reveal_strlit("<__media__>");
    text::contains_is_found(a, "<__media__>"@);
    if forall|j: int| 0 <= j < a.len() ==> !text::occurs_at(a + "<__media__>"@ + b, "<__media__>"@, j) {
        text::occurrences_are_exchanged(a, "<__media__>"@, b, "<_media_>"@);
    }
}

/// The text of a part of a message.
pub open spec fn part_text(item: ContentItem) -> Seq<char> {
    match item {
        ContentItem::InputText { text } => text@,
        ContentItem::OutputText { text } => text@,
        ContentItem::InputImage { .. } => Seq::empty(),
    }
}

/// A message says all that its parts say, in their order, each part free of markers as it
/// is; among other parts, each image that can be shipped stands as one marker.
pub proof fn messages_say_what_their_parts_say(items: Seq<ContentItem>, n: int)
    requires
        0 <= n < items.len(),
        !text::contains(part_text(items[n]), "<__media__>"@),
    ensures
        plain_text(items, 0).len() == 0 && marked_text(items, 0).len() == 0,
        plain_text(items, n + 1) == plain_text(items, n) + part_text(items[n]),
        marked_text(items, n + 1) == marked_text(items, n) + match items[n] {
            ContentItem::InputImage { image_url, .. } => if payload_of(image_url@) is Some {
                "<__media__>"@
            } else {
                Seq::empty()
            },
            _ => part_text(items[n]),
        },
{
    let none = Seq::<char>::empty();
    reveal_strlit("<__media__>");
    assert(!text::contains(none, "<__media__>"@));
    text_is_kept(part_text(items[n]), none);
    assert(plain_text(items, n) + none =~= plain_text(items, n));
    assert(marked_text(items, n) + none =~= marked_text(items, n));
}

/// What a part of a tool's output adds to it as a piece of its own; blank text and images
/// that cannot be shipped add nothing.
pub open spec fn output_piece(item: FunctionCallOutputContentItem) -> Option<Seq<char>> {
    match item {
        FunctionCallOutputContentItem::InputText { text } => if text::is_blank(text@) {
            None
        } else {
            Some(text@)
        },
        FunctionCallOutputContentItem::InputImage { image_url, .. } => if payload_of(
            image_url@,
        ) is Some {
            Some("<__media__>"@)
        } else {
            None
        },
    }
}

/// A tool's output says what its parts say, one below the other and free of markers of its
/// own; a plain text is kept as it is.
pub proof fn outputs_say_what_their_parts_say(
    items: Seq<FunctionCallOutputContentItem>,
    n: int,
    t: Seq<char>,
)
    requires
        0 <= n < items.len(),
        items[n] matches FunctionCallOutputContentItem::InputText { text } ==> !text::contains(
            text@,
            "<__media__>"@,
        ),
        !text::contains(t, "<__media__>"@),
    ensures
        sanitized(t) == t,
        output_pieces(items, 0).len() == 0,
        ({
            let before = text::join(output_pieces(items, n), seq!['\n']);
            let after = text::join(output_pieces(items, n + 1), seq!['\n']);
            match output_piece(items[n]) {
                Some(piece) => if output_pieces(items, n).len() == 0 {
                    after == piece
                } else {
                    after == before + seq!['\n'] + piece
                },
                None => after == before,
            }
        }),
{
    text_is_kept(t, t);
    match items[n] {
        FunctionCallOutputContentItem::InputText { text } => {
            text_is_kept(text@, text@);
        },
        _ => {},
    }
    let before = output_pieces(items, n);
    match output_piece(items[n]) {
        Some(piece) => {
            assert(output_pieces(items, n + 1) == before.push(piece));
            assert(before.push(piece).drop_last() =~= before);
        },
        None => {},
    }
}

/// A tool's output is shown as the text that it is, or as its pieces one below the other.
pub proof fn outputs_are_shown(body: FunctionCallOutputBody)
    ensures
        body matches FunctionCallOutputBody::Text(t) && !text::contains(t@, "<__media__>"@)
            ==> output_text(body) == body->Text_0@,
        body matches FunctionCallOutputBody::ContentItems(items) ==> output_text(body)
            == text::join(output_pieces(items@, items@.len() as int), seq!['\n']),
{
    reveal_strlit("\n");
    assert("\n"@ =~= seq!['\n']);
    match body {
        FunctionCallOutputBody::Text(t) => {
            if !text::contains(t@, "<__media__>"@) {
                text_is_kept(t@, t@);
            }
        },
        _ => {},
    }
}

} // verus!
