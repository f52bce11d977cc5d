//! The editing tools as they are offered to the model.

use crate::chat;
use crate::conversation::ResponsesApiTool;
use crate::conversation::ToolSpec;
use crate::json;
use crate::json::Json;
use crate::json::JsonModel;
use crate::text;
use vstd::prelude::*;
use vstd::string::*;

verus! {

pub open spec fn string_schema() -> JsonModel {
    JsonModel::Object(seq![("type"@, JsonModel::Text("string"@))])
}

/// The properties of a schema, each a string.
pub open spec fn string_members(names: Seq<Seq<char>>) -> Seq<(Seq<char>, JsonModel)> {
    names.map_values(|n: Seq<char>| (n, string_schema()))
}

pub open spec fn names_json(names: Seq<Seq<char>>) -> Seq<JsonModel> {
    names.map_values(|n: Seq<char>| JsonModel::Text(n))
}

/// The schema of an object whose properties are strings, all of which are required.
pub open spec fn strings_schema(properties: Seq<Seq<char>>, required: Seq<Seq<char>>) -> JsonModel {
    JsonModel::Object(
        seq![
            ("type"@, JsonModel::Text("object"@)),
            ("properties"@, JsonModel::Object(string_members(properties))),
            ("required"@, JsonModel::Array(names_json(required))),
        ],
    )
}

/// Whether a tool is this one.
pub open spec fn is_edit_tool(
    t: ToolSpec,
    name: Seq<char>,
    description: Seq<char>,
    properties: Seq<Seq<char>>,
    required: Seq<Seq<char>>,
) -> bool {
    t matches ToolSpec::Function(f) && f.name@ == name && f.description@ == description
        && !f.strict && f.parameters@ == strings_schema(properties, required)
}

fn string_type() -> (r: Json)
    ensures
        r@ == string_schema(),
{
    let mut members: Vec<(String, Json)> = Vec::new();
    members.push(("type".to_string(), Json::text("string")));
    proof {
        json::object_model(members);
        assert(json::member_models(members@) =~= seq![("type"@, JsonModel::Text("string"@))]);
    }
    Json::Object(members)
}

fn schema(properties: &Vec<String>, required: &Vec<String>) -> (r: Json)
    ensures
        r@ == strings_schema(text::strings(properties@), text::strings(required@)),
{
    let ghost wanted = string_members(text::strings(properties@));
    let ghost listed = names_json(text::strings(required@));
    let mut members: Vec<(String, Json)> = Vec::new();
    let mut i: usize = 0;
    assert(json::member_models(members@) =~= wanted.take(0));
    while i < properties.len()
        invariant
            i <= properties@.len(),
            wanted == string_members(text::strings(properties@)),
            json::member_models(members@) == wanted.take(i as int),
        decreases properties@.len() - i,
    {
        let ghost before = members@;
        let name = properties[i].clone();
        let kind = string_type();
        members.push((name, kind));
        assert(json::member_models(members@) =~= json::member_models(before).push(
            (name@, kind@),
        ));
        assert(wanted.take(i + 1) =~= wanted.take(i as int).push(wanted[i as int]));
        i += 1;
    }
    assert(wanted.take(i as int) =~= wanted);
    let mut names: Vec<Json> = Vec::new();
    let mut k: usize = 0;
    assert(json::models(names@) =~= listed.take(0));
    while k < required.len()
        invariant
            k <= required@.len(),
            listed == names_json(text::strings(required@)),
            json::models(names@) == listed.take(k as int),
        decreases required@.len() - k,
    {
        let ghost before = names@;
        let name = Json::text(required[k].as_str());
        names.push(name);
        assert(json::models(names@) =~= json::models(before).push(name@));
        assert(listed.take(k + 1) =~= listed.take(k as int).push(listed[k as int]));
        k += 1;
    }
    assert(listed.take(k as int) =~= listed);
    proof {
        json::object_model(members);
    }
    chat::three(
        "type",
        Json::text("object"),
        "properties",
        Json::Object(members),
        "required",
        chat::array(names),
    )
}

fn tool(name: &str, description: &str, properties: &Vec<String>, required: &Vec<String>) -> (r: ToolSpec)
    ensures
        is_edit_tool(
            r,
            name@,
            description@,
            text::strings(properties@),
            text::strings(required@),
        ),
{
    ToolSpec::Function(
        ResponsesApiTool {
            name: name.to_string(),
            description: description.to_string(),
            strict: false,
            parameters: schema(properties, required),
        },
    )
}

/// The tool that creates a file.
pub fn create_create_file_tool() -> (r: ToolSpec)
    ensures
        is_edit_tool(
            r,
            "create_file"@,
            "Create a new file with the given content. Fails if the file already exists."@,
            seq!["content"@, "path"@],
            seq!["path"@, "content"@],
        ),
{
    let mut properties: Vec<String> = Vec::new();
    properties.push("content".to_string());
    properties.push("path".to_string());
    let mut required: Vec<String> = Vec::new();
    required.push("path".to_string());
    required.push("content".to_string());
    assert(text::strings(properties@) =~= seq!["content"@, "path"@]);
    assert(text::strings(required@) =~= seq!["path"@, "content"@]);
    tool(
        "create_file",
        "Create a new file with the given content. Fails if the file already exists.",
        &properties,
        &required,
    )
}

/// The tool that replaces a piece of a file.
pub fn create_str_replace_tool() -> (r: ToolSpec)
    ensures
        is_edit_tool(
            r,
            "str_replace"@,
            "Replace one exact occurrence of old_str in the file with new_str. old_str must match character-for-character and appear exactly once."@,
            seq!["new_str"@, "old_str"@, "path"@],
            seq!["path"@, "old_str"@, "new_str"@],
        ),
{
    let mut properties: Vec<String> = Vec::new();
    properties.push("new_str".to_string());
    properties.push("old_str".to_string());
    properties.push("path".to_string());
    let mut required: Vec<String> = Vec::new();
    required.push("path".to_string());
    required.push("old_str".to_string());
    required.push("new_str".to_string());
    assert(text::strings(properties@) =~= seq!["new_str"@, "old_str"@, "path"@]);
    assert(text::strings(required@) =~= seq!["path"@, "old_str"@, "new_str"@]);
    tool(
        "str_replace",
        "Replace one exact occurrence of old_str in the file with new_str. old_str must match character-for-character and appear exactly once.",
        &properties,
        &required,
    )
}

/// The tool that deletes a file.
pub fn create_delete_file_tool() -> (r: ToolSpec)
    ensures
        is_edit_tool(
            r,
            "delete_file"@,
            "Delete the file at path."@,
            seq!["path"@],
            seq!["path"@],
        ),
{
    let mut names: Vec<String> = Vec::new();
    names.push("path".to_string());
    assert(text::strings(names@) =~= seq!["path"@]);
    tool("delete_file", "Delete the file at path.", &names, &names)
}

// ---------------------------------------------------------------------------
// Laws.

/// The schema of a tool with texts for parameters declares each of them as a text, under its
/// name, and says which are required.
pub proof fn texts_are_declared(properties: Seq<Seq<char>>, required: Seq<Seq<char>>, i: int)
    requires
        0 <= i < properties.len(),
    ensures
        ({
            let s = strings_schema(properties, required);
            &&& s.at("type"@) == Some(JsonModel::Text("object"@))
            &&& s.at("properties"@) matches Some(p) && p.at(properties[i]) matches Some(t)
                && t.at("type"@) == Some(JsonModel::Text("string"@))
            &&& s.at("required"@) == Some(
                JsonModel::Array(required.map_values(|n: Seq<char>| JsonModel::Text(n))),
            )
        }),
{
    reveal_strlit("type");
    assert("type"@.len() == 4);
    reveal_strlit("properties");
    assert("properties"@.len() == 10);
    reveal_strlit("required");
    assert("required"@.len() == 8);
    let s = strings_schema(properties, required);
    let members = s->Object_0;
    json::members_are_found(members, "type"@);
    json::members_are_found(members, "properties"@);
    json::members_are_found(members, "required"@);
    assert(members[0].0 == "type"@);
    assert(members[1].0 == "properties"@);
    assert(members[2].0 == "required"@);
    let rows = string_members(properties);
    json::members_are_found(rows, properties[i]);
    assert(rows[i] == (properties[i], string_schema()));
    json::members_are_found(string_schema()->Object_0, "type"@);
    assert(string_schema()->Object_0[0].0 == "type"@);
}

} // verus!
