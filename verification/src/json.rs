//! JSON values. `serde_json` reads JSON text and quotes strings; everything
//! between is here.

use crate::canonical;
use crate::json_text;
use crate::text;
use vstd::prelude::*;
use vstd::string::*;

verus! {

/// A JSON value. A number is held as its JSON text; the members of an object
/// are in the order in which they are held.
#[derive(Debug, PartialEq, Eq)]
pub enum Json {
    Null,
    Bool(bool),
    Number(String),
    Text(String),
    Array(Vec<Json>),
    Object(Vec<(String, Json)>),
}

/// A JSON value with texts and lists as sequences.
pub enum JsonModel {
    Null,
    Bool(bool),
    Number(Seq<char>),
    Text(Seq<char>),
    Array(Seq<JsonModel>),
    Object(Seq<(Seq<char>, JsonModel)>),
}

impl Json {
    pub open spec fn model(&self) -> JsonModel
        decreases self,
    {
        match self {
            Json::Null => JsonModel::Null,
            Json::Bool(b) => JsonModel::Bool(*b),
            Json::Number(n) => JsonModel::Number(n@),
            Json::Text(s) => JsonModel::Text(s@),
            Json::Array(items) => JsonModel::Array(
                Seq::new(
                    items@.len(),
                    |i: int|
                        if 0 <= i < items@.len() {
                            items@[i].model()
                        } else {
                            JsonModel::Null
                        },
                ),
            ),
            Json::Object(members) => JsonModel::Object(
                Seq::new(
                    members@.len(),
                    |i: int|
                        if 0 <= i < members@.len() {
                            (members@[i].0@, members@[i].1.model())
                        } else {
                            (Seq::empty(), JsonModel::Null)
                        },
                ),
            ),
        }
    }
}

impl View for Json {
    type V = JsonModel;

    open spec fn view(&self) -> JsonModel {
        self.model()
    }
}

/// The values that a sequence of JSON values holds.
pub open spec fn models(items: Seq<Json>) -> Seq<JsonModel> {
    items.map_values(|j: Json| j@)
}

/// The members that a sequence of named JSON values holds.
pub open spec fn member_models(members: Seq<(String, Json)>) -> Seq<(Seq<char>, JsonModel)> {
    members.map_values(|m: (String, Json)| (m.0@, m.1@))
}

/// An array's value is the sequence of its items' values.
pub proof fn array_model(items: Vec<Json>)
    ensures
        Json::Array(items)@ == JsonModel::Array(models(items@)),
{
    let j = Json::Array(items);
    assert(j.model()->Array_0 =~= models(items@));
}

/// An object's value is the sequence of its members' values.
pub proof fn object_model(members: Vec<(String, Json)>)
    ensures
        Json::Object(members)@ == JsonModel::Object(member_models(members@)),
{
    let j = Json::Object(members);
    assert(j.model()->Object_0 =~= member_models(members@));
}

// ---------------------------------------------------------------------------
// What serde_json does.

/// A value as `serde_json` holds it.
#[verifier::external_type_specification]
#[verifier::external_body]
pub struct ExValue(serde_json::Value);

/// What a value of `serde_json` holds.
pub uninterp spec fn content_of(v: serde_json::Value) -> JsonModel;

/// The outermost level of a value of `serde_json`.
pub enum Node {
    Null,
    Bool(bool),
    Number(String),
    Text(String),
    Array(Vec<serde_json::Value>),
    Object(Vec<(String, serde_json::Value)>),
}

impl Node {
    /// What a value with this outermost level holds.
    pub open spec fn content(&self) -> JsonModel {
        match self {
            Node::Null => JsonModel::Null,
            Node::Bool(b) => JsonModel::Bool(*b),
            Node::Number(n) => JsonModel::Number(n@),
            Node::Text(s) => JsonModel::Text(s@),
            Node::Array(items) => JsonModel::Array(
                items@.map_values(|v: serde_json::Value| content_of(v)),
            ),
            Node::Object(members) => JsonModel::Object(
                members@.map_values(|m: (String, serde_json::Value)| (m.0@, content_of(m.1))),
            ),
        }
    }

    /// A number is made of the characters of numbers, and no two members have one key.
    pub open spec fn is_sound(&self) -> bool {
        match self {
            Node::Number(n) => json_text::is_number_text(n@),
            Node::Object(members) => forall|i: int, j: int|
                0 <= i < j < members@.len() ==> (#[trigger] members@[i]).0@ != (
                #[trigger] members@[j]).0@,
            _ => true,
        }
    }
}

/// Takes a `serde_json::Value` apart by its variant. A number becomes the text
/// that its `Display` gives, which is its JSON text: digits, signs, a point, an exponent.
/// The members of an object come in the order of its map, which has each key once.
#[verifier::external_body]
fn open_value(v: serde_json::Value) -> (r: Node)
    ensures
        r.content() == content_of(v),
        r.is_sound(),
{
    match v {
        serde_json::Value::Null => Node::Null,
        serde_json::Value::Bool(b) => Node::Bool(b),
        serde_json::Value::Number(n) => Node::Number(n.to_string()),
        serde_json::Value::String(s) => Node::Text(s),
        serde_json::Value::Array(a) => Node::Array(a),
        serde_json::Value::Object(m) => Node::Object(m.into_iter().collect()),
    }
}

/// What `serde_json` reads a whole text as; none where it is not one JSON value.
pub uninterp spec fn value_of_text(text: Seq<char>) -> Option<JsonModel>;

/// Whether a value can have been read: all numbers in it are made of the characters of
/// numbers, and no object in it has a key twice.
pub open spec fn is_readable(m: JsonModel) -> bool {
    json_text::has_plain_numbers(m) && canonical::all_distinct(m)
}

/// What JSON text denotes; none where it is not one JSON value. Whatever is read is
/// readable, so nothing is lost by saying so here.
pub open spec fn parsed(text: Seq<char>) -> Option<JsonModel> {
    match value_of_text(text) {
        Some(m) => if is_readable(m) {
            Some(m)
        } else {
            None
        },
        None => None,
    }
}

/// `serde_json::from_str` reads a whole text as one value, or refuses it.
#[verifier::external_body]
fn parse_value(text: &str) -> (r: Option<serde_json::Value>)
    ensures
        match r {
            Some(v) => value_of_text(text@) == Some(content_of(v)),
            None => value_of_text(text@) is None,
        },
{
    serde_json::from_str(text).ok()
}

/// The value that a text begins with and what stands behind it; none where it
/// begins with no JSON value.
pub uninterp spec fn parsed_front(text: Seq<char>) -> Option<(JsonModel, Seq<char>)>;

/// `serde_json::StreamDeserializer` reads the value at the front of a text and
/// tells how many bytes it took; a value takes at least one.
#[verifier::external_body]
fn parse_front(text: &str) -> (r: Option<(serde_json::Value, &str)>)
    ensures
        match r {
            Some((v, rest)) => {
                &&& parsed_front(text@) == Some((content_of(v), rest@))
                &&& rest@.len() < text@.len()
                &&& rest@ == text@.skip(text@.len() - rest@.len())
            },
            None => parsed_front(text@) is None,
        },
{
    let mut stream = serde_json::Deserializer::from_str(text).into_iter();
    let v = stream.next()?.ok()?;
    Some((v, &text[stream.byte_offset()..]))
}

/// A hexadecimal digit, the letters small.
pub open spec fn hex_digit(n: int) -> char {
    if n < 10 {
        (48 + n) as char
    } else {
        (87 + n) as char
    }
}

/// A character inside a JSON string: quotes, backslashes and control characters are
/// escaped, everything else stands for itself.
pub open spec fn escaped_char(c: char) -> Seq<char> {
    let n = c as u32 as int;
    if c == '"' {
        seq!['\\', '"']
    } else if c == '\\' {
        seq!['\\', '\\']
    } else if n == 8 {
        seq!['\\', 'b']
    } else if n == 9 {
        seq!['\\', 't']
    } else if n == 10 {
        seq!['\\', 'n']
    } else if n == 12 {
        seq!['\\', 'f']
    } else if n == 13 {
        seq!['\\', 'r']
    } else if n < 32 {
        seq!['\\', 'u', '0', '0', hex_digit(n / 16), hex_digit(n % 16)]
    } else {
        seq![c]
    }
}

/// The inside of a JSON string.
pub open spec fn escaped_text(s: Seq<char>) -> Seq<char>
    decreases s.len(),
{
    if s.len() == 0 {
        Seq::empty()
    } else {
        escaped_char(s[0]) + escaped_text(s.skip(1))
    }
}

/// A string as JSON text: quoted, with the escapes that JSON needs.
pub open spec fn quoted(s: Seq<char>) -> Seq<char> {
    seq!['"'] + escaped_text(s) + seq!['"']
}

/// `serde_json::to_string` of a string; it cannot fail. Quotes, backslashes and control
/// characters are escaped, the latter by a letter where JSON has one for them and else
/// by their number.
#[verifier::external_body]
pub(crate) fn quote(s: &str) -> (r: String)
    ensures
        r@ == quoted(s@),
{
    serde_json::to_string(s).unwrap_or_default()
}

// ---------------------------------------------------------------------------
// Reading.

/// The library's value for a value of `serde_json`.
fn json_of(v: serde_json::Value) -> (r: Json)
    ensures
        r@ == content_of(v),
        is_readable(r@),
    decreases content_of(v),
{
    let ghost whole = content_of(v);
    match open_value(v) {
        Node::Null => Json::Null,
        Node::Bool(b) => Json::Bool(b),
        Node::Number(n) => Json::Number(n),
        Node::Text(s) => Json::Text(s),
        Node::Array(items) => {
            let mut out: Vec<Json> = Vec::new();
            let ghost all = whole->Array_0;
            for item in it: items
                invariant
                    it.seq() == items@,
                    whole == JsonModel::Array(all),
                    all == items@.map_values(|v: serde_json::Value| content_of(v)),
                    models(out@) == all.take(it.index()),
                    forall|k: int| 0 <= k < it.index() ==> is_readable(#[trigger] all[k]),
                    whole == content_of(v),
            {
                let ghost before = models(out@);
                let ghost i = it.index();
                assert(all[i] == content_of(item));
                assert(decreases_to!(whole => whole->Array_0[i]));
                let j = json_of(item);
                out.push(j);
                assert(models(out@) =~= before.push(j@));
                assert(all.take(i + 1) =~= all.take(i).push(all[i]));
            }
            assert(all.take(all.len() as int) =~= all);
            proof {
                array_model(out);
            }
            Json::Array(out)
        },
        Node::Object(members) => {
            let mut out: Vec<(String, Json)> = Vec::new();
            let ghost all = whole->Object_0;
            for member in it: members
                invariant
                    it.seq() == members@,
                    whole == JsonModel::Object(all),
                    all == members@.map_values(
                        |m: (String, serde_json::Value)| (m.0@, content_of(m.1)),
                    ),
                    member_models(out@) == all.take(it.index()),
                    forall|k: int| 0 <= k < it.index() ==> is_readable((#[trigger] all[k]).1),
                    whole == content_of(v),
            {
                let ghost before = member_models(out@);
                let ghost i = it.index();
                assert(all[i] == (member.0@, content_of(member.1)));
                assert(decreases_to!(whole => whole->Object_0[i].1));
                let (key, value) = member;
                let j = json_of(value);
                out.push((key, j));
                assert(member_models(out@) =~= before.push((key@, j@)));
                assert(all.take(i + 1) =~= all.take(i).push(all[i]));
            }
            assert(all.take(all.len() as int) =~= all);
            proof {
                object_model(out);
            }
            assert(canonical::distinct_keys(all)) by {
                assert forall|i: int, j: int| 0 <= i < j < all.len() implies (
                #[trigger] all[i]).0 != (#[trigger] all[j]).0 by {
                    assert(members@[i].0@ != members@[j].0@);
                }
            }
            Json::Object(out)
        },
    }
}

/// Reads a whole text as one JSON value.
pub fn parse(text: &str) -> (r: Option<Json>)
    ensures
        match r {
            Some(j) => parsed(text@) == Some(j@),
            None => parsed(text@) is None,
        },
{
    match parse_value(text) {
        Some(v) => Some(json_of(v)),
        None => None,
    }
}

/// JSON whitespace.
pub open spec fn is_json_space(c: char) -> bool {
    c == ' ' || c == '\n' || c == '\t' || c == '\r'
}

/// `s` without the JSON whitespace at its front.
pub open spec fn skip_space(s: Seq<char>) -> Seq<char>
    decreases s.len(),
{
    if s.len() > 0 && is_json_space(s[0]) {
        skip_space(s.skip(1))
    } else {
        s
    }
}

proof fn skip_space_shrinks(s: Seq<char>)
    ensures
        skip_space(s).len() <= s.len(),
    decreases s.len(),
{
    if s.len() > 0 && is_json_space(s[0]) {
        skip_space_shrinks(s.skip(1));
    }
}

/// A member of an object as it stands in its text: its key, its value and the text of
/// the value.
pub struct MemberModel {
    pub key: Seq<char>,
    pub value: JsonModel,
    pub source: Seq<char>,
}

/// The member that a text begins with, whitespace skipped: a quoted key, a
/// colon and a value; and what stands behind it.
pub open spec fn front_member(s: Seq<char>) -> Option<(MemberModel, Seq<char>)> {
    let at = skip_space(s);
    if at.len() == 0 || at[0] != '"' {
        None
    } else {
        match parsed_front(at) {
            Some((JsonModel::Text(key), behind)) => {
                let colon = skip_space(behind);
                if colon.len() == 0 || colon[0] != ':' {
                    None
                } else {
                    let given = colon.skip(1);
                    match parsed_front(given) {
                        Some((value, rest)) => Some(
                            (
                                MemberModel { key, value, source: given.take(given.len() - rest.len()) },
                                rest,
                            ),
                        ),
                        None => None,
                    }
                }
            },
            _ => None,
        }
    }
}

/// Whether nothing but JSON whitespace is left.
pub open spec fn ends_text(s: Seq<char>) -> bool {
    skip_space(s).len() == 0
}

/// The members that a text is made of, `fuel` of them at most, up to the brace
/// that closes their object and the text.
pub open spec fn front_members(s: Seq<char>, fuel: nat) -> Option<Seq<MemberModel>>
    decreases fuel,
{
    if fuel == 0 {
        None
    } else {
        match front_member(s) {
            None => None,
            Some((member, rest)) => {
                let next = skip_space(rest);
                if next.len() > 0 && next[0] == '}' {
                    if ends_text(next.skip(1)) {
                        Some(seq![member])
                    } else {
                        None
                    }
                } else if next.len() > 0 && next[0] == ',' {
                    match front_members(next.skip(1), (fuel - 1) as nat) {
                        Some(more) => Some(seq![member] + more),
                        None => None,
                    }
                } else {
                    None
                }
            },
        }
    }
}

/// The members of the object that a text is, in the order of the text; none where
/// it is no object or, nested too deep, not read as a whole.
pub open spec fn ordered_members(s: Seq<char>) -> Option<Seq<MemberModel>> {
    let open = skip_space(s);
    if parsed(s) is None || open.len() == 0 || open[0] != '{' {
        None
    } else {
        let inside = skip_space(open.skip(1));
        if inside.len() > 0 && inside[0] == '}' {
            if ends_text(inside.skip(1)) {
                Some(Seq::empty())
            } else {
                None
            }
        } else {
            front_members(inside, inside.len())
        }
    }
}

/// The keys and values of the object that a text is, in the order of the text; none
/// where it is no object.
pub open spec fn ordered_pairs(s: Seq<char>) -> Option<Seq<(Seq<char>, JsonModel)>> {
    match ordered_members(s) {
        Some(members) => Some(members.map_values(|m: MemberModel| (m.key, m.value))),
        None => None,
    }
}

/// The text of the value of the last of the first `n` members that is named `key`.
pub open spec fn last_source(members: Seq<MemberModel>, key: Seq<char>, n: int) -> Option<
    Seq<char>,
>
    decreases n,
{
    if n <= 0 {
        None
    } else if members[n - 1].key == key {
        Some(members[n - 1].source)
    } else {
        last_source(members, key, n - 1)
    }
}

/// The text of the member `key` of the object that a text is. Where the key comes more
/// than once, the last one counts.
pub open spec fn member_source(s: Seq<char>, key: Seq<char>) -> Option<Seq<char>> {
    match ordered_members(s) {
        Some(members) => last_source(members, key, members.len() as int),
        None => None,
    }
}

/// `cs` from `from` on without the JSON whitespace at its front, as an index.
fn past_space(cs: &[char], from: usize) -> (r: usize)
    requires
        from <= cs@.len(),
    ensures
        from <= r <= cs@.len(),
        skip_space(cs@.skip(from as int)) == cs@.skip(r as int),
        r < cs@.len() ==> !is_json_space(cs@[r as int]),
{
    let mut i: usize = from;
    while i < cs.len() && (cs[i] == ' ' || cs[i] == '\n' || cs[i] == '\t' || cs[i] == '\r')
        invariant
            from <= i <= cs@.len(),
            skip_space(cs@.skip(from as int)) == skip_space(cs@.skip(i as int)),
        decreases cs@.len() - i,
    {
        assert(cs@.skip(i as int)[0] == cs@[i as int]);
        assert(cs@.skip(i as int).skip(1) =~= cs@.skip(i + 1));
        i += 1;
    }
    assert(i < cs@.len() ==> cs@.skip(i as int)[0] == cs@[i as int]);
    i
}

/// The value at `from` of `cs`, and where the text goes on behind it.
fn value_at(cs: &[char], from: usize) -> (r: Option<(Json, usize)>)
    requires
        from <= cs@.len(),
    ensures
        match r {
            Some((j, next)) => from < next <= cs@.len() && parsed_front(cs@.skip(from as int))
                == Some((j@, cs@.skip(next as int))),
            None => parsed_front(cs@.skip(from as int)) is None,
        },
{
    let here = text::substring_of(cs, from, cs.len());
    assert(here@ =~= cs@.skip(from as int));
    match parse_front(here.as_str()) {
        None => None,
        Some((v, rest)) => {
            let left: usize = text::chars_of(rest).len();
            let next: usize = cs.len() - left;
            assert(rest@ =~= cs@.skip(next as int));
            Some((json_of(v), next))
        },
    }
}

/// A member of an object as it stands in its text.
#[derive(Debug)]
pub struct SourcedMember {
    pub key: String,
    pub value: Json,
    pub source: String,
}

impl View for SourcedMember {
    type V = MemberModel;

    open spec fn view(&self) -> MemberModel {
        MemberModel { key: self.key@, value: self.value@, source: self.source@ }
    }
}

pub open spec fn sourced_models(v: Seq<SourcedMember>) -> Seq<MemberModel> {
    v.map_values(|m: SourcedMember| m@)
}

/// The member at `from` of `cs`, and where the text goes on behind it.
fn member_at(cs: &[char], from: usize) -> (r: Option<(SourcedMember, usize)>)
    requires
        from <= cs@.len(),
    ensures
        match r {
            Some((member, next)) => from < next <= cs@.len() && front_member(cs@.skip(from as int))
                == Some((member@, cs@.skip(next as int))),
            None => front_member(cs@.skip(from as int)) is None,
        },
{
    let at = past_space(cs, from);
    assert(at < cs@.len() ==> cs@.skip(at as int)[0] == cs@[at as int]);
    if at == cs.len() || cs[at] != '"' {
        return None;
    }
    match value_at(cs, at) {
        Some((Json::Text(key), behind)) => {
            let colon = past_space(cs, behind);
            assert(colon < cs@.len() ==> cs@.skip(colon as int)[0] == cs@[colon as int]);
            if colon == cs.len() || cs[colon] != ':' {
                return None;
            }
            let ghost given = cs@.skip(colon + 1);
            assert(cs@.skip(colon as int).skip(1) =~= given);
            match value_at(cs, colon + 1) {
                Some((value, next)) => {
                    let source = text::substring_of(cs, colon + 1, next);
                    assert(source@ =~= given.take(given.len() - cs@.skip(next as int).len()));
                    Some((SourcedMember { key, value, source }, next))
                },
                None => None,
            }
        },
        _ => None,
    }
}

/// The members of the object that a JSON text is, in the order of the text. None
/// where it is no object.
pub fn sourced_members(json_str: &str) -> (r: Option<Vec<SourcedMember>>)
    ensures
        match r {
            Some(v) => ordered_members(json_str@) == Some(sourced_models(v@)),
            None => ordered_members(json_str@) is None,
        },
{
    if parse(json_str).is_none() {
        return None;
    }
    let chars = text::chars_of(json_str);
    let cs = chars.as_slice();
    assert(cs@.skip(0) =~= cs@);
    let open = past_space(cs, 0);
    assert(open < cs@.len() ==> cs@.skip(open as int)[0] == cs@[open as int]);
    if open == cs.len() || cs[open] != '{' {
        return None;
    }
    assert(cs@.skip(open as int).skip(1) =~= cs@.skip(open + 1));
    let inside = past_space(cs, open + 1);
    assert(inside < cs@.len() ==> cs@.skip(inside as int)[0] == cs@[inside as int]);
    let mut out: Vec<SourcedMember> = Vec::new();
    assert(sourced_models(out@) =~= Seq::empty());
    if inside < cs.len() && cs[inside] == '}' {
        assert(cs@.skip(inside as int).skip(1) =~= cs@.skip(inside + 1));
        return if past_space(cs, inside + 1) == cs.len() {
            Some(out)
        } else {
            None
        };
    }
    let ghost goal = front_members(cs@.skip(inside as int), (cs@.len() - inside) as nat);
    let ghost mut fuel: nat = (cs@.len() - inside) as nat;
    let mut from: usize = inside;
    proof {
        let rest = front_members(cs@.skip(from as int), fuel);
        if rest is Some {
            assert(Seq::empty() + rest.unwrap() =~= rest.unwrap());
        }
    }
    loop
        invariant
            from <= cs@.len() == cs.len(),
            fuel >= cs@.len() - from,
            goal == match front_members(cs@.skip(from as int), fuel) {
                Some(more) => Some(sourced_models(out@) + more),
                None => None,
            },
            goal == ordered_members(json_str@),
        decreases cs@.len() - from,
    {
        let (member, behind) = match member_at(cs, from) {
            Some(m) => m,
            None => {
                return None;
            },
        };
        let ghost before = sourced_models(out@);
        let ghost one = member@;
        out.push(member);
        assert(sourced_models(out@) =~= before.push(one));
        assert(before + seq![one] =~= before.push(one));
        let next = past_space(cs, behind);
        assert(next < cs@.len() ==> cs@.skip(next as int)[0] == cs@[next as int]);
        if next < cs.len() && cs[next] == '}' {
            assert(cs@.skip(next as int).skip(1) =~= cs@.skip(next + 1));
            return if past_space(cs, next + 1) == cs.len() {
                Some(out)
            } else {
                None
            };
        }
        if next == cs.len() || cs[next] != ',' {
            return None;
        }
        assert(cs@.skip(next as int).skip(1) =~= cs@.skip(next + 1));
        from = next + 1;
        proof {
            fuel = (fuel - 1) as nat;
            match front_members(cs@.skip(from as int), fuel) {
                Some(more) => {
                    assert(before + (seq![one] + more) =~= sourced_models(out@) + more);
                },
                None => {},
            }
        }
    }
}

/// The keys and values of the object that a JSON text is, in the order of the text.
/// None where it is no object.
pub fn ordered_object_pairs(json_str: &str) -> (r: Option<Vec<(String, Json)>>)
    ensures
        match r {
            Some(v) => ordered_pairs(json_str@) == Some(member_models(v@)),
            None => ordered_pairs(json_str@) is None,
        },
{
    let members = match sourced_members(json_str) {
        Some(v) => v,
        None => {
            return None;
        },
    };
    let ghost all = sourced_models(members@).map_values(|m: MemberModel| (m.key, m.value));
    let mut out: Vec<(String, Json)> = Vec::new();
    let mut i: usize = 0;
    assert(member_models(out@) =~= all.take(0));
    while i < members.len()
        invariant
            i <= members@.len(),
            all == sourced_models(members@).map_values(|m: MemberModel| (m.key, m.value)),
            member_models(out@) == all.take(i as int),
        decreases members@.len() - i,
    {
        let ghost before = member_models(out@);
        let key = members[i].key.clone();
        let value = members[i].value.clone();
        let ghost one = (key@, value@);
        out.push((key, value));
        assert(member_models(out@) =~= before.push(one));
        assert(all.take(i + 1) =~= all.take(i as int).push(all[i as int]));
        i += 1;
    }
    assert(all.take(all.len() as int) =~= all);
    Some(out)
}

/// The text of the member `key` of the object that a JSON text is; the last one where
/// there is more than one.
pub fn source_of_member(json_str: &str, key: &str) -> (r: Option<String>)
    ensures
        text::optional(r) == member_source(json_str@, key@),
{
    let members = match sourced_members(json_str) {
        Some(v) => v,
        None => {
            return None;
        },
    };
    let ghost all = sourced_models(members@);
    let mut n: usize = members.len();
    while n > 0
        invariant
            n <= members@.len(),
            all == sourced_models(members@),
            last_source(all, key@, all.len() as int) == last_source(all, key@, n as int),
            member_source(json_str@, key@) == last_source(all, key@, all.len() as int),
        decreases n,
    {
        assert(all[n - 1] == members@[n - 1]@);
        if text::same_text(members[n - 1].key.as_str(), key) {
            return Some(members[n - 1].source.clone());
        }
        n -= 1;
    }
    None
}

// ---------------------------------------------------------------------------
// Looking inside.

/// The value of the first member named `key`.
pub open spec fn lookup(members: Seq<(Seq<char>, JsonModel)>, key: Seq<char>) -> Option<JsonModel>
    decreases members.len(),
{
    if members.len() == 0 {
        None
    } else if members[0].0 == key {
        Some(members[0].1)
    } else {
        lookup(members.skip(1), key)
    }
}

impl JsonModel {
    /// The member `key` of an object; none of anything else.
    pub open spec fn at(self, key: Seq<char>) -> Option<JsonModel> {
        match self {
            JsonModel::Object(members) => lookup(members, key),
            _ => None,
        }
    }

    /// The text of a string; none of anything else.
    pub open spec fn text(self) -> Option<Seq<char>> {
        match self {
            JsonModel::Text(s) => Some(s),
            _ => None,
        }
    }

    /// The text of the member `key`.
    pub open spec fn text_at(self, key: Seq<char>) -> Option<Seq<char>> {
        match self.at(key) {
            Some(j) => j.text(),
            None => None,
        }
    }

    /// The value of a number that is a whole one from 0 on; none of anything
    /// else.
    pub open spec fn whole(self) -> Option<nat> {
        match self {
            JsonModel::Number(s) => if s.len() > 0 && text::all_digits(s) {
                text::parse_unsigned(s, u64::MAX as nat)
            } else {
                None
            },
            _ => None,
        }
    }

    /// The value of a number that is a whole one of 64 bits with a sign; none of
    /// anything else.
    pub open spec fn signed(self) -> Option<int> {
        match self {
            JsonModel::Number(s) => if s.len() > 0 && s[0] == '+' {
                None
            } else {
                text::parse_signed(s, i64::MIN as int, i64::MAX as int)
            },
            _ => None,
        }
    }

    /// The value of the signed number at the member `key`.
    pub open spec fn signed_at(self, key: Seq<char>) -> Option<int> {
        match self.at(key) {
            Some(j) => j.signed(),
            None => None,
        }
    }

    /// The value of a truth value; none of anything else.
    pub open spec fn flag(self) -> Option<bool> {
        match self {
            JsonModel::Bool(b) => Some(b),
            _ => None,
        }
    }

    /// The truth value at the member `key`.
    pub open spec fn flag_at(self, key: Seq<char>) -> Option<bool> {
        match self.at(key) {
            Some(j) => j.flag(),
            None => None,
        }
    }

    /// The items of an array; none of anything else.
    pub open spec fn items(self) -> Option<Seq<JsonModel>> {
        match self {
            JsonModel::Array(items) => Some(items),
            _ => None,
        }
    }

    /// The items of the array at the member `key`.
    pub open spec fn items_at(self, key: Seq<char>) -> Option<Seq<JsonModel>> {
        match self.at(key) {
            Some(j) => j.items(),
            None => None,
        }
    }

    /// The member `key`, where it is there and not null.
    pub open spec fn present_at(self, key: Seq<char>) -> Option<JsonModel> {
        match self.at(key) {
            Some(JsonModel::Null) => None,
            other => other,
        }
    }

    /// An object with the member `key` set to `value`: in its place where it is
    /// there, else at the end. Anything else is left as it is.
    pub open spec fn with(self, key: Seq<char>, value: JsonModel) -> JsonModel {
        match self {
            JsonModel::Object(members) => JsonModel::Object(set_member(members, key, value)),
            other => other,
        }
    }
}

/// `members` with `key` set to `value`.
pub open spec fn set_member(
    members: Seq<(Seq<char>, JsonModel)>,
    key: Seq<char>,
    value: JsonModel,
) -> Seq<(Seq<char>, JsonModel)> {
    match place_of(members, key, 0) {
        Some(i) => members.update(i, (key, value)),
        None => members.push((key, value)),
    }
}

/// The place of the first member named `key`, from `from` on.
pub open spec fn place_of(members: Seq<(Seq<char>, JsonModel)>, key: Seq<char>, from: int) -> Option<int>
    decreases members.len() - from,
{
    if from >= members.len() {
        None
    } else if members[from].0 == key {
        Some(from)
    } else {
        place_of(members, key, from + 1)
    }
}

proof fn place_of_is_lookup(members: Seq<(Seq<char>, JsonModel)>, key: Seq<char>, from: int)
    requires
        0 <= from <= members.len(),
    ensures
        match place_of(members, key, from) {
            Some(i) => {
                &&& from <= i < members.len()
                &&& members[i].0 == key
                &&& lookup(members.skip(from), key) == Some(members[i].1)
                &&& forall|k: int| from <= k < i ==> (#[trigger] members[k]).0 != key
            },
            None => {
                &&& lookup(members.skip(from), key) is None
                &&& forall|k: int| from <= k < members.len() ==> (#[trigger] members[k]).0 != key
            },
        },
    decreases members.len() - from,
{
    if from < members.len() {
        assert(members.skip(from)[0] == members[from]);
        assert(members.skip(from).skip(1) =~= members.skip(from + 1));
        if members[from].0 != key {
            place_of_is_lookup(members, key, from + 1);
        }
    }
}

proof fn same_keys_same_place(
    a: Seq<(Seq<char>, JsonModel)>,
    b: Seq<(Seq<char>, JsonModel)>,
    key: Seq<char>,
    from: int,
)
    requires
        a.len() <= b.len(),
        0 <= from <= a.len(),
        forall|k: int| 0 <= k < a.len() ==> (#[trigger] a[k]).0 == b[k].0,
        forall|k: int| a.len() <= k < b.len() ==> (#[trigger] b[k]).0 != key,
    ensures
        place_of(a, key, from) == place_of(b, key, from),
    decreases a.len() - from,
{
    if from < a.len() {
        assert(a[from].0 == b[from].0);
        if a[from].0 != key {
            same_keys_same_place(a, b, key, from + 1);
        }
    } else {
        place_of_is_lookup(b, key, from);
    }
}

fn place_in(members: &Vec<(String, Json)>, key: &str) -> (r: Option<usize>)
    ensures
        match r {
            Some(i) => place_of(member_models(members@), key@, 0) == Some(i as int) && i
                < members@.len(),
            None => place_of(member_models(members@), key@, 0) is None,
        },
{
    let ghost all = member_models(members@);
    let mut i: usize = 0;
    while i < members.len()
        invariant
            i <= members@.len(),
            all == member_models(members@),
            place_of(all, key@, 0) == place_of(all, key@, i as int),
        decreases members@.len() - i,
    {
        if text::same_text(members[i].0.as_str(), key) {
            return Some(i);
        }
        i += 1;
    }
    None
}

/// Setting a member gives that member the value and leaves the others alone.
pub proof fn with_sets_one_member(object: JsonModel, key: Seq<char>, value: JsonModel, other: Seq<char>)
    requires
        object is Object,
    ensures
        object.with(key, value).at(key) == Some(value),
        other != key ==> object.with(key, value).at(other) == object.at(other),
{
    let members = object->Object_0;
    let changed = set_member(members, key, value);
    assert(members.skip(0) =~= members);
    assert(changed.skip(0) =~= changed);
    place_of_is_lookup(members, key, 0);
    place_of_is_lookup(changed, key, 0);
    match place_of(members, key, 0) {
        Some(i) => {
            assert(changed[i].0 == key);
        },
        None => {
            assert(changed[members.len() as int].0 == key);
        },
    }
    if other != key {
        place_of_is_lookup(members, other, 0);
        place_of_is_lookup(changed, other, 0);
        same_keys_same_place(members, changed, other, 0);
    }
}

/// A member with a key that is not there yet comes last; one whose key is there takes the
/// place of the first that has it, and all others stay.
pub proof fn new_keys_come_last(members: Seq<(Seq<char>, JsonModel)>, key: Seq<char>, value: JsonModel)
    ensures
        (forall|k: int| 0 <= k < members.len() ==> (#[trigger] members[k]).0 != key) ==> set_member(
            members,
            key,
            value,
        ) == members.push((key, value)),
        forall|i: int|
            0 <= i < members.len() && (#[trigger] members[i]).0 == key && (forall|k: int|
                0 <= k < i ==> (#[trigger] members[k]).0 != key) ==> set_member(members, key, value)
                == members.update(i, (key, value)),
{
    place_of_is_lookup(members, key, 0);
}

/// What an object has under a key is what its first member of that name holds.
pub proof fn members_are_found(members: Seq<(Seq<char>, JsonModel)>, key: Seq<char>)
    ensures
        match JsonModel::Object(members).at(key) {
            Some(v) => exists|i: int|
                0 <= i < members.len() && #[trigger] members[i] == (key, v) && forall|k: int|
                    0 <= k < i ==> (#[trigger] members[k]).0 != key,
            None => forall|k: int| 0 <= k < members.len() ==> (#[trigger] members[k]).0 != key,
        },
{
    place_of_is_lookup(members, key, 0);
    assert(members.skip(0) =~= members);
    match place_of(members, key, 0) {
        Some(i) => {
            assert(members[i] == (key, members[i].1));
        },
        None => {},
    }
}

impl Json {
    /// An object without members.
    pub fn object() -> (r: Json)
        ensures
            r@ == JsonModel::Object(Seq::empty()),
    {
        let members: Vec<(String, Json)> = Vec::new();
        proof {
            object_model(members);
            assert(member_models(members@) =~= Seq::empty());
        }
        Json::Object(members)
    }

    /// The object with the member `key` set to `value`.
    pub fn with(self, key: &str, value: Json) -> (r: Json)
        ensures
            r@ == self@.with(key@, value@),
    {
        match self {
            Json::Object(members) => {
                let mut members = members;
                let ghost all = member_models(members@);
                let ghost v = value@;
                proof {
                    object_model(members);
                }
                match place_in(&members, key) {
                    Some(i) => {
                        members.set(i, (key.to_string(), value));
                        proof {
                            assert(member_models(members@) =~= all.update(i as int, (key@, v)));
                            object_model(members);
                        }
                    },
                    None => {
                        members.push((key.to_string(), value));
                        proof {
                            assert(member_models(members@) =~= all.push((key@, v)));
                            object_model(members);
                        }
                    },
                }
                Json::Object(members)
            },
            other => other,
        }
    }

    /// The value of a whole number of 64 bits with a sign.
    pub fn as_i64(&self) -> (r: Option<i64>)
        ensures
            match r {
                Some(n) => self@.signed() == Some(n as int),
                None => self@.signed() is None,
            },
    {
        match self {
            Json::Number(s) => {
                let cs = text::chars_of(s.as_str());
                if cs.len() > 0 && cs[0] == '+' {
                    return None;
                }
                text::read_i64(cs.as_slice())
            },
            _ => None,
        }
    }

    /// The signed number at the member `key`.
    pub fn i64_at(&self, key: &str) -> (r: Option<i64>)
        ensures
            match r {
                Some(n) => self@.signed_at(key@) == Some(n as int),
                None => self@.signed_at(key@) is None,
            },
    {
        match self.get(key) {
            Some(j) => j.as_i64(),
            None => None,
        }
    }

    /// The truth value at the member `key`.
    pub fn bool_at(&self, key: &str) -> (r: Option<bool>)
        ensures
            r == self@.flag_at(key@),
    {
        match self.get(key) {
            Some(Json::Bool(b)) => Some(*b),
            _ => None,
        }
    }

    /// The items of the array at the member `key`.
    pub fn array_at(&self, key: &str) -> (r: Option<&Vec<Json>>)
        ensures
            match r {
                Some(v) => self@.items_at(key@) == Some(models(v@)),
                None => self@.items_at(key@) is None,
            },
    {
        match self.get(key) {
            Some(j) => j.as_array(),
            None => None,
        }
    }

    /// The member `key`, where it is there and not null.
    pub fn get_present(&self, key: &str) -> (r: Option<&Json>)
        ensures
            match r {
                Some(j) => self@.present_at(key@) == Some(j@),
                None => self@.present_at(key@) is None,
            },
    {
        match self.get(key) {
            Some(Json::Null) => None,
            other => other,
        }
    }

    /// The member `key` of an object.
    pub fn get(&self, key: &str) -> (r: Option<&Json>)
        ensures
            match r {
                Some(j) => self@.at(key@) == Some(j@),
                None => self@.at(key@) is None,
            },
    {
        match self {
            Json::Object(members) => {
                let mut i: usize = 0;
                let ghost all = member_models(members@);
                proof {
                    object_model(*members);
                }
                assert(all.skip(0) =~= all);
                while i < members.len()
                    invariant
                        i <= members@.len(),
                        all == member_models(members@),
                        self@ == JsonModel::Object(all),
                        lookup(all, key@) == lookup(all.skip(i as int), key@),
                    decreases members@.len() - i,
                {
                    assert(all.skip(i as int)[0] == all[i as int]);
                    assert(all.skip(i as int).skip(1) =~= all.skip(i + 1));
                    if text::same_text(members[i].0.as_str(), key) {
                        return Some(&members[i].1);
                    }
                    i += 1;
                }
                None
            },
            _ => None,
        }
    }

    /// The text of a string.
    pub fn as_str(&self) -> (r: Option<&str>)
        ensures
            match r {
                Some(s) => self@.text() == Some(s@),
                None => self@.text() is None,
            },
    {
        match self {
            Json::Text(s) => Some(s.as_str()),
            _ => None,
        }
    }

    /// The text of the member `key`.
    pub fn str_at(&self, key: &str) -> (r: Option<&str>)
        ensures
            match r {
                Some(s) => self@.text_at(key@) == Some(s@),
                None => self@.text_at(key@) is None,
            },
    {
        match self.get(key) {
            Some(j) => j.as_str(),
            None => None,
        }
    }

    /// The items of an array.
    pub fn as_array(&self) -> (r: Option<&Vec<Json>>)
        ensures
            match r {
                Some(v) => self@ == JsonModel::Array(models(v@)),
                None => !(self@ is Array),
            },
    {
        match self {
            Json::Array(items) => {
                proof {
                    array_model(*items);
                }
                Some(items)
            },
            _ => None,
        }
    }

    /// The members of an object.
    pub fn as_object(&self) -> (r: Option<&Vec<(String, Json)>>)
        ensures
            match r {
                Some(v) => self@ == JsonModel::Object(member_models(v@)),
                None => !(self@ is Object),
            },
    {
        match self {
            Json::Object(members) => {
                proof {
                    object_model(*members);
                }
                Some(members)
            },
            _ => None,
        }
    }

    /// The value of a number that is a whole one from 0 on.
    pub fn as_u64(&self) -> (r: Option<u64>)
        ensures
            match r {
                Some(n) => self@.whole() == Some(n as nat),
                None => self@.whole() is None,
            },
    {
        match self {
            Json::Number(s) => {
                let cs = text::chars_of(s.as_str());
                let mut i: usize = 0;
                while i < cs.len()
                    invariant
                        i <= cs@.len(),
                        cs@ == s@,
                        self@ == JsonModel::Number(s@),
                        forall|k: int| 0 <= k < i ==> text::is_digit(#[trigger] cs@[k]),
                    decreases cs@.len() - i,
                {
                    let c = cs[i];
                    if !('0' <= c && c <= '9') {
                        return None;
                    }
                    i += 1;
                }
                if cs.len() == 0 {
                    return None;
                }
                text::read_unsigned(cs.as_slice(), u64::MAX)
            },
            _ => None,
        }
    }

    /// A number from 0 on.
    pub fn number(n: u64) -> (r: Json)
        ensures
            r@ == JsonModel::Number(text::decimal(n as nat)),
    {
        Json::Number(text::decimal_string(n as u128))
    }

    /// A string.
    pub fn text(s: &str) -> (r: Json)
        ensures
            r@ == JsonModel::Text(s@),
    {
        Json::Text(s.to_string())
    }
}

impl Clone for Json {
    fn clone(&self) -> (r: Self)
        ensures
            r@ == self@,
        decreases self,
    {
        match self {
            Json::Null => Json::Null,
            Json::Bool(b) => Json::Bool(*b),
            Json::Number(n) => Json::Number(n.clone()),
            Json::Text(s) => Json::Text(s.clone()),
            Json::Array(items) => {
                let mut out: Vec<Json> = Vec::new();
                let ghost all = models(items@);
                let mut i: usize = 0;
                while i < items.len()
                    invariant
                        i <= items@.len(),
                        self == Json::Array(*items),
                        all == models(items@),
                        models(out@) == all.take(i as int),
                    decreases items@.len() - i,
                {
                    let ghost before = models(out@);
                    assert(decreases_to!(*self => (*self)->Array_0@[i as int]));
                    let j = items[i].clone();
                    out.push(j);
                    assert(models(out@) =~= before.push(j@));
                    assert(all.take(i + 1) =~= all.take(i as int).push(all[i as int]));
                    i += 1;
                }
                assert(all.take(all.len() as int) =~= all);
                proof {
                    array_model(out);
                    array_model(*items);
                }
                Json::Array(out)
            },
            Json::Object(members) => {
                let mut out: Vec<(String, Json)> = Vec::new();
                let ghost all = member_models(members@);
                let mut i: usize = 0;
                while i < members.len()
                    invariant
                        i <= members@.len(),
                        self == Json::Object(*members),
                        all == member_models(members@),
                        member_models(out@) == all.take(i as int),
                    decreases members@.len() - i,
                {
                    let ghost before = member_models(out@);
                    let key = members[i].0.clone();
                    assert(decreases_to!(*self => (*self)->Object_0@[i as int].1));
                    let j = members[i].1.clone();
                    out.push((key, j));
                    assert(member_models(out@) =~= before.push((key@, j@)));
                    assert(all.take(i + 1) =~= all.take(i as int).push(all[i as int]));
                    i += 1;
                }
                assert(all.take(all.len() as int) =~= all);
                proof {
                    object_model(out);
                    object_model(*members);
                }
                Json::Object(out)
            },
        }
    }
}

// ---------------------------------------------------------------------------
// Writing.

/// A value as compact JSON text, its members in the order in which they are
/// held.
pub open spec fn text_of(m: JsonModel) -> Seq<char>
    decreases m, 0nat,
{
    match m {
        JsonModel::Null => "null"@,
        JsonModel::Bool(b) => if b {
            "true"@
        } else {
            "false"@
        },
        JsonModel::Number(n) => n,
        JsonModel::Text(s) => quoted(s),
        JsonModel::Array(items) => seq!['['] + items_text(items, items.len()) + seq![']'],
        JsonModel::Object(members) => seq!['{'] + members_text(members, members.len()) + seq!['}'],
    }
}

/// The first `n` items with commas between them.
pub open spec fn items_text(items: Seq<JsonModel>, n: nat) -> Seq<char>
    decreases items, n,
{
    if n == 0 || n > items.len() {
        Seq::empty()
    } else if n == 1 {
        text_of(items[0])
    } else {
        items_text(items, (n - 1) as nat) + seq![','] + text_of(items[n - 1])
    }
}

/// The first `n` members with commas between them.
pub open spec fn members_text(members: Seq<(Seq<char>, JsonModel)>, n: nat) -> Seq<char>
    decreases members, n,
{
    if n == 0 || n > members.len() {
        Seq::empty()
    } else if n == 1 {
        quoted(members[0].0) + seq![':'] + text_of(members[0].1)
    } else {
        members_text(members, (n - 1) as nat) + seq![','] + quoted(members[n - 1].0) + seq![':']
            + text_of(members[n - 1].1)
    }
}

impl Json {
    /// The value as compact JSON text.
    pub fn to_text(&self) -> (r: String)
        ensures
            r@ == text_of(self@),
        decreases self,
    {
        match self {
            Json::Null => "null".to_string(),
            Json::Bool(b) => if *b {
                "true".to_string()
            } else {
                "false".to_string()
            },
            Json::Number(n) => n.clone(),
            Json::Text(s) => quote(s.as_str()),
            Json::Array(items) => {
                let mut out = String::new();
                let ghost all = models(items@);
                let mut i: usize = 0;
                while i < items.len()
                    invariant
                        i <= items@.len(),
                        self == Json::Array(*items),
                        all == models(items@),
                        out@ == items_text(all, i as nat),
                    decreases items@.len() - i,
                {
                    if i > 0 {
                        out.push(',');
                    }
                    assert(decreases_to!(*self => (*self)->Array_0@[i as int]));
                    out.append(items[i].to_text().as_str());
                    assert(all[i as int] == items@[i as int]@);
                    i += 1;
                    assert(out@ =~= items_text(all, i as nat));
                }
                proof {
                    array_model(*items);
                }
                let mut r = String::new();
                r.push('[');
                r.append(out.as_str());
                r.push(']');
                assert(r@ =~= text_of(self@));
                r
            },
            Json::Object(members) => {
                let mut out = String::new();
                let ghost all = member_models(members@);
                let mut i: usize = 0;
                while i < members.len()
                    invariant
                        i <= members@.len(),
                        self == Json::Object(*members),
                        all == member_models(members@),
                        out@ == members_text(all, i as nat),
                    decreases members@.len() - i,
                {
                    if i > 0 {
                        out.push(',');
                    }
                    out.append(quote(members[i].0.as_str()).as_str());
                    out.push(':');
                    assert(decreases_to!(*self => (*self)->Object_0@[i as int].1));
                    out.append(members[i].1.to_text().as_str());
                    assert(all[i as int] == (members@[i as int].0@, members@[i as int].1@));
                    i += 1;
                    assert(out@ =~= members_text(all, i as nat));
                }
                proof {
                    object_model(*members);
                }
                let mut r = String::new();
                r.push('{');
                r.append(out.as_str());
                r.push('}');
                assert(r@ =~= text_of(self@));
                r
            },
        }
    }
}

/// Setting a member of an object changes what it has under that key, and under no other.
pub proof fn only_one_member_is_set(object: JsonModel, key: Seq<char>, value: JsonModel)
    requires
        object is Object,
    ensures
        object.with(key, value) is Object,
        object.with(key, value).at(key) == Some(value),
        forall|other: Seq<char>|
            other != key ==> #[trigger] object.with(key, value).at(other) == object.at(other),
{
    with_sets_one_member(object, key, value, key);
    assert forall|other: Seq<char>| other != key implies #[trigger] object.with(key, value).at(
        other,
    ) == object.at(other) by {
        with_sets_one_member(object, key, value, other);
    }
}

/// A number is read back from its numeral where it has at most 64 bits, with a sign where it
/// may have one; nothing but a number is read as one.
pub proof fn whole_numbers_are_read_back(n: nat, m: int, other: JsonModel)
    ensures
        JsonModel::Number(text::decimal(n)).whole() == if n <= u64::MAX {
            Some(n)
        } else {
            None
        },
        JsonModel::Number(text::signed_decimal(m)).signed() == if i64::MIN <= m <= i64::MAX {
            Some(m)
        } else {
            None
        },
        !(other is Number) ==> other.whole() is None && other.signed() is None,
{
    let none = Seq::<char>::empty();
    text::numerals_are_not_trimmed(n, none, none);
    text::decimal_is_read_back(n);
    text::numbers_are_read_back(n, u64::MAX as nat, none);
    assert(none + text::decimal(n) =~= text::decimal(n));
    if m < 0 {
        let d = text::decimal((-m) as nat);
        text::decimal_is_read_back((-m) as nat);
        let s = seq!['-'] + d;
        assert(s[0] == '-');
        assert(s.skip(1) =~= d);
    } else {
        let d = text::decimal(m as nat);
        text::numerals_are_not_trimmed(m as nat, none, none);
        text::decimal_is_read_back(m as nat);
        text::numbers_are_read_back(m as nat, i64::MAX as nat, none);
        assert(none + d =~= d);
        assert('0' <= d[0] <= '9');
    }
}

/// The value of a digit in hexadecimal, in small letters.
pub open spec fn hex_value(c: char) -> int {
    if '0' <= c <= '9' {
        c as u32 as int - 48
    } else {
        c as u32 as int - 87
    }
}

/// What the characters between the quotes of a JSON text denote.
pub open spec fn denoted(t: Seq<char>) -> Seq<char>
    decreases t.len(),
{
    if t.len() == 0 {
        Seq::empty()
    } else if t[0] != '\\' || t.len() < 2 {
        seq![t[0]] + denoted(t.skip(1))
    } else if t[1] == 'u' && t.len() >= 6 {
        seq![(hex_value(t[4]) * 16 + hex_value(t[5])) as char] + denoted(t.skip(6))
    } else {
        seq![
            if t[1] == 'b' {
                8 as char
            } else if t[1] == 't' {
                9 as char
            } else if t[1] == 'n' {
                10 as char
            } else if t[1] == 'f' {
                12 as char
            } else if t[1] == 'r' {
                13 as char
            } else {
                t[1]
            },
        ] + denoted(t.skip(2))
    }
}

/// A text in quotes denotes the text that it was written for, and no control character and no
/// bare quote stands in it.
pub proof fn quoted_texts_denote_their_text(s: Seq<char>)
    ensures
        quoted(s).len() >= 2,
        quoted(s)[0] == '"' && quoted(s).last() == '"',
        denoted(quoted(s).subrange(1, quoted(s).len() - 1)) == s,
        forall|i: int| 0 <= i < quoted(s).len() ==> (#[trigger] quoted(s)[i]) as u32 >= 32,
{
    let inner = escaped_text(s);
    assert(quoted(s).subrange(1, quoted(s).len() - 1) =~= inner);
    escaped_text_denotes(s);
    assert forall|i: int| 0 <= i < quoted(s).len() implies (#[trigger] quoted(s)[i]) as u32 >= 32 by {
        if 0 < i && i < quoted(s).len() - 1 {
            assert(quoted(s)[i] == inner[i - 1]);
        }
    }
}

proof fn escaped_text_denotes(s: Seq<char>)
    ensures
        denoted(escaped_text(s)) == s,
        forall|i: int| 0 <= i < escaped_text(s).len() ==> (#[trigger] escaped_text(s)[i]) as u32 >= 32,
    decreases s.len(),
{
    if s.len() > 0 {
        let t = s.skip(1);
        escaped_text_denotes(t);
        let (e, rest) = (escaped_char(s[0]), escaped_text(t));
        let all = e + rest;
        escaped_char_denotes(s[0], rest);
        assert(seq![s[0]] + t =~= s);
        assert forall|i: int| 0 <= i < all.len() implies (#[trigger] all[i]) as u32 >= 32 by {
            if i >= e.len() {
                assert(all[i] == rest[i - e.len()]);
            } else {
                assert(all[i] == e[i]);
            }
        }
    }
}

#[verifier::spinoff_prover]
#[verifier::rlimit(60)]
proof fn escaped_char_denotes(c: char, rest: Seq<char>)
    ensures
        denoted(escaped_char(c) + rest) == seq![c] + denoted(rest),
        forall|i: int| 0 <= i < escaped_char(c).len() ==> (#[trigger] escaped_char(c)[i]) as u32 >= 32,
{
    let n = c as u32 as int;
    let e = escaped_char(c);
    let all = e + rest;
    if e.len() == 1 {
        assert(all[0] == c);
        assert(all.skip(1) =~= rest);
    } else if e.len() == 2 {
        short_escape_denotes(c, e[1], rest);
        assert(e =~= seq!['\\', e[1]]);
    } else {
        long_escape_denotes(c, rest);
        assert(e =~= seq!['\\', 'u', '0', '0', hex_digit(n / 16), hex_digit(n % 16)]);
        hex_digits_are_read_back(n / 16);
        hex_digits_are_read_back(n % 16);
    }
}

proof fn hex_digits_are_read_back(n: int)
    requires
        0 <= n < 16,
    ensures
        hex_value(hex_digit(n)) == n,
        hex_digit(n) as u32 >= 48,
{
}

#[verifier::spinoff_prover]
proof fn short_escape_denotes(c: char, letter: char, rest: Seq<char>)
    requires
        ({
            let n = c as u32 as int;
            ||| (c == '"' && letter == '"')
            ||| (c == '\\' && letter == '\\')
            ||| (n == 8 && letter == 'b')
            ||| (n == 9 && letter == 't')
            ||| (n == 10 && letter == 'n')
            ||| (n == 12 && letter == 'f')
            ||| (n == 13 && letter == 'r')
        }),
    ensures
        denoted(seq!['\\', letter] + rest) == seq![c] + denoted(rest),
{
    let all = seq!['\\', letter] + rest;
    assert(all[0] == '\\' && all[1] == letter);
    assert(all.skip(2) =~= rest);
}

#[verifier::spinoff_prover]
proof fn long_escape_denotes(c: char, rest: Seq<char>)
    requires
        (c as u32) < 32,
    ensures
        ({
            let n = c as u32 as int;
            denoted(
                seq!['\\', 'u', '0', '0', hex_digit(n / 16), hex_digit(n % 16)] + rest,
            ) == seq![c] + denoted(rest)
        }),
{
    let n = c as u32 as int;
    let e = seq!['\\', 'u', '0', '0', hex_digit(n / 16), hex_digit(n % 16)];
    let all = e + rest;
    assert(all[0] == '\\' && all[1] == 'u' && all[4] == e[4] && all[5] == e[5]);
    assert(all.skip(6) =~= rest);
    hex_digits_are_read_back(n / 16);
    hex_digits_are_read_back(n % 16);
    assert(n == (n / 16) * 16 + n % 16);
}

/// A value is written as JSON: an array as its items and an object as its members, each with
/// its name in quotes and a colon, with commas between them and brackets around them.
pub proof fn values_are_written_as_json(
    items: Seq<JsonModel>,
    members: Seq<(Seq<char>, JsonModel)>,
    n: Seq<char>,
    s: Seq<char>,
)
    ensures
        text_of(JsonModel::Array(items)) == seq!['['] + text::join(
            items.map_values(|j: JsonModel| text_of(j)),
            seq![','],
        ) + seq![']'],
        text_of(JsonModel::Object(members)) == seq!['{'] + text::join(
            members.map_values(
                |m: (Seq<char>, JsonModel)| quoted(m.0) + seq![':'] + text_of(m.1),
            ),
            seq![','],
        ) + seq!['}'],
        text_of(JsonModel::Null) == seq!['n', 'u', 'l', 'l'],
        text_of(JsonModel::Bool(true)) == seq!['t', 'r', 'u', 'e'],
        text_of(JsonModel::Bool(false)) == seq!['f', 'a', 'l', 's', 'e'],
        text_of(JsonModel::Number(n)) == n,
        text_of(JsonModel::Text(s)) == quoted(s),
{
    reveal_strlit("null");
    reveal_strlit("true");
    reveal_strlit("false");
    assert("null"@ =~= seq!['n', 'u', 'l', 'l']);
    assert("true"@ =~= seq!['t', 'r', 'u', 'e']);
    assert("false"@ =~= seq!['f', 'a', 'l', 's', 'e']);
    let texts = items.map_values(|j: JsonModel| text_of(j));
    items_are_joined(items, items.len());
    assert(texts.take(items.len() as int) =~= texts);
    let rows = members.map_values(
        |m: (Seq<char>, JsonModel)| quoted(m.0) + seq![':'] + text_of(m.1),
    );
    members_are_joined(members, members.len());
    assert(rows.take(members.len() as int) =~= rows);
}

proof fn items_are_joined(items: Seq<JsonModel>, n: nat)
    requires
        n <= items.len(),
    ensures
        items_text(items, n) == text::join(
            items.map_values(|j: JsonModel| text_of(j)).take(n as int),
            seq![','],
        ),
    decreases n,
{
    let texts = items.map_values(|j: JsonModel| text_of(j));
    if n > 1 {
        items_are_joined(items, (n - 1) as nat);
        assert(texts.take(n as int).drop_last() =~= texts.take(n - 1));
    } else if n == 1 {
        assert(texts.take(1).len() == 1);
    }
}

proof fn members_are_joined(members: Seq<(Seq<char>, JsonModel)>, n: nat)
    requires
        n <= members.len(),
    ensures
        members_text(members, n) == text::join(
            members.map_values(
                |m: (Seq<char>, JsonModel)| quoted(m.0) + seq![':'] + text_of(m.1),
            ).take(n as int),
            seq![','],
        ),
    decreases n,
{
    let rows = members.map_values(
        |m: (Seq<char>, JsonModel)| quoted(m.0) + seq![':'] + text_of(m.1),
    );
    if n > 1 {
        members_are_joined(members, (n - 1) as nat);
        assert(rows.take(n as int).drop_last() =~= rows.take(n - 1));
        let (k, v) = members[n - 1];
        let before = members_text(members, (n - 1) as nat);
        assert(before + seq![','] + quoted(k) + seq![':'] + text_of(v) =~= before + seq![','] + (
        quoted(k) + seq![':'] + text_of(v)));
    } else if n == 1 {
        assert(rows.take(1).len() == 1);
    }
}

/// Blanks before a value are passed over, and nothing else is.
pub proof fn blanks_are_passed_over(blank: Seq<char>, s: Seq<char>)
    requires
        forall|i: int|
            0 <= i < blank.len() ==> (#[trigger] blank[i] == ' ' || blank[i] == '\n' || blank[i]
                == '\t' || blank[i] == '\r'),
        s.len() > 0 ==> s[0] != ' ' && s[0] != '\n' && s[0] != '\t' && s[0] != '\r',
    ensures
        skip_space(blank + s) == s,
    decreases blank.len(),
{
    if blank.len() > 0 {
        assert((blank + s)[0] == blank[0]);
        assert((blank + s).skip(1) =~= blank.skip(1) + s);
        blanks_are_passed_over(blank.skip(1), s);
    } else {
        assert(blank + s =~= s);
    }
}

/// The text of a member is that of the last member of its name.
pub proof fn the_last_of_a_name_is_the_source(members: Seq<MemberModel>, key: Seq<char>, n: int, i: int)
    requires
        -1 <= i < n <= members.len() || (i == -1 && n == 0),
        forall|k: int| i < k < n ==> (#[trigger] members[k]).key != key,
    ensures
        i == -1 ==> last_source(members, key, n) is None,
        i >= 0 && members[i].key == key ==> last_source(members, key, n) == Some(members[i].source),
    decreases n,
{
    if i < n - 1 {
        assert(members[n - 1].key != key);
        the_last_of_a_name_is_the_source(members, key, n - 1, i);
    }
}

} // verus!
