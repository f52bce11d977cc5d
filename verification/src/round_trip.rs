//! Calls that are written into a prompt are read back as they were: the two forms of
//! a call, what the model wrote and what it is shown of it, agree.

use crate::json::JsonModel;
use crate::render;
use crate::render::FlatCallModel;
use crate::text;
use crate::tool_call;
use crate::tool_call::CallModel;
use vstd::prelude::*;
use vstd::string::*;

verus! {

spec fn one_line(m: Seq<char>) -> bool {
    m.len() > 0 && forall|i: int| 0 <= i < m.len() ==> #[trigger] m[i] != '\n'
}

spec fn ends_line(a: Seq<char>) -> bool {
    a.len() == 0 || a.last() == '\n'
}

spec fn nl() -> Seq<char> {
    seq!['\n']
}

proof fn occurrence_chars(hay: Seq<char>, m: Seq<char>, i: int)
    requires
        text::occurs_at(hay, m, i),
    ensures
        forall|k: int| 0 <= k < m.len() ==> hay[i + k] == #[trigger] m[k],
{
    assert forall|k: int| 0 <= k < m.len() implies hay[i + k] == #[trigger] m[k] by {
        assert(hay.subrange(i, i + m.len())[k] == hay[i + k]);
    }
}

/// An occurrence in what is joined lies in one of the two parts, where the first ends
/// a line.
proof fn occurrence_in_part(a: Seq<char>, b: Seq<char>, m: Seq<char>, i: int)
    requires
        one_line(m),
        ends_line(a),
        text::occurs_at(a + b, m, i),
    ensures
        text::occurs_at(a, m, i) || (i >= a.len() && text::occurs_at(b, m, i - a.len())),
{
    occurrence_chars(a + b, m, i);
    if i >= a.len() {
        assert((a + b).subrange(i, i + m.len()) =~= b.subrange(
            i - a.len(),
            i - a.len() + m.len(),
        ));
    } else if i + m.len() <= a.len() {
        assert((a + b).subrange(i, i + m.len()) =~= a.subrange(i, i + m.len()));
    } else {
        let k = a.len() - 1 - i;
        assert((a + b)[i + k] == a[a.len() - 1]);
        assert(m[k] != '\n');
    }
}

proof fn clear_append(a: Seq<char>, b: Seq<char>, m: Seq<char>)
    requires
        one_line(m),
        ends_line(a),
        !text::contains(a, m),
        !text::contains(b, m),
    ensures
        !text::contains(a + b, m),
{
    if text::contains(a + b, m) {
        let i = choose|i: int| text::occurs_at(a + b, m, i);
        occurrence_in_part(a, b, m, i);
    }
}

proof fn clear_line(a: Seq<char>, m: Seq<char>)
    requires
        one_line(m),
        !text::contains(a, m),
    ensures
        !text::contains(a + nl(), m),
{
    if text::contains(a + nl(), m) {
        let i = choose|i: int| text::occurs_at(a + nl(), m, i);
        occurrence_chars(a + nl(), m, i);
        if i + m.len() <= a.len() {
            assert((a + nl()).subrange(i, i + m.len()) =~= a.subrange(i, i + m.len()));
            assert(text::occurs_at(a, m, i));
        } else {
            assert((a + nl())[i + (m.len() - 1)] == '\n');
            assert(m[m.len() - 1] != '\n');
        }
    }
}

proof fn first_after_line(a: Seq<char>, m: Seq<char>, b: Seq<char>)
    requires
        one_line(m),
        ends_line(a),
        !text::contains(a, m),
    ensures
        text::find_from(a + m + b, m, 0) == Some(a.len() as int),
{
    let s = a + m + b;
    assert(s =~= a + (m + b));
    assert(s.subrange(a.len() as int, a.len() as int + m.len()) =~= m);
    assert(text::occurs_at(s, m, a.len() as int));
    text::find_from_is_first(s, m, 0);
    let i = text::find_from(s, m, 0).unwrap();
    if i < a.len() {
        occurrence_in_part(a, m + b, m, i);
    }
}

proof fn first_after_others(a: Seq<char>, m: Seq<char>, b: Seq<char>)
    requires
        m.len() > 0,
        forall|i: int| 0 <= i < a.len() ==> #[trigger] a[i] != m[0],
    ensures
        text::find_from(a + m + b, m, 0) == Some(a.len() as int),
{
    let s = a + m + b;
    assert(s.subrange(a.len() as int, a.len() as int + m.len()) =~= m);
    assert(text::occurs_at(s, m, a.len() as int));
    text::find_from_is_first(s, m, 0);
    let i = text::find_from(s, m, 0).unwrap();
    if i < a.len() {
        occurrence_chars(s, m, i);
        assert(s[i + 0] == m[0]);
        assert(s[i] == a[i]);
    }
}

proof fn upto_before(a: Seq<char>, b: Seq<char>, c: char)
    requires
        forall|i: int| 0 <= i < a.len() ==> #[trigger] a[i] != c,
    ensures
        text::upto(a + seq![c] + b, c) == a.len(),
    decreases a.len(),
{
    let s = a + seq![c] + b;
    if a.len() > 0 {
        assert(s[0] == a[0]);
        assert(s.skip(1) =~= a.skip(1) + seq![c] + b);
        upto_before(a.skip(1), b, c);
    } else {
        assert(s[0] == c);
    }
}

// ---------------------------------------------------------------------------
// What can be written and read back.

/// Whether a text holds none of what ends a call.
pub open spec fn ends_no_call(s: Seq<char>) -> bool {
    !text::contains(s, "</function>"@) && !text::contains(s, "</tool_call>"@)
}

/// Whether a name is cut off neither by its own closing bracket nor by the end of a
/// call.
pub open spec fn is_plain_label(s: Seq<char>) -> bool {
    &&& forall|i: int| 0 <= i < s.len() ==> #[trigger] s[i] != '>'
    &&& ends_no_call(s + seq!['>'])
}

/// Whether a value holds none of what ends a value or a call.
pub open spec fn is_plain_value(s: Seq<char>) -> bool {
    &&& ends_no_call(s)
    &&& !text::contains(s, "</parameter>"@)
    &&& !text::contains(s, "<parameter="@)
}

pub open spec fn is_plain_argument(a: (Seq<char>, JsonModel)) -> bool {
    is_plain_label(a.0) && is_plain_value(tool_call::raw_text(a.1))
}

pub open spec fn is_plain_call(c: FlatCallModel) -> bool {
    &&& tool_call::is_tool_name(c.name)
    &&& is_plain_label(c.name)
    &&& forall|i: int| 0 <= i < c.arguments.len() ==> is_plain_argument(#[trigger] c.arguments[i])
}

/// A call as it is read.
pub open spec fn as_read(c: FlatCallModel) -> CallModel {
    CallModel {
        name: c.name,
        call_id: None,
        arguments: c.arguments.map_values(
            |a: (Seq<char>, JsonModel)| (a.0, tool_call::raw_text(a.1)),
        ),
    }
}

pub open spec fn all_as_read(calls: Seq<FlatCallModel>) -> Seq<CallModel> {
    calls.map_values(|c: FlatCallModel| as_read(c))
}

// ---------------------------------------------------------------------------
// The pieces of a call.

spec fn parameter_text(key: Seq<char>, value: Seq<char>) -> Seq<char> {
    "<parameter="@ + key + seq!['>'] + nl() + value + nl() + "</parameter>"@ + nl()
}

spec fn parameters_from(arguments: Seq<(Seq<char>, JsonModel)>, i: int) -> Seq<char>
    decreases arguments.len() - i,
{
    if i >= arguments.len() {
        Seq::empty()
    } else {
        parameter_text(arguments[i].0, tool_call::raw_text(arguments[i].1)) + parameters_from(
            arguments,
            i + 1,
        )
    }
}

proof fn literals()
    ensures
        ">\n"@ == seq!['>'] + nl(),
        "\n</parameter>\n"@ == nl() + "</parameter>"@ + nl(),
        "</function>\n</tool_call>"@ == "</function>"@ + nl() + "</tool_call>"@,
        "\n<tool_call>\n<function="@ == nl() + "<tool_call>"@ + nl() + "<function="@,
        "\n\n<tool_call>\n<function="@ == nl() + nl() + "<tool_call>"@ + nl() + "<function="@,
        "<tool_call>\n<function="@ == "<tool_call>"@ + nl() + "<function="@,
        one_line("<tool_call>"@),
        one_line("</tool_call>"@),
        one_line("<function="@),
        one_line("</function>"@),
        one_line("<parameter="@),
        one_line("</parameter>"@),
{
    reveal_strlit(">\n");
    reveal_strlit("\n</parameter>\n");
    reveal_strlit("</parameter>");
    reveal_strlit("</function>\n</tool_call>");
    reveal_strlit("</function>");
    reveal_strlit("</tool_call>");
    reveal_strlit("\n<tool_call>\n<function=");
    reveal_strlit("\n\n<tool_call>\n<function=");
    reveal_strlit("<tool_call>\n<function=");
    reveal_strlit("<tool_call>");
    reveal_strlit("<function=");
    reveal_strlit("<parameter=");
    assert(">\n"@ =~= seq!['>'] + nl());
    assert("\n</parameter>\n"@ =~= nl() + "</parameter>"@ + nl());
    assert("</function>\n</tool_call>"@ =~= "</function>"@ + nl() + "</tool_call>"@);
    assert("\n<tool_call>\n<function="@ =~= nl() + "<tool_call>"@ + nl() + "<function="@);
    assert("\n\n<tool_call>\n<function="@ =~= nl() + nl() + "<tool_call>"@ + nl()
        + "<function="@);
    assert("<tool_call>\n<function="@ =~= "<tool_call>"@ + nl() + "<function="@);
}

proof fn parameters_text_from_front(arguments: Seq<(Seq<char>, JsonModel)>, n: int)
    requires
        0 <= n <= arguments.len(),
    ensures
        render::parameters_text(arguments, n) + parameters_from(arguments, n) == parameters_from(
            arguments,
            0,
        ),
    decreases n,
{
    literals();
    if n <= 0 {
        assert(Seq::<char>::empty() + parameters_from(arguments, 0) =~= parameters_from(
            arguments,
            0,
        ));
    } else {
        parameters_text_from_front(arguments, n - 1);
        let before = render::parameters_text(arguments, n - 1);
        let key = arguments[n - 1].0;
        let value = tool_call::raw_text(arguments[n - 1].1);
        let rest = parameters_from(arguments, n);
        assert(before + "<parameter="@ + key + ">\n"@ + value + "\n</parameter>\n"@ + rest
            =~= before + (parameter_text(key, value) + rest));
    }
}

/// No text that is empty or one line break holds a marker.
proof fn short_texts_are_clear(m: Seq<char>)
    requires
        one_line(m),
    ensures
        !text::contains(Seq::empty(), m),
        !text::contains(nl(), m),
{
    if text::contains(Seq::empty(), m) {
        let i = choose|i: int| text::occurs_at(Seq::empty(), m, i);
        assert(false);
    }
    if text::contains(nl(), m) {
        let i = choose|i: int| text::occurs_at(nl(), m, i);
        occurrence_chars(nl(), m, i);
        assert(nl()[i + 0] == m[0]);
    }
}

/// Whether a marker is one that ends a call.
spec fn is_end(m: Seq<char>) -> bool {
    m == "</function>"@ || m == "</tool_call>"@
}

/// What opens a parameter or a function ends no call, whatever it is named.
proof fn opening_is_clear(open: Seq<char>, label: Seq<char>, m: Seq<char>)
    requires
        is_end(m),
        open == "<parameter="@ || open == "<function="@,
        !text::contains(label + seq!['>'], m),
    ensures
        !text::contains(open + label + seq!['>'], m),
{
    reveal_strlit("<parameter=");
    reveal_strlit("<function=");
    reveal_strlit("</function>");
    reveal_strlit("</tool_call>");
    let s = open + label + seq!['>'];
    if text::contains(s, m) {
        let i = choose|i: int| text::occurs_at(s, m, i);
        occurrence_chars(s, m, i);
        if i >= open.len() {
            assert(s.subrange(i, i + m.len()) =~= (label + seq!['>']).subrange(
                i - open.len(),
                i - open.len() + m.len(),
            ));
            assert(text::occurs_at(label + seq!['>'], m, i - open.len()));
        } else {
            assert(m[0] == '<' && m[1] == '/');
            assert(s[i + 0] == m[0]);
            assert(s[i] == open[i]);
            assert(i == 0);
            assert(s[i + 1] == m[1]);
            assert(s[1] == open[1]);
        }
    }
}

/// What closes a parameter ends no call.
proof fn closing_is_clear(m: Seq<char>)
    requires
        is_end(m),
    ensures
        !text::contains("</parameter>"@, m),
{
    reveal_strlit("</parameter>");
    reveal_strlit("</function>");
    reveal_strlit("</tool_call>");
    if text::contains("</parameter>"@, m) {
        let i = choose|i: int| text::occurs_at("</parameter>"@, m, i);
        occurrence_chars("</parameter>"@, m, i);
        assert("</parameter>"@[i + 0] == m[0]);
        assert(i == 0);
        assert("</parameter>"@[i + 2] == m[2]);
    }
}

proof fn parameter_is_clear(key: Seq<char>, value: Seq<char>, m: Seq<char>)
    requires
        is_end(m),
        is_plain_label(key),
        is_plain_value(value),
    ensures
        !text::contains(parameter_text(key, value), m),
        parameter_text(key, value).last() == '\n',
        parameter_text(key, value).len() > 0,
{
    literals();
    opening_is_clear("<parameter="@, key, m);
    closing_is_clear(m);
    let head = "<parameter="@ + key + seq!['>'];
    clear_line(head, m);
    clear_line(value, m);
    clear_line("</parameter>"@, m);
    let one = head + nl();
    let two = value + nl();
    let three = "</parameter>"@ + nl();
    clear_append(one, two, m);
    assert((one + two).last() == '\n');
    clear_append(one + two, three, m);
    assert(parameter_text(key, value) =~= one + two + three);
}

proof fn parameters_are_clear(arguments: Seq<(Seq<char>, JsonModel)>, i: int, m: Seq<char>)
    requires
        is_end(m),
        0 <= i <= arguments.len(),
        forall|k: int| 0 <= k < arguments.len() ==> is_plain_argument(#[trigger] arguments[k]),
    ensures
        !text::contains(parameters_from(arguments, i), m),
        ends_line(parameters_from(arguments, i)),
    decreases arguments.len() - i,
{
    literals();
    if i >= arguments.len() {
        short_texts_are_clear(m);
    } else {
        assert(is_plain_argument(arguments[i]));
        let key = arguments[i].0;
        let value = tool_call::raw_text(arguments[i].1);
        parameter_is_clear(key, value, m);
        parameters_are_clear(arguments, i + 1, m);
        clear_append(parameter_text(key, value), parameters_from(arguments, i + 1), m);
        let rest = parameters_from(arguments, i + 1);
        if rest.len() > 0 {
            assert((parameter_text(key, value) + rest).last() == rest.last());
        } else {
            assert(parameter_text(key, value) + rest =~= parameter_text(key, value));
        }
    }
}

// ---------------------------------------------------------------------------
// Reading.

proof fn value_is_read(value: Seq<char>, rest: Seq<char>)
    requires
        is_plain_value(value),
    ensures
        ({
            let region = nl() + value + nl() + "</parameter>"@ + rest;
            &&& tool_call::value_end(region) == value.len() + 2
            &&& text::occurs_at(region, "</parameter>"@, value.len() as int + 2)
            &&& tool_call::without_outer_newlines(region.take(value.len() as int + 2)) == value
        }),
{
    literals();
    let a = nl() + value + nl();
    let region = a + "</parameter>"@ + rest;
    short_texts_are_clear("</parameter>"@);
    short_texts_are_clear("<parameter="@);
    clear_line(value, "</parameter>"@);
    clear_line(value, "<parameter="@);
    assert(a =~= nl() + (value + nl()));
    clear_append(nl(), value + nl(), "</parameter>"@);
    clear_append(nl(), value + nl(), "<parameter="@);
    assert(a.last() == '\n');
    first_after_line(a, "</parameter>"@, rest);
    text::find_from_is_first(region, "</parameter>"@, 0);
    text::find_from_is_first(region, "<parameter="@, 0);
    match text::find_from(region, "<parameter="@, 0) {
        Some(p) => {
            if p < a.len() {
                assert(region =~= a + ("</parameter>"@ + rest));
                occurrence_in_part(a, "</parameter>"@ + rest, "<parameter="@, p);
            }
        },
        None => {},
    }
    assert(region.take(a.len() as int) =~= a);
    assert(a[0] == '\n');
    assert(a.skip(1) =~= value + nl());
    assert((value + nl()).last() == '\n');
    assert((value + nl()).drop_last() =~= value);
}

proof fn parameters_are_read(arguments: Seq<(Seq<char>, JsonModel)>, i: int)
    requires
        0 <= i <= arguments.len(),
        forall|k: int| 0 <= k < arguments.len() ==> is_plain_argument(#[trigger] arguments[k]),
    ensures
        tool_call::parameters(nl() + parameters_from(arguments, i)) == arguments.map_values(
            |a: (Seq<char>, JsonModel)| (a.0, tool_call::raw_text(a.1)),
        ).skip(i),
    decreases arguments.len() - i,
{
    literals();
    let goal = arguments.map_values(|a: (Seq<char>, JsonModel)| (a.0, tool_call::raw_text(a.1)));
    let open = "<parameter="@;
    short_texts_are_clear(open);
    if i >= arguments.len() {
        assert(nl() + parameters_from(arguments, i) =~= nl());
        text::contains_is_found(nl(), open);
        assert(goal.skip(i) =~= Seq::empty());
    } else {
        assert(is_plain_argument(arguments[i]));
        let key = arguments[i].0;
        let value = tool_call::raw_text(arguments[i].1);
        let rest = parameters_from(arguments, i + 1);
        let tail = nl() + value + nl() + "</parameter>"@ + (nl() + rest);
        let s = nl() + parameters_from(arguments, i);
        assert(s =~= nl() + open + (key + seq!['>'] + tail));
        first_after_line(nl(), open, key + seq!['>'] + tail);
        let after = s.skip(1 + open.len() as int);
        assert(after =~= key + seq!['>'] + tail);
        upto_before(key, tail, '>');
        let region = after.skip(key.len() as int + 1);
        assert(region =~= tail);
        assert(after.take(key.len() as int) =~= key);
        value_is_read(value, nl() + rest);
        let next = value.len() + 2 + "</parameter>"@.len();
        assert(region.skip(next as int) =~= nl() + rest);
        parameters_are_read(arguments, i + 1);
        assert(tool_call::parameters(s) == seq![(key, value)] + tool_call::parameters(
            nl() + rest,
        ));
        assert(seq![(key, value)] + goal.skip(i + 1) =~= goal.skip(i));
    }
}

/// What stands between the tags of a call.
spec fn body_of(c: FlatCallModel) -> Seq<char> {
    nl() + "<function="@ + c.name + seq!['>'] + nl() + parameters_from(c.arguments, 0)
        + "</function>"@ + nl()
}

proof fn body_is_clear(c: FlatCallModel)
    requires
        is_plain_call(c),
    ensures
        !text::contains(body_of(c), "</tool_call>"@),
        body_of(c).last() == '\n',
        body_of(c).len() > 0,
{
    literals();
    let m = "</tool_call>"@;
    let head = "<function="@ + c.name + seq!['>'];
    let params = parameters_from(c.arguments, 0);
    opening_is_clear("<function="@, c.name, m);
    clear_line(head, m);
    parameters_are_clear(c.arguments, 0, m);
    short_texts_are_clear(m);
    reveal_strlit("</function>");
    reveal_strlit("</tool_call>");
    if text::contains("</function>"@, m) {
        let i = choose|i: int| text::occurs_at("</function>"@, m, i);
        occurrence_chars("</function>"@, m, i);
        assert(false);
    }
    clear_line("</function>"@, m);
    clear_append(nl(), head + nl(), m);
    let first = nl() + (head + nl());
    assert(first.last() == '\n');
    clear_append(first, params, m);
    let second = first + params;
    assert(ends_line(second)) by {
        if params.len() > 0 {
            assert(second.last() == params.last());
        } else {
            assert(second =~= first);
        }
    }
    clear_append(second, "</function>"@ + nl(), m);
    assert(body_of(c) =~= second + ("</function>"@ + nl()));
}

proof fn body_is_read(c: FlatCallModel)
    requires
        is_plain_call(c),
    ensures
        tool_call::call_in(body_of(c)) == Some(as_read(c)),
{
    literals();
    let open = "<function="@;
    let close = "</function>"@;
    let params = parameters_from(c.arguments, 0);
    let inner = c.name + seq!['>'] + nl() + params;
    let body = body_of(c);
    short_texts_are_clear(open);
    assert(body =~= nl() + open + (inner + close + nl()));
    first_after_line(nl(), open, inner + close + nl());
    let after = body.skip(1 + open.len() as int);
    assert(after =~= inner + close + nl());
    assert(!text::contains(inner, close)) by {
        clear_line(c.name + seq!['>'], close);
        parameters_are_clear(c.arguments, 0, close);
        clear_append(c.name + seq!['>'] + nl(), params, close);
        assert(inner =~= c.name + seq!['>'] + nl() + params);
    }
    assert(ends_line(inner)) by {
        parameters_are_clear(c.arguments, 0, close);
        if params.len() > 0 {
            assert(inner.last() == params.last());
        } else {
            assert(inner =~= c.name + seq!['>'] + nl());
        }
    }
    first_after_line(inner, close, nl());
    assert(after.take(inner.len() as int) =~= inner);
    assert(tool_call::function_body(body) == Some(inner));
    assert(inner =~= c.name + seq!['>'] + (nl() + params));
    upto_before(c.name, nl() + params, '>');
    assert(inner.take(c.name.len() as int) =~= c.name);
    assert(inner.skip(c.name.len() as int + 1) =~= nl() + params);
    parameters_are_read(c.arguments, 0);
    let goal = c.arguments.map_values(
        |a: (Seq<char>, JsonModel)| (a.0, tool_call::raw_text(a.1)),
    );
    assert(goal.skip(0) =~= goal);
}

spec fn block_of(c: FlatCallModel) -> Seq<char> {
    "<tool_call>"@ + body_of(c) + "</tool_call>"@
}

spec fn blocks_from(calls: Seq<FlatCallModel>, i: int) -> Seq<char>
    decreases calls.len() - i,
{
    if i >= calls.len() {
        Seq::empty()
    } else {
        nl() + block_of(calls[i]) + blocks_from(calls, i + 1)
    }
}

spec fn lead(after_content: bool) -> Seq<char> {
    if after_content {
        nl() + nl()
    } else {
        Seq::empty()
    }
}

proof fn call_text_is_block(c: FlatCallModel)
    ensures
        "<tool_call>"@ + nl() + "<function="@ + c.name + ">\n"@ + render::parameters_text(
            c.arguments,
            c.arguments.len() as int,
        ) + "</function>\n</tool_call>"@ == block_of(c),
{
    literals();
    parameters_text_from_front(c.arguments, c.arguments.len() as int);
    let params = render::parameters_text(c.arguments, c.arguments.len() as int);
    assert(params + parameters_from(c.arguments, c.arguments.len() as int) =~= params);
    assert("<tool_call>"@ + nl() + "<function="@ + c.name + ">\n"@ + params
        + "</function>\n</tool_call>"@ =~= block_of(c));
}

/// What a call is written as behind its opening tags.
spec fn call_tail(c: FlatCallModel) -> Seq<char> {
    c.name + ">\n"@ + render::parameters_text(c.arguments, c.arguments.len() as int)
        + "</function>\n</tool_call>"@
}

proof fn block_has_call_tail(c: FlatCallModel)
    ensures
        block_of(c) == "<tool_call>"@ + nl() + "<function="@ + call_tail(c),
{
    call_text_is_block(c);
    assert(block_of(c) =~= "<tool_call>"@ + nl() + "<function="@ + call_tail(c));
}

proof fn first_call_text(calls: Seq<FlatCallModel>, after_content: bool)
    requires
        1 <= calls.len(),
    ensures
        render::calls_text(calls, after_content, 1) == lead(after_content) + block_of(calls[0]),
{
    let tail = call_tail(calls[0]);
    block_has_call_tail(calls[0]);
    assert(render::calls_text(calls, after_content, 0) =~= Seq::empty());
    let opening = if after_content {
        "\n\n<tool_call>\n<function="@
    } else {
        "<tool_call>\n<function="@
    };
    assert(render::calls_text(calls, after_content, 1) =~= opening + tail);
    assert(opening =~= lead(after_content) + ("<tool_call>"@ + nl() + "<function="@)) by {
        literals();
    }
}

proof fn next_call_text(calls: Seq<FlatCallModel>, after_content: bool, n: int)
    requires
        1 < n <= calls.len(),
    ensures
        render::calls_text(calls, after_content, n) == render::calls_text(
            calls,
            after_content,
            n - 1,
        ) + (nl() + block_of(calls[n - 1])),
{
    let before = render::calls_text(calls, after_content, n - 1);
    let tail = call_tail(calls[n - 1]);
    block_has_call_tail(calls[n - 1]);
    let opening = "\n<tool_call>\n<function="@;
    assert(render::calls_text(calls, after_content, n) =~= before + (opening + tail));
    assert(opening =~= nl() + ("<tool_call>"@ + nl() + "<function="@)) by {
        literals();
    }
    assert(opening + tail =~= nl() + block_of(calls[n - 1]));
}

proof fn calls_text_from_front(calls: Seq<FlatCallModel>, after_content: bool, n: int)
    requires
        1 <= n <= calls.len(),
    ensures
        render::calls_text(calls, after_content, n) + blocks_from(calls, n) == lead(after_content)
            + block_of(calls[0]) + blocks_from(calls, 1),
    decreases n,
{
    if n == 1 {
        first_call_text(calls, after_content);
    } else {
        calls_text_from_front(calls, after_content, n - 1);
        next_call_text(calls, after_content, n);
        let before = render::calls_text(calls, after_content, n - 1);
        let block = block_of(calls[n - 1]);
        let rest = blocks_from(calls, n);
        assert(blocks_from(calls, n - 1) == nl() + block + rest);
        assert(before + (nl() + block) + rest =~= before + (nl() + block + rest));
    }
}

spec fn bodies(calls: Seq<FlatCallModel>) -> Seq<Seq<char>> {
    calls.map_values(|c: FlatCallModel| body_of(c))
}

/// The body of a call and those behind it, where the call is the first.
proof fn one_body_is_found(a: Seq<char>, c: FlatCallModel, rest: Seq<char>)
    requires
        is_plain_call(c),
        text::find_from(a + block_of(c) + rest, "<tool_call>"@, 0) == Some(a.len() as int),
    ensures
        tool_call::tool_call_bodies(a + block_of(c) + rest) == seq![body_of(c)]
            + tool_call::tool_call_bodies(rest),
{
    literals();
    let s = a + block_of(c) + rest;
    let after = s.skip(a.len() + "<tool_call>"@.len() as int);
    assert(after =~= body_of(c) + "</tool_call>"@ + rest);
    body_is_clear(c);
    first_after_line(body_of(c), "</tool_call>"@, rest);
    assert(after.take(body_of(c).len() as int) =~= body_of(c));
    assert(after.skip(body_of(c).len() + "</tool_call>"@.len() as int) =~= rest);
}

proof fn bodies_are_found(calls: Seq<FlatCallModel>, i: int)
    requires
        0 <= i <= calls.len(),
        forall|k: int| 0 <= k < calls.len() ==> is_plain_call(#[trigger] calls[k]),
    ensures
        tool_call::tool_call_bodies(blocks_from(calls, i)) == bodies(calls).skip(i),
    decreases calls.len() - i,
{
    literals();
    let open = "<tool_call>"@;
    short_texts_are_clear(open);
    if i >= calls.len() {
        text::contains_is_found(Seq::empty(), open);
        assert(bodies(calls).skip(i) =~= Seq::empty());
    } else {
        let rest = blocks_from(calls, i + 1);
        let s = nl() + block_of(calls[i]) + rest;
        assert(s =~= nl() + open + (body_of(calls[i]) + "</tool_call>"@ + rest));
        first_after_line(nl(), open, body_of(calls[i]) + "</tool_call>"@ + rest);
        one_body_is_found(nl(), calls[i], rest);
        bodies_are_found(calls, i + 1);
        assert(seq![body_of(calls[i])] + bodies(calls).skip(i + 1) =~= bodies(calls).skip(i));
    }
}

proof fn bodies_are_read(calls: Seq<FlatCallModel>, n: int)
    requires
        0 <= n <= calls.len(),
        forall|k: int| 0 <= k < calls.len() ==> is_plain_call(#[trigger] calls[k]),
    ensures
        tool_call::calls_in(bodies(calls), n) == all_as_read(calls).take(n),
    decreases n,
{
    if n > 0 {
        bodies_are_read(calls, n - 1);
        body_is_read(calls[n - 1]);
        assert(all_as_read(calls).take(n) =~= all_as_read(calls).take(n - 1).push(
            all_as_read(calls)[n - 1],
        ));
    } else {
        assert(all_as_read(calls).take(n) =~= Seq::empty());
    }
}

/// The first call behind content is found where it begins.
proof fn opening_is_found(content: Seq<char>, behind: Seq<char>)
    requires
        !text::contains(content, "<tool_call>"@),
    ensures
        text::find_from(
            content + lead(!text::is_blank(content)) + "<tool_call>"@ + behind,
            "<tool_call>"@,
            0,
        ) == Some((content + lead(!text::is_blank(content))).len() as int),
{
    literals();
    let open = "<tool_call>"@;
    let a = content + lead(!text::is_blank(content));
    if text::is_blank(content) {
        assert(a =~= content);
        reveal_strlit("<tool_call>");
        assert(!text::is_white('<'));
        assert forall|i: int| 0 <= i < a.len() implies #[trigger] a[i] != open[0] by {
            assert(text::is_white(content[i]));
        }
        first_after_others(a, open, behind);
    } else {
        clear_line(content, open);
        clear_line(content + nl(), open);
        assert(a =~= content + nl() + nl());
        first_after_line(a, open, behind);
    }
}

/// Content and the calls behind it, as the lead, the first call and the others.
proof fn calls_are_laid_out(content: Seq<char>, calls: Seq<FlatCallModel>)
    requires
        calls.len() > 0,
    ensures
        content + render::calls_text(calls, !text::is_blank(content), calls.len() as int) == content
            + lead(!text::is_blank(content)) + block_of(calls[0]) + blocks_from(calls, 1),
{
    literals();
    let n = calls.len() as int;
    let filled = !text::is_blank(content);
    let written = render::calls_text(calls, filled, n);
    calls_text_from_front(calls, filled, n);
    assert(written + blocks_from(calls, n) =~= written);
    assert(content + written =~= content + lead(filled) + block_of(calls[0]) + blocks_from(
        calls,
        1,
    ));
}

/// The calls that an assistant turn is shown with are read back from it: all of them,
/// in order, with their names and the raw text of each argument. What the calls and
/// the content before them may not hold is what opens or ends a call or a value.
#[verifier::spinoff_prover]
#[verifier::rlimit(40)]
pub proof fn calls_are_read_back(content: Seq<char>, calls: Seq<FlatCallModel>)
    requires
        calls.len() > 0,
        !text::contains(content, "<tool_call>"@),
        forall|k: int| 0 <= k < calls.len() ==> is_plain_call(#[trigger] calls[k]),
    ensures
        tool_call::calls_of(
            content + render::calls_text(calls, !text::is_blank(content), calls.len() as int),
        ) == all_as_read(calls),
{
    let n = calls.len() as int;
    let open = "<tool_call>"@;
    let a = content + lead(!text::is_blank(content));
    let rest = blocks_from(calls, 1);
    let s = content + render::calls_text(calls, !text::is_blank(content), n);
    calls_are_laid_out(content, calls);
    let behind = body_of(calls[0]) + "</tool_call>"@ + rest;
    assert(s =~= a + open + behind);
    opening_is_found(content, behind);
    one_body_is_found(a, calls[0], rest);
    bodies_are_found(calls, 1);
    assert(tool_call::tool_call_bodies(s) =~= bodies(calls)) by {
        assert(seq![body_of(calls[0])] + bodies(calls).skip(1) =~= bodies(calls));
    }
    assert(text::contains(s, open)) by {
        text::contains_is_found(s, open);
    }
    bodies_are_read(calls, n);
    assert(all_as_read(calls).take(n) =~= all_as_read(calls));
}

} // verus!
