//! The markers of a whole prompt: as many as there are payloads to ship, in the
//! order of the payloads.

use crate::conversation::ContentItem;
use crate::conversation::FunctionCallOutputBody;
use crate::conversation::FunctionCallOutputContentItem;
use crate::conversation::ResponseItem;
use crate::conversation::ToolSpec;
use crate::json;
use crate::json::JsonModel;
use crate::prompt;
use crate::render;
use crate::render::FlatCallModel;
use crate::render::RenderOptions;
use crate::render::TurnModel;
use crate::text;
use vstd::prelude::*;
use vstd::string::*;

verus! {

// ---------------------------------------------------------------------------
// Counting markers.

/// How many markers stand in `s`.
pub open spec fn marks(s: Seq<char>) -> nat
    decreases s.len(),
{
    if s.len() == 0 {
        0
    } else {
        marks(s.drop_last()) + if text::ends_in(s, prompt::media_marker()) {
            1nat
        } else {
            0nat
        }
    }
}

/// Whether no marker lies across the seam between `a` and `b`.
pub open spec fn apart(a: Seq<char>, b: Seq<char>) -> bool {
    forall|i: int|
        i < a.len() < i + prompt::media_marker().len() ==> !#[trigger] text::occurs_at(
            a + b,
            prompt::media_marker(),
            i,
        )
}

/// Whether a text that begins with `c` can follow any text without making up a
/// marker with it.
spec fn opens_clean(c: char) -> bool {
    c == '<' || text::is_white(c)
}

/// Whether a text that ends in `c` can stand before any text without making up a
/// marker with it.
spec fn closes_clean(c: char) -> bool {
    c == '>' || text::is_white(c)
}

proof fn marks_add_up(a: Seq<char>, b: Seq<char>)
    requires
        apart(a, b),
    ensures
        marks(a + b) == marks(a) + marks(b),
    decreases b.len(),
{
    reveal_strlit("<__media__>");
    let m = prompt::media_marker();
    if b.len() == 0 {
        assert(a + b =~= a);
    } else {
        let c = b.drop_last();
        assert((a + b).drop_last() =~= a + c);
        assert(apart(a, c)) by {
            assert forall|i: int| i < a.len() < i + m.len() implies !#[trigger] text::occurs_at(
                a + c,
                m,
                i,
            ) by {
                if text::occurs_at(a + c, m, i) {
                    assert((a + b).subrange(i, i + m.len()) =~= (a + c).subrange(i, i + m.len()));
                    assert(text::occurs_at(a + b, m, i));
                }
            }
        }
        marks_add_up(a, c);
        let all = a + b;
        let i = all.len() - m.len();
        if b.len() >= m.len() {
            assert(all.subrange(i, i + m.len()) =~= b.subrange(i - a.len(), i - a.len() + m.len()))
        } else {
            assert(!text::occurs_at(all, m, i));
            assert(!text::ends_in(b, m));
        }
    }
}

/// Nothing is made up at a seam where the second text opens clean.
proof fn apart_from_opening(a: Seq<char>, b: Seq<char>)
    requires
        b.len() == 0 || opens_clean(b[0]),
    ensures
        apart(a, b),
{
    reveal_strlit("<__media__>");
    let m = prompt::media_marker();
    assert forall|i: int| i < a.len() < i + m.len() implies !#[trigger] text::occurs_at(
        a + b,
        m,
        i,
    ) by {
        if text::occurs_at(a + b, m, i) {
            let k = a.len() - i;
            assert((a + b).subrange(i, i + m.len())[k] == b[0]);
        }
    }
}

/// Nothing is made up at a seam where the first text closes clean.
proof fn apart_from_closing(a: Seq<char>, b: Seq<char>)
    requires
        a.len() == 0 || closes_clean(a.last()),
    ensures
        apart(a, b),
{
    reveal_strlit("<__media__>");
    let m = prompt::media_marker();
    assert forall|i: int| i < a.len() < i + m.len() implies !#[trigger] text::occurs_at(
        a + b,
        m,
        i,
    ) by {
        if text::occurs_at(a + b, m, i) {
            let k = a.len() - i - 1;
            assert((a + b).subrange(i, i + m.len())[k] == a.last());
        }
    }
}

/// No marker is counted exactly where none stands.
proof fn no_marks(s: Seq<char>)
    ensures
        marks(s) == 0 <==> !text::contains(s, prompt::media_marker()),
    decreases s.len(),
{
    reveal_strlit("<__media__>");
    let m = prompt::media_marker();
    if s.len() > 0 {
        let t = s.drop_last();
        no_marks(t);
        if text::contains(t, m) {
            let i = choose|i: int| text::occurs_at(t, m, i);
            assert(s.subrange(i, i + m.len()) =~= t.subrange(i, i + m.len()));
            assert(text::occurs_at(s, m, i));
        }
        if text::contains(s, m) && !text::ends_in(s, m) {
            let i = choose|i: int| text::occurs_at(s, m, i);
            assert(t.subrange(i, i + m.len()) =~= s.subrange(i, i + m.len()));
            assert(text::occurs_at(t, m, i));
        }
    }
}

/// Two underscores that stand side by side among the first `n` characters.
spec fn has_pair(s: Seq<char>, n: int) -> bool
    decreases n,
{
    if n < 2 {
        false
    } else {
        (s[n - 2] == '_' && s[n - 1] == '_') || has_pair(s, n - 1)
    }
}

proof fn primer_has_no_pair()
    ensures
        !has_pair(render::primer_text(), render::primer_text().len() as int),
        opens_clean(render::primer_text()[0]),
{
    reveal_strlit(
        "<|im_start|>user\nBefore we start: confirm the working directory.<|im_end|>\n<|im_start|>assistant\n<think>\n\n</think>\n\n<tool_call>\n<function=exec_command>\n<parameter=cmd>\npwd\n</parameter>\n</function>\n</tool_call><|im_end|>\n<|im_start|>user\n<tool_response>\n(working directory confirmed)\n</tool_response><|im_end|>\n<|im_start|>assistant\n<think>\n\n</think>\n\nWorking directory confirmed.<|im_end|>\n",
    );
    reveal_with_fuel(has_pair, 81);
    let t = render::primer_text();
    assert(!has_pair(t, 80));
    assert(!has_pair(t, 160));
    assert(!has_pair(t, 240));
    assert(!has_pair(t, 320));
    assert(!has_pair(t, 390));
}

proof fn instructions_have_no_pair()
    ensures
        !has_pair(render::call_instructions(), render::call_instructions().len() as int),
        opens_clean(render::call_instructions()[0]),
{
    reveal_strlit(
        "\n\nIf you choose to call a function ONLY reply in the following format with NO suffix:\n\n<tool_call>\n<function=example_function_name>\n<parameter=example_parameter_1>\nvalue_1\n</parameter>\n<parameter=example_parameter_2>\nThis is the value for the second parameter\nthat can span\nmultiple lines\n</parameter>\n</function>\n</tool_call>\n\n<IMPORTANT>\nReminder:\n- Function calls MUST follow the specified format: an inner <function=...></function> block must be nested within <tool_call></tool_call> XML tags\n- Required parameters MUST be specified\n- You may provide optional reasoning for your function call in natural language BEFORE the function call, but NOT after\n- If there is no function call available, answer the question like normal with your current knowledge and do not tell the user about function calls\n</IMPORTANT>",
    );
    reveal_with_fuel(has_pair, 81);
    let t = render::call_instructions();
    assert(!has_pair(t, 80));
    assert(!has_pair(t, 160));
    assert(!has_pair(t, 240));
    assert(!has_pair(t, 320));
    assert(!has_pair(t, 400));
    assert(!has_pair(t, 480));
    assert(!has_pair(t, 560));
    assert(!has_pair(t, 640));
    assert(!has_pair(t, 720));
    assert(!has_pair(t, 800));
    assert(!has_pair(t, 817));
}

proof fn no_pair_no_marks(s: Seq<char>)
    requires
        !has_pair(s, s.len() as int),
    ensures
        marks(s) == 0,
{
    reveal_strlit("<__media__>");
    no_marks(s);
    if text::contains(s, prompt::media_marker()) {
        let i = choose|i: int| text::occurs_at(s, prompt::media_marker(), i);
        let here = s.subrange(i, i + prompt::media_marker().len());
        assert(here[1] == s[i + 1] && here[2] == s[i + 2]);
        pair_is_found(s, i + 3, s.len() as int);
    }
}

proof fn pair_is_found(s: Seq<char>, i: int, n: int)
    requires
        2 <= i <= n,
        s[i - 2] == '_',
        s[i - 1] == '_',
    ensures
        has_pair(s, n),
    decreases n,
{
    if i < n {
        pair_is_found(s, i, n - 1);
    }
}

/// The markers of two texts, where one of them is clean at the seam.
proof fn marks_join(a: Seq<char>, b: Seq<char>)
    requires
        b.len() == 0 || opens_clean(b[0]) || a.len() == 0 || closes_clean(a.last()),
    ensures
        marks(a + b) == marks(a) + marks(b),
{
    if b.len() == 0 || opens_clean(b[0]) {
        apart_from_opening(a, b);
    } else {
        apart_from_closing(a, b);
    }
    marks_add_up(a, b);
}

proof fn blank_has_no_marks(s: Seq<char>)
    requires
        text::is_blank(s),
    ensures
        marks(s) == 0,
{
    reveal_strlit("<__media__>");
    no_marks(s);
    if text::contains(s, prompt::media_marker()) {
        let i = choose|i: int| text::occurs_at(s, prompt::media_marker(), i);
        assert(s.subrange(i, i + prompt::media_marker().len())[0] == s[i]);
    }
}

proof fn trim_start_keeps_marks(s: Seq<char>)
    ensures
        marks(text::trim_start(s)) == marks(s),
{
    text::trim_start_shape(s);
    let lead = text::trim_start(s);
    let white = s.take(s.len() - lead.len());
    assert(s =~= white + lead);
    blank_has_no_marks(white);
    marks_join(white, lead);
}

/// Trimming takes no marker away and makes none.
proof fn trim_keeps_marks(s: Seq<char>)
    ensures
        marks(text::trim(s)) == marks(s),
{
    trim_start_keeps_marks(s);
    let lead = text::trim_start(s);
    text::trim_end_shape(lead);
    let t = text::trim_end(lead);
    let after = lead.skip(t.len() as int);
    assert(lead =~= t + after);
    blank_has_no_marks(after);
    marks_join(t, after);
}

// ---------------------------------------------------------------------------
// Messages and results.

/// Whether the part at `k` makes up no marker with the parts before it. Only
/// text that follows text can.
pub open spec fn seam_is_clear(items: Seq<ContentItem>, k: int) -> bool {
    match items[k] {
        ContentItem::InputText { text } => apart(
            prompt::marked_text(items, k),
            prompt::sanitized(text@),
        ),
        ContentItem::OutputText { text } => apart(
            prompt::marked_text(items, k),
            prompt::sanitized(text@),
        ),
        ContentItem::InputImage { .. } => true,
    }
}

pub open spec fn seams_are_clear(items: Seq<ContentItem>) -> bool {
    forall|k: int| 0 <= k < items.len() ==> #[trigger] seam_is_clear(items, k)
}

proof fn marker_is_one_mark()
    ensures
        marks(prompt::media_marker()) == 1,
        prompt::media_marker().len() > 0,
        prompt::media_marker()[0] == '<',
        prompt::media_marker().last() == '>',
{
    reveal_strlit("<__media__>");
    let m = prompt::media_marker();
    let t = m.drop_last();
    no_marks(t);
    assert(m.subrange(0, m.len() as int) =~= m);
}

/// The text of a message holds as many markers as the message has payloads, up
/// to each of its parts: so the markers come in the order of the payloads.
pub proof fn message_marks_match(items: Seq<ContentItem>, n: int)
    requires
        0 <= n <= items.len(),
        seams_are_clear(items),
    ensures
        marks(prompt::marked_text(items, n)) == prompt::message_media(items, n).len(),
    decreases n,
{
    if n > 0 {
        message_marks_match(items, n - 1);
        let before = prompt::marked_text(items, n - 1);
        assert(seam_is_clear(items, n - 1));
        match items[n - 1] {
            ContentItem::InputText { text } => {
                prompt::sanitized_text_has_no_marker(text@);
                no_marks(prompt::sanitized(text@));
                marks_add_up(before, prompt::sanitized(text@));
            },
            ContentItem::OutputText { text } => {
                prompt::sanitized_text_has_no_marker(text@);
                no_marks(prompt::sanitized(text@));
                marks_add_up(before, prompt::sanitized(text@));
            },
            ContentItem::InputImage { image_url, .. } => {
                marker_is_one_mark();
                marks_join(before, prompt::media_marker());
            },
        }
    }
}

proof fn one_more_piece(pieces: Seq<Seq<char>>, piece: Seq<char>)
    ensures
        marks(text::join(pieces.push(piece), "\n"@)) == marks(text::join(pieces, "\n"@)) + marks(
            piece,
        ),
{
    reveal_strlit("\n");
    let all = pieces.push(piece);
    let sep = "\n"@;
    assert(all.drop_last() =~= pieces);
    if pieces.len() > 0 {
        let before = text::join(pieces, sep);
        blank_has_no_marks(sep);
        marks_join(before, sep);
        marks_join(before + sep, piece);
    }
}

/// The same of a tool's output.
pub proof fn output_marks_match(items: Seq<FunctionCallOutputContentItem>, n: int)
    requires
        0 <= n <= items.len(),
    ensures
        marks(text::join(prompt::output_pieces(items, n), "\n"@)) == prompt::output_media(
            items,
            n,
        ).len(),
    decreases n,
{
    if n > 0 {
        output_marks_match(items, n - 1);
        let before = prompt::output_pieces(items, n - 1);
        match items[n - 1] {
            FunctionCallOutputContentItem::InputText { text } => {
                prompt::sanitized_text_has_no_marker(text@);
                no_marks(prompt::sanitized(text@));
                one_more_piece(before, prompt::sanitized(text@));
            },
            FunctionCallOutputContentItem::InputImage { .. } => {
                marker_is_one_mark();
                one_more_piece(before, prompt::media_marker());
            },
        }
    }
}

// ---------------------------------------------------------------------------
// Turns.

/// The markers in what a turn says.
spec fn turn_marks(turn: TurnModel) -> nat {
    match turn {
        TurnModel::System(_) => 0,
        TurnModel::User(t) => marks(t),
        TurnModel::Assistant { content, .. } => marks(content),
        TurnModel::ToolResult(t) => marks(t),
    }
}

spec fn turns_marks(turns: Seq<TurnModel>, n: int) -> nat
    decreases n,
{
    if n <= 0 {
        0
    } else {
        turns_marks(turns, n - 1) + turn_marks(turns[n - 1])
    }
}

/// A call as it stands in the prompt.
pub open spec fn call_text(call: FlatCallModel) -> Seq<char> {
    render::calls_text(seq![call], false, 1)
}

/// Whether no call holds a marker.
pub open spec fn calls_are_clear(calls: Seq<FlatCallModel>) -> bool {
    forall|k: int|
        0 <= k < calls.len() ==> !text::contains(
            call_text(#[trigger] calls[k]),
            prompt::media_marker(),
        )
}

/// Whether the calls of a turn, and its reasoning where that is shown, hold no
/// marker of their own.
pub open spec fn turn_is_clear(turn: TurnModel, with_reasoning: bool) -> bool {
    match turn {
        TurnModel::Assistant { reasoning, tool_calls, .. } => {
            &&& with_reasoning ==> (reasoning matches Some(r) ==> !text::contains(
                r,
                prompt::media_marker(),
            ))
            &&& calls_are_clear(tool_calls)
        },
        _ => true,
    }
}

/// Whether the reasoning of the turn at `i` is shown.
pub open spec fn reasoning_is_shown(last_query: Option<int>, i: int) -> bool {
    match last_query {
        Some(q) => i > q,
        None => true,
    }
}

pub open spec fn turns_are_clear(turns: Seq<TurnModel>, last_query: Option<int>) -> bool {
    forall|i: int|
        0 <= i < turns.len() ==> turn_is_clear(
            #[trigger] turns[i],
            reasoning_is_shown(last_query, i),
        )
}

/// What a call is written as behind its opening tags.
spec fn call_rest(c: FlatCallModel) -> Seq<char> {
    c.name + ">\n"@ + render::parameters_text(c.arguments, c.arguments.len() as int)
        + "</function>\n</tool_call>"@
}

proof fn calls_have_no_marks(calls: Seq<FlatCallModel>, after_content: bool, n: int)
    requires
        0 <= n <= calls.len(),
        calls_are_clear(calls),
    ensures
        marks(render::calls_text(calls, after_content, n)) == 0,
        ({
            let t = render::calls_text(calls, after_content, n);
            t.len() == 0 || opens_clean(t[0])
        }),
    decreases n,
{
    reveal_strlit("\n<tool_call>\n<function=");
    reveal_strlit("\n\n<tool_call>\n<function=");
    reveal_strlit("<tool_call>\n<function=");
    if n > 0 {
        calls_have_no_marks(calls, after_content, n - 1);
        let before = render::calls_text(calls, after_content, n - 1);
        let c = calls[n - 1];
        let one = call_text(c);
        let rest = call_rest(c);
        assert(render::calls_text(seq![c], false, 0) =~= Seq::empty());
        assert(one =~= "<tool_call>\n<function="@ + rest);
        no_marks(one);
        let space: Seq<char> = if n > 1 {
            seq!['\n']
        } else if after_content {
            seq!['\n', '\n']
        } else {
            Seq::empty()
        };
        blank_has_no_marks(space);
        marks_join(space, one);
        assert(render::calls_text(calls, after_content, n) =~= before + (space + one));
        marks_join(before, space + one);
        let all = render::calls_text(calls, after_content, n);
        if before.len() > 0 {
            assert(all[0] == before[0]);
        } else {
            assert(all =~= space + one);
            assert(all[0] == '\n' || all[0] == '<');
        }
    }
}

/// The fixed texts around what a turn says.
proof fn frames_are_clean()
    ensures
        marks("<|im_start|>system\n"@) == 0 && closes_clean("<|im_start|>system\n"@.last()),
        marks("<|im_start|>user\n"@) == 0 && closes_clean("<|im_start|>user\n"@.last()),
        marks("<|im_start|>user"@) == 0,
        marks("<|im_start|>assistant\n"@) == 0 && closes_clean("<|im_start|>assistant\n"@.last()),
        marks("<|im_end|>\n"@) == 0 && opens_clean("<|im_end|>\n"@[0]),
        "<|im_start|>user\n"@.len() > 0 && opens_clean("<|im_start|>user\n"@[0]),
        "<|im_start|>user"@.len() > 0 && opens_clean("<|im_start|>user"@[0]),
        "<|im_start|>assistant\n"@.len() > 0 && opens_clean("<|im_start|>assistant\n"@[0]),
{
    reveal_strlit("<|im_start|>system\n");
    reveal_strlit("<|im_start|>user\n");
    reveal_strlit("<|im_start|>user");
    reveal_strlit("<|im_start|>assistant\n");
    reveal_strlit("<|im_end|>\n");
    reveal_with_fuel(has_pair, 24);
    no_pair_no_marks("<|im_start|>system\n"@);
    no_pair_no_marks("<|im_start|>user\n"@);
    no_pair_no_marks("<|im_start|>user"@);
    no_pair_no_marks("<|im_start|>assistant\n"@);
    no_pair_no_marks("<|im_end|>\n"@);
}

proof fn reasoning_has_no_marks(reasoning: Option<Seq<char>>)
    requires
        reasoning matches Some(r) ==> !text::contains(r, prompt::media_marker()),
    ensures
        ({
            let shown = "<think>\n"@ + text::trim(
                match reasoning {
                    Some(r) => r,
                    None => Seq::empty(),
                },
            ) + "\n</think>\n\n"@;
            marks(shown) == 0 && shown.len() > 0 && opens_clean(shown[0]) && closes_clean(
                shown.last(),
            )
        }),
{
    reveal_strlit("<think>\n");
    reveal_strlit("\n</think>\n\n");
    reveal_with_fuel(has_pair, 16);
    no_pair_no_marks("<think>\n"@);
    no_pair_no_marks("\n</think>\n\n"@);
    let r = match reasoning {
        Some(r) => r,
        None => Seq::empty(),
    };
    no_marks(r);
    trim_keeps_marks(r);
    marks_join("<think>\n"@, text::trim(r));
    marks_join("<think>\n"@ + text::trim(r), "\n</think>\n\n"@);
}

proof fn assistant_marks(
    content: Seq<char>,
    reasoning: Option<Seq<char>>,
    calls: Seq<FlatCallModel>,
    with_reasoning: bool,
)
    requires
        turn_is_clear(
            TurnModel::Assistant { content, reasoning, tool_calls: calls },
            with_reasoning,
        ),
    ensures
        marks(render::assistant_text(content, reasoning, calls, with_reasoning)) == marks(content),
        ({
            let t = render::assistant_text(content, reasoning, calls, with_reasoning);
            t.len() > 0 && opens_clean(t[0])
        }),
{
    frames_are_clean();
    let head = "<|im_start|>assistant\n"@;
    let end = "<|im_end|>\n"@;
    let thought = if with_reasoning {
        reasoning_has_no_marks(reasoning);
        "<think>\n"@ + text::trim(
            match reasoning {
                Some(r) => r,
                None => Seq::empty(),
            },
        ) + "\n</think>\n\n"@
    } else {
        Seq::empty()
    };
    let after = !text::is_blank(content);
    let called = render::calls_text(calls, after, calls.len() as int);
    calls_have_no_marks(calls, after, calls.len() as int);
    marks_join(head, thought);
    assert(closes_clean((head + thought).last()));
    marks_join(head + thought, content);
    marks_join(head + thought + content, called);
    marks_join(head + thought + content + called, end);
    assert(render::assistant_text(content, reasoning, calls, with_reasoning) == head + thought
        + content + called + end);
}

proof fn result_marks(output: Seq<char>)
    ensures
        marks(render::result_text(output)) == marks(output),
        render::result_text(output).len() > 0,
        opens_clean(render::result_text(output)[0]),
{
    reveal_strlit("\n<tool_response>\n");
    reveal_strlit("\n</tool_response>");
    reveal_with_fuel(has_pair, 20);
    no_pair_no_marks("\n<tool_response>\n"@);
    no_pair_no_marks("\n</tool_response>"@);
    marks_join("\n<tool_response>\n"@, output);
    marks_join("\n<tool_response>\n"@ + output, "\n</tool_response>"@);
}

proof fn turn_text_marks(turns: Seq<TurnModel>, i: int, last_query: Option<int>)
    requires
        0 <= i < turns.len(),
        turns_are_clear(turns, last_query),
    ensures
        marks(render::turn_text(turns, i, last_query)) == turn_marks(turns[i]),
        ({
            let t = render::turn_text(turns, i, last_query);
            t.len() == 0 || opens_clean(t[0])
        }),
{
    frames_are_clean();
    let end = "<|im_end|>\n"@;
    match turns[i] {
        TurnModel::System(_) => {},
        TurnModel::User(t) => {
            marks_join("<|im_start|>user\n"@, t);
            marks_join("<|im_start|>user\n"@ + t, end);
        },
        TurnModel::Assistant { content, reasoning, tool_calls } => {
            assistant_marks(content, reasoning, tool_calls, reasoning_is_shown(last_query, i));
        },
        TurnModel::ToolResult(output) => {
            let open = if i > 0 && turns[i - 1] is ToolResult {
                Seq::empty()
            } else {
                "<|im_start|>user"@
            };
            let close = if i + 1 < turns.len() && turns[i + 1] is ToolResult {
                Seq::empty()
            } else {
                end
            };
            result_marks(output);
            marks_join(open, render::result_text(output));
            marks_join(open + render::result_text(output), close);
            assert(render::turn_text(turns, i, last_query) == open + render::result_text(output)
                + close);
        },
    }
}

proof fn history_marks(turns: Seq<TurnModel>, last_query: Option<int>, n: int)
    requires
        0 <= n <= turns.len(),
        turns_are_clear(turns, last_query),
    ensures
        marks(render::history_text(turns, last_query, n)) == turns_marks(turns, n),
        ({
            let t = render::history_text(turns, last_query, n);
            t.len() == 0 || opens_clean(t[0])
        }),
    decreases n,
{
    if n > 0 {
        history_marks(turns, last_query, n - 1);
        turn_text_marks(turns, n - 1, last_query);
        marks_join(
            render::history_text(turns, last_query, n - 1),
            render::turn_text(turns, n - 1, last_query),
        );
    }
}

// ---------------------------------------------------------------------------
// What comes before the history.

/// Whether the declared tools hold no marker.
pub open spec fn tools_are_clear(tools: Seq<JsonModel>) -> bool {
    forall|k: int|
        0 <= k < tools.len() ==> !text::contains(
            json::text_of(#[trigger] tools[k]),
            prompt::media_marker(),
        )
}

proof fn declared_tools_marks(tools: Seq<JsonModel>, n: int)
    requires
        0 <= n <= tools.len(),
        tools_are_clear(tools),
    ensures
        marks(render::declared_tools(tools, n)) == 0,
    decreases n,
{
    if n > 0 {
        declared_tools_marks(tools, n - 1);
        let before = render::declared_tools(tools, n - 1);
        let line = seq!['\n'];
        let tool = json::text_of(tools[n - 1]);
        blank_has_no_marks(line);
        no_marks(tool);
        marks_join(before, line);
        assert((before + line).last() == '\n');
        marks_join(before + line, tool);
    }
}

proof fn tools_block_marks(tools: Seq<JsonModel>)
    requires
        tools_are_clear(tools),
    ensures
        marks(render::tools_block_text(tools)) == 0,
{
    let head = "# Tools\n\nYou have access to the following functions:\n\n<tools>"@;
    let end = "\n</tools>"@;
    let listed = render::declared_tools(tools, tools.len() as int);
    assert(marks(head) == 0 && head.len() > 0 && closes_clean(head.last())) by {
        reveal_strlit("# Tools\n\nYou have access to the following functions:\n\n<tools>");
        reveal_with_fuel(has_pair, 64);
        no_pair_no_marks(head);
    }
    assert(marks(end) == 0 && end.len() > 0 && opens_clean(end[0])) by {
        reveal_strlit("\n</tools>");
        reveal_with_fuel(has_pair, 12);
        no_pair_no_marks(end);
    }
    declared_tools_marks(tools, tools.len() as int);
    instructions_have_no_pair();
    no_pair_no_marks(render::call_instructions());
    marks_join(head, listed);
    marks_join(head + listed, end);
    marks_join(head + listed + end, render::call_instructions());
}

/// What stands in the system turn besides the tools.
spec fn system_text(instructions: Seq<char>, leading_system: Option<Seq<char>>) -> Seq<char> {
    if !text::is_blank(instructions) {
        instructions
    } else {
        match leading_system {
            Some(t) => t,
            None => Seq::empty(),
        }
    }
}

proof fn preamble_marks(
    instructions: Seq<char>,
    leading_system: Option<Seq<char>>,
    tools: Seq<ToolSpec>,
    options: RenderOptions,
)
    requires
        options.tools_block ==> tools_are_clear(prompt::flattened(tools, tools.len() as int)),
    ensures
        marks(render::preamble_text(instructions, leading_system, tools, options)) == marks(
            system_text(instructions, leading_system),
        ),
{
    frames_are_clean();
    let head = "<|im_start|>system\n"@;
    let end = "<|im_end|>\n"@;
    let system = system_text(instructions, leading_system);
    trim_keeps_marks(system);
    if tools.len() > 0 {
        let block = if options.tools_block {
            tools_block_marks(prompt::flattened(tools, tools.len() as int));
            render::tools_block_text(prompt::flattened(tools, tools.len() as int))
        } else {
            Seq::empty()
        };
        reveal_strlit("\n\n");
        blank_has_no_marks("\n\n"@);
        let said = if !text::is_blank(system) {
            marks_join("\n\n"@, text::trim(system));
            "\n\n"@ + text::trim(system)
        } else {
            blank_has_no_marks(system);
            Seq::empty()
        };
        marks_join(head, block);
        marks_join(head + block, said);
        marks_join(head + block + said, end);
        assert(render::preamble_text(instructions, leading_system, tools, options) == head + block
            + said + end);
    } else if !text::is_blank(instructions) || leading_system is Some {
        marks_join(head, text::trim(system));
        marks_join(head + text::trim(system), end);
    }
}

proof fn prefix_marks(
    instructions: Seq<char>,
    leading_system: Option<Seq<char>>,
    tools: Seq<ToolSpec>,
    options: RenderOptions,
)
    requires
        options.tools_block ==> tools_are_clear(prompt::flattened(tools, tools.len() as int)),
    ensures
        marks(render::prefix_text(instructions, leading_system, tools, options)) == marks(
            system_text(instructions, leading_system),
        ),
{
    preamble_marks(instructions, leading_system, tools, options);
    let preamble = render::preamble_text(instructions, leading_system, tools, options);
    let primer = if tools.len() > 0 && options.format_primer {
        primer_has_no_pair();
        no_pair_no_marks(render::primer_text());
        render::primer_text()
    } else {
        Seq::empty()
    };
    marks_join(preamble, primer);
}

// ---------------------------------------------------------------------------
// The whole prompt.

proof fn same_turns_same_marks(a: Seq<TurnModel>, b: Seq<TurnModel>, n: int)
    requires
        forall|i: int| 0 <= i < n ==> turn_marks(#[trigger] a[i]) == turn_marks(b[i]),
    ensures
        turns_marks(a, n) == turns_marks(b, n),
    decreases n,
{
    if n > 0 {
        same_turns_same_marks(a, b, n - 1);
    }
}

/// Whether no message that the prompt shows makes up a marker out of its parts.
pub open spec fn messages_are_clear(instructions: Seq<char>, input: Seq<ResponseItem>) -> bool {
    forall|i: int|
        0 <= i < input.len() && prompt::is_shown(instructions, input, i) ==> (
        #[trigger] input[i] matches ResponseItem::Message { content, .. } ==> seams_are_clear(
            content@,
        ))
}

/// The markers in what turns say, a leading system turn that is shown among them.
spec fn item_marks(instructions: Seq<char>, turns: Seq<TurnModel>) -> nat {
    turns_marks(turns, turns.len() as int) + if text::is_blank(instructions) {
        marks(system_text(instructions, render::leading_system_of(turns)))
    } else {
        0
    }
}

proof fn items_marks_match(instructions: Seq<char>, input: Seq<ResponseItem>, n: int)
    requires
        0 <= n <= input.len(),
        messages_are_clear(instructions, input),
    ensures
        render::turns_of(input, n).len() == 0 <==> prompt::no_turn_before(input, n),
        item_marks(instructions, render::turns_of(input, n)) == prompt::media_of(
            instructions,
            input,
            n,
        ).len(),
    decreases n,
{
    let after = render::turns_of(input, n);
    if n > 0 {
        items_marks_match(instructions, input, n - 1);
        let before = render::turns_of(input, n - 1);
        let item = input[n - 1];
        let k = before.len() as int;
        match item {
            ResponseItem::Message { content, .. } => {
                if prompt::is_shown(instructions, input, n - 1) {
                    message_marks_match(content@, content@.len() as int);
                }
                same_turns_same_marks(after, before, k);
            },
            ResponseItem::Reasoning { .. } => {
                same_turns_same_marks(after, before, k);
            },
            ResponseItem::FunctionCall { .. } => {
                if k > 0 && before.last() is Assistant {
                    same_turns_same_marks(after, before, k);
                } else {
                    same_turns_same_marks(after, before, k);
                }
            },
            ResponseItem::FunctionCallOutput { body, .. } => {
                same_turns_same_marks(after, before, k);
                match body {
                    FunctionCallOutputBody::Text(t) => {
                        prompt::sanitized_text_has_no_marker(t@);
                        no_marks(prompt::sanitized(t@));
                    },
                    FunctionCallOutputBody::ContentItems(items) => {
                        output_marks_match(items@, items@.len() as int);
                    },
                }
            },
            ResponseItem::ToolActivity | ResponseItem::Other => {},
        }
        assert(prompt::no_turn_before(input, n) <==> prompt::no_turn_before(input, n - 1)
            && !prompt::has_turn(item));
    } else {
        assert(item_marks(instructions, after) == 0);
    }
}

/// Whether every marker of the prompt stands for an image: none is spelled out by
/// the instructions, the declared tools, a call or reasoning that is shown, and
/// no message makes one up out of neighbouring texts.
pub open spec fn is_clear(
    instructions: Seq<char>,
    input: Seq<ResponseItem>,
    tools: Seq<ToolSpec>,
    options: RenderOptions,
) -> bool {
    let turns = render::turns_of(input, input.len() as int);
    &&& !text::contains(instructions, prompt::media_marker())
    &&& options.tools_block ==> tools_are_clear(prompt::flattened(tools, tools.len() as int))
    &&& messages_are_clear(instructions, input)
    &&& turns_are_clear(turns, render::last_user_turn(turns, turns.len() as int))
}

/// Later items leave what earlier turns say as it is.
proof fn earlier_turns_keep_marks(input: Seq<ResponseItem>, n: int, m: int)
    requires
        0 <= n <= m <= input.len(),
    ensures
        render::turns_of(input, n).len() <= render::turns_of(input, m).len(),
        forall|i: int|
            0 <= i < render::turns_of(input, n).len() ==> turn_marks(
                #[trigger] render::turns_of(input, n)[i],
            ) == turn_marks(render::turns_of(input, m)[i]),
        render::turns_of(input, n).len() > 0 ==> render::leading_system_of(
            render::turns_of(input, n),
        ) == render::leading_system_of(render::turns_of(input, m)),
    decreases m - n,
{
    if n < m {
        earlier_turns_keep_marks(input, n, m - 1);
    }
}

/// The prompt up to the end of the turns that the first `n` items have a part
/// in.
pub open spec fn prompt_upto(
    instructions: Seq<char>,
    input: Seq<ResponseItem>,
    tools: Seq<ToolSpec>,
    options: RenderOptions,
    n: int,
) -> Seq<char> {
    let turns = render::turns_of(input, input.len() as int);
    render::prefix_text(instructions, render::leading_system_of(turns), tools, options)
        + render::history_text(
        turns,
        render::last_user_turn(turns, turns.len() as int),
        render::turns_of(input, n).len() as int,
    )
}

/// Markers and payloads of a whole prompt agree in number and order: up to any
/// item that has a place in the prompt, as many markers stand there as payloads
/// are collected up to that item, and the same holds of all of it.
pub proof fn markers_match_payloads(
    instructions: Seq<char>,
    input: Seq<ResponseItem>,
    tools: Seq<ToolSpec>,
    options: RenderOptions,
    n: int,
)
    requires
        0 <= n <= input.len(),
        is_clear(instructions, input, tools, options),
    ensures
        !prompt::no_turn_before(input, n) ==> marks(
            prompt_upto(instructions, input, tools, options, n),
        ) == prompt::media_of(instructions, input, n).len(),
        marks(render::prompt_text(instructions, input, tools, options)) == prompt::media_of(
            instructions,
            input,
            input.len() as int,
        ).len(),
{
    let m = input.len() as int;
    upto_marks(instructions, input, tools, options, n);
    upto_marks(instructions, input, tools, options, m);
    let suffix = render::generation_suffix();
    assert(marks(suffix) == 0 && suffix.len() > 0 && opens_clean(suffix[0])) by {
        reveal_strlit("<|im_start|>assistant\n<think>\n");
        reveal_with_fuel(has_pair, 32);
        no_pair_no_marks(suffix);
    }
    let whole = prompt_upto(instructions, input, tools, options, m);
    marks_join(whole, suffix);
    assert(render::prompt_text(instructions, input, tools, options) == whole + suffix);
}

proof fn upto_marks(
    instructions: Seq<char>,
    input: Seq<ResponseItem>,
    tools: Seq<ToolSpec>,
    options: RenderOptions,
    n: int,
)
    requires
        0 <= n <= input.len(),
        is_clear(instructions, input, tools, options),
    ensures
        !prompt::no_turn_before(input, n) || n == input.len() ==> marks(
            prompt_upto(instructions, input, tools, options, n),
        ) == prompt::media_of(instructions, input, n).len(),
{
    let turns = render::turns_of(input, input.len() as int);
    let first = render::turns_of(input, n);
    let last_query = render::last_user_turn(turns, turns.len() as int);
    let leading = render::leading_system_of(turns);
    let k = first.len() as int;
    earlier_turns_keep_marks(input, n, input.len() as int);
    same_turns_same_marks(first, turns, k);
    items_marks_match(instructions, input, n);
    prefix_marks(instructions, leading, tools, options);
    history_marks(turns, last_query, k);
    no_marks(instructions);
    marks_join(
        render::prefix_text(instructions, leading, tools, options),
        render::history_text(turns, last_query, k),
    );
}

// ---------------------------------------------------------------------------
// Each image and its marker.

/// What an item says in its turn.
pub open spec fn said(item: ResponseItem) -> Seq<char> {
    match item {
        ResponseItem::Message { content, .. } => prompt::marked_text(
            content@,
            content@.len() as int,
        ),
        ResponseItem::FunctionCallOutput { body, .. } => prompt::output_text(body),
        _ => Seq::empty(),
    }
}

/// Whether an item says something in a turn of the history.
pub open spec fn speaks(item: ResponseItem) -> bool {
    item is FunctionCallOutput || (item is Message && !prompt::is_system(item))
}

/// What stands in a turn before what it says.
pub open spec fn turn_head(turns: Seq<TurnModel>, i: int, last_query: Option<int>) -> Seq<char> {
    match turns[i] {
        TurnModel::System(_) => Seq::empty(),
        TurnModel::User(_) => "<|im_start|>user\n"@,
        TurnModel::Assistant { reasoning, .. } => "<|im_start|>assistant\n"@
            + if reasoning_is_shown(last_query, i) {
            "<think>\n"@ + text::trim(
                match reasoning {
                    Some(r) => r,
                    None => Seq::empty(),
                },
            ) + "\n</think>\n\n"@
        } else {
            Seq::empty()
        },
        TurnModel::ToolResult(_) => (if i > 0 && turns[i - 1] is ToolResult {
            Seq::empty()
        } else {
            "<|im_start|>user"@
        }) + "\n<tool_response>\n"@,
    }
}

spec fn turn_says(turn: TurnModel) -> Seq<char> {
    match turn {
        TurnModel::System(_) => Seq::empty(),
        TurnModel::User(t) => t,
        TurnModel::Assistant { content, .. } => content,
        TurnModel::ToolResult(t) => t,
    }
}

/// The prompt up to what the item at `n` says.
pub open spec fn before_said(
    instructions: Seq<char>,
    input: Seq<ResponseItem>,
    tools: Seq<ToolSpec>,
    options: RenderOptions,
    n: int,
) -> Seq<char> {
    let turns = render::turns_of(input, input.len() as int);
    prompt_upto(instructions, input, tools, options, n) + turn_head(
        turns,
        render::turns_of(input, n).len() as int,
        render::last_user_turn(turns, turns.len() as int),
    )
}

proof fn head_is_clean(turns: Seq<TurnModel>, i: int, last_query: Option<int>)
    requires
        0 <= i < turns.len(),
        turns_are_clear(turns, last_query),
    ensures
        marks(turn_head(turns, i, last_query)) == 0,
        ({
            let h = turn_head(turns, i, last_query);
            h.len() == 0 || (opens_clean(h[0]) && closes_clean(h.last()))
        }),
        !(turns[i] is System) ==> turn_head(turns, i, last_query).len() > 0,
        text::begins_with(
            render::turn_text(turns, i, last_query),
            turn_head(turns, i, last_query) + turn_says(turns[i]),
        ),
{
    frames_are_clean();
    let h = turn_head(turns, i, last_query);
    let all = render::turn_text(turns, i, last_query);
    let front = h + turn_says(turns[i]);
    match turns[i] {
        TurnModel::System(_) => {},
        TurnModel::User(_) => {},
        TurnModel::Assistant { content, reasoning, tool_calls } => {
            let head = "<|im_start|>assistant\n"@;
            let thought = if reasoning_is_shown(last_query, i) {
                reasoning_has_no_marks(reasoning);
                "<think>\n"@ + text::trim(
                    match reasoning {
                        Some(r) => r,
                        None => Seq::empty(),
                    },
                ) + "\n</think>\n\n"@
            } else {
                Seq::empty()
            };
            marks_join(head, thought);
            assert(h == head + thought);
        },
        TurnModel::ToolResult(output) => {
            let open = if i > 0 && turns[i - 1] is ToolResult {
                Seq::empty()
            } else {
                "<|im_start|>user"@
            };
            let tag = "\n<tool_response>\n"@;
            reveal_strlit("\n<tool_response>\n");
            reveal_with_fuel(has_pair, 20);
            no_pair_no_marks(tag);
            marks_join(open, tag);
            assert(h == open + tag);
        },
    }
    assert(all.subrange(0, front.len() as int) =~= front);
}

/// The turn of an item that says something.
proof fn turn_of_item(input: Seq<ResponseItem>, n: int, m: int)
    requires
        0 <= n < m <= input.len(),
        speaks(input[n]),
    ensures
        ({
            let t = render::turns_of(input, n).len() as int;
            let turns = render::turns_of(input, m);
            t < turns.len() && !(turns[t] is System) && turn_says(turns[t]) == said(input[n])
        }),
    decreases m,
{
    if m > n + 1 {
        turn_of_item(input, n, m - 1);
    }
}

proof fn history_goes_on(turns: Seq<TurnModel>, last_query: Option<int>, i: int, n: int)
    requires
        0 <= i <= n,
    ensures
        text::begins_with(
            render::history_text(turns, last_query, n),
            render::history_text(turns, last_query, i),
        ),
    decreases n,
{
    let front = render::history_text(turns, last_query, i);
    let all = render::history_text(turns, last_query, n);
    if i < n {
        history_goes_on(turns, last_query, i, n - 1);
        let before = render::history_text(turns, last_query, n - 1);
        assert(all.subrange(0, front.len() as int) =~= before.subrange(0, front.len() as int));
    } else {
        assert(all.subrange(0, all.len() as int) =~= all);
    }
}

proof fn payloads_go_on(instructions: Seq<char>, input: Seq<ResponseItem>, n: int, m: int)
    requires
        0 <= n <= m <= input.len(),
    ensures
        prompt::media_of(instructions, input, n).is_prefix_of(
            prompt::media_of(instructions, input, m),
        ),
    decreases m,
{
    if n < m {
        payloads_go_on(instructions, input, n, m - 1);
    }
}

/// What an item says stands in the prompt behind as many markers as there are
/// payloads before its own.
proof fn item_stands_behind_its_markers(
    instructions: Seq<char>,
    input: Seq<ResponseItem>,
    tools: Seq<ToolSpec>,
    options: RenderOptions,
    n: int,
)
    requires
        0 <= n < input.len(),
        speaks(input[n]),
        is_clear(instructions, input, tools, options),
    ensures
        ({
            let before = before_said(instructions, input, tools, options, n);
            let payloads = prompt::media_of(instructions, input, n);
            &&& text::begins_with(
                render::prompt_text(instructions, input, tools, options),
                before + said(input[n]),
            )
            &&& marks(before) == payloads.len()
            &&& (payloads + prompt::item_media(input[n])).is_prefix_of(
                prompt::media_of(instructions, input, input.len() as int),
            )
            &&& before.len() > 0 && closes_clean(before.last())
        }),
{
    let turns = render::turns_of(input, input.len() as int);
    let last_query = render::last_user_turn(turns, turns.len() as int);
    let leading = render::leading_system_of(turns);
    let t = render::turns_of(input, n).len() as int;
    turn_of_item(input, n, input.len() as int);
    head_is_clean(turns, t, last_query);
    history_goes_on(turns, last_query, t + 1, turns.len() as int);
    payloads_go_on(instructions, input, n + 1, input.len() as int);
    upto_marks(instructions, input, tools, options, n);
    let prefix = render::prefix_text(instructions, leading, tools, options);
    let history = render::history_text(turns, last_query, t);
    let upto = prompt_upto(instructions, input, tools, options, n);
    let head = turn_head(turns, t, last_query);
    let turn = render::turn_text(turns, t, last_query);
    let front = head + said(input[n]);
    let all = render::prompt_text(instructions, input, tools, options);
    let written = render::history_text(turns, last_query, turns.len() as int);
    if prompt::no_turn_before(input, n) {
        items_marks_match(instructions, input, n);
        prefix_marks(instructions, leading, tools, options);
        no_marks(instructions);
        assert(t == 0);
        assert(leading is None);
        assert(upto =~= prefix);
    }
    marks_join(upto, head);
    assert(turn.subrange(0, front.len() as int) == front);
    assert(written.subrange(0, (history + turn).len() as int) == history + turn);
    let whole = upto + head + said(input[n]);
    assert forall|i: int| 0 <= i < whole.len() implies whole[i] == all[i] by {
        let k = i - prefix.len();
        if 0 <= k {
            assert(all[i] == written[k]);
            assert(written[k] == written.subrange(0, (history + turn).len() as int)[k]);
            if k >= history.len() {
                assert(turn[k - history.len()] == turn.subrange(0, front.len() as int)[k
                    - history.len()]);
            }
        }
    }
    assert(whole.len() <= all.len());
    assert(all.subrange(0, whole.len() as int) =~= whole);
    assert(prompt::media_of(instructions, input, n + 1) == prompt::media_of(
        instructions,
        input,
        n,
    ) + prompt::item_media(input[n]));
}

proof fn marked_text_goes_on(items: Seq<ContentItem>, j: int, n: int)
    requires
        0 <= j <= n <= items.len(),
    ensures
        text::begins_with(prompt::marked_text(items, n), prompt::marked_text(items, j)),
        prompt::message_media(items, j).is_prefix_of(prompt::message_media(items, n)),
    decreases n,
{
    let front = prompt::marked_text(items, j);
    let all = prompt::marked_text(items, n);
    if j < n {
        marked_text_goes_on(items, j, n - 1);
        let before = prompt::marked_text(items, n - 1);
        assert(all.subrange(0, front.len() as int) =~= before.subrange(0, front.len() as int));
    } else {
        assert(all.subrange(0, all.len() as int) =~= all);
    }
}

/// A text that goes on with a marker, inside one that begins with it.
proof fn marker_inside(all: Seq<char>, before: Seq<char>, part: Seq<char>, rest: Seq<char>)
    requires
        text::begins_with(all, before + rest),
        text::begins_with(rest, part + prompt::media_marker()),
        before.len() == 0 || closes_clean(before.last()),
    ensures
        text::occurs_at(all, prompt::media_marker(), (before.len() + part.len()) as int),
        all.take((before.len() + part.len()) as int) == before + part,
        marks(before + part) == marks(before) + marks(part),
{
    let m = prompt::media_marker();
    let place = (before.len() + part.len()) as int;
    let front = all.subrange(0, (before + rest).len() as int);
    let inner = rest.subrange(0, (part + m).len() as int);
    assert(front == before + rest);
    assert(inner == part + m);
    assert forall|i: int| 0 <= i < place + m.len() implies all[i] == (before + part + m)[i] by {
        assert(all[i] == front[i]);
        if i >= before.len() {
            assert(rest[i - before.len()] == inner[i - before.len()]);
        }
    }
    assert(all.subrange(place, place + m.len()) =~= m);
    assert(all.take(place) =~= before + part);
    marks_join(before, part);
}

/// An image of a message of the history has a marker of its own: right behind what
/// the message says before it, and the marker that has as many others before it as
/// the payload of the image has in the list.
pub proof fn message_image_has_its_marker(
    instructions: Seq<char>,
    input: Seq<ResponseItem>,
    tools: Seq<ToolSpec>,
    options: RenderOptions,
    n: int,
    j: int,
    items: Seq<ContentItem>,
    payload: Seq<char>,
)
    requires
        is_clear(instructions, input, tools, options),
        0 <= n < input.len(),
        speaks(input[n]),
        input[n] matches ResponseItem::Message { content, .. } && content@ == items,
        0 <= j < items.len(),
        items[j] matches ContentItem::InputImage { image_url, .. } && prompt::payload_of(
            image_url@,
        ) == Some(payload),
    ensures
        ({
            let all = render::prompt_text(instructions, input, tools, options);
            let place = (before_said(instructions, input, tools, options, n).len()
                + prompt::marked_text(items, j).len()) as int;
            let k = marks(all.take(place)) as int;
            let payloads = prompt::media_of(instructions, input, input.len() as int);
            &&& text::occurs_at(all, prompt::media_marker(), place)
            &&& k == prompt::media_of(instructions, input, n).len() + prompt::message_media(
                items,
                j,
            ).len()
            &&& k < payloads.len() && payloads[k] == payload
        }),
{
    item_stands_behind_its_markers(instructions, input, tools, options, n);
    let all = render::prompt_text(instructions, input, tools, options);
    let before = before_said(instructions, input, tools, options, n);
    let part = prompt::marked_text(items, j);
    marked_text_goes_on(items, j + 1, items.len() as int);
    message_marks_match(items, j);
    marker_inside(all, before, part, said(input[n]));
    let own = prompt::item_media(input[n]);
    let k = prompt::media_of(instructions, input, n).len() + prompt::message_media(items, j).len();
    let so_far = prompt::message_media(items, j);
    assert(prompt::message_media(items, j + 1) == so_far.push(payload));
    assert(so_far.push(payload)[so_far.len() as int] == payload);
    assert(own[so_far.len() as int] == payload);
    assert((prompt::media_of(instructions, input, n) + own)[k as int] == payload);
}

/// What a tool's output says before its part at `j`.
pub open spec fn output_before(items: Seq<FunctionCallOutputContentItem>, j: int) -> Seq<char> {
    let pieces = prompt::output_pieces(items, j);
    if pieces.len() == 0 {
        Seq::empty()
    } else {
        text::join(pieces, "\n"@) + "\n"@
    }
}

proof fn output_goes_on(items: Seq<FunctionCallOutputContentItem>, j: int, n: int)
    requires
        0 <= j <= n <= items.len(),
    ensures
        text::begins_with(
            text::join(prompt::output_pieces(items, n), "\n"@),
            text::join(prompt::output_pieces(items, j), "\n"@),
        ),
        prompt::output_pieces(items, j).len() <= prompt::output_pieces(items, n).len(),
        prompt::output_media(items, j).is_prefix_of(prompt::output_media(items, n)),
    decreases n,
{
    let front = text::join(prompt::output_pieces(items, j), "\n"@);
    let all = text::join(prompt::output_pieces(items, n), "\n"@);
    if j < n {
        output_goes_on(items, j, n - 1);
        let pieces = prompt::output_pieces(items, n - 1);
        let before = text::join(pieces, "\n"@);
        if prompt::output_pieces(items, n) != pieces {
            assert(prompt::output_pieces(items, n).drop_last() =~= pieces);
        }
        if pieces.len() == 0 {
            assert(front.len() == 0);
            assert(all.subrange(0, 0) =~= front);
        } else {
            assert(all.subrange(0, front.len() as int) =~= before.subrange(
                0,
                front.len() as int,
            ));
        }
    } else {
        assert(all.subrange(0, all.len() as int) =~= all);
    }
}

/// The same of an image in a tool's output.
pub proof fn output_image_has_its_marker(
    instructions: Seq<char>,
    input: Seq<ResponseItem>,
    tools: Seq<ToolSpec>,
    options: RenderOptions,
    n: int,
    j: int,
    items: Seq<FunctionCallOutputContentItem>,
    payload: Seq<char>,
)
    requires
        is_clear(instructions, input, tools, options),
        0 <= n < input.len(),
        input[n] matches ResponseItem::FunctionCallOutput {
            body: FunctionCallOutputBody::ContentItems(v),
            ..
        } && v@ == items,
        0 <= j < items.len(),
        items[j] matches FunctionCallOutputContentItem::InputImage { image_url, .. }
            && prompt::payload_of(image_url@) == Some(payload),
    ensures
        ({
            let all = render::prompt_text(instructions, input, tools, options);
            let place = (before_said(instructions, input, tools, options, n).len()
                + output_before(items, j).len()) as int;
            let k = marks(all.take(place)) as int;
            let payloads = prompt::media_of(instructions, input, input.len() as int);
            &&& text::occurs_at(all, prompt::media_marker(), place)
            &&& k == prompt::media_of(instructions, input, n).len() + prompt::output_media(
                items,
                j,
            ).len()
            &&& k < payloads.len() && payloads[k] == payload
        }),
{
    item_stands_behind_its_markers(instructions, input, tools, options, n);
    let all = render::prompt_text(instructions, input, tools, options);
    let before = before_said(instructions, input, tools, options, n);
    let m = prompt::media_marker();
    let pieces = prompt::output_pieces(items, j);
    let part = output_before(items, j);
    assert(pieces.push(m).drop_last() =~= pieces);
    assert(part + m =~= text::join(prompt::output_pieces(items, j + 1), "\n"@));
    output_goes_on(items, j + 1, items.len() as int);
    output_marks_match(items, j);
    if pieces.len() > 0 {
        reveal_strlit("\n");
        blank_has_no_marks("\n"@);
        marks_join(text::join(pieces, "\n"@), "\n"@);
    }
    marker_inside(all, before, part, said(input[n]));
    let own = prompt::item_media(input[n]);
    let k = prompt::media_of(instructions, input, n).len() + prompt::output_media(items, j).len();
    let so_far = prompt::output_media(items, j);
    assert(prompt::output_media(items, j + 1) == so_far.push(payload));
    assert(so_far.push(payload)[so_far.len() as int] == payload);
    assert(own[so_far.len() as int] == payload);
    assert((prompt::media_of(instructions, input, n) + own)[k as int] == payload);
}

/// What stands before the text of a leading system message.
pub open spec fn before_system(tools: Seq<ToolSpec>, options: RenderOptions) -> Seq<char> {
    if tools.len() > 0 {
        "<|im_start|>system\n"@ + (if options.tools_block {
            render::tools_block_text(prompt::flattened(tools, tools.len() as int))
        } else {
            Seq::empty()
        }) + "\n\n"@
    } else {
        "<|im_start|>system\n"@
    }
}

proof fn before_system_is_clean(tools: Seq<ToolSpec>, options: RenderOptions)
    requires
        options.tools_block ==> tools_are_clear(prompt::flattened(tools, tools.len() as int)),
    ensures
        marks(before_system(tools, options)) == 0,
        before_system(tools, options).len() == 0 || closes_clean(
            before_system(tools, options).last(),
        ),
{
    frames_are_clean();
    if tools.len() > 0 {
        let head = "<|im_start|>system\n"@;
        let block = if options.tools_block {
            tools_block_marks(prompt::flattened(tools, tools.len() as int));
            render::tools_block_text(prompt::flattened(tools, tools.len() as int))
        } else {
            Seq::empty()
        };
        reveal_strlit("\n\n");
        blank_has_no_marks("\n\n"@);
        marks_join(head, block);
        marks_join(head + block, "\n\n"@);
        assert(before_system(tools, options) == head + block + "\n\n"@);
    }
}

/// Trimming the front stops at the latest where solid text begins.
proof fn trim_start_stops(x: Seq<char>, y: Seq<char>)
    requires
        y.len() > 0,
        !text::is_white(y[0]),
    ensures
        text::trim_start(x + y) == text::trim_start(x) + y,
    decreases x.len(),
{
    if x.len() == 0 {
        assert(x + y =~= y);
        assert(text::trim_start(x) + y =~= y);
    } else if text::is_white(x[0]) {
        trim_start_stops(x.skip(1), y);
        assert((x + y).skip(1) =~= x.skip(1) + y);
    }
}

/// A marker stays where it is when the text is trimmed.
proof fn trim_keeps_marker(t: Seq<char>, x: Seq<char>)
    requires
        text::begins_with(t, x + prompt::media_marker()),
    ensures
        text::begins_with(text::trim(t), text::trim_start(x) + prompt::media_marker()),
        !text::is_blank(t),
{
    reveal_strlit("<__media__>");
    let m = prompt::media_marker();
    let front = t.subrange(0, (x + m).len() as int);
    assert(front == x + m);
    let y = t.skip(x.len() as int);
    assert forall|i: int| 0 <= i < x.len() + m.len() implies t[i] == (x + m)[i] by {
        assert(front[i] == t[i]);
    }
    assert(t =~= x + y);
    assert(y.subrange(0, m.len() as int) =~= m);
    assert(y[0] == m[0]);
    assert(!text::is_white(t[x.len() as int]));
    trim_start_stops(x, y);
    let lead = text::trim_start(t);
    let at = text::trim_start(x).len() as int;
    text::trim_end_shape(lead);
    let u = text::trim_end(lead);
    let last = at + m.len() - 1;
    assert(lead[last] == y[m.len() - 1]);
    assert(y[m.len() - 1] == y.subrange(0, m.len() as int)[m.len() - 1]);
    assert(u.subrange(0, at + m.len()) =~= text::trim_start(x) + m) by {
        assert forall|i: int| 0 <= i < at + m.len() implies u[i] == (text::trim_start(x)
            + m)[i] by {
            assert(u[i] == lead[i]);
            if i >= at {
                assert(y[i - at] == y.subrange(0, m.len() as int)[i - at]);
            }
        }
    }
}

/// The same of an image in a leading system message that stands in for
/// instructions; blanks at the front of the message are not shown.
pub proof fn system_image_has_its_marker(
    instructions: Seq<char>,
    input: Seq<ResponseItem>,
    tools: Seq<ToolSpec>,
    options: RenderOptions,
    n: int,
    j: int,
    items: Seq<ContentItem>,
    payload: Seq<char>,
)
    requires
        is_clear(instructions, input, tools, options),
        0 <= n < input.len(),
        prompt::is_system(input[n]),
        prompt::is_shown(instructions, input, n),
        input[n] matches ResponseItem::Message { content, .. } && content@ == items,
        0 <= j < items.len(),
        items[j] matches ContentItem::InputImage { image_url, .. } && prompt::payload_of(
            image_url@,
        ) == Some(payload),
    ensures
        ({
            let all = render::prompt_text(instructions, input, tools, options);
            let place = (before_system(tools, options).len() + text::trim_start(
                prompt::marked_text(items, j),
            ).len()) as int;
            let k = marks(all.take(place)) as int;
            let payloads = prompt::media_of(instructions, input, input.len() as int);
            &&& text::occurs_at(all, prompt::media_marker(), place)
            &&& k == prompt::message_media(items, j).len()
            &&& k < payloads.len() && payloads[k] == payload
        }),
{
    let all = render::prompt_text(instructions, input, tools, options);
    let before = before_system(tools, options);
    let system = prompt::marked_text(items, items.len() as int);
    let x = prompt::marked_text(items, j);
    let turns = render::turns_of(input, input.len() as int);
    items_marks_match(instructions, input, n);
    earlier_turns_keep_marks(input, n + 1, input.len() as int);
    assert(render::leading_system_of(turns) == Some(system));
    marked_text_goes_on(items, j + 1, items.len() as int);
    trim_keeps_marker(system, x);
    before_system_is_clean(tools, options);
    let front = before + text::trim(system);
    let preamble = render::preamble_text(instructions, Some(system), tools, options);
    assert(preamble =~= front + "<|im_end|>\n"@);
    assert(all.subrange(0, front.len() as int) =~= front);
    marker_inside(all, before, text::trim_start(x), text::trim(system));
    trim_start_keeps_marks(x);
    message_marks_match(items, j);
    payloads_go_on(instructions, input, n + 1, input.len() as int);
    let so_far = prompt::message_media(items, j);
    assert(prompt::message_media(items, j + 1) == so_far.push(payload));
    assert(so_far.push(payload)[so_far.len() as int] == payload);
    assert(prompt::media_of(instructions, input, n).len() == 0);
    assert(prompt::media_of(instructions, input, n + 1) =~= prompt::item_media(input[n]));
}

} // verus!
