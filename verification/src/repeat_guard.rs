//! Repeated tool calls. A call is a repeat where it is the same as the one just
//! before it, or the third of its kind among the last ten. The call runs all the
//! same; its output carries a warning.

use crate::canonical;
use crate::conversation::FunctionCallOutputBody;
use crate::conversation::FunctionCallOutputContentItem;
use crate::json;
use crate::json::JsonModel;
use crate::json_text;
use crate::text;
use vstd::prelude::*;
use vstd::string::*;

verus! {

/// How many earlier calls count.
pub const WINDOW: usize = 10;

/// How many of the same kind make a repeat.
pub const REPEAT_THRESHOLD: usize = 3;

/// What is done about repeats.
#[derive(Debug, Clone, Copy, PartialEq, Eq, Structural)]
pub enum RepeatGuardMode {
    Off,
    Log,
    Warn,
}

/// A call that is remembered.
#[derive(Debug)]
pub struct RecentToolCall {
    pub call_id: String,
    pub signature: String,
    pub arguments: String,
}

pub struct RecentModel {
    pub call_id: Seq<char>,
    pub signature: Seq<char>,
    pub arguments: Seq<char>,
}

impl View for RecentToolCall {
    type V = RecentModel;

    open spec fn view(&self) -> RecentModel {
        RecentModel {
            call_id: self.call_id@,
            signature: self.signature@,
            arguments: self.arguments@,
        }
    }
}

pub open spec fn recent_models(v: Seq<RecentToolCall>) -> Seq<RecentModel> {
    v.map_values(|c: RecentToolCall| c@)
}

/// What was found of one call.
#[derive(Debug, Clone, Copy, PartialEq, Eq, Structural)]
pub struct RepeatVerdict {
    /// The same as the call just before it.
    pub immediate_repeat: bool,
    /// How many of the last calls before it were the same.
    pub repeats_in_window: usize,
}

impl RepeatVerdict {
    pub open spec fn is_repeat(self) -> bool {
        self.immediate_repeat || self.repeats_in_window + 1 >= REPEAT_THRESHOLD
    }

    /// Whether the call is a repeat.
    pub fn triggered(&self) -> (r: bool)
        ensures
            r == self.is_repeat(),
    {
        self.immediate_repeat || self.repeats_in_window >= REPEAT_THRESHOLD - 1
    }
}

// ---------------------------------------------------------------------------
// What makes calls the same.

/// The arguments of a call in canonical form: JSON with its members in order,
/// other text trimmed.
pub open spec fn canonical_arguments(arguments: Seq<char>) -> Seq<char> {
    match json::parsed(arguments) {
        Some(value) => json::text_of(canonical::canonical(value)),
        None => text::trim(arguments),
    }
}

/// What stands for a call: calls that are the same have the same one.
pub open spec fn call_signature(tool: Seq<char>, arguments: Seq<char>) -> Seq<char> {
    tool + seq!['\0'] + canonical_arguments(arguments)
}

/// What stands for a call.
pub fn signature(tool_name: &str, arguments: &str) -> (r: String)
    ensures
        r@ == call_signature(tool_name@, arguments@),
{
    let canonical = match json::parse(arguments) {
        Some(value) => canonical::sort_members(&value).to_text(),
        None => text::str_trim(arguments),
    };
    let mut out = tool_name.to_string();
    out.push('\0');
    out.append(canonical.as_str());
    assert(out@ =~= call_signature(tool_name@, arguments@));
    out
}

/// Arguments with another text at some place, at any depth, give another signature.
pub proof fn signature_tells_texts_apart(
    tool: Seq<char>,
    a: Seq<char>,
    b: Seq<char>,
    x: JsonModel,
    y: JsonModel,
    path: Seq<canonical::Step>,
    s: Seq<char>,
    t: Seq<char>,
)
    requires
        json::parsed(a) == Some(x),
        json::parsed(b) == Some(y),
        canonical::value_at(x, path) == Some(JsonModel::Text(s)),
        canonical::value_at(y, path) == Some(JsonModel::Text(t)),
        s != t,
    ensures
        call_signature(tool, a) != call_signature(tool, b),
{
    let (p, q) = (canonical::canonical(x), canonical::canonical(y));
    canonical::canonical_keeps_places(x, path);
    canonical::canonical_keeps_places(y, path);
    assert(p != q);
    json_text::canonical_keeps_numbers(x);
    json_text::canonical_keeps_numbers(y);
    json_text::different_values_have_different_texts(p, q);
    let head = tool + seq!['\0'];
    assert(call_signature(tool, a).skip(head.len() as int) =~= json::text_of(p));
    assert(call_signature(tool, b).skip(head.len() as int) =~= json::text_of(q));
}

/// Arguments that differ only in the order of members, or in how they are spaced,
/// give the same signature.
pub proof fn signature_ignores_member_order(
    tool: Seq<char>,
    a: Seq<char>,
    b: Seq<char>,
    x: JsonModel,
    y: JsonModel,
)
    requires
        json::parsed(a) == Some(x),
        json::parsed(b) == Some(y),
        canonical::same_but_for_order(x, y),
    ensures
        call_signature(tool, a) == call_signature(tool, b),
{
    canonical::canonical_form_has_one_order(x, y);
}

/// Calls of different tools have different signatures.
pub proof fn signature_tells_tools_apart(p: Seq<char>, q: Seq<char>, a: Seq<char>, b: Seq<char>)
    requires
        p != q,
        !p.contains('\0'),
        !q.contains('\0'),
    ensures
        call_signature(p, a) != call_signature(q, b),
{
    let s = call_signature(p, a);
    let t = call_signature(q, b);
    if s == t {
        if p.len() < q.len() {
            assert(s[p.len() as int] == '\0');
            assert(t[p.len() as int] == q[p.len() as int]);
            assert(q.contains(q[p.len() as int]));
        } else if q.len() < p.len() {
            assert(t[q.len() as int] == '\0');
            assert(s[q.len() as int] == p[q.len() as int]);
            assert(p.contains(p[q.len() as int]));
        } else {
            assert(s.take(p.len() as int) =~= p);
            assert(t.take(q.len() as int) =~= q);
        }
    }
}

// ---------------------------------------------------------------------------
// Judging a call.

/// The first `n` remembered calls, without those of the call itself.
pub open spec fn others(recent: Seq<RecentModel>, call_id: Seq<char>, n: int) -> Seq<RecentModel>
    decreases n,
{
    if n <= 0 {
        Seq::empty()
    } else if recent[n - 1].call_id == call_id {
        others(recent, call_id, n - 1)
    } else {
        others(recent, call_id, n - 1).push(recent[n - 1])
    }
}

/// How many of `calls`, from `from` up to `to`, have this signature.
pub open spec fn same_calls(calls: Seq<RecentModel>, signature: Seq<char>, from: int, to: int) -> nat
    decreases to - from,
{
    if to <= from {
        0
    } else {
        same_calls(calls, signature, from, to - 1) + if calls[to - 1].signature == signature {
            1nat
        } else {
            0
        }
    }
}

/// Where the last ten of `n` begin.
pub open spec fn window_start(n: int) -> int {
    if n > WINDOW {
        n - WINDOW
    } else {
        0
    }
}

/// What is found of a call, with these calls remembered.
pub open spec fn judged(recent: Seq<RecentModel>, call_id: Seq<char>, signature: Seq<char>) -> RepeatVerdict {
    let prior = others(recent, call_id, recent.len() as int);
    RepeatVerdict {
        immediate_repeat: prior.len() > 0 && prior.last().signature == signature,
        repeats_in_window: same_calls(
            prior,
            signature,
            window_start(prior.len() as int),
            prior.len() as int,
        ) as usize,
    }
}

/// The calls that are remembered behind a call.
pub open spec fn remembered(recent: Seq<RecentModel>, call: RecentModel) -> Seq<RecentModel> {
    let all = recent.push(call);
    if all.len() > WINDOW + 1 {
        all.skip(all.len() - WINDOW - 1)
    } else {
        all
    }
}

proof fn same_calls_bounded(calls: Seq<RecentModel>, signature: Seq<char>, from: int, to: int)
    requires
        from <= to,
    ensures
        same_calls(calls, signature, from, to) <= to - from,
    decreases to - from,
{
    if from < to {
        same_calls_bounded(calls, signature, from, to - 1);
    }
}

/// Judges a call by those that are remembered, and remembers it.
pub fn judge_and_remember(
    recent: &mut Vec<RecentToolCall>,
    call_id: &str,
    signature: &str,
    arguments: &str,
) -> (r: RepeatVerdict)
    ensures
        r == judged(recent_models(old(recent)@), call_id@, signature@),
        r.repeats_in_window <= WINDOW,
        recent_models(final(recent)@) == remembered(
            recent_models(old(recent)@),
            (RecentModel { call_id: call_id@, signature: signature@, arguments: arguments@ }),
        ),
        final(recent)@.len() <= WINDOW + 1,
{
    let ghost all = recent_models(recent@);
    let ghost goal = others(all, call_id@, all.len() as int);
    let mut same: Vec<bool> = Vec::new();
    let mut i: usize = 0;
    while i < recent.len()
        invariant
            i <= recent@.len(),
            all == recent_models(recent@),
            same@.len() == others(all, call_id@, i as int).len(),
            forall|k: int|
                0 <= k < same@.len() ==> #[trigger] same@[k] == (others(
                    all,
                    call_id@,
                    i as int,
                )[k].signature == signature@),
        decreases recent@.len() - i,
    {
        let ghost before = others(all, call_id@, i as int);
        assert(all[i as int] == recent@[i as int]@);
        if !text::same_text(recent[i].call_id.as_str(), call_id) {
            let hit: bool = text::same_text(recent[i].signature.as_str(), signature);
            let ghost had = same@;
            same.push(hit);
            assert forall|k: int| 0 <= k < same@.len() implies #[trigger] same@[k] == (others(
                all,
                call_id@,
                i + 1,
            )[k].signature == signature@) by {
                if k < had.len() {
                    assert(same@[k] == had[k]);
                }
            }
        }
        i += 1;
    }
    let n: usize = same.len();
    let immediate_repeat: bool = n > 0 && same[n - 1];
    let start: usize = if n > WINDOW {
        n - WINDOW
    } else {
        0
    };
    let mut repeats: usize = 0;
    let mut k: usize = start;
    while k < n
        invariant
            start <= k <= n == same@.len() == goal.len(),
            n - start <= WINDOW,
            forall|j: int|
                0 <= j < same@.len() ==> #[trigger] same@[j] == (goal[j].signature == signature@),
            repeats == same_calls(goal, signature@, start as int, k as int),
            repeats <= k - start,
        decreases n - k,
    {
        if same[k] {
            repeats += 1;
        }
        k += 1;
    }
    let call = RecentToolCall {
        call_id: call_id.to_string(),
        signature: signature.to_string(),
        arguments: arguments.to_string(),
    };
    let ghost had = recent@;
    recent.push(call);
    let ghost pushed = recent@;
    assert(recent_models(pushed) =~= all.push(call@));
    while recent.len() > WINDOW + 1
        invariant
            recent@.len() <= pushed.len(),
            recent@ == pushed.skip(pushed.len() - recent@.len()),
            pushed.len() <= WINDOW + 1 ==> recent@.len() == pushed.len(),
            pushed.len() > WINDOW + 1 ==> recent@.len() >= WINDOW + 1,
        decreases recent@.len(),
    {
        let ghost before = recent@;
        let _ = recent.remove(0);
        assert(recent@ =~= before.skip(1));
        assert(before.skip(1) =~= pushed.skip(pushed.len() - recent@.len()));
    }
    assert(recent_models(recent@) =~= remembered(all, call@));
    RepeatVerdict { immediate_repeat, repeats_in_window: repeats }
}

/// A call that is the same as the one before it is a repeat.
pub proof fn immediate_repeat_is_found(
    recent: Seq<RecentModel>,
    first: RecentModel,
    call_id: Seq<char>,
)
    requires
        call_id != first.call_id,
    ensures
        judged(remembered(recent, first), call_id, first.signature).immediate_repeat,
        judged(remembered(recent, first), call_id, first.signature).is_repeat(),
{
    let now = remembered(recent, first);
    assert(now.last() == first);
    let prior = others(now, call_id, now.len() as int);
    assert(prior.last() == first);
}

/// A call is not counted against itself: where only it is remembered, it is no
/// repeat.
pub proof fn a_call_does_not_repeat_itself(call: RecentModel)
    ensures
        !judged(seq![call], call.call_id, call.signature).is_repeat(),
{
    let recent = seq![call];
    assert(others(recent, call.call_id, 0) =~= Seq::empty());
    assert(others(recent, call.call_id, 1) =~= Seq::empty());
}

// ---------------------------------------------------------------------------
// The warning.

/// What is shown of arguments.
pub open spec fn shown_arguments(arguments: Seq<char>) -> Seq<char> {
    if arguments.len() > 400 {
        arguments.take(400) + "..."@
    } else {
        arguments
    }
}

/// The warning for a repeat.
pub open spec fn warning(tool: Seq<char>, arguments: Seq<char>, verdict: RepeatVerdict) -> Seq<char> {
    "\n\nWARNING: this is call #"@ + text::decimal((verdict.repeats_in_window + 1) as nat)
        + " of the identical tool call `"@ + tool + "` with arguments "@ + shown_arguments(arguments)
        + " "@ + (if verdict.immediate_repeat {
        "and it is the same as your previous call"@
    } else {
        "within your last ten tool calls"@
    })
        + ". Repeating an identical call rarely changes the outcome. Do something different unless you have a clear reason to repeat it: read the file or output again, change the anchor or the command, or take a different approach."@
}

/// The warning for a repeat.
pub fn warning_text(tool_name: &str, arguments: &str, verdict: &RepeatVerdict) -> (r: String)
    ensures
        r@ == warning(tool_name@, arguments@, *verdict),
{
    let cs = text::chars_of(arguments);
    let shown = if cs.len() > 400 {
        let mut cut = text::substring_of(cs.as_slice(), 0, 400);
        assert(cut@ =~= arguments@.take(400));
        cut.append("...");
        cut
    } else {
        arguments.to_string()
    };
    let count: u128 = verdict.repeats_in_window as u128 + 1;
    let when = if verdict.immediate_repeat {
        "and it is the same as your previous call"
    } else {
        "within your last ten tool calls"
    };
    let mut out = "\n\nWARNING: this is call #".to_string();
    out.append(text::decimal_string(count).as_str());
    out.append(" of the identical tool call `");
    out.append(tool_name);
    out.append("` with arguments ");
    out.append(shown.as_str());
    out.append(" ");
    out.append(when);
    out.append(
        ". Repeating an identical call rarely changes the outcome. Do something different unless you have a clear reason to repeat it: read the file or output again, change the anchor or the command, or take a different approach.",
    );
    out
}

/// An output with `suffix` behind it: text is extended, other content gets a text
/// part.
pub open spec fn body_with(body: FunctionCallOutputBody, suffix: Seq<char>, out: FunctionCallOutputBody) -> bool {
    match (body, out) {
        (FunctionCallOutputBody::Text(a), FunctionCallOutputBody::Text(b)) => b@ == a@ + suffix,
        (
            FunctionCallOutputBody::ContentItems(a),
            FunctionCallOutputBody::ContentItems(b),
        ) => {
            &&& b@.len() == a@.len() + 1
            &&& b@.take(a@.len() as int) == a@
            &&& b@.last() matches FunctionCallOutputContentItem::InputText { text }
                && text@ == suffix
        },
        _ => false,
    }
}

/// Puts `suffix` behind an output.
pub fn append_to_body(body: FunctionCallOutputBody, suffix: &str) -> (r: FunctionCallOutputBody)
    ensures
        body_with(body, suffix@, r),
{
    match body {
        FunctionCallOutputBody::Text(t) => {
            let mut t = t;
            t.append(suffix);
            FunctionCallOutputBody::Text(t)
        },
        FunctionCallOutputBody::ContentItems(items) => {
            let ghost before = items@;
            let mut items = items;
            items.push(FunctionCallOutputContentItem::InputText { text: suffix.to_string() });
            assert(items@.take(before.len() as int) =~= before);
            FunctionCallOutputBody::ContentItems(items)
        },
    }
}

// ---------------------------------------------------------------------------
// Laws.

/// A call is compared with those before it, in the order in which they came, less those of
/// its own id: it repeats the call just before it where that has its signature, and is
/// counted against those of its signature among the last ten.
pub proof fn calls_are_compared_with_those_before(
    recent: Seq<RecentModel>,
    call_id: Seq<char>,
    signature: Seq<char>,
)
    ensures
        ({
            let prior = recent.filter(|c: RecentModel| c.call_id != call_id);
            let from = if prior.len() > 10 {
                prior.len() - 10
            } else {
                0
            };
            let same = prior.skip(from).filter(|c: RecentModel| c.signature == signature);
            let verdict = judged(recent, call_id, signature);
            &&& verdict.immediate_repeat <==> prior.len() > 0 && prior.last().signature == signature
            &&& verdict.repeats_in_window == same.len()
            &&& verdict.is_repeat() <==> verdict.immediate_repeat || same.len() >= 2
        }),
{
    let prior = recent.filter(|c: RecentModel| c.call_id != call_id);
    others_are_filtered(recent, call_id, recent.len() as int);
    assert(recent.take(recent.len() as int) =~= recent);
    let n = prior.len() as int;
    let from = window_start(n);
    same_are_filtered(prior, signature, from, n);
    assert(prior.subrange(from, n) =~= prior.skip(from));
    filtered_is_no_longer(prior.skip(from), |c: RecentModel| c.signature == signature);
}

proof fn filtered_is_no_longer(calls: Seq<RecentModel>, p: spec_fn(RecentModel) -> bool)
    ensures
        calls.filter(p).len() <= calls.len(),
    decreases calls.len(),
{
    reveal(Seq::filter);
    if calls.len() > 0 {
        filtered_is_no_longer(calls.drop_last(), p);
    }
}

proof fn others_are_filtered(recent: Seq<RecentModel>, call_id: Seq<char>, n: int)
    requires
        0 <= n <= recent.len(),
    ensures
        others(recent, call_id, n) == recent.take(n).filter(
            |c: RecentModel| c.call_id != call_id,
        ),
    decreases n,
{
    reveal(Seq::filter);
    if n > 0 {
        others_are_filtered(recent, call_id, n - 1);
        assert(recent.take(n).drop_last() =~= recent.take(n - 1));
    }
}

proof fn same_are_filtered(calls: Seq<RecentModel>, signature: Seq<char>, from: int, to: int)
    requires
        0 <= from <= to <= calls.len(),
    ensures
        same_calls(calls, signature, from, to) == calls.subrange(from, to).filter(
            |c: RecentModel| c.signature == signature,
        ).len(),
    decreases to - from,
{
    reveal(Seq::filter);
    if from < to {
        same_are_filtered(calls, signature, from, to - 1);
        assert(calls.subrange(from, to).drop_last() =~= calls.subrange(from, to - 1));
    }
}

/// The last eleven calls are remembered, this one last.
pub proof fn the_last_calls_are_remembered(recent: Seq<RecentModel>, call: RecentModel, k: int)
    requires
        0 <= k <= recent.len(),
        k <= 10,
        recent.len() <= 10 ==> k == recent.len(),
        recent.len() > 10 ==> k == 10,
    ensures
        remembered(recent, call) == recent.skip(recent.len() - k).push(call),
{
    assert(recent.push(call).skip(recent.len() - k) =~= recent.skip(recent.len() - k).push(call));
    assert(recent.push(call).skip(0) =~= recent.push(call));
}

/// A warning says which call of its kind this is, by what name it went and, up to a limit,
/// with which arguments.
pub proof fn warnings_name_the_call(tool: Seq<char>, arguments: Seq<char>, verdict: RepeatVerdict)
    ensures
        ({
            let named = text::decimal((verdict.repeats_in_window + 1) as nat)
                + " of the identical tool call `"@ + tool + "` with arguments "@ + (
            if arguments.len() > 400 {
                arguments.take(400) + "..."@
            } else {
                arguments
            });
            let w = warning(tool, arguments, verdict);
            let at = "\n\nWARNING: this is call #"@.len() as int;
            &&& at + named.len() <= w.len()
            &&& w.subrange(at, at + named.len()) == named
        }),
{
    let named = text::decimal((verdict.repeats_in_window + 1) as nat)
        + " of the identical tool call `"@ + tool + "` with arguments "@ + shown_arguments(arguments);
    let w = warning(tool, arguments, verdict);
    let at = "\n\nWARNING: this is call #"@.len() as int;
    assert(w.subrange(at, at + named.len()) =~= named);
}

} // verus!
