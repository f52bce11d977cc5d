//! A raw completion as it streams in: chunks of text that are split into
//! reasoning and text while they come, and parsed whole when the last one has
//! come. What was parsed whole is what the conversation keeps.

use crate::conversation::ResponseItem;
use crate::events;
use crate::events::EventModel;
use crate::events::ItemModel;
use crate::events::OutputItem;
use crate::events::StreamEvent;
use crate::events::TokenUsage;
use crate::json;
use crate::json::Json;
use crate::json::JsonModel;
use crate::prompt;
use crate::prompt::ToolTypes;
use crate::regions;
use crate::regions::DeltaModel;
use crate::regions::Region;
use crate::regions::RegionDelta;
use crate::regions::RegionSplitter;
use crate::sse;
use crate::sse::SseBuffer;
use crate::text;
use crate::tool_call;
use crate::tool_call::CallModel;
use crate::tool_call::ExtractedToolCalls;
use crate::tool_call::FloatModel;
use crate::tool_call::FloatReading;
use crate::tool_call::ParsedToolCall;
use vstd::prelude::*;
use vstd::string::*;

verus! {

// ---------------------------------------------------------------------------
// Where a turn starts.

/// Whether nothing that the model produced, and no tool activity, comes after the
/// last message of the user in the first `n` items. Context that was recorded
/// after that message does not matter.
pub open spec fn starts_turn(input: Seq<ResponseItem>, n: int) -> bool
    decreases n,
{
    if n <= 0 {
        false
    } else {
        match input[n - 1] {
            ResponseItem::Message { role, .. } => if role@ == "user"@ {
                true
            } else if role@ == "assistant"@ {
                false
            } else {
                starts_turn(input, n - 1)
            },
            ResponseItem::Other => starts_turn(input, n - 1),
            _ => false,
        }
    }
}

/// Whether this is the first model call of a turn.
pub fn is_turn_start(input: &Vec<ResponseItem>) -> (r: bool)
    ensures
        r == starts_turn(input@, input@.len() as int),
{
    let mut n: usize = input.len();
    while n > 0
        invariant
            n <= input@.len(),
            starts_turn(input@, input@.len() as int) == starts_turn(input@, n as int),
        decreases n,
    {
        match &input[n - 1] {
            ResponseItem::Message { role, .. } => {
                if text::same_text(role.as_str(), "user") {
                    return true;
                }
                if text::same_text(role.as_str(), "assistant") {
                    return false;
                }
            },
            ResponseItem::Other => {},
            _ => {
                return false;
            },
        }
        n -= 1;
    }
    false
}

/// A model call in the middle of a tool loop is no turn start: a call, an output
/// or anything the model said after the last user message rules it out.
pub proof fn tool_loop_is_no_turn_start(input: Seq<ResponseItem>, at: int, n: int)
    requires
        0 <= at < n <= input.len(),
        match input[at] {
            ResponseItem::Message { role, .. } => role@ == "assistant"@,
            ResponseItem::Other => false,
            _ => true,
        },
        forall|k: int|
            at < k < n ==> match #[trigger] input[k] {
                ResponseItem::Message { role, .. } => role@ != "user"@,
                _ => true,
            },
    ensures
        !starts_turn(input, n),
    decreases n,
{
    reveal_strlit("user");
    reveal_strlit("assistant");
    assert("user"@.len() != "assistant"@.len());
    if at < n - 1 {
        tool_loop_is_no_turn_start(input, at, n - 1);
    }
}

// ---------------------------------------------------------------------------
// While it streams.

/// The ids under which the reasoning and the message of a completion go.
#[derive(Debug)]
pub struct ItemIds {
    pub reasoning: String,
    pub message: String,
}

pub struct IdsModel {
    pub reasoning: Seq<char>,
    pub message: Seq<char>,
}

impl View for ItemIds {
    type V = IdsModel;

    open spec fn view(&self) -> IdsModel {
        IdsModel { reasoning: self.reasoning@, message: self.message@ }
    }
}

/// Which items were announced.
#[derive(Clone, Copy, Debug, PartialEq, Eq, Structural)]
pub struct Announced {
    pub reasoning: bool,
    pub message: bool,
}

/// The events that show one piece: its item is announced before its first piece.
pub open spec fn delta_events(delta: DeltaModel, seen: Announced, ids: IdsModel) -> Seq<EventModel> {
    match delta {
        DeltaModel::Reasoning(t) => (if seen.reasoning {
            Seq::empty()
        } else {
            seq![EventModel::ReasoningAdded(ids.reasoning)]
        }).push(EventModel::ReasoningDelta(t)),
        DeltaModel::Text(t) => (if seen.message {
            Seq::empty()
        } else {
            seq![EventModel::MessageAdded(ids.message)]
        }).push(EventModel::TextDelta(t)),
    }
}

pub open spec fn announced_by(delta: DeltaModel, seen: Announced) -> Announced {
    match delta {
        DeltaModel::Reasoning(_) => Announced { reasoning: true, message: seen.message },
        DeltaModel::Text(_) => Announced { reasoning: seen.reasoning, message: true },
    }
}

/// The events that show the first `n` pieces, and what is announced then.
pub open spec fn shown_events(deltas: Seq<DeltaModel>, n: int, seen: Announced, ids: IdsModel) -> (
    Seq<EventModel>,
    Announced,
)
    decreases n,
{
    if n <= 0 {
        (Seq::empty(), seen)
    } else {
        let (before, now) = shown_events(deltas, n - 1, seen, ids);
        (before + delta_events(deltas[n - 1], now, ids), announced_by(deltas[n - 1], now))
    }
}

/// Shows pieces: each item is announced before the first of its pieces.
pub fn emit_region_deltas(
    deltas: Vec<RegionDelta>,
    ids: &ItemIds,
    seen: &mut Announced,
    out: &mut Vec<StreamEvent>,
)
    ensures
        events::event_models(final(out)@) == events::event_models(old(out)@) + shown_events(
            regions::delta_models(deltas@),
            deltas@.len() as int,
            *old(seen),
            ids@,
        ).0,
        *final(seen) == shown_events(
            regions::delta_models(deltas@),
            deltas@.len() as int,
            *old(seen),
            ids@,
        ).1,
{
    let ghost all = regions::delta_models(deltas@);
    let ghost first = *seen;
    let ghost start = events::event_models(out@);
    let mut i: usize = 0;
    assert(start + Seq::<EventModel>::empty() =~= start);
    while i < deltas.len()
        invariant
            i <= deltas@.len(),
            all == regions::delta_models(deltas@),
            events::event_models(out@) == start + shown_events(all, i as int, first, ids@).0,
            *seen == shown_events(all, i as int, first, ids@).1,
        decreases deltas@.len() - i,
    {
        let ghost before = events::event_models(out@);
        let ghost now = *seen;
        assert(all[i as int] == deltas@[i as int]@);
        match &deltas[i] {
            RegionDelta::Reasoning(t) => {
                if !seen.reasoning {
                    seen.reasoning = true;
                    events::emit(out, StreamEvent::ReasoningAdded(ids.reasoning.clone()));
                }
                events::emit(out, StreamEvent::ReasoningDelta(t.clone()));
            },
            RegionDelta::Text(t) => {
                if !seen.message {
                    seen.message = true;
                    events::emit(out, StreamEvent::MessageAdded(ids.message.clone()));
                }
                events::emit(out, StreamEvent::TextDelta(t.clone()));
            },
        }
        assert(events::event_models(out@) =~= before + delta_events(all[i as int], now, ids@));
        let ghost earlier = shown_events(all, i as int, first, ids@).0;
        assert(start + earlier + delta_events(all[i as int], now, ids@) =~= start + (earlier
            + delta_events(all[i as int], now, ids@)));
        i += 1;
    }
}

/// A raw completion so far.
pub struct RawModel {
    pub acc: Seq<char>,
    /// Where the reasoning begins, once that is settled.
    pub start: Option<int>,
    pub seen: Announced,
}

impl RawModel {
    /// The reasoning and text that was shown.
    pub open spec fn visible(self) -> (Seq<char>, Seq<char>) {
        match self.start {
            Some(s) => regions::shown(self.acc, s),
            None => (Seq::empty(), Seq::empty()),
        }
    }

    /// The completion with one more piece of text, and the events that show it.
    pub open spec fn pushed(self, chunk: Seq<char>, ids: IdsModel) -> (RawModel, Seq<EventModel>) {
        let acc = self.acc + chunk;
        let start = match self.start {
            Some(s) => Some(s),
            None => regions::reasoning_start(acc),
        };
        let next = RawModel { acc, start, seen: self.seen };
        let deltas = regions::deltas_between(self.visible(), next.visible());
        let (shown, seen) = shown_events(deltas, deltas.len() as int, self.seen, ids);
        (RawModel { acc, start, seen }, shown)
    }

    /// Takes one payload of the stream: what is no JSON is passed over.
    pub open spec fn step(self, payload: Seq<char>, ids: IdsModel) -> (
        RawModel,
        Seq<EventModel>,
        events::Progress,
    ) {
        match json::parsed(payload) {
            None => (self, Seq::empty(), events::Progress::Running),
            Some(chunk) => match chunk.present_at("error"@) {
                Some(error) => (
                    self,
                    Seq::empty(),
                    events::Progress::Failed(stream_error(error)),
                ),
                None => {
                    let (next, shown) = match chunk.text_at("content"@) {
                        Some(t) if t.len() > 0 => self.pushed(t, ids),
                        _ => (self, Seq::empty()),
                    };
                    (
                        next,
                        shown,
                        if chunk.flag_at("stop"@) == Some(true) {
                            events::Progress::Finished(chunk)
                        } else {
                            events::Progress::Running
                        },
                    )
                },
            },
        }
    }

    /// Takes payloads up to the first that ends the stream.
    pub open spec fn run(self, payloads: Seq<Seq<char>>, ids: IdsModel) -> (
        RawModel,
        Seq<EventModel>,
        events::Progress,
    )
        decreases payloads.len(),
    {
        if payloads.len() == 0 {
            (self, Seq::empty(), events::Progress::Running)
        } else {
            let (next, shown, progress) = self.step(payloads[0], ids);
            if progress is Running {
                let (last, more, end) = next.run(payloads.skip(1), ids);
                (last, shown + more, end)
            } else {
                (next, shown, progress)
            }
        }
    }
}

/// What an error that the server reports in its stream reads like.
pub open spec fn stream_error(error: JsonModel) -> Seq<char> {
    "llama-server stream error: "@ + json::text_of(error) + ". Generation was interrupted."@
}

/// What it reads like when a stream stops short.
pub open spec fn interrupted() -> Seq<char> {
    "llama-server stream ended before completion. Generation was interrupted."@
}

/// The message for an error that the server reports in its stream.
pub fn stream_error_text(error: &Json) -> (r: String)
    ensures
        r@ == stream_error(error@),
{
    let mut out = "llama-server stream error: ".to_string();
    out.append(error.to_text().as_str());
    out.append(". Generation was interrupted.");
    out
}

/// The message for a stream that stopped short.
pub fn interrupted_text() -> (r: String)
    ensures
        r@ == interrupted(),
{
    "llama-server stream ended before completion. Generation was interrupted.".to_string()
}

/// How far a stream has come.
#[derive(Debug)]
pub enum StreamProgress {
    Running,
    Failed(String),
    Finished(Json),
}

impl View for StreamProgress {
    type V = events::Progress;

    open spec fn view(&self) -> events::Progress {
        match self {
            StreamProgress::Running => events::Progress::Running,
            StreamProgress::Failed(m) => events::Progress::Failed(m@),
            StreamProgress::Finished(chunk) => events::Progress::Finished(chunk@),
        }
    }
}

/// A raw completion that streams in.
#[derive(Debug)]
pub struct RawStream {
    pub buffer: SseBuffer,
    pub splitter: RegionSplitter,
    pub seen: Announced,
    pub ids: ItemIds,
}

impl RawStream {
    pub open spec fn well_formed(&self) -> bool {
        self.splitter.well_formed()
    }

    /// The text so far and what was made of it. The buffer and the ids stand beside it in
    /// the contracts, and `well_formed` gives the rest of the splitter from its text.
    pub open spec fn model(&self) -> RawModel {
        RawModel {
            acc: self.splitter.acc@,
            start: if self.splitter.skipped_open {
                Some(self.splitter.start as int)
            } else {
                None
            },
            seen: self.seen,
        }
    }

    pub fn new(ids: ItemIds) -> (r: Self)
        ensures
            r.well_formed(),
            r.ids == ids,
            r.buffer.buf@.len() == 0,
            r.model() == (RawModel {
                acc: Seq::empty(),
                start: None,
                seen: Announced { reasoning: false, message: false },
            }),
    {
        let r = RawStream {
            buffer: SseBuffer::new(),
            splitter: RegionSplitter::new(),
            seen: Announced { reasoning: false, message: false },
            ids,
        };
        assert(r.splitter.acc@ =~= Seq::empty());
        r
    }

    fn on_payload(&mut self, payload: &str, out: &mut Vec<StreamEvent>) -> (r: StreamProgress)
        requires
            old(self).well_formed(),
        ensures
            final(self).well_formed(),
            final(self).ids == old(self).ids,
            final(self).buffer == old(self).buffer,
            ({
                let (next, shown, progress) = old(self).model().step(payload@, old(self).ids@);
                &&& final(self).model() == next
                &&& events::event_models(final(out)@) == events::event_models(old(out)@) + shown
                &&& r@ == progress
            }),
    {
        let ghost before = events::event_models(out@);
        assert(before + Seq::<EventModel>::empty() =~= before);
        let ghost was = self.model();
        match json::parse(payload) {
            None => StreamProgress::Running,
            Some(chunk) => {
                match chunk.get_present("error") {
                    Some(error) => {
                        return StreamProgress::Failed(stream_error_text(error));
                    },
                    None => {},
                }
                let last: bool = match chunk.bool_at("stop") {
                    Some(b) => b,
                    None => false,
                };
                match chunk.str_at("content") {
                    Some(t) => {
                        if t.is_empty() {
                            assert(t@.len() == 0);
                        } else {
                            let mut deltas: Vec<RegionDelta> = Vec::new();
                            assert(regions::delta_models(deltas@) =~= Seq::empty());
                            self.splitter.push(t, &mut deltas);
                            proof {
                                let found = regions::deltas_between(
                                    was.visible(),
                                    self.splitter.visible(),
                                );
                                assert(Seq::<DeltaModel>::empty() + found =~= found);
                            }
                            let mut seen = self.seen;
                            emit_region_deltas(deltas, &self.ids, &mut seen, out);
                            self.seen = seen;
                        }
                    },
                    None => {},
                }
                if last {
                    StreamProgress::Finished(chunk)
                } else {
                    StreamProgress::Running
                }
            },
        }
    }

    /// Takes bytes of the response; shows what they allow and says how far the
    /// completion has come. What follows the end is dropped.
    pub fn on_bytes(&mut self, bytes: &[u8], out: &mut Vec<StreamEvent>) -> (r: StreamProgress)
        requires
            old(self).well_formed(),
        ensures
            final(self).well_formed(),
            final(self).ids == old(self).ids,
            final(self).buffer.buf@ == sse::drained(old(self).buffer.buf@ + bytes@).1,
            ({
                let (next, shown, progress) = old(self).model().run(
                    sse::drained(old(self).buffer.buf@ + bytes@).0,
                    old(self).ids@,
                );
                &&& final(self).model() == next
                &&& events::event_models(final(out)@) == events::event_models(old(out)@) + shown
                &&& r@ == progress
            }),
    {
        let ghost was = self.model();
        let ghost ids = self.ids@;
        let ghost start = events::event_models(out@);
        let payloads = self.buffer.feed(bytes);
        let ghost all = text::strings(payloads@);
        let ghost goal = was.run(all, ids);
        let ghost mut shown = Seq::<EventModel>::empty();
        let mut i: usize = 0;
        assert(all.skip(0) =~= all);
        assert(start + shown =~= start);
        assert(shown + goal.1 =~= goal.1);
        let ghost kept = self.buffer;
        let ghost owner = self.ids;
        while i < payloads.len()
            invariant
                i <= payloads@.len(),
                all == text::strings(payloads@),
                self.well_formed(),
                self.ids == owner,
                self.buffer == kept,
                owner == old(self).ids,
                start == events::event_models(old(out)@),
                goal == old(self).model().run(
                    sse::drained(old(self).buffer.buf@ + bytes@).0,
                    old(self).ids@,
                ),
                kept.buf@ == sse::drained(old(self).buffer.buf@ + bytes@).1,
                ids == owner@,
                events::event_models(out@) == start + shown,
                goal.0 == self.model().run(all.skip(i as int), ids).0,
                goal.1 == shown + self.model().run(all.skip(i as int), ids).1,
                goal.2 == self.model().run(all.skip(i as int), ids).2,
            decreases payloads@.len() - i,
        {
            let ghost now = self.model();
            let ghost rest = all.skip(i as int);
            assert(rest[0] == payloads@[i as int]@);
            assert(rest.skip(1) =~= all.skip(i + 1));
            let progress = self.on_payload(payloads[i].as_str(), out);
            proof {
                let (next, more, p) = now.step(rest[0], ids);
                assert(start + shown + more =~= start + (shown + more));
                let tail = next.run(rest.skip(1), ids).1;
                assert(shown + (more + tail) =~= (shown + more) + tail);
                shown = shown + more;
            }
            match progress {
                StreamProgress::Running => {},
                other => {
                    return other;
                },
            }
            i += 1;
        }
        assert(all.skip(i as int).len() == 0);
        assert(shown + Seq::<EventModel>::empty() =~= shown);
        StreamProgress::Running
    }
}

/// A completion may be read in parts: where the first payloads do not end it, the
/// rest goes on from where they left it; where they do, the rest changes nothing.
pub proof fn payloads_come_in_parts(
    s: RawModel,
    p: Seq<Seq<char>>,
    q: Seq<Seq<char>>,
    ids: IdsModel,
)
    ensures
        s.run(p, ids).2 is Running ==> s.run(p + q, ids) == (
            s.run(p, ids).0.run(q, ids).0,
            s.run(p, ids).1 + s.run(p, ids).0.run(q, ids).1,
            s.run(p, ids).0.run(q, ids).2,
        ),
        !(s.run(p, ids).2 is Running) ==> s.run(p + q, ids) == s.run(p, ids),
    decreases p.len(),
{
    if p.len() == 0 {
        assert(p + q =~= q);
        let more = s.run(q, ids).1;
        assert(Seq::<EventModel>::empty() + more =~= more);
    } else {
        let (next, shown, progress) = s.step(p[0], ids);
        assert((p + q)[0] == p[0]);
        assert((p + q).skip(1) =~= p.skip(1) + q);
        if progress is Running {
            payloads_come_in_parts(next, p.skip(1), q, ids);
            let (mid, some, _) = next.run(p.skip(1), ids);
            let more = mid.run(q, ids).1;
            assert(shown + (some + more) =~= (shown + some) + more);
        }
    }
}

/// How a response is cut into chunks does not matter: where its blank lines are all
/// of one kind, two chunks show what both show at once, and leave the completion
/// where both leave it.
pub proof fn chunks_do_not_matter(
    s: RawModel,
    held: Seq<u8>,
    a: Seq<u8>,
    b: Seq<u8>,
    ids: IdsModel,
)
    requires
        sse::one_line_end(held + (a + b)),
    ensures
        ({
            let (first, left) = sse::drained(held + a);
            let (second, rest) = sse::drained(left + b);
            let (mid, shown, progress) = s.run(first, ids);
            let (last, more, end) = mid.run(second, ids);
            &&& sse::drained(held + (a + b)).1 == rest
            &&& s.run(sse::drained(held + (a + b)).0, ids) == if progress is Running {
                (last, shown + more, end)
            } else {
                (mid, shown, progress)
            }
        }),
{
    assert(held + (a + b) =~= (held + a) + b);
    sse::chunks_do_not_matter(held + a, b);
    let (first, left) = sse::drained(held + a);
    payloads_come_in_parts(s, first, sse::drained(left + b).0, ids);
}

/// Nothing is finished before the last chunk came: up to there, and on an error,
/// items are announced and grow, and no item is done.
pub proof fn nothing_is_done_early(s: RawModel, payloads: Seq<Seq<char>>, ids: IdsModel)
    ensures
        forall|k: int|
            0 <= k < s.run(payloads, ids).1.len() ==> !events::finishes(
                #[trigger] s.run(payloads, ids).1[k],
            ),
    decreases payloads.len(),
{
    if payloads.len() > 0 {
        let (next, shown, progress) = s.step(payloads[0], ids);
        assert forall|k: int| 0 <= k < shown.len() implies !events::finishes(#[trigger] shown[k]) by {
            match json::parsed(payloads[0]) {
                Some(chunk) => {
                    match chunk.text_at("content"@) {
                        Some(t) => {
                            let acc = s.acc + t;
                            let start = match s.start {
                                Some(at) => Some(at),
                                None => regions::reasoning_start(acc),
                            };
                            let now = RawModel { acc, start, seen: s.seen };
                            let deltas = regions::deltas_between(s.visible(), now.visible());
                            shown_events_only_show(deltas, deltas.len() as int, s.seen, ids);
                        },
                        None => {},
                    }
                },
                None => {},
            }
        }
        if progress is Running {
            nothing_is_done_early(next, payloads.skip(1), ids);
            let more = next.run(payloads.skip(1), ids).1;
            let whole = s.run(payloads, ids).1;
            assert forall|k: int| 0 <= k < whole.len() implies !events::finishes(
                #[trigger] whole[k],
            ) by {
                if k < shown.len() {
                    assert(whole[k] == shown[k]);
                } else {
                    assert(whole[k] == more[k - shown.len()]);
                }
            }
        }
    }
}

proof fn shown_events_only_show(deltas: Seq<DeltaModel>, n: int, seen: Announced, ids: IdsModel)
    ensures
        forall|k: int|
            0 <= k < shown_events(deltas, n, seen, ids).0.len() ==> !events::finishes(
                #[trigger] shown_events(deltas, n, seen, ids).0[k],
            ),
    decreases n,
{
    if n > 0 {
        shown_events_only_show(deltas, n - 1, seen, ids);
        let (before, now) = shown_events(deltas, n - 1, seen, ids);
        let whole = shown_events(deltas, n, seen, ids).0;
        assert forall|k: int| 0 <= k < whole.len() implies !events::finishes(#[trigger] whole[k]) by {
            if k < before.len() {
                assert(whole[k] == before[k]);
            } else {
                assert(whole[k] == delta_events(deltas[n - 1], now, ids)[k - before.len()]);
            }
        }
    }
}

// ---------------------------------------------------------------------------
// When it has ended.

/// Why the completion ended, as the last chunk tells.
pub open spec fn finish_reason_of(last: JsonModel) -> Seq<char> {
    match last.text_at("stop_type"@) {
        Some(t) => if t == "limit"@ {
            "length"@
        } else if t == "repetition"@ {
            "repetition"@
        } else {
            "stop"@
        },
        None => "stop"@,
    }
}

/// Whether a completion that ended for this reason is cut off.
pub open spec fn cut_off(finish_reason: Seq<char>) -> bool {
    finish_reason == "length"@ || finish_reason == "repetition"@
}

/// Why the completion ended.
pub fn finish_reason(last: &Json) -> (r: String)
    ensures
        r@ == finish_reason_of(last@),
{
    match last.str_at("stop_type") {
        Some(t) => {
            if text::same_text(t, "limit") {
                "length".to_string()
            } else if text::same_text(t, "repetition") {
                "repetition".to_string()
            } else {
                "stop".to_string()
            }
        },
        None => "stop".to_string(),
    }
}

pub open spec fn or_zero(n: Option<int>) -> int {
    match n {
        Some(v) => v,
        None => 0,
    }
}

/// The tokens that the last chunk reports: the whole prompt, the part of it that
/// came from the cache, and what was generated.
pub open spec fn usage_of(last: JsonModel) -> TokenUsage {
    let input = or_zero(last.signed_at("tokens_evaluated"@)) as i64;
    let output = or_zero(last.signed_at("tokens_predicted"@)) as i64;
    let cached = match last.at("timings"@) {
        Some(t) => or_zero(t.signed_at("cache_n"@)),
        None => 0,
    };
    TokenUsage {
        input_tokens: input,
        cached_input_tokens: if cached > 0 {
            cached as i64
        } else {
            0
        },
        output_tokens: output,
        reasoning_output_tokens: 0,
        total_tokens: input.wrapping_add(output),
    }
}

/// The tokens that the last chunk reports.
pub fn token_usage_from_final(last: &Json) -> (r: TokenUsage)
    ensures
        r == usage_of(last@),
{
    let input: i64 = last.i64_at("tokens_evaluated").unwrap_or(0);
    let output: i64 = last.i64_at("tokens_predicted").unwrap_or(0);
    let cached: i64 = match last.get("timings") {
        Some(t) => t.i64_at("cache_n").unwrap_or(0),
        None => 0,
    };
    TokenUsage {
        input_tokens: input,
        cached_input_tokens: if cached > 0 {
            cached
        } else {
            0
        },
        output_tokens: output,
        reasoning_output_tokens: 0,
        total_tokens: input.wrapping_add(output),
    }
}

pub type TypesModel = Seq<(Seq<char>, Seq<(Seq<char>, Seq<char>)>)>;

/// The parameter types of the tool `name` among the first `n` entries; the last
/// entry of that name counts.
pub open spec fn types_for(types: TypesModel, name: Seq<char>, n: int) -> Seq<(Seq<char>, Seq<char>)>
    decreases n,
{
    if n <= 0 {
        Seq::empty()
    } else if types[n - 1].0 == name {
        types[n - 1].1
    } else {
        types_for(types, name, n - 1)
    }
}

fn types_index(types: &Vec<ToolTypes>, name: &str) -> (r: Option<usize>)
    ensures
        match r {
            Some(i) => i < types@.len() && types_for(
                prompt::tool_types_models(types@),
                name@,
                types@.len() as int,
            ) == tool_call::argument_texts(types@[i as int].params@),
            None => types_for(
                prompt::tool_types_models(types@),
                name@,
                types@.len() as int,
            ).len() == 0,
        },
{
    let ghost all = prompt::tool_types_models(types@);
    let mut n: usize = types.len();
    while n > 0
        invariant
            n <= types@.len(),
            all == prompt::tool_types_models(types@),
            types_for(all, name@, types@.len() as int) == types_for(all, name@, n as int),
        decreases n,
    {
        if text::same_text(types[n - 1].name.as_str(), name) {
            return Some(n - 1);
        }
        n -= 1;
    }
    None
}

/// The item for one call.
pub open spec fn call_item(
    call: CallModel,
    types: TypesModel,
    floats: Seq<Option<FloatModel>>,
    next: u64,
) -> ItemModel {
    ItemModel::FunctionCall {
        name: match prompt::unflattened(call.name) {
            Some((_, name)) => name,
            None => call.name,
        },
        namespace: match prompt::unflattened(call.name) {
            Some((namespace, _)) => Some(namespace),
            None => None,
        },
        arguments: seq!['{'] + tool_call::arguments_text(
            call.arguments,
            types_for(types, call.name, types.len() as int),
            floats,
            call.arguments.len() as int,
        ) + seq!['}'],
        call_id: match call.call_id {
            Some(id) => id,
            None => events::made_up_call_id(next),
        },
    }
}

/// The items for the first `n` calls, and the number of the next id that is made
/// up. `floats` holds how the arguments of each call read as floats.
pub open spec fn call_items(
    calls: Seq<CallModel>,
    types: TypesModel,
    floats: Seq<Seq<Option<FloatModel>>>,
    n: int,
    next: u64,
) -> (Seq<ItemModel>, u64)
    decreases n,
{
    if n <= 0 {
        (Seq::empty(), next)
    } else {
        let (items, at) = call_items(calls, types, floats, n - 1, next);
        let call = calls[n - 1];
        (
            items.push(call_item(call, types, floats[n - 1], at)),
            if call.call_id is None {
                at.wrapping_add(1)
            } else {
                at
            },
        )
    }
}

/// The reasoning item, where there was any.
pub open spec fn reasoning_items(reasoning: Seq<char>, ids: IdsModel) -> Seq<ItemModel> {
    if reasoning.len() == 0 {
        Seq::empty()
    } else {
        seq![ItemModel::Reasoning { id: ids.reasoning, text: reasoning }]
    }
}

/// The message item, where there is more than whitespace to say.
pub open spec fn message_items(content: Option<Seq<char>>, ids: IdsModel) -> Seq<ItemModel> {
    match content {
        Some(t) if !text::is_blank(t) => seq![ItemModel::Message { id: ids.message, text: t }],
        _ => Seq::empty(),
    }
}

/// What was parsed of the content behind the reasoning.
pub open spec fn is_extracted(extracted: ExtractedToolCalls, content: Seq<char>) -> bool {
    &&& tool_call::call_models(extracted.tool_calls@) == tool_call::calls_of(content)
    &&& text::optional(extracted.content) == tool_call::content_of(content)
}

pub open spec fn float_rows(floats: Seq<Vec<Option<FloatReading>>>) -> Seq<Seq<Option<FloatModel>>> {
    floats.map_values(|row: Vec<Option<FloatReading>>| tool_call::readings(row@))
}

/// The items of a whole completion: its reasoning, its message, its calls.
pub open spec fn final_items(
    raw: Seq<char>,
    types: TypesModel,
    floats: Seq<Seq<Option<FloatModel>>>,
    ids: IdsModel,
    next: u64,
) -> (Seq<ItemModel>, u64) {
    let (reasoning, content) = regions::think_split(raw);
    let calls = tool_call::calls_of(content);
    let (items, at) = call_items(calls, types, floats, calls.len() as int, next);
    (
        reasoning_items(reasoning, ids) + message_items(tool_call::content_of(content), ids) + items,
        at,
    )
}

/// The calls that a whole completion holds.
pub fn calls_of_completion(raw: &str) -> (r: ExtractedToolCalls)
    ensures
        is_extracted(r, regions::think_split(raw@).1),
{
    let (_, content) = regions::split_think_block(raw);
    let content = text::string_of(content.as_slice());
    tool_call::extract_tool_calls(content.as_str())
}

fn push_item(out: &mut Vec<OutputItem>, item: OutputItem)
    ensures
        events::item_models(final(out)@) == events::item_models(old(out)@).push(item@),
{
    let ghost before = out@;
    out.push(item);
    assert(events::item_models(out@) =~= events::item_models(before).push(item@));
}

/// The item for one parsed call.
fn item_for_call(
    call: &ParsedToolCall,
    types: &Vec<ToolTypes>,
    floats: &Vec<Option<FloatReading>>,
    next: u64,
) -> (r: OutputItem)
    requires
        floats@.len() == call.arguments@.len(),
    ensures
        r@ == call_item(
            call@,
            prompt::tool_types_models(types@),
            tool_call::readings(floats@),
            next,
        ),
{
    let ghost models = prompt::tool_types_models(types@);
    let arguments = match types_index(types, call.name.as_str()) {
        Some(i) => tool_call::arguments_to_json_string(call, &types[i].params, floats),
        None => {
            let none: Vec<(String, String)> = Vec::new();
            assert(tool_call::argument_texts(none@) =~= types_for(
                models,
                call.name@,
                models.len() as int,
            ));
            tool_call::arguments_to_json_string(call, &none, floats)
        },
    };
    let call_id = match &call.call_id {
        Some(id) => id.clone(),
        None => events::make_call_id(next),
    };
    match prompt::unflatten_tool_name(call.name.as_str()) {
        Some((namespace, name)) => OutputItem::FunctionCall {
            name,
            namespace: Some(namespace),
            arguments,
            call_id,
        },
        None => OutputItem::FunctionCall {
            name: call.name.clone(),
            namespace: None,
            arguments,
            call_id,
        },
    }
}

/// The items of a whole completion, and the number of the next call id that is
/// made up. `extracted` is what `calls_of_completion` gives; `floats` holds how
/// each argument of each of its calls reads as a float.
pub fn parse_final_items(
    raw: &str,
    extracted: &ExtractedToolCalls,
    types: &Vec<ToolTypes>,
    floats: &Vec<Vec<Option<FloatReading>>>,
    ids: &ItemIds,
    next: u64,
) -> (r: (Vec<OutputItem>, u64))
    requires
        is_extracted(*extracted, regions::think_split(raw@).1),
        floats@.len() == extracted.tool_calls@.len(),
        forall|k: int|
            0 <= k < floats@.len() ==> (#[trigger] floats@[k])@.len()
                == extracted.tool_calls@[k].arguments@.len(),
    ensures
        (events::item_models(r.0@), r.1) == final_items(
            raw@,
            prompt::tool_types_models(types@),
            float_rows(floats@),
            ids@,
            next,
        ),
{
    let (reasoning, _) = regions::split_think_block(raw);
    let ghost (thought, content) = regions::think_split(raw@);
    let mut out: Vec<OutputItem> = Vec::new();
    assert(events::item_models(out@) =~= Seq::empty());
    if reasoning.len() > 0 {
        push_item(
            &mut out,
            OutputItem::Reasoning {
                id: ids.reasoning.clone(),
                text: text::string_of(reasoning.as_slice()),
            },
        );
    }
    assert(events::item_models(out@) =~= reasoning_items(thought, ids@));
    match &extracted.content {
        Some(t) => {
            if !text::str_blank(t.as_str()) {
                push_item(
                    &mut out,
                    OutputItem::Message { id: ids.message.clone(), text: t.clone() },
                );
            }
        },
        None => {},
    }
    let ghost head = reasoning_items(thought, ids@) + message_items(
        tool_call::content_of(content),
        ids@,
    );
    assert(events::item_models(out@) =~= head);
    let ghost calls = tool_call::calls_of(content);
    let ghost models = prompt::tool_types_models(types@);
    let ghost rows = float_rows(floats@);
    let mut at: u64 = next;
    let mut i: usize = 0;
    assert(head + Seq::<ItemModel>::empty() =~= head);
    while i < extracted.tool_calls.len()
        invariant
            i <= extracted.tool_calls@.len(),
            calls == tool_call::call_models(extracted.tool_calls@),
            models == prompt::tool_types_models(types@),
            rows == float_rows(floats@),
            floats@.len() == extracted.tool_calls@.len(),
            forall|k: int|
                0 <= k < floats@.len() ==> (#[trigger] floats@[k])@.len()
                    == extracted.tool_calls@[k].arguments@.len(),
            events::item_models(out@) == head + call_items(calls, models, rows, i as int, next).0,
            at == call_items(calls, models, rows, i as int, next).1,
        decreases extracted.tool_calls@.len() - i,
    {
        let call = &extracted.tool_calls[i];
        assert(calls[i as int] == call@);
        assert(rows[i as int] == tool_call::readings(floats@[i as int]@));
        let ghost before = call_items(calls, models, rows, i as int, next).0;
        let item = item_for_call(call, types, &floats[i], at);
        push_item(&mut out, item);
        assert((head + before).push(item@) =~= head + before.push(item@));
        if call.call_id.is_none() {
            at = at.wrapping_add(1);
        }
        i += 1;
    }
    (out, at)
}

/// Whether an item is a call.
pub open spec fn is_call(item: ItemModel) -> bool {
    item is FunctionCall
}

/// The first `n` items, without calls where the completion is cut off.
pub open spec fn kept_items(items: Seq<ItemModel>, cut: bool, n: int) -> Seq<ItemModel>
    decreases n,
{
    if n <= 0 {
        Seq::empty()
    } else if cut && is_call(items[n - 1]) {
        kept_items(items, cut, n - 1)
    } else {
        kept_items(items, cut, n - 1).push(items[n - 1])
    }
}

/// The events that end a completion: its items, then that it is complete. The
/// turn goes on where the completion is cut off.
pub open spec fn closing_events(items: Seq<ItemModel>, last: JsonModel) -> Seq<EventModel> {
    let reason = finish_reason_of(last);
    events::done_events(kept_items(items, cut_off(reason), items.len() as int)).push(
        EventModel::Completed {
            usage: usage_of(last),
            end_turn: !cut_off(reason),
            finish_reason: reason,
        },
    )
}

/// A completion that is cut off runs no tool.
pub proof fn cut_off_completions_call_nothing(items: Seq<ItemModel>, last: JsonModel)
    requires
        cut_off(finish_reason_of(last)),
    ensures
        forall|k: int|
            0 <= k < closing_events(items, last).len() ==> match #[trigger] closing_events(
                items,
                last,
            )[k] {
                EventModel::Done(item) => !is_call(item),
                EventModel::Completed { end_turn, .. } => !end_turn,
                _ => false,
            },
{
    kept_items_hold_no_calls(items, items.len() as int);
}

proof fn kept_items_hold_no_calls(items: Seq<ItemModel>, n: int)
    ensures
        forall|k: int|
            0 <= k < kept_items(items, true, n).len() ==> !is_call(
                #[trigger] kept_items(items, true, n)[k],
            ),
    decreases n,
{
    if n > 0 {
        kept_items_hold_no_calls(items, n - 1);
        let before = kept_items(items, true, n - 1);
        let whole = kept_items(items, true, n);
        assert forall|k: int| 0 <= k < whole.len() implies !is_call(#[trigger] whole[k]) by {
            if k < before.len() {
                assert(whole[k] == before[k]);
            }
        }
    }
}

proof fn kept_items_of_whole(items: Seq<ItemModel>, n: int)
    requires
        0 <= n <= items.len(),
    ensures
        kept_items(items, false, n) == items.take(n),
    decreases n,
{
    if n > 0 {
        kept_items_of_whole(items, n - 1);
        assert(items.take(n) =~= items.take(n - 1).push(items[n - 1]));
    } else {
        assert(items.take(0) =~= Seq::empty());
    }
}

/// A completion that came to its end keeps all its items.
pub proof fn whole_completions_keep_everything(items: Seq<ItemModel>, last: JsonModel)
    requires
        !cut_off(finish_reason_of(last)),
    ensures
        closing_events(items, last).drop_last() == events::done_events(items),
{
    kept_items_of_whole(items, items.len() as int);
    assert(items.take(items.len() as int) =~= items);
    assert(closing_events(items, last).drop_last() =~= events::done_events(items));
}

/// Whether a completion that ended for this reason is cut off.
pub fn is_cut_off(finish_reason: &str) -> (r: bool)
    ensures
        r == cut_off(finish_reason@),
{
    text::same_text(finish_reason, "length") || text::same_text(finish_reason, "repetition")
}

impl RawStream {
    /// The whole text of the completion.
    pub fn raw_content(&self) -> (r: String)
        ensures
            r@ == self.splitter.acc@,
    {
        text::string_of(self.splitter.acc.as_slice())
    }

    /// Shows what was held back.
    pub fn flush(&mut self, out: &mut Vec<StreamEvent>)
        requires
            old(self).well_formed(),
        ensures
            final(self).splitter.acc@ == old(self).splitter.acc@,
            final(self).splitter.emitted == final(self).splitter.acc@.len(),
            final(self).splitter.state == old(self).splitter.state,
            final(self).buffer == old(self).buffer,
            final(self).ids == old(self).ids,
            ({
                let tail = regions::tail_delta(
                    old(self).splitter.state,
                    old(self).splitter.acc@,
                    old(self).splitter.emitted as int,
                );
                let (shown, seen) = shown_events(
                    tail,
                    tail.len() as int,
                    old(self).seen,
                    old(self).ids@,
                );
                &&& events::event_models(final(out)@) == events::event_models(old(out)@) + shown
                &&& final(self).seen == seen
            }),
    {
        let mut deltas: Vec<RegionDelta> = Vec::new();
        assert(regions::delta_models(deltas@) =~= Seq::empty());
        let ghost tail = regions::tail_delta(
            self.splitter.state,
            self.splitter.acc@,
            self.splitter.emitted as int,
        );
        self.splitter.finish(&mut deltas);
        assert(Seq::<DeltaModel>::empty() + tail =~= tail);
        let mut seen = self.seen;
        emit_region_deltas(deltas, &self.ids, &mut seen, out);
        self.seen = seen;
    }
}

/// Ends a completion: its items are done, then it is complete.
pub fn close(items: Vec<OutputItem>, last: &Json, out: &mut Vec<StreamEvent>)
    ensures
        events::event_models(final(out)@) == events::event_models(old(out)@) + closing_events(
            events::item_models(items@),
            last@,
        ),
{
    let reason = finish_reason(last);
    let cut = is_cut_off(reason.as_str());
    let ghost all = events::item_models(items@);
    let ghost start = events::event_models(out@);
    let ghost mut n: int = 0;
    assert(start + events::done_events(Seq::empty()) =~= start);
    for item in it: items
        invariant
            n == it.index(),
            all == events::item_models(it.seq()),
            events::event_models(out@) == start + events::done_events(kept_items(all, cut, n)),
    {
        let ghost before = kept_items(all, cut, n);
        assert(all[n] == item@);
        let skip: bool = match &item {
            OutputItem::FunctionCall { .. } => cut,
            _ => false,
        };
        if !skip {
            events::emit(out, StreamEvent::Done(item));
            assert((start + events::done_events(before)).push(EventModel::Done(all[n])) =~= start
                + events::done_events(before.push(all[n])));
        }
        proof {
            n = n + 1;
        }
    }
    let ghost body = events::done_events(kept_items(all, cut, all.len() as int));
    let usage = token_usage_from_final(last);
    let ghost done = EventModel::Completed {
        usage,
        end_turn: !cut,
        finish_reason: reason@,
    };
    events::emit(out, StreamEvent::Completed { usage, end_turn: !cut, finish_reason: reason });
    assert((start + body).push(done) =~= start + body.push(done));
}

// ---------------------------------------------------------------------------
// Laws.

/// Whether an item neither begins a turn nor belongs to one that runs.
pub open spec fn is_aside(item: ResponseItem) -> bool {
    match item {
        ResponseItem::Message { role, .. } => role@ != "user"@ && role@ != "assistant"@,
        ResponseItem::Other => true,
        _ => false,
    }
}

/// A turn starts where the user spoke last, whatever asides came behind, and in no other
/// case.
pub proof fn turns_start_with_the_user(input: Seq<ResponseItem>, at: int, n: int)
    requires
        -1 <= at < n <= input.len(),
        forall|k: int| at < k < n ==> is_aside(#[trigger] input[k]),
    ensures
        at == -1 ==> !starts_turn(input, n),
        at >= 0 && (input[at] matches ResponseItem::Message { role, .. } && role@ == "user"@)
            ==> starts_turn(input, n),
    decreases n,
{
    reveal_strlit("user");
    reveal_strlit("assistant");
    assert("user"@.len() == 4 && "assistant"@.len() == 9);
    if at < n - 1 {
        assert(is_aside(input[n - 1]));
        if n - 1 > at {
            if n - 1 > 0 {
                turns_start_with_the_user(input, at, n - 1);
            }
        }
    }
}

/// A piece of reasoning or of text is shown as it is, behind the word that an item begins
/// where none of its kind had begun.
pub proof fn items_are_announced_once(t: Seq<char>, seen: Announced, ids: IdsModel)
    ensures
        ({
            let thought = delta_events(DeltaModel::Reasoning(t), seen, ids);
            let said = delta_events(DeltaModel::Text(t), seen, ids);
            &&& thought == if seen.reasoning {
                seq![EventModel::ReasoningDelta(t)]
            } else {
                seq![EventModel::ReasoningAdded(ids.reasoning), EventModel::ReasoningDelta(t)]
            }
            &&& said == if seen.message {
                seq![EventModel::TextDelta(t)]
            } else {
                seq![EventModel::MessageAdded(ids.message), EventModel::TextDelta(t)]
            }
        }),
        announced_by(DeltaModel::Reasoning(t), seen).reasoning,
        announced_by(DeltaModel::Reasoning(t), seen).message == seen.message,
        announced_by(DeltaModel::Text(t), seen).message,
        announced_by(DeltaModel::Text(t), seen).reasoning == seen.reasoning,
{
}

/// The text that events show.
pub open spec fn text_shown(shown: Seq<EventModel>) -> Seq<char>
    decreases shown.len(),
{
    if shown.len() == 0 {
        Seq::empty()
    } else {
        text_shown(shown.drop_last()) + match shown.last() {
            EventModel::TextDelta(t) => t,
            _ => Seq::empty(),
        }
    }
}

/// The reasoning that events show.
pub open spec fn reasoning_shown(shown: Seq<EventModel>) -> Seq<char>
    decreases shown.len(),
{
    if shown.len() == 0 {
        Seq::empty()
    } else {
        reasoning_shown(shown.drop_last()) + match shown.last() {
            EventModel::ReasoningDelta(t) => t,
            _ => Seq::empty(),
        }
    }
}

/// What two runs of events show is what the one shows and then what the other does.
pub proof fn shown_adds_up(a: Seq<EventModel>, b: Seq<EventModel>)
    ensures
        text_shown(a + b) == text_shown(a) + text_shown(b),
        reasoning_shown(a + b) == reasoning_shown(a) + reasoning_shown(b),
    decreases b.len(),
{
    if b.len() == 0 {
        assert(a + b =~= a);
        assert(text_shown(a) + text_shown(b) =~= text_shown(a));
        assert(reasoning_shown(a) + reasoning_shown(b) =~= reasoning_shown(a));
    } else {
        assert((a + b).drop_last() =~= a + b.drop_last());
        assert((a + b).last() == b.last());
        shown_adds_up(a, b.drop_last());
        let t = match b.last() {
            EventModel::TextDelta(t) => t,
            _ => Seq::empty(),
        };
        let r = match b.last() {
            EventModel::ReasoningDelta(t) => t,
            _ => Seq::empty(),
        };
        assert(text_shown(a) + text_shown(b.drop_last()) + t =~= text_shown(a) + (text_shown(
            b.drop_last(),
        ) + t));
        assert(reasoning_shown(a) + reasoning_shown(b.drop_last()) + r =~= reasoning_shown(a) + (
        reasoning_shown(b.drop_last()) + r));
    }
}

/// What is shown is what came, piece behind piece, each as what it is.
pub proof fn every_piece_is_shown(
    deltas: Seq<DeltaModel>,
    last: DeltaModel,
    seen: Announced,
    ids: IdsModel,
)
    ensures
        ({
            let n = deltas.len() as int;
            let before = shown_events(deltas, n, seen, ids).0;
            let after = shown_events(deltas.push(last), n + 1, seen, ids).0;
            &&& last matches DeltaModel::Text(t) ==> text_shown(after) == text_shown(before) + t
                && reasoning_shown(after) == reasoning_shown(before)
            &&& last matches DeltaModel::Reasoning(t) ==> reasoning_shown(after) == reasoning_shown(
                before,
            ) + t && text_shown(after) == text_shown(before)
        }),
{
    let n = deltas.len() as int;
    same_shown(deltas, last, n, seen, ids);
    let (before, now) = shown_events(deltas, n, seen, ids);
    assert(deltas.push(last)[n] == last);
    let more = delta_events(last, now, ids);
    shown_adds_up(before, more);
    let t = match last {
        DeltaModel::Reasoning(t) => t,
        DeltaModel::Text(t) => t,
    };
    let none = Seq::<char>::empty();
    reveal_with_fuel(text_shown, 3);
    reveal_with_fuel(reasoning_shown, 3);
    items_are_announced_once(t, now, ids);
    if more.len() == 1 {
        assert(more.drop_last() =~= Seq::empty());
    } else {
        assert(more.drop_last().drop_last() =~= Seq::empty());
        assert(more.drop_last().last() == more[0]);
    }
    assert(none + t =~= t);
    assert(none + none =~= none);
    assert(none + none + t =~= t);
    assert(text_shown(before) + none =~= text_shown(before));
    assert(reasoning_shown(before) + none =~= reasoning_shown(before));
}

proof fn same_shown(deltas: Seq<DeltaModel>, last: DeltaModel, n: int, seen: Announced, ids: IdsModel)
    requires
        0 <= n <= deltas.len(),
    ensures
        shown_events(deltas.push(last), n, seen, ids) == shown_events(deltas, n, seen, ids),
    decreases n,
{
    if n > 0 {
        same_shown(deltas, last, n - 1, seen, ids);
        assert(deltas.push(last)[n - 1] == deltas[n - 1]);
    }
}

/// A payload that cannot be read changes nothing; one with an error fails and shows nothing;
/// one with a text adds it to the completion, and one that stops it ends it.
pub proof fn payloads_do_what_they_say(
    s: RawModel,
    payload: Seq<char>,
    chunk: JsonModel,
    t: Seq<char>,
    ids: IdsModel,
)
    ensures
        json::parsed(payload) is None ==> s.step(payload, ids) == (
            s,
            Seq::<EventModel>::empty(),
            events::Progress::Running,
        ),
        json::parsed(payload) == Some(chunk) ==> ({
            let (next, shown, progress) = s.step(payload, ids);
            let well = chunk.at("error"@) is None || chunk.at("error"@) == Some(JsonModel::Null);
            &&& !well ==> next == s && shown.len() == 0 && progress is Failed
            &&& well && chunk.at("content"@) == Some(JsonModel::Text(t)) ==> next.acc == s.acc + t
            &&& well && chunk.at("content"@) is None ==> next == s && shown.len() == 0
            &&& well ==> (progress is Finished <==> chunk.at("stop"@) == Some(JsonModel::Bool(true)))
            &&& well && progress is Finished ==> progress == events::Progress::Finished(chunk)
            &&& well && !(progress is Finished) ==> progress is Running
        }),
{
    assert(s.acc + Seq::<char>::empty() =~= s.acc);
    if t.len() == 0 {
        assert(t =~= Seq::<char>::empty());
    }
}

/// A completion that ran into its limit was cut off, and so was one that was stopped for
/// repeating itself; any other has come to its end.
pub proof fn completions_end_as_they_were_stopped(last: JsonModel, kind: Seq<char>)
    ensures
        last.at("stop_type"@) == Some(JsonModel::Text("limit"@)) ==> finish_reason_of(last)
            == "length"@ && cut_off(finish_reason_of(last)),
        last.at("stop_type"@) == Some(JsonModel::Text("repetition"@)) ==> finish_reason_of(last)
            == "repetition"@ && cut_off(finish_reason_of(last)),
        last.at("stop_type"@) is None ==> finish_reason_of(last) == "stop"@ && !cut_off(
            finish_reason_of(last),
        ),
        last.at("stop_type"@) == Some(JsonModel::Text(kind)) && kind != "limit"@ && kind
            != "repetition"@ ==> finish_reason_of(last) == "stop"@ && !cut_off(
            finish_reason_of(last),
        ),
{
    reveal_strlit("limit");
    reveal_strlit("length");
    reveal_strlit("repetition");
    reveal_strlit("stop");
    assert("limit"@.len() == 5 && "length"@.len() == 6);
    assert("repetition"@.len() == 10 && "stop"@.len() == 4);
}

/// The tokens that the server counted are told, and their sum; of what was cached, nothing
/// less than none.
pub proof fn tokens_are_counted(last: JsonModel, timings: JsonModel, a: i64, b: i64, c: i64)
    requires
        last.at("tokens_evaluated"@) == Some(JsonModel::Number(text::signed_decimal(a as int))),
        last.at("tokens_predicted"@) == Some(JsonModel::Number(text::signed_decimal(b as int))),
        i64::MIN <= a + b <= i64::MAX,
    ensures
        usage_of(last).input_tokens == a,
        usage_of(last).output_tokens == b,
        usage_of(last).total_tokens == a + b,
        usage_of(last).reasoning_output_tokens == 0,
        last.at("timings"@) is None ==> usage_of(last).cached_input_tokens == 0,
        last.at("timings"@) == Some(timings) && timings.at("cache_n"@) == Some(
            JsonModel::Number(text::signed_decimal(c as int)),
        ) ==> usage_of(last).cached_input_tokens == if c > 0 {
            c
        } else {
            0
        },
{
    json::whole_numbers_are_read_back(0, a as int, last);
    json::whole_numbers_are_read_back(0, b as int, last);
    json::whole_numbers_are_read_back(0, c as int, last);
}

/// The types of a tool are those that were declared for it last.
pub proof fn types_are_those_of_the_tool(types: TypesModel, name: Seq<char>, n: int, i: int)
    requires
        -1 <= i < n <= types.len() || (i == -1 && n == 0),
        forall|k: int| i < k < n ==> (#[trigger] types[k]).0 != name,
    ensures
        i == -1 ==> types_for(types, name, n).len() == 0,
        i >= 0 && types[i].0 == name ==> types_for(types, name, n) == types[i].1,
    decreases n,
{
    if i < n - 1 {
        assert(types[n - 1].0 != name);
        types_are_those_of_the_tool(types, name, n - 1, i);
    }
}

/// Every call becomes an item of its own, in its place, under its name and with its arguments
/// written as an object; it keeps its id, and one that has none gets a new one.
pub proof fn every_call_becomes_an_item(
    calls: Seq<CallModel>,
    types: TypesModel,
    floats: Seq<Seq<Option<FloatModel>>>,
    n: int,
    next: u64,
    k: int,
)
    requires
        0 <= k < n <= calls.len(),
        next + n <= u64::MAX,
    ensures
        ({
            let (items, at) = call_items(calls, types, floats, n, next);
            let call = calls[k];
            &&& items.len() == n
            &&& next <= at <= next + n
            &&& items[k] matches ItemModel::FunctionCall { name, namespace, arguments, call_id } && {
                &&& namespace is None ==> name == call.name
                &&& namespace matches Some(s) ==> call.name == s + "__"@ + name
                &&& arguments == seq!['{'] + tool_call::arguments_text(
                    call.arguments,
                    types_for(types, call.name, types.len() as int),
                    floats[k],
                    call.arguments.len() as int,
                ) + seq!['}']
                &&& call.call_id matches Some(id) ==> call_id == id
                &&& call.call_id is None ==> call_id == events::made_up_call_id(
                    call_items(calls, types, floats, k, next).1,
                )
            }
        }),
        calls[k].call_id is None ==> call_items(calls, types, floats, k + 1, next).1 == call_items(
            calls,
            types,
            floats,
            k,
            next,
        ).1 + 1,
        calls[k].call_id is Some ==> call_items(calls, types, floats, k + 1, next).1 == call_items(
            calls,
            types,
            floats,
            k,
            next,
        ).1,
{
    items_in_turn(calls, types, floats, n, next, k);
    items_in_turn(calls, types, floats, k, next, k);
    let flat = calls[k].name;
    text::find_from_is_first(flat, "__"@, 0);
    match prompt::unflattened(flat) {
        Some((s, name)) => {
            assert(flat =~= s + "__"@ + name);
        },
        None => {},
    }
}

proof fn items_in_turn(
    calls: Seq<CallModel>,
    types: TypesModel,
    floats: Seq<Seq<Option<FloatModel>>>,
    n: int,
    next: u64,
    k: int,
)
    requires
        0 <= n <= calls.len(),
        0 <= k < calls.len(),
        next + n <= u64::MAX,
    ensures
        call_items(calls, types, floats, n, next).0.len() == n,
        next <= call_items(calls, types, floats, n, next).1 <= next + n,
        k < n ==> call_items(calls, types, floats, n, next).0[k] == call_item(
            calls[k],
            types,
            floats[k],
            call_items(calls, types, floats, k, next).1,
        ),
    decreases n,
{
    if n > 0 {
        items_in_turn(calls, types, floats, n - 1, next, k);
    }
}

/// The items of a completion are its reasoning, then its text, then its calls, the first two
/// only where there is anything of them.
pub proof fn items_stand_in_order(
    raw: Seq<char>,
    types: TypesModel,
    floats: Seq<Seq<Option<FloatModel>>>,
    ids: IdsModel,
    next: u64,
)
    ensures
        ({
            let (reasoning, content) = regions::think_split(raw);
            let calls = tool_call::calls_of(content);
            let (items, _) = final_items(raw, types, floats, ids, next);
            let called = call_items(calls, types, floats, calls.len() as int, next).0;
            let said = tool_call::content_of(content);
            let speaks = said matches Some(t) && !text::is_blank(t);
            let thought = ItemModel::Reasoning { id: ids.reasoning, text: reasoning };
            let message = ItemModel::Message { id: ids.message, text: said.unwrap() };
            &&& reasoning.len() > 0 && speaks ==> items == seq![thought, message] + called
            &&& reasoning.len() > 0 && !speaks ==> items == seq![thought] + called
            &&& reasoning.len() == 0 && speaks ==> items == seq![message] + called
            &&& reasoning.len() == 0 && !speaks ==> items == called
        }),
{
}

/// A completion that was cut off keeps all that it thought and said, in its order.
pub proof fn cut_off_completions_keep_what_was_said(items: Seq<ItemModel>)
    ensures
        kept_items(items, true, items.len() as int) == items.filter(
            |i: ItemModel| !(i is FunctionCall),
        ),
{
    kept_are_filtered(items, items.len() as int);
    assert(items.take(items.len() as int) =~= items);
}

proof fn kept_are_filtered(items: Seq<ItemModel>, n: int)
    requires
        0 <= n <= items.len(),
    ensures
        kept_items(items, true, n) == items.take(n).filter(|i: ItemModel| !(i is FunctionCall)),
    decreases n,
{
    reveal(Seq::filter);
    if n > 0 {
        kept_are_filtered(items, n - 1);
        assert(items.take(n).drop_last() =~= items.take(n - 1));
    }
}

/// The last event says how the completion ended and what it took.
pub proof fn completions_are_closed_by_their_end(items: Seq<ItemModel>, last: JsonModel)
    ensures
        closing_events(items, last).len() > 0,
        closing_events(items, last).last() == (EventModel::Completed {
            usage: usage_of(last),
            end_turn: !(finish_reason_of(last) == "length"@ || finish_reason_of(last)
                == "repetition"@),
            finish_reason: finish_reason_of(last),
        }),
{
}

} // verus!
