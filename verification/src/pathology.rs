//! Loop guard. A completion that loops, or a tool call that repeats, is a failure.
//! First the completion is sampled again, as long as the budget lasts; after that
//! the text that repeated is penalized in the next completion, more strongly with
//! each failure in a row. The first clean completion clears all of it.

use crate::json;
use crate::json::Json;
use crate::json::JsonModel;
use crate::text;
use vstd::prelude::*;
use vstd::string::*;

verus! {

/// What a failure was.
#[derive(Debug, Clone, Copy, PartialEq, Eq, Structural)]
pub enum Trigger {
    /// The completion looped.
    Loop,
    /// A tool call was repeated.
    RepeatedToolCall,
}

impl Trigger {
    pub open spec fn name(self) -> Seq<char> {
        match self {
            Trigger::Loop => "loop"@,
            Trigger::RepeatedToolCall => "repeated_tool_call"@,
        }
    }

    pub fn as_str(self) -> (r: &'static str)
        ensures
            r@ == self.name(),
    {
        match self {
            Trigger::Loop => "loop",
            Trigger::RepeatedToolCall => "repeated_tool_call",
        }
    }
}

// ---------------------------------------------------------------------------
// Sampling again.

/// How much of the budget of clean retries is used up. A retry leaves no trace in
/// the penalty state.
#[derive(Debug, Clone, Copy, PartialEq, Eq, Structural)]
pub struct ResampleState {
    /// Retries since the last clean completion.
    pub used: u32,
    /// A repeated call has claimed a retry in this completion.
    pub requested: bool,
}

impl Default for ResampleState {
    fn default() -> (r: Self)
        ensures
            r == (ResampleState { used: 0, requested: false }),
    {
        ResampleState { used: 0, requested: false }
    }
}

impl ResampleState {
    /// Claims one retry.
    pub fn try_claim(&mut self, budget: u32) -> (claimed: bool)
        ensures
            claimed == (old(self).used < budget),
            final(self).used == old(self).used + if claimed {
                1int
            } else {
                0
            },
            final(self).requested == old(self).requested,
    {
        if self.used < budget {
            self.used = self.used + 1;
            true
        } else {
            false
        }
    }

    /// Claims a retry for a repeated call. Later calls of the same completion are
    /// covered by the same retry.
    pub fn request_repeated_call(&mut self, budget: u32) -> (skip: bool)
        ensures
            skip == (old(self).requested || old(self).used < budget),
            *final(self) == (if old(self).requested || old(self).used >= budget {
                *old(self)
            } else {
                ResampleState { used: (old(self).used + 1) as u32, requested: true }
            }),
    {
        if self.requested {
            return true;
        }
        if self.used < budget {
            self.used = self.used + 1;
            self.requested = true;
            true
        } else {
            false
        }
    }

    /// Whether a retry was requested; clears the request.
    pub fn take_requested(&mut self) -> (was: bool)
        ensures
            was == old(self).requested,
            *final(self) == (ResampleState { used: old(self).used, requested: false }),
    {
        let was = self.requested;
        self.requested = false;
        was
    }

    /// Whether a retry is requested.
    pub fn is_requested(&self) -> (r: bool)
        ensures
            r == self.requested,
    {
        self.requested
    }

    /// Retries used so far.
    pub fn used(&self) -> (r: u32)
        ensures
            r == self.used,
    {
        self.used
    }

    /// A clean completion refills the budget.
    pub fn reset(&mut self)
        ensures
            *final(self) == (ResampleState { used: 0, requested: false }),
    {
        self.used = 0;
        self.requested = false;
    }
}

/// One use of the budget.
pub enum Claim {
    /// For a completion that looped.
    Completion,
    /// For a repeated call.
    RepeatedCall,
    /// The request is taken up.
    Taken,
}

/// The state behind one use of the budget.
pub open spec fn claimed(s: ResampleState, claim: Claim, budget: u32) -> ResampleState {
    match claim {
        Claim::Completion => if s.used < budget {
            ResampleState { used: (s.used + 1) as u32, requested: s.requested }
        } else {
            s
        },
        Claim::RepeatedCall => if s.requested || s.used >= budget {
            s
        } else {
            ResampleState { used: (s.used + 1) as u32, requested: true }
        },
        Claim::Taken => ResampleState { used: s.used, requested: false },
    }
}

pub open spec fn after_claims(s: ResampleState, claims: Seq<Claim>, budget: u32) -> ResampleState
    decreases claims.len(),
{
    if claims.len() == 0 {
        s
    } else {
        claimed(after_claims(s, claims.drop_last(), budget), claims.last(), budget)
    }
}

/// However it is used, no more retries are claimed between two clean completions
/// than the budget holds.
pub proof fn budget_is_never_exceeded(claims: Seq<Claim>, budget: u32)
    ensures
        after_claims(ResampleState { used: 0, requested: false }, claims, budget).used <= budget,
    decreases claims.len(),
{
    if claims.len() > 0 {
        budget_is_never_exceeded(claims.drop_last(), budget);
    }
}

// ---------------------------------------------------------------------------
// The penalty.

/// Settings of the loop guard.
#[derive(Debug)]
pub struct PathologyParams {
    /// Ask the server to stop output that loops.
    pub repeat_stop: bool,
    /// Whether the first penalty is above zero.
    pub penalty_on: bool,
    /// The first match length that is penalized.
    pub ngram_penalty_start_n: u32,
    /// The cap on the penalty for one token, as a JSON number.
    pub ngram_penalty_max: String,
    /// Drop a looped generation from the conversation.
    pub backtrack_on_repetition: bool,
    /// Clean retries before the penalty comes in.
    pub resamples: u32,
}

/// How strong the penalty is, worked out by the caller: the first scale, and one
/// step more for each failure in a row behind the first.
#[derive(Debug)]
pub struct ScaleReading {
    pub positive: bool,
    /// As a JSON number.
    pub json: String,
}

/// The longest span that is kept, in characters.
pub const MAX_SPAN_CHARS: usize = 4000;

/// The most spans that are kept.
pub const MAX_SPANS: usize = 16;

/// What is penalized, and since when.
#[derive(Debug)]
pub struct PathologyState {
    /// The next completion is penalized.
    pub active: bool,
    /// Failures in a row.
    pub consecutive_failures: u32,
    /// The first match length that is penalized.
    pub start_n: u32,
    /// The texts that repeated.
    pub spans: Vec<String>,
    pub failed_since_begin: bool,
    pub clean_finish: bool,
}

pub struct PathologyModel {
    pub active: bool,
    pub failures: nat,
    pub start_n: nat,
    pub spans: Seq<Seq<char>>,
    pub failed_since_begin: bool,
    pub clean_finish: bool,
}

impl View for PathologyState {
    type V = PathologyModel;

    open spec fn view(&self) -> PathologyModel {
        PathologyModel {
            active: self.active,
            failures: self.consecutive_failures as nat,
            start_n: self.start_n as nat,
            spans: text::strings(self.spans@),
            failed_since_begin: self.failed_since_begin,
            clean_finish: self.clean_finish,
        }
    }
}

/// The end of a span; what the model would go on from.
pub open spec fn span_tail(span: Seq<char>) -> Seq<char> {
    if span.len() <= MAX_SPAN_CHARS {
        span
    } else {
        span.skip(span.len() - MAX_SPAN_CHARS)
    }
}

/// The end of a span; what the model would go on from.
pub fn trim_span(span: &str) -> (r: String)
    ensures
        r@ == span_tail(span@),
{
    let cs = text::chars_of(span);
    if cs.len() <= MAX_SPAN_CHARS {
        return span.to_string();
    }
    let r = text::substring_of(cs.as_slice(), cs.len() - MAX_SPAN_CHARS, cs.len());
    assert(r@ =~= span_tail(span@));
    r
}

/// `spans` with the first `n` of `more` behind them: trimmed, without empty ones
/// and without what is there.
pub open spec fn with_spans(spans: Seq<Seq<char>>, more: Seq<Seq<char>>, n: int) -> Seq<Seq<char>>
    decreases n,
{
    if n <= 0 {
        spans
    } else {
        let before = with_spans(spans, more, n - 1);
        let span = span_tail(more[n - 1]);
        if span.len() == 0 || before.contains(span) {
            before
        } else {
            before.push(span)
        }
    }
}

/// The last spans that there is room for.
pub open spec fn newest(spans: Seq<Seq<char>>) -> Seq<Seq<char>> {
    if spans.len() <= MAX_SPANS {
        spans
    } else {
        spans.skip(spans.len() - MAX_SPANS)
    }
}

impl PathologyModel {
    pub open spec fn fresh() -> PathologyModel {
        PathologyModel {
            active: false,
            failures: 0,
            start_n: 0,
            spans: Seq::empty(),
            failed_since_begin: false,
            clean_finish: false,
        }
    }

    /// Before a completion.
    pub open spec fn begun(self) -> PathologyModel {
        if self.clean_finish && !self.failed_since_begin {
            PathologyModel::fresh()
        } else {
            PathologyModel { failed_since_begin: false, clean_finish: false, ..self }
        }
    }

    /// Behind a completion that ended cleanly.
    pub open spec fn finished_cleanly(self) -> PathologyModel {
        PathologyModel { clean_finish: true, ..self }
    }

    /// Behind a failure in which `spans` repeated.
    pub open spec fn failed(
        self,
        spans: Seq<Seq<char>>,
        first_n: nat,
        penalty_on: bool,
    ) -> PathologyModel {
        PathologyModel {
            active: penalty_on,
            failures: self.failures + 1,
            start_n: if first_n > self.failures + 1 {
                (first_n - self.failures) as nat
            } else {
                1
            },
            spans: newest(with_spans(self.spans, spans, spans.len() as int)),
            failed_since_begin: true,
            clean_finish: false,
        }
    }

    /// What is kept of texts is bounded.
    pub open spec fn bounded(self) -> bool {
        &&& self.spans.len() <= MAX_SPANS
        &&& forall|k: int|
            0 <= k < self.spans.len() ==> 0 < (#[trigger] self.spans[k]).len() <= MAX_SPAN_CHARS
    }
}

proof fn with_spans_bounded(spans: Seq<Seq<char>>, more: Seq<Seq<char>>, n: int)
    requires
        forall|k: int|
            0 <= k < spans.len() ==> 0 < (#[trigger] spans[k]).len() <= MAX_SPAN_CHARS,
    ensures
        forall|k: int|
            0 <= k < with_spans(spans, more, n).len() ==> 0 < (#[trigger] with_spans(
                spans,
                more,
                n,
            )[k]).len() <= MAX_SPAN_CHARS,
    decreases n,
{
    if n > 0 {
        with_spans_bounded(spans, more, n - 1);
        let before = with_spans(spans, more, n - 1);
        let all = with_spans(spans, more, n);
        assert forall|k: int| 0 <= k < all.len() implies 0 < (#[trigger] all[k]).len()
            <= MAX_SPAN_CHARS by {
            if k < before.len() {
                assert(all[k] == before[k]);
            }
        }
    }
}

/// However many failures come, what is kept of them stays bounded.
pub proof fn kept_spans_stay_bounded(
    s: PathologyModel,
    spans: Seq<Seq<char>>,
    first_n: nat,
    penalty_on: bool,
)
    requires
        s.bounded(),
    ensures
        s.failed(spans, first_n, penalty_on).bounded(),
        s.begun().bounded(),
        s.finished_cleanly().bounded(),
{
    with_spans_bounded(s.spans, spans, spans.len() as int);
    let all = with_spans(s.spans, spans, spans.len() as int);
    let kept = newest(all);
    assert forall|k: int| 0 <= k < kept.len() implies 0 < (#[trigger] kept[k]).len()
        <= MAX_SPAN_CHARS by {
        if all.len() > MAX_SPANS {
            assert(kept[k] == all[k + all.len() - MAX_SPANS]);
        }
    }
}

/// Whether no span is kept twice.
pub open spec fn all_differ(spans: Seq<Seq<char>>) -> bool {
    forall|i: int, j: int|
        0 <= i < j < spans.len() ==> #[trigger] spans[i] != #[trigger] spans[j]
}

proof fn with_spans_differ(spans: Seq<Seq<char>>, more: Seq<Seq<char>>, n: int)
    requires
        all_differ(spans),
    ensures
        all_differ(with_spans(spans, more, n)),
    decreases n,
{
    if n > 0 {
        with_spans_differ(spans, more, n - 1);
        let before = with_spans(spans, more, n - 1);
        let all = with_spans(spans, more, n);
        assert forall|i: int, j: int| 0 <= i < j < all.len() implies #[trigger] all[i]
            != #[trigger] all[j] by {
            assert(all[i] == before[i]);
            assert(before.contains(before[i]));
            if j < before.len() {
                assert(all[j] == before[j]);
            }
        }
    }
}

/// However many failures come, no span is kept twice.
pub proof fn kept_spans_stay_distinct(
    s: PathologyModel,
    spans: Seq<Seq<char>>,
    first_n: nat,
    penalty_on: bool,
)
    requires
        all_differ(s.spans),
    ensures
        all_differ(s.failed(spans, first_n, penalty_on).spans),
        all_differ(s.begun().spans),
        all_differ(s.finished_cleanly().spans),
{
    with_spans_differ(s.spans, spans, spans.len() as int);
    let all = with_spans(s.spans, spans, spans.len() as int);
    let kept = newest(all);
    assert forall|i: int, j: int| 0 <= i < j < kept.len() implies #[trigger] kept[i]
        != #[trigger] kept[j] by {
        if all.len() > MAX_SPANS {
            let d = all.len() - MAX_SPANS;
            assert(kept[i] == all[i + d]);
            assert(kept[j] == all[j + d]);
        }
    }
}

/// What happens to the penalty.
pub enum Occurrence {
    /// A completion is begun.
    Begin,
    /// A completion ended cleanly.
    CleanFinish,
    /// A failure in which spans repeated, with the settings for it.
    Failure { spans: Seq<Seq<char>>, first_n: nat, penalty_on: bool },
}

/// The state behind occurrences, one after another.
pub open spec fn after(history: Seq<Occurrence>) -> PathologyModel
    decreases history.len(),
{
    if history.len() == 0 {
        PathologyModel::fresh()
    } else {
        let before = after(history.drop_last());
        match history.last() {
            Occurrence::Begin => before.begun(),
            Occurrence::CleanFinish => before.finished_cleanly(),
            Occurrence::Failure { spans, first_n, penalty_on } => before.failed(
                spans,
                first_n,
                penalty_on,
            ),
        }
    }
}

/// Whether a clean finish came since the last completion was begun.
pub open spec fn finished_since(history: Seq<Occurrence>) -> bool
    decreases history.len(),
{
    history.len() > 0 && match history.last() {
        Occurrence::Begin => false,
        Occurrence::CleanFinish => true,
        Occurrence::Failure { .. } => finished_since(history.drop_last()),
    }
}

/// Whether a failure came since the last completion was begun.
pub open spec fn failed_since(history: Seq<Occurrence>) -> bool
    decreases history.len(),
{
    history.len() > 0 && match history.last() {
        Occurrence::Begin => false,
        Occurrence::CleanFinish => failed_since(history.drop_last()),
        Occurrence::Failure { .. } => true,
    }
}

proof fn state_tells_since(history: Seq<Occurrence>)
    ensures
        after(history).failed_since_begin == failed_since(history),
        !failed_since(history) ==> after(history).clean_finish == finished_since(history),
    decreases history.len(),
{
    if history.len() > 0 {
        state_tells_since(history.drop_last());
    }
}

/// Whatever came before: where since the last completion was begun there was a clean
/// finish and no failure, the next one begins afresh; else the penalty, the failures, the
/// first penalized length and the spans are what they were.
pub proof fn only_clean_completions_reset(history: Seq<Occurrence>)
    ensures
        finished_since(history) && !failed_since(history) ==> after(history.push(Occurrence::Begin))
            == PathologyModel::fresh(),
        !(finished_since(history) && !failed_since(history)) ==> ({
            let (was, is) = (after(history), after(history.push(Occurrence::Begin)));
            &&& is.active == was.active
            &&& is.failures == was.failures
            &&& is.start_n == was.start_n
            &&& is.spans == was.spans
        }),
{
    state_tells_since(history);
    assert(history.push(Occurrence::Begin).drop_last() =~= history);
}

/// The first clean completion clears the penalty.
pub proof fn clean_completion_resets(s: PathologyModel)
    ensures
        s.begun().finished_cleanly().begun() == PathologyModel::fresh(),
{
}

/// A completion that ended cleanly but whose call turned out to be a repeat clears
/// nothing: the failure counts on.
pub proof fn repeat_behind_clean_finish_counts(
    s: PathologyModel,
    spans: Seq<Seq<char>>,
    first_n: nat,
    penalty_on: bool,
)
    ensures
        ({
            let next = s.finished_cleanly().failed(spans, first_n, penalty_on).begun();
            &&& next.failures == s.failures + 1
            &&& next.active == penalty_on
            &&& next.spans == s.failed(spans, first_n, penalty_on).spans
        }),
{
}

/// Each failure in a row lowers the first penalized length by one, down to one.
pub proof fn penalized_length_drops_to_one(
    s: PathologyModel,
    spans: Seq<Seq<char>>,
    more: Seq<Seq<char>>,
    first_n: nat,
    penalty_on: bool,
)
    ensures
        ({
            let one = s.failed(spans, first_n, penalty_on);
            let two = one.begun().failed(more, first_n, penalty_on);
            &&& two.start_n >= 1
            &&& one.start_n > 1 ==> two.start_n == one.start_n - 1
            &&& one.start_n == 1 ==> two.start_n == 1
        }),
{
}

pub open spec fn text_array(texts: Seq<Seq<char>>) -> JsonModel {
    JsonModel::Array(texts.map_values(|t: Seq<char>| JsonModel::Text(t)))
}

/// The texts as a JSON array.
pub(crate) fn text_items(texts: &Vec<String>) -> (r: Json)
    ensures
        r@ == text_array(text::strings(texts@)),
{
    let ghost goal = text::strings(texts@).map_values(|t: Seq<char>| JsonModel::Text(t));
    let mut items: Vec<Json> = Vec::new();
    let mut i: usize = 0;
    assert(json::models(items@) =~= goal.take(0));
    while i < texts.len()
        invariant
            i <= texts@.len(),
            goal == text::strings(texts@).map_values(|t: Seq<char>| JsonModel::Text(t)),
            json::models(items@) == goal.take(i as int),
        decreases texts@.len() - i,
    {
        let ghost before = items@;
        let item = Json::text(texts[i].as_str());
        items.push(item);
        assert(json::models(items@) =~= json::models(before).push(item@));
        assert(goal.take(i + 1) =~= goal.take(i as int).push(goal[i as int]));
        i += 1;
    }
    assert(goal.take(i as int) =~= goal);
    proof {
        json::array_model(items);
    }
    Json::Array(items)
}

/// The extra fields of a request; none where there are none.
pub open spec fn extra_fields(
    s: PathologyModel,
    repeat_stop: bool,
    max: Seq<char>,
    scale_positive: bool,
    scale: Seq<char>,
) -> Option<JsonModel> {
    let none = JsonModel::Object(Seq::empty());
    let first = if repeat_stop {
        none.with("repeat_stop"@, none)
    } else {
        none
    };
    let both = if s.active && s.spans.len() > 0 && scale_positive {
        first.with(
            "ngram_penalty"@,
            none.with("spans"@, text_array(s.spans)).with(
                "start_n"@,
                JsonModel::Number(text::decimal(s.start_n)),
            ).with("scale"@, JsonModel::Number(scale)).with("max"@, JsonModel::Number(max)),
        )
    } else {
        first
    };
    if both == none {
        None
    } else {
        Some(both)
    }
}

impl Default for PathologyState {
    fn default() -> (r: Self)
        ensures
            r@ == PathologyModel::fresh(),
    {
        let r = PathologyState {
            active: false,
            consecutive_failures: 0,
            start_n: 0,
            spans: Vec::new(),
            failed_since_begin: false,
            clean_finish: false,
        };
        assert(text::strings(r.spans@) =~= Seq::empty());
        r
    }
}

fn has_span(spans: &Vec<String>, span: &str) -> (r: bool)
    ensures
        r == text::strings(spans@).contains(span@),
{
    let ghost all = text::strings(spans@);
    let mut i: usize = 0;
    while i < spans.len()
        invariant
            i <= spans@.len(),
            all == text::strings(spans@),
            forall|k: int| 0 <= k < i ==> #[trigger] all[k] != span@,
        decreases spans@.len() - i,
    {
        if text::same_text(spans[i].as_str(), span) {
            assert(all[i as int] == span@);
            return true;
        }
        assert(all[i as int] == spans@[i as int]@);
        i += 1;
    }
    false
}

impl PathologyState {
    /// Before every completion. The first clean one clears the state.
    pub fn begin_call(&mut self)
        ensures
            final(self)@ == old(self)@.begun(),
    {
        if self.clean_finish && !self.failed_since_begin {
            *self = PathologyState::default();
        }
        self.failed_since_begin = false;
        self.clean_finish = false;
    }

    /// Behind a completion that ended cleanly.
    pub fn note_clean_finish(&mut self)
        ensures
            final(self)@ == old(self)@.finished_cleanly(),
    {
        self.clean_finish = true;
    }

    /// Behind a failure in which `spans` repeated.
    pub fn on_failure(&mut self, trigger: Trigger, spans: Vec<String>, params: &PathologyParams)
        requires
            old(self).consecutive_failures < u32::MAX,
        ensures
            final(self)@ == old(self)@.failed(
                text::strings(spans@),
                params.ngram_penalty_start_n as nat,
                params.penalty_on,
            ),
    {
        let _ = trigger;
        let ghost was = self@;
        self.clean_finish = false;
        self.failed_since_begin = true;
        let earlier: u32 = self.consecutive_failures;
        self.consecutive_failures = earlier + 1;
        self.start_n = if params.ngram_penalty_start_n > earlier && params.ngram_penalty_start_n
            - earlier > 1 {
            params.ngram_penalty_start_n - earlier
        } else {
            1
        };
        self.active = params.penalty_on;
        let ghost more = text::strings(spans@);
        let mut i: usize = 0;
        while i < spans.len()
            invariant
                i <= spans@.len(),
                more == text::strings(spans@),
                text::strings(self.spans@) == with_spans(was.spans, more, i as int),
                self.active == params.penalty_on,
                self.consecutive_failures == was.failures + 1,
                self.start_n == was.failed(
                    more,
                    params.ngram_penalty_start_n as nat,
                    params.penalty_on,
                ).start_n,
                self.failed_since_begin,
                !self.clean_finish,
            decreases spans@.len() - i,
        {
            let span = trim_span(spans[i].as_str());
            let empty: bool = span.as_str().is_empty();
            if !empty && !has_span(&self.spans, span.as_str()) {
                let ghost before = self.spans@;
                self.spans.push(span);
                assert(text::strings(self.spans@) =~= text::strings(before).push(span@));
            }
            i += 1;
        }
        let ghost all = self.spans@;
        while self.spans.len() > MAX_SPANS
            invariant
                self.spans@.len() <= all.len(),
                self.spans@ == all.skip(all.len() - self.spans@.len()),
                all.len() <= MAX_SPANS ==> self.spans@.len() == all.len(),
                all.len() > MAX_SPANS ==> self.spans@.len() >= MAX_SPANS,
                self.active == params.penalty_on,
                self.consecutive_failures == was.failures + 1,
                self.start_n == was.failed(
                    more,
                    params.ngram_penalty_start_n as nat,
                    params.penalty_on,
                ).start_n,
                self.failed_since_begin,
                !self.clean_finish,
            decreases self.spans@.len(),
        {
            let ghost before = self.spans@;
            let _ = self.spans.remove(0);
            assert(self.spans@ =~= before.skip(1));
            assert(before.skip(1) =~= all.skip(all.len() - self.spans@.len()));
        }
        assert(text::strings(self.spans@) =~= newest(text::strings(all)));
    }

    /// The extra fields of the next request.
    pub fn request_extra(&self, params: &PathologyParams, scale: &ScaleReading) -> (r: Option<Json>)
        ensures
            match r {
                Some(j) => extra_fields(
                    self@,
                    params.repeat_stop,
                    params.ngram_penalty_max@,
                    scale.positive,
                    scale.json@,
                ) == Some(j@),
                None => extra_fields(
                    self@,
                    params.repeat_stop,
                    params.ngram_penalty_max@,
                    scale.positive,
                    scale.json@,
                ) is None,
            },
    {
        let ghost none = JsonModel::Object(Seq::empty());
        let mut extra = Json::object();
        let mut any: bool = false;
        if params.repeat_stop {
            extra = extra.with("repeat_stop", Json::object());
            any = true;
            proof {
                json::with_sets_one_member(none, "repeat_stop"@, none, "repeat_stop"@);
                assert(none.at("repeat_stop"@) is None);
            }
        }
        let ghost first = extra@;
        if self.active && self.spans.len() > 0 && scale.positive {
            let penalty = Json::object().with("spans", text_items(&self.spans)).with(
                "start_n",
                Json::number(self.start_n as u64),
            ).with("scale", Json::Number(scale.json.clone())).with(
                "max",
                Json::Number(params.ngram_penalty_max.clone()),
            );
            let ghost value = penalty@;
            extra = extra.with("ngram_penalty", penalty);
            any = true;
            proof {
                json::with_sets_one_member(first, "ngram_penalty"@, value, "ngram_penalty"@);
                assert(none.at("ngram_penalty"@) is None);
            }
        }
        if any {
            Some(extra)
        } else {
            None
        }
    }

    /// The state as it is logged.
    pub fn summary(&self, scale: &ScaleReading) -> (r: Json)
        ensures
            r@ == summary_fields(self@, scale.json@),
    {
        Json::object().with("active", Json::Bool(self.active)).with(
            "consecutive_failures",
            Json::number(self.consecutive_failures as u64),
        ).with("scale", Json::Number(scale.json.clone())).with(
            "start_n",
            Json::number(self.start_n as u64),
        ).with("spans", Json::number(self.spans.len() as u64))
    }
}

/// The state as it is logged.
pub open spec fn summary_fields(s: PathologyModel, scale: Seq<char>) -> JsonModel {
    JsonModel::Object(Seq::empty()).with("active"@, JsonModel::Bool(s.active)).with(
        "consecutive_failures"@,
        JsonModel::Number(text::decimal(s.failures)),
    ).with("scale"@, JsonModel::Number(scale)).with(
        "start_n"@,
        JsonModel::Number(text::decimal(s.start_n)),
    ).with("spans"@, JsonModel::Number(text::decimal(s.spans.len())))
}

// ---------------------------------------------------------------------------
// What is known of a completion that may have looped.

/// Statistics of completions, by thread and number of the model call. The
/// transport stores them; the turn loop takes them.
#[derive(Debug)]
pub struct StatsRegistry {
    pub entries: Vec<(String, u64, Json)>,
}

pub type StatsEntries = Seq<(Seq<char>, u64, JsonModel)>;

/// What is stored under a key; nothing where nothing is.
pub open spec fn stored(entries: StatsEntries, thread: Seq<char>, ordinal: u64, n: int) -> Option<
    JsonModel,
>
    decreases n,
{
    if n <= 0 {
        None
    } else if entries[n - 1].0 == thread && entries[n - 1].1 == ordinal {
        Some(entries[n - 1].2)
    } else {
        stored(entries, thread, ordinal, n - 1)
    }
}

impl StatsRegistry {
    pub open spec fn models(&self) -> StatsEntries {
        self.entries@.map_values(|e: (String, u64, Json)| (e.0@, e.1, e.2@))
    }

    /// What is stored under a key.
    pub open spec fn at(&self, thread: Seq<char>, ordinal: u64) -> Option<JsonModel> {
        stored(self.models(), thread, ordinal, self.entries@.len() as int)
    }

    /// No key occurs twice.
    pub open spec fn well_formed(&self) -> bool {
        forall|i: int, j: int|
            0 <= i < j < self.models().len() ==> !same_key(
                #[trigger] self.models()[i],
                #[trigger] self.models()[j],
            )
    }

    pub fn new() -> (r: Self)
        ensures
            r.well_formed(),
            forall|t: Seq<char>, n: u64| #[trigger] r.at(t, n) is None,
    {
        StatsRegistry { entries: Vec::new() }
    }

    fn place_of(&self, thread: &str, ordinal: u64) -> (r: Option<usize>)
        ensures
            match r {
                Some(i) => i < self.entries@.len() && self.models()[i as int].0 == thread@
                    && self.models()[i as int].1 == ordinal,
                None => forall|k: int|
                    0 <= k < self.models().len() ==> !((#[trigger] self.models()[k]).0 == thread@
                        && self.models()[k].1 == ordinal),
            },
    {
        let mut i: usize = 0;
        while i < self.entries.len()
            invariant
                i <= self.entries@.len(),
                forall|k: int|
                    0 <= k < i ==> !((#[trigger] self.models()[k]).0 == thread@
                        && self.models()[k].1 == ordinal),
            decreases self.entries@.len() - i,
        {
            if self.entries[i].1 == ordinal && text::same_text(self.entries[i].0.as_str(), thread) {
                return Some(i);
            }
            i += 1;
        }
        None
    }

    /// Stores statistics under a key, in place of what was there.
    pub fn store_repetition_stats(&mut self, thread: &str, ordinal: u64, stats: Json)
        requires
            old(self).well_formed(),
        ensures
            final(self).well_formed(),
            final(self).at(thread@, ordinal) == Some(stats@),
            forall|t: Seq<char>, n: u64|
                (t != thread@ || n != ordinal) ==> #[trigger] final(self).at(t, n) == old(self).at(
                    t,
                    n,
                ),
    {
        let ghost before = self.models();
        let ghost entry = (thread@, ordinal, stats@);
        match self.place_of(thread, ordinal) {
            Some(i) => {
                self.entries.set(i, (thread.to_string(), ordinal, stats));
                proof {
                    let now = self.models();
                    assert(now =~= before.update(i as int, entry));
                    stored_updated(before, entry, i as int, before.len() as int);
                }
            },
            None => {
                self.entries.push((thread.to_string(), ordinal, stats));
                proof {
                    let now = self.models();
                    assert(now =~= before.push(entry));
                    assert forall|t: Seq<char>, n: u64|
                        (t != thread@ || n != ordinal) implies #[trigger] self.at(t, n) == stored(
                        before,
                        t,
                        n,
                        before.len() as int,
                    ) by {
                        stored_in_front(now, before, t, n, before.len() as int);
                    }
                }
            },
        }
    }

    /// Takes what is stored under a key.
    pub fn take_repetition_stats(&mut self, thread: &str, ordinal: u64) -> (r: Option<Json>)
        requires
            old(self).well_formed(),
        ensures
            final(self).well_formed(),
            match r {
                Some(j) => old(self).at(thread@, ordinal) == Some(j@),
                None => old(self).at(thread@, ordinal) is None,
            },
            final(self).at(thread@, ordinal) is None,
            forall|t: Seq<char>, n: u64|
                (t != thread@ || n != ordinal) ==> #[trigger] final(self).at(t, n) == old(self).at(
                    t,
                    n,
                ),
    {
        let ghost before = self.models();
        match self.place_of(thread, ordinal) {
            Some(i) => {
                let entry = self.entries.remove(i);
                proof {
                    let now = self.models();
                    assert(now =~= before.remove(i as int));
                    stored_at(before, i as int, before.len() as int);
                    assert forall|a: int, b: int| 0 <= a < b < now.len() implies !same_key(
                        #[trigger] now[a],
                        #[trigger] now[b],
                    ) by {
                        let x = if a < i {
                            a
                        } else {
                            a + 1
                        };
                        let y = if b < i {
                            b
                        } else {
                            b + 1
                        };
                        assert(now[a] == before[x]);
                        assert(now[b] == before[y]);
                    }
                    assert forall|k: int| 0 <= k < now.len() implies !((#[trigger] now[k]).0
                        == thread@ && now[k].1 == ordinal) by {
                        if k < i {
                            assert(now[k] == before[k]);
                            assert(!same_key(before[k], before[i as int]));
                        } else {
                            assert(now[k] == before[k + 1]);
                            assert(!same_key(before[i as int], before[k + 1]));
                        }
                    }
                    stored_nowhere(now, thread@, ordinal, now.len() as int);
                    assert forall|t: Seq<char>, n: u64|
                        (t != thread@ || n != ordinal) implies #[trigger] self.at(t, n) == stored(
                        before,
                        t,
                        n,
                        before.len() as int,
                    ) by {
                        stored_without(before, i as int, t, n, before.len() as int);
                    }
                }
                Some(entry.2)
            },
            None => {
                proof {
                    stored_nowhere(before, thread@, ordinal, before.len() as int);
                }
                None
            },
        }
    }
}

/// Whether two entries have the same key.
pub open spec fn same_key(a: (Seq<char>, u64, JsonModel), b: (Seq<char>, u64, JsonModel)) -> bool {
    a.0 == b.0 && a.1 == b.1
}

proof fn stored_in_front(a: StatsEntries, b: StatsEntries, t: Seq<char>, o: u64, n: int)
    requires
        0 <= n <= a.len(),
        n <= b.len(),
        forall|k: int| 0 <= k < n ==> #[trigger] a[k] == b[k],
    ensures
        stored(a, t, o, n) == stored(b, t, o, n),
    decreases n,
{
    if n > 0 {
        assert(a[n - 1] == b[n - 1]);
        stored_in_front(a, b, t, o, n - 1);
    }
}

proof fn stored_nowhere(entries: StatsEntries, t: Seq<char>, o: u64, n: int)
    requires
        0 <= n <= entries.len(),
        forall|k: int|
            0 <= k < entries.len() ==> !((#[trigger] entries[k]).0 == t && entries[k].1 == o),
    ensures
        stored(entries, t, o, n) is None,
    decreases n,
{
    if n > 0 {
        stored_nowhere(entries, t, o, n - 1);
    }
}

proof fn stored_at(entries: StatsEntries, i: int, n: int)
    requires
        0 <= i < n <= entries.len(),
        forall|a: int, b: int|
            0 <= a < b < entries.len() ==> !same_key(
                #[trigger] entries[a],
                #[trigger] entries[b],
            ),
    ensures
        stored(entries, entries[i].0, entries[i].1, n) == Some(entries[i].2),
    decreases n,
{
    if n - 1 > i {
        assert(!same_key(entries[i], entries[n - 1]));
        stored_at(entries, i, n - 1);
    }
}

proof fn stored_updated(
    before: StatsEntries,
    entry: (Seq<char>, u64, JsonModel),
    i: int,
    n: int,
)
    requires
        0 <= i < before.len(),
        n == before.len(),
        same_key(before[i], entry),
        forall|a: int, b: int|
            0 <= a < b < before.len() ==> !same_key(#[trigger] before[a], #[trigger] before[b]),
    ensures
        ({
            let now = before.update(i, entry);
            &&& stored(now, entry.0, entry.1, n) == Some(entry.2)
            &&& forall|t: Seq<char>, o: u64|
                (t != entry.0 || o != entry.1) ==> #[trigger] stored(now, t, o, n) == stored(
                    before,
                    t,
                    o,
                    n,
                )
            &&& forall|a: int, b: int|
                0 <= a < b < now.len() ==> !same_key(#[trigger] now[a], #[trigger] now[b])
        }),
{
    let now = before.update(i, entry);
    assert forall|a: int, b: int| 0 <= a < b < now.len() implies !same_key(
        #[trigger] now[a],
        #[trigger] now[b],
    ) by {
        assert(!same_key(before[a], before[b]));
    }
    stored_at(now, i, n);
    assert forall|t: Seq<char>, o: u64|
        (t != entry.0 || o != entry.1) implies #[trigger] stored(now, t, o, n) == stored(
        before,
        t,
        o,
        n,
    ) by {
        stored_elsewhere(before, now, i, t, o, n);
    }
}

proof fn stored_elsewhere(
    a: StatsEntries,
    b: StatsEntries,
    i: int,
    t: Seq<char>,
    o: u64,
    n: int,
)
    requires
        0 <= i < a.len() == b.len(),
        0 <= n <= a.len(),
        forall|k: int| 0 <= k < a.len() && k != i ==> #[trigger] a[k] == b[k],
        a[i].0 == b[i].0,
        a[i].1 == b[i].1,
        a[i].0 != t || a[i].1 != o,
    ensures
        stored(a, t, o, n) == stored(b, t, o, n),
    decreases n,
{
    if n > 0 {
        stored_elsewhere(a, b, i, t, o, n - 1);
        if n - 1 != i {
            assert(a[n - 1] == b[n - 1]);
        }
    }
}

proof fn stored_without(entries: StatsEntries, i: int, t: Seq<char>, o: u64, n: int)
    requires
        0 <= i < entries.len(),
        0 <= n <= entries.len(),
        entries[i].0 != t || entries[i].1 != o,
    ensures
        stored(entries, t, o, n) == stored(entries.remove(i), t, o, if n > i {
            n - 1
        } else {
            n
        }),
    decreases n,
{
    if n > 0 {
        stored_without(entries, i, t, o, n - 1);
        if n - 1 > i {
            assert(entries.remove(i)[n - 2] == entries[n - 1]);
        } else if n - 1 < i {
            assert(entries.remove(i)[n - 1] == entries[n - 1]);
        }
    }
}

/// The text that repeated, where a completion that ended for this reason looped.
pub open spec fn looped_text(reason: Option<Seq<char>>, stats: Option<JsonModel>) -> Option<
    Seq<char>,
> {
    let flagged = match stats {
        Some(s) => s.flag_at("flagged"@) == Some(true),
        None => false,
    };
    if reason == Some("repetition"@) || (reason == Some("length"@) && flagged) {
        Some(
            match stats {
                Some(s) => match s.text_at("gram_text"@) {
                    Some(t) => t,
                    None => Seq::empty(),
                },
                None => Seq::empty(),
            },
        )
    } else {
        None
    }
}

/// Whether a completion looped: the text that repeated, where it did.
pub fn loop_span(finish_reason: Option<&str>, stats: Option<&Json>) -> (r: Option<String>)
    ensures
        text::optional(r) == looped_text(
            match finish_reason {
                Some(f) => Some(f@),
                None => None,
            },
            match stats {
                Some(j) => Some(j@),
                None => None,
            },
        ),
{
    let flagged: bool = match stats {
        Some(s) => match s.bool_at("flagged") {
            Some(b) => b,
            None => false,
        },
        None => false,
    };
    let looped: bool = match finish_reason {
        Some(f) => text::same_text(f, "repetition") || (text::same_text(f, "length") && flagged),
        None => false,
    };
    proof {
        reveal_strlit("repetition");
        reveal_strlit("length");
    }
    if !looped {
        return None;
    }
    match stats {
        Some(s) => match s.str_at("gram_text") {
            Some(t) => Some(t.to_string()),
            None => {
                let none = String::new();
                assert(none@ =~= Seq::empty());
                Some(none)
            },
        },
        None => {
            let none = String::new();
            assert(none@ =~= Seq::empty());
            Some(none)
        },
    }
}

// ---------------------------------------------------------------------------
// Laws.

proof fn extra_keys_differ()
    ensures
        "repeat_stop"@ != "ngram_penalty"@,
{
    reveal_strlit("repeat_stop");
    assert("repeat_stop"@.len() == 11);
    reveal_strlit("ngram_penalty");
    assert("ngram_penalty"@.len() == 13);
}

proof fn penalty_keys_differ()
    ensures
        "spans"@ != "start_n"@,
        "spans"@ != "scale"@,
        "spans"@ != "max"@,
        "start_n"@ != "scale"@,
        "start_n"@ != "max"@,
        "scale"@ != "max"@,
{
    reveal_strlit("spans");
    assert("spans"@.len() == 5);
    reveal_strlit("start_n");
    assert("start_n"@.len() == 7);
    reveal_strlit("scale");
    assert("scale"@.len() == 5);
    reveal_strlit("max");
    assert("max"@.len() == 3);
    assert("spans"@[1] != "scale"@[1]);
}

proof fn summary_keys_differ()
    ensures
        "active"@ != "consecutive_failures"@,
        "active"@ != "scale"@,
        "active"@ != "start_n"@,
        "active"@ != "spans"@,
        "consecutive_failures"@ != "scale"@,
        "consecutive_failures"@ != "start_n"@,
        "consecutive_failures"@ != "spans"@,
        "scale"@ != "start_n"@,
        "scale"@ != "spans"@,
        "start_n"@ != "spans"@,
{
    reveal_strlit("active");
    assert("active"@.len() == 6);
    reveal_strlit("consecutive_failures");
    assert("consecutive_failures"@.len() == 20);
    reveal_strlit("scale");
    assert("scale"@.len() == 5);
    reveal_strlit("start_n");
    assert("start_n"@.len() == 7);
    reveal_strlit("spans");
    assert("spans"@.len() == 5);
    assert("scale"@[1] != "spans"@[1]);
}

/// A span that repeated is kept by its end, whole where it has no more than four thousand
/// characters.
pub proof fn spans_are_kept_by_their_end(front: Seq<char>, end: Seq<char>)
    requires
        end.len() == 4000 || (end.len() < 4000 && front.len() == 0),
    ensures
        span_tail(front + end) == end,
{
    assert((front + end).skip(front.len() as int) =~= end);
    assert(front + end =~= if front.len() == 0 { end } else { front + end });
}

/// As long as there is room, every span that repeated is kept, behind those that were kept
/// before, and nothing else is.
pub proof fn spans_are_kept_while_there_is_room(
    s: PathologyModel,
    spans: Seq<Seq<char>>,
    first_n: nat,
    penalty_on: bool,
)
    requires
        s.spans.len() + spans.len() <= 16,
    ensures
        ({
            let kept = s.failed(spans, first_n, penalty_on).spans;
            &&& s.spans.is_prefix_of(kept)
            &&& forall|i: int|
                0 <= i < spans.len() && (#[trigger] spans[i]).len() > 0 ==> kept.contains(
                    span_tail(spans[i]),
                )
            &&& forall|k: int|
                s.spans.len() <= k < kept.len() ==> exists|i: int|
                    0 <= i < spans.len() && #[trigger] spans[i].len() > 0 && #[trigger] kept[k] == span_tail(
                        spans[i],
                    )
        }),
{
    kept_upto(s.spans, spans, spans.len() as int);
}

proof fn kept_upto(old_spans: Seq<Seq<char>>, more: Seq<Seq<char>>, n: int)
    requires
        0 <= n <= more.len(),
    ensures
        ({
            let kept = with_spans(old_spans, more, n);
            &&& old_spans.is_prefix_of(kept)
            &&& kept.len() <= old_spans.len() + n
            &&& forall|i: int|
                0 <= i < n && (#[trigger] more[i]).len() > 0 ==> kept.contains(span_tail(more[i]))
            &&& forall|k: int|
                old_spans.len() <= k < kept.len() ==> exists|i: int|
                    0 <= i < n && #[trigger] more[i].len() > 0 && #[trigger] kept[k] == span_tail(more[i])
        }),
    decreases n,
{
    if n > 0 {
        kept_upto(old_spans, more, n - 1);
        let before = with_spans(old_spans, more, n - 1);
        let kept = with_spans(old_spans, more, n);
        let span = span_tail(more[n - 1]);
        assert(span.len() > 0 <==> more[n - 1].len() > 0);
        assert forall|i: int| 0 <= i < n && (#[trigger] more[i]).len() > 0 implies kept.contains(
            span_tail(more[i]),
        ) by {
            if i < n - 1 {
                let k = choose|k: int| 0 <= k < before.len() && before[k] == span_tail(more[i]);
                assert(kept[k] == span_tail(more[i]));
            } else if !before.contains(span) {
                assert(kept[before.len() as int] == span);
            }
        }
        assert forall|k: int| old_spans.len() <= k < kept.len() implies exists|i: int|
            0 <= i < n && #[trigger] more[i].len() > 0 && #[trigger] kept[k] == span_tail(more[i]) by {
            if k < before.len() {
                let i = choose|i: int|
                    0 <= i < n - 1 && #[trigger] more[i].len() > 0 && before[k] == span_tail(more[i]);
                assert(more[i].len() > 0 && kept[k] == span_tail(more[i]));
            } else {
                assert(more[n - 1].len() > 0 && kept[k] == span_tail(more[n - 1]));
            }
        }
    }
}

/// Where there is no room, the oldest spans go.
pub proof fn the_newest_spans_stay(old_spans: Seq<Seq<char>>, kept: Seq<Seq<char>>)
    ensures
        kept.len() == 16 ==> newest(old_spans + kept) == kept,
        kept.len() <= 16 ==> newest(kept) == kept,
{
    assert((old_spans + kept).skip(old_spans.len() as int) =~= kept);
    assert(old_spans.len() == 0 ==> old_spans + kept =~= kept);
}

/// The first failure penalizes from the length that is set, and each failure after it from a
/// length one less, down to single tokens.
pub proof fn each_failure_penalizes_earlier(
    s: PathologyModel,
    spans: Seq<Seq<char>>,
    first_n: nat,
    penalty_on: bool,
)
    ensures
        ({
            let next = s.failed(spans, first_n, penalty_on);
            &&& next.failures == s.failures + 1
            &&& next.active == penalty_on
            &&& next.start_n >= 1
            &&& next.start_n == 1 || next.start_n + s.failures == first_n
            &&& next.start_n == 1 ==> first_n <= s.failures + 1
        }),
        first_n >= 1 ==> PathologyModel::fresh().failed(spans, first_n, penalty_on).start_n
            == first_n,
{
}

/// A request asks the server to stop loops where that is switched on, and names the spans
/// to be penalized, with the length, the scale and the cap, where the last completion failed,
/// there are spans and the penalty weighs anything; it carries nothing extra otherwise.
pub proof fn penalties_are_asked_for(
    s: PathologyModel,
    repeat_stop: bool,
    max: Seq<char>,
    scale_positive: bool,
    scale: Seq<char>,
)
    ensures
        ({
            let r = extra_fields(s, repeat_stop, max, scale_positive, scale);
            let penalized = s.active && s.spans.len() > 0 && scale_positive;
            &&& r is Some <==> repeat_stop || penalized
            &&& r matches Some(j) ==> {
                &&& j.at("repeat_stop"@) is Some <==> repeat_stop
                &&& j.at("ngram_penalty"@) is Some <==> penalized
                &&& j.at("ngram_penalty"@) matches Some(p) ==> {
                    &&& p.at("spans"@) == Some(
                        JsonModel::Array(s.spans.map_values(|t: Seq<char>| JsonModel::Text(t))),
                    )
                    &&& p.at("start_n"@) == Some(JsonModel::Number(text::decimal(s.start_n)))
                    &&& p.at("scale"@) == Some(JsonModel::Number(scale))
                    &&& p.at("max"@) == Some(JsonModel::Number(max))
                }
            }
        }),
{
    extra_keys_differ();
    penalty_keys_differ();
    let none = JsonModel::Object(Seq::empty());
    json::only_one_member_is_set(none, "repeat_stop"@, none);
    let first = if repeat_stop {
        none.with("repeat_stop"@, none)
    } else {
        none
    };
    let texts = text_array(s.spans);
    let n = JsonModel::Number(text::decimal(s.start_n));
    json::only_one_member_is_set(none, "spans"@, texts);
    let p1 = none.with("spans"@, texts);
    json::only_one_member_is_set(p1, "start_n"@, n);
    let p2 = p1.with("start_n"@, n);
    json::only_one_member_is_set(p2, "scale"@, JsonModel::Number(scale));
    let p3 = p2.with("scale"@, JsonModel::Number(scale));
    json::only_one_member_is_set(p3, "max"@, JsonModel::Number(max));
    json::only_one_member_is_set(first, "ngram_penalty"@, p3.with("max"@, JsonModel::Number(max)));
    assert(none.at("repeat_stop"@) is None);
    assert(none.at("ngram_penalty"@) is None);
}

/// A summary says whether the penalty is on, how often completions failed in a row, the scale,
/// the first length that is penalized and how many spans there are.
pub proof fn summaries_say_how_it_stands(s: PathologyModel, scale: Seq<char>)
    ensures
        ({
            let r = summary_fields(s, scale);
            &&& r.at("active"@) == Some(JsonModel::Bool(s.active))
            &&& r.at("consecutive_failures"@) == Some(JsonModel::Number(text::decimal(s.failures)))
            &&& r.at("scale"@) == Some(JsonModel::Number(scale))
            &&& r.at("start_n"@) == Some(JsonModel::Number(text::decimal(s.start_n)))
            &&& r.at("spans"@) == Some(JsonModel::Number(text::decimal(s.spans.len())))
        }),
{
    summary_keys_differ();
    let none = JsonModel::Object(Seq::empty());
    json::only_one_member_is_set(none, "active"@, JsonModel::Bool(s.active));
    let b1 = none.with("active"@, JsonModel::Bool(s.active));
    let f = JsonModel::Number(text::decimal(s.failures));
    json::only_one_member_is_set(b1, "consecutive_failures"@, f);
    let b2 = b1.with("consecutive_failures"@, f);
    json::only_one_member_is_set(b2, "scale"@, JsonModel::Number(scale));
    let b3 = b2.with("scale"@, JsonModel::Number(scale));
    let n = JsonModel::Number(text::decimal(s.start_n));
    json::only_one_member_is_set(b3, "start_n"@, n);
    let b4 = b3.with("start_n"@, n);
    json::only_one_member_is_set(b4, "spans"@, JsonModel::Number(text::decimal(s.spans.len())));
}

/// A completion looped where the server stopped it for that, or where it ran into its limit
/// with a loop in it, and in no other case; what looped is the text that was reported.
pub proof fn only_loops_are_taken_for_loops(reason: Seq<char>, stats: JsonModel, t: Seq<char>)
    ensures
        looped_text(None, Some(stats)) is None,
        looped_text(Some("repetition"@), None) == Some(Seq::<char>::empty()),
        looped_text(Some("length"@), None) is None,
        looped_text(Some(reason), Some(stats)) is Some ==> reason == "repetition"@ || reason
            == "length"@,
        looped_text(Some("repetition"@), Some(stats)) is Some,
        looped_text(Some("length"@), Some(stats)) is Some <==> stats.at("flagged"@) == Some(
            JsonModel::Bool(true),
        ),
        stats.at("gram_text"@) == Some(JsonModel::Text(t)) && looped_text(
            Some(reason),
            Some(stats),
        ) is Some ==> looped_text(Some(reason), Some(stats)) == Some(t),
{
    reveal_strlit("length");
    reveal_strlit("repetition");
    assert("length"@.len() != "repetition"@.len());
}

} // verus!
