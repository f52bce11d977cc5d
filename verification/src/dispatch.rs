//! What becomes of a tool call: whether it is run or left out, what is noted when
//! it repeats, and what is answered when it fails or is cancelled.

use crate::conversation::FunctionCallOutputBody;
use crate::pathology::PathologyParams;
use crate::pathology::PathologyState;
use crate::pathology::ResampleState;
use crate::pathology::Trigger;
use crate::repeat_guard;
use crate::repeat_guard::RecentModel;
use crate::repeat_guard::RecentToolCall;
use crate::repeat_guard::RepeatGuardMode;
use crate::repeat_guard::RepeatVerdict;
use crate::text;
use vstd::prelude::*;
use vstd::string::*;

verus! {

/// A call as it is dispatched.
#[derive(Debug)]
pub struct DispatchedCall {
    pub tool_name: String,
    pub call_id: String,
    pub arguments: String,
}

/// What is decided of a call.
#[derive(Debug)]
pub struct Decision {
    /// The call is left out, for the completion is sampled again.
    pub skip: bool,
    /// What was found, where the call is a repeat.
    pub verdict: Option<RepeatVerdict>,
    /// Whether the repeat was noted as a failure.
    pub penalized: bool,
    pub signature: String,
}

/// The retries that a call may claim: none where the model is not served locally.
pub open spec fn budget(resamples: u32, local: bool) -> u32 {
    if local {
        resamples
    } else {
        0
    }
}

/// Whether calls are judged at all.
pub open spec fn judging(mode: RepeatGuardMode, resamples: u32) -> bool {
    mode != RepeatGuardMode::Off || resamples != 0
}

/// What is found of a call that is a repeat.
pub open spec fn repeat_found(
    recent: Seq<RecentModel>,
    call_id: Seq<char>,
    signature: Seq<char>,
    judging: bool,
) -> Option<RepeatVerdict> {
    let verdict = repeat_guard::judged(recent, call_id, signature);
    if judging && verdict.is_repeat() {
        Some(verdict)
    } else {
        None
    }
}

/// The retry state behind a call.
pub open spec fn resample_after(
    resample: ResampleState,
    verdict: Option<RepeatVerdict>,
    budget: u32,
) -> ResampleState {
    if verdict is Some && !resample.requested && resample.used < budget {
        ResampleState { used: (resample.used + 1) as u32, requested: true }
    } else {
        resample
    }
}

/// Whether a repeat is noted as a failure: where no retry covers it and the guard
/// is on.
pub open spec fn penalized(
    resample: ResampleState,
    verdict: Option<RepeatVerdict>,
    budget: u32,
    mode: RepeatGuardMode,
) -> bool {
    &&& verdict is Some
    &&& !(resample.requested || resample.used < budget)
    &&& mode != RepeatGuardMode::Off
}

/// The arguments of the last ten calls, the last one first.
pub open spec fn last_arguments(recent: Seq<RecentModel>, n: int) -> Seq<Seq<char>>
    decreases n,
{
    if n <= 0 {
        Seq::empty()
    } else {
        last_arguments(recent, n - 1).push(recent[recent.len() - n].arguments)
    }
}

fn arguments_of_last(recent: &Vec<RecentToolCall>) -> (r: Vec<String>)
    ensures
        text::strings(r@) == last_arguments(
            repeat_guard::recent_models(recent@),
            if recent@.len() > repeat_guard::WINDOW {
                repeat_guard::WINDOW as int
            } else {
                recent@.len() as int
            },
        ),
{
    let ghost all = repeat_guard::recent_models(recent@);
    let total: usize = recent.len();
    let most: usize = if total > repeat_guard::WINDOW {
        repeat_guard::WINDOW
    } else {
        total
    };
    let mut out: Vec<String> = Vec::new();
    let mut n: usize = 0;
    assert(text::strings(out@) =~= Seq::empty());
    while n < most
        invariant
            n <= most <= total == recent@.len(),
            all == repeat_guard::recent_models(recent@),
            text::strings(out@) == last_arguments(all, n as int),
        decreases most - n,
    {
        let ghost before = out@;
        let item = recent[total - n - 1].arguments.clone();
        assert(all[total - n - 1].arguments == item@);
        out.push(item);
        assert(text::strings(out@) =~= text::strings(before).push(item@));
        n += 1;
    }
    out
}

/// Decides about a call when it is dispatched: judges it by the calls that are
/// remembered, lets it claim a retry where it repeats, and notes the repeat as a
/// failure where no retry is left.
pub fn decide(
    call: &DispatchedCall,
    mode: RepeatGuardMode,
    local: bool,
    params: &PathologyParams,
    recent: &mut Vec<RecentToolCall>,
    resample: &mut ResampleState,
    pathology: &mut PathologyState,
) -> (r: Decision)
    requires
        old(pathology).consecutive_failures < u32::MAX,
    ensures
        r.signature@ == repeat_guard::call_signature(call.tool_name@, call.arguments@),
        ({
            let most = budget(params.resamples, local);
            let on = judging(mode, most);
            let before = repeat_guard::recent_models(old(recent)@);
            let verdict = repeat_found(before, call.call_id@, r.signature@, on);
            let now = repeat_guard::remembered(
                before,
                (RecentModel {
                    call_id: call.call_id@,
                    signature: r.signature@,
                    arguments: call.arguments@,
                }),
            );
            &&& r.verdict == verdict
            &&& *final(resample) == resample_after(*old(resample), verdict, most)
            &&& r.skip == final(resample).requested
            &&& r.penalized == penalized(*old(resample), verdict, most, mode)
            &&& repeat_guard::recent_models(final(recent)@) == if on {
                now
            } else {
                before
            }
            &&& final(pathology)@ == if r.penalized {
                old(pathology)@.failed(
                    last_arguments(
                        now,
                        if now.len() > repeat_guard::WINDOW {
                            repeat_guard::WINDOW as int
                        } else {
                            now.len() as int
                        },
                    ),
                    params.ngram_penalty_start_n as nat,
                    params.penalty_on,
                )
            } else {
                old(pathology)@
            }
        }),
{
    let most: u32 = if local {
        params.resamples
    } else {
        0
    };
    let off: bool = match mode {
        RepeatGuardMode::Off => true,
        _ => false,
    };
    let signature = repeat_guard::signature(call.tool_name.as_str(), call.arguments.as_str());
    let mut verdict: Option<RepeatVerdict> = None;
    let mut noted: bool = false;
    if !(off && most == 0) {
        let found = repeat_guard::judge_and_remember(
            recent,
            call.call_id.as_str(),
            signature.as_str(),
            call.arguments.as_str(),
        );
        if found.triggered() {
            verdict = Some(found);
            let retry = resample.request_repeated_call(most);
            if !retry && !off {
                let spans = arguments_of_last(recent);
                pathology.on_failure(Trigger::RepeatedToolCall, spans, params);
                noted = true;
            }
        }
    }
    let skip = resample.is_requested();
    Decision { skip, verdict, penalized: noted, signature }
}

/// What the model is answered for a call that is left out.
pub fn skipped_message() -> (r: String)
    ensures
        r@ == "(call not executed: completion discarded for resampling)"@,
{
    "(call not executed: completion discarded for resampling)".to_string()
}

/// What is put behind the output of a call.
pub open spec fn output_suffix(
    verdict: Option<RepeatVerdict>,
    mode: RepeatGuardMode,
    tool: Seq<char>,
    arguments: Seq<char>,
) -> Option<Seq<char>> {
    match verdict {
        Some(v) if mode == RepeatGuardMode::Warn => Some(
            repeat_guard::warning(tool, arguments, v),
        ),
        _ => None,
    }
}

/// What is put behind the output of a call: the warning, where the guard warns.
pub fn suffix_for_output(
    verdict: &Option<RepeatVerdict>,
    mode: RepeatGuardMode,
    tool_name: &str,
    arguments: &str,
) -> (r: Option<String>)
    ensures
        text::optional(r) == output_suffix(*verdict, mode, tool_name@, arguments@),
{
    match verdict {
        Some(v) => match mode {
            RepeatGuardMode::Warn => Some(repeat_guard::warning_text(tool_name, arguments, v)),
            _ => None,
        },
        None => None,
    }
}

/// A call that repeats is never both penalized and left out for a retry: the
/// penalty comes in only where no retry is left.
pub proof fn retry_comes_before_penalty(
    resample: ResampleState,
    verdict: Option<RepeatVerdict>,
    budget: u32,
    mode: RepeatGuardMode,
)
    requires
        penalized(resample, verdict, budget, mode),
    ensures
        !resample_after(resample, verdict, budget).requested,
        resample_after(resample, verdict, budget) == resample,
{
}

/// A model that is served elsewhere never has its calls left out.
pub proof fn remote_calls_claim_nothing(resample: ResampleState, verdict: Option<RepeatVerdict>, resamples: u32)
    ensures
        resample_after(resample, verdict, budget(resamples, false)) == resample,
{
}

// ---------------------------------------------------------------------------
// Failure.

/// What kind of call it is.
#[derive(Debug, Clone, Copy, PartialEq, Eq, Structural)]
pub enum PayloadKind {
    ToolSearch,
    Custom,
    Other,
}

/// What is answered to a call that failed.
#[derive(Debug)]
pub enum FailureResponse {
    /// A finished search without finds.
    EmptySearch { call_id: String, status: String, execution: String },
    /// An output of a custom tool that says what went wrong.
    Custom { call_id: String, body: FunctionCallOutputBody, success: bool },
    /// An output that says what went wrong.
    Function { call_id: String, body: FunctionCallOutputBody, success: bool },
}

/// Whether `r` answers a call of this kind that failed with this message.
pub open spec fn answers_failure(
    r: FailureResponse,
    kind: PayloadKind,
    id: Seq<char>,
    message: Seq<char>,
) -> bool {
    match (kind, r) {
        (
            PayloadKind::ToolSearch,
            FailureResponse::EmptySearch { call_id, status, execution },
        ) => call_id@ == id && status@ == "completed"@ && execution@ == "client"@,
        (PayloadKind::Custom, FailureResponse::Custom { call_id, body, success }) => {
            &&& call_id@ == id
            &&& body matches FunctionCallOutputBody::Text(t) && t@ == message
            &&& !success
        },
        (PayloadKind::Other, FailureResponse::Function { call_id, body, success }) => {
            &&& call_id@ == id
            &&& body matches FunctionCallOutputBody::Text(t) && t@ == message
            &&& !success
        },
        _ => false,
    }
}

/// What is answered to a call that failed.
pub fn failure_response(kind: PayloadKind, call_id: &str, message: &str) -> (r: FailureResponse)
    ensures
        answers_failure(r, kind, call_id@, message@),
{
    match kind {
        PayloadKind::ToolSearch => FailureResponse::EmptySearch {
            call_id: call_id.to_string(),
            status: "completed".to_string(),
            execution: "client".to_string(),
        },
        PayloadKind::Custom => FailureResponse::Custom {
            call_id: call_id.to_string(),
            body: FunctionCallOutputBody::Text(message.to_string()),
            success: false,
        },
        PayloadKind::Other => FailureResponse::Function {
            call_id: call_id.to_string(),
            body: FunctionCallOutputBody::Text(message.to_string()),
            success: false,
        },
    }
}

// ---------------------------------------------------------------------------
// Cancellation.

/// What to do with a call that runs when it is cancelled.
#[derive(Debug, Clone, Copy, PartialEq, Eq, Structural)]
pub enum CancelAction {
    /// It has its outcome: wait for it and hand it on.
    AwaitOutcome,
    /// Wait until its runtime has cleaned up, then answer that it was aborted.
    AwaitCleanup,
    /// Stop it. Where it comes to an end all the same, hand that on; else answer
    /// that it was aborted.
    Abort,
}

pub open spec fn cancel_rule(outcome_reached: bool, finished: bool, waits_for_cleanup: bool) -> CancelAction {
    if outcome_reached || finished {
        CancelAction::AwaitOutcome
    } else if waits_for_cleanup {
        CancelAction::AwaitCleanup
    } else {
        CancelAction::Abort
    }
}

/// What to do with a call that runs when it is cancelled. An outcome that was
/// reached is never thrown away.
pub fn on_cancel(outcome_reached: bool, finished: bool, waits_for_cleanup: bool) -> (r: CancelAction)
    ensures
        r == cancel_rule(outcome_reached, finished, waits_for_cleanup),
{
    if outcome_reached || finished {
        CancelAction::AwaitOutcome
    } else if waits_for_cleanup {
        CancelAction::AwaitCleanup
    } else {
        CancelAction::Abort
    }
}

/// What became of the task of a call.
#[derive(Debug, Clone, Copy, PartialEq, Eq, Structural)]
pub enum TaskEnd {
    Returned,
    Cancelled,
    Broken,
}

/// What is answered for a call whose task has ended.
#[derive(Debug, Clone, Copy, PartialEq, Eq, Structural)]
pub enum Answer {
    /// What the task returned.
    Result,
    /// That it was aborted.
    Aborted,
    /// That the task broke.
    Failure,
}

pub open spec fn answer_rule(action: CancelAction, end: TaskEnd) -> Answer {
    match end {
        TaskEnd::Broken => Answer::Failure,
        TaskEnd::Returned => if action == CancelAction::AwaitCleanup {
            Answer::Aborted
        } else {
            Answer::Result
        },
        TaskEnd::Cancelled => if action == CancelAction::AwaitOutcome {
            Answer::Failure
        } else {
            Answer::Aborted
        },
    }
}

/// What is answered for a cancelled call once its task has ended.
pub fn after_cancel(action: CancelAction, end: TaskEnd) -> (r: Answer)
    ensures
        r == answer_rule(action, end),
{
    match end {
        TaskEnd::Broken => Answer::Failure,
        TaskEnd::Returned => match action {
            CancelAction::AwaitCleanup => Answer::Aborted,
            _ => Answer::Result,
        },
        TaskEnd::Cancelled => match action {
            CancelAction::AwaitOutcome => Answer::Failure,
            _ => Answer::Aborted,
        },
    }
}

/// An outcome that was reached is handed on, however late the call is cancelled;
/// one whose cleanup is awaited is answered as aborted, whatever the cleanup
/// returns.
pub proof fn reached_outcomes_survive_cancellation(finished: bool, waits_for_cleanup: bool)
    ensures
        answer_rule(cancel_rule(true, finished, waits_for_cleanup), TaskEnd::Returned)
            == Answer::Result,
        answer_rule(cancel_rule(false, false, true), TaskEnd::Returned) == Answer::Aborted,
{
}

/// What is said of a call that was aborted. `seconds` is how long it ran, with one
/// decimal.
pub open spec fn aborted_text(plain: bool, name: Seq<char>, seconds: Seq<char>) -> Seq<char> {
    if plain && (name == "shell_command"@ || name == "unified_exec"@) {
        "Wall time: "@ + seconds + " seconds\naborted by user"@
    } else {
        "aborted by user after "@ + seconds + "s"@
    }
}

/// What is said of a call that was aborted.
pub fn abort_message(namespace: &Option<String>, name: &str, seconds: &str) -> (r: String)
    ensures
        r@ == aborted_text(namespace is None, name@, seconds@),
{
    let shell: bool = text::same_text(name, "shell_command") || text::same_text(
        name,
        "unified_exec",
    );
    if namespace.is_none() && shell {
        let mut out = "Wall time: ".to_string();
        out.append(seconds);
        out.append(" seconds\naborted by user");
        out
    } else {
        let mut out = "aborted by user after ".to_string();
        out.append(seconds);
        out.append("s");
        out
    }
}

// ---------------------------------------------------------------------------
// Laws.

/// A repeat is retried as long as the budget of a local model lasts, once for a completion,
/// and counts as a failure only behind that, and only where the guard is on.
pub proof fn repeats_are_retried_and_then_penalized(
    resample: ResampleState,
    verdict: RepeatVerdict,
    resamples: u32,
    local: bool,
    mode: RepeatGuardMode,
)
    ensures
        ({
            let most = budget(resamples, local);
            let next = resample_after(resample, Some(verdict), most);
            let free = local && resample.used < resamples && !resample.requested;
            &&& free ==> next.used == resample.used + 1 && next.requested
            &&& !free ==> next == resample
            &&& penalized(resample, Some(verdict), most, mode) <==> !next.requested && mode
                != RepeatGuardMode::Off
            &&& !penalized(resample, None, most, mode)
            &&& resample_after(resample, None, most) == resample
        }),
{
}

/// Calls are compared where the guard is on, or where retries may be claimed; what is then
/// found is a repeat of the call before or one of at least three within the window.
pub proof fn repeats_are_looked_for(
    recent: Seq<RecentModel>,
    call_id: Seq<char>,
    signature: Seq<char>,
    mode: RepeatGuardMode,
    resamples: u32,
)
    ensures
        judging(mode, resamples) <==> mode == RepeatGuardMode::Log || mode == RepeatGuardMode::Warn
            || resamples > 0,
        repeat_found(recent, call_id, signature, false) is None,
        ({
            let prior = recent.filter(|c: RecentModel| c.call_id != call_id);
            let from = if prior.len() > 10 {
                prior.len() - 10
            } else {
                0
            };
            let same = prior.skip(from).filter(|c: RecentModel| c.signature == signature);
            repeat_found(recent, call_id, signature, true) is Some <==> same.len() >= 2 || (
            prior.len() > 0 && prior.last().signature == signature)
        }),
{
    repeat_guard::calls_are_compared_with_those_before(recent, call_id, signature);
}

/// What is noted of a failure are the arguments of the last calls, the newest first.
pub proof fn the_newest_arguments_come_first(recent: Seq<RecentModel>, n: int, k: int)
    requires
        0 <= k < n <= recent.len(),
    ensures
        last_arguments(recent, n).len() == n,
        last_arguments(recent, n)[k] == recent[recent.len() - 1 - k].arguments,
{
    arguments_in_turn(recent, n, k);
}

proof fn arguments_in_turn(recent: Seq<RecentModel>, n: int, k: int)
    requires
        0 <= n <= recent.len(),
    ensures
        last_arguments(recent, n).len() == n,
        0 <= k < n ==> last_arguments(recent, n)[k] == recent[recent.len() - 1 - k].arguments,
    decreases n,
{
    if n > 0 {
        arguments_in_turn(recent, n - 1, k);
    }
}

/// The model is warned of a repeat in one mode only.
pub proof fn only_the_warning_mode_warns(
    verdict: RepeatVerdict,
    tool: Seq<char>,
    arguments: Seq<char>,
)
    ensures
        output_suffix(None, RepeatGuardMode::Warn, tool, arguments) is None,
        output_suffix(Some(verdict), RepeatGuardMode::Log, tool, arguments) is None,
        output_suffix(Some(verdict), RepeatGuardMode::Off, tool, arguments) is None,
        output_suffix(Some(verdict), RepeatGuardMode::Warn, tool, arguments) == Some(
            repeat_guard::warning(tool, arguments, verdict),
        ),
{
}

/// A cancelled call is answered with its result where it had one before it was cancelled or
/// came to one all the same, and with the word that it was aborted otherwise; only a task that
/// broke, or that was stopped though it had its outcome, is a failure.
pub proof fn cancelled_calls_are_answered(
    outcome_reached: bool,
    finished: bool,
    waits_for_cleanup: bool,
)
    ensures
        ({
            let action = cancel_rule(outcome_reached, finished, waits_for_cleanup);
            let had_it = outcome_reached || finished;
            &&& answer_rule(action, TaskEnd::Broken) == Answer::Failure
            &&& answer_rule(action, TaskEnd::Returned) == Answer::Result <==> had_it
                || !waits_for_cleanup
            &&& answer_rule(action, TaskEnd::Returned) == Answer::Aborted <==> !had_it
                && waits_for_cleanup
            &&& answer_rule(action, TaskEnd::Cancelled) == Answer::Failure <==> had_it
            &&& answer_rule(action, TaskEnd::Cancelled) == Answer::Aborted <==> !had_it
            &&& action == CancelAction::Abort <==> !had_it && !waits_for_cleanup
        }),
{
}

/// Only the commands of the shell itself say how long they ran in the words of the shell.
pub proof fn shells_say_their_wall_time(name: Seq<char>, seconds: Seq<char>)
    ensures
        name == "shell_command"@ || name == "unified_exec"@ ==> aborted_text(true, name, seconds)
            == "Wall time: "@ + seconds + " seconds\naborted by user"@,
        name != "shell_command"@ && name != "unified_exec"@ ==> aborted_text(true, name, seconds)
            == "aborted by user after "@ + seconds + "s"@,
        aborted_text(false, name, seconds) == "aborted by user after "@ + seconds + "s"@,
{
}

} // verus!
