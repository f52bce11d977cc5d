use millie::call_events::penalty_event;
use millie::call_events::repeat_event;
use millie::call_events::skip_event;
use millie::dispatch::abort_message;
use millie::dispatch::after_cancel;
use millie::dispatch::decide;
use millie::dispatch::failure_response;
use millie::dispatch::on_cancel;
use millie::dispatch::Answer;
use millie::dispatch::CancelAction;
use millie::dispatch::DispatchedCall;
use millie::dispatch::FailureResponse;
use millie::dispatch::PayloadKind;
use millie::dispatch::TaskEnd;
use millie::json::parse;
use millie::json::Json;
use millie::pathology::loop_span;
use millie::pathology::trim_span;
use millie::pathology::PathologyParams;
use millie::pathology::PathologyState;
use millie::pathology::ResampleState;
use millie::pathology::ScaleReading;
use millie::pathology::StatsRegistry;
use millie::pathology::Trigger;
use millie::pathology::MAX_SPAN_CHARS;
use millie::repeat_guard::judge_and_remember;
use millie::repeat_guard::signature;
use millie::repeat_guard::warning_text;
use millie::repeat_guard::RecentToolCall;
use millie::repeat_guard::RepeatGuardMode;
use millie::repeat_guard::RepeatVerdict;
use millie::repeat_guard::WINDOW;
use millie::repetition::detect;
use millie::repetition::gram_hashes;
use millie::repetition::gram_lengths;
use millie::repetition::hash_unit;
use millie::repetition::RepeatStopParams;
use millie::repetition::RepetitionStats;

const SCALE: f32 = 1.0;
const STEP: f32 = 0.5;

fn params() -> PathologyParams {
    PathologyParams {
        repeat_stop: true,
        penalty_on: SCALE > 0.0,
        ngram_penalty_start_n: 3,
        ngram_penalty_max: "10.0".to_string(),
        backtrack_on_repetition: false,
        resamples: 0,
    }
}

fn scale_of(st: &PathologyState) -> f32 {
    match st.consecutive_failures {
        0 => 0.0,
        n => SCALE + STEP * (n - 1) as f32,
    }
}

fn reading(st: &PathologyState) -> ScaleReading {
    let scale = scale_of(st);
    ScaleReading { positive: scale > 0.0, json: format!("{scale:?}") }
}

#[test]
fn resample_budget_claims_then_exhausts_and_resets() {
    let mut r = ResampleState::default();
    assert!(r.try_claim(2));
    assert!(r.try_claim(2));
    assert!(!r.try_claim(2));
    r.reset();
    assert!(r.try_claim(2));
}

#[test]
fn repeated_call_request_is_idempotent_within_a_completion() {
    let mut r = ResampleState::default();
    assert!(r.request_repeated_call(1));
    assert!(r.request_repeated_call(1));
    assert_eq!(r.used(), 1);
    assert!(r.take_requested());
    assert!(!r.take_requested());
    assert!(!r.request_repeated_call(1));
}

#[test]
fn zero_budget_never_claims() {
    let mut r = ResampleState::default();
    assert!(!r.try_claim(0));
    assert!(!r.request_repeated_call(0));
}

#[test]
fn scale_escalates_and_resets_on_clean_call() {
    let p = params();
    let mut st = PathologyState::default();
    st.begin_call();
    st.on_failure(Trigger::Loop, vec!["abc".into()], &p);
    assert_eq!(scale_of(&st), 1.0);
    assert_eq!(st.start_n, 3);
    st.begin_call();
    st.on_failure(Trigger::RepeatedToolCall, vec!["def".into()], &p);
    assert_eq!(scale_of(&st), 1.5);
    assert_eq!(st.start_n, 2);
    assert_eq!(st.spans, vec!["abc".to_string(), "def".to_string()]);
    st.begin_call();
    st.note_clean_finish();
    assert!(st.request_extra(&p, &reading(&st)).unwrap().get("ngram_penalty").is_some());
    st.begin_call();
    assert!(!st.active);
    assert_eq!(st.consecutive_failures, 0);
    assert!(st.spans.is_empty());
    assert!(st.request_extra(&p, &reading(&st)).unwrap().get("ngram_penalty").is_none());
}

#[test]
fn repeat_warning_after_clean_finish_does_not_reset() {
    let p = params();
    let mut st = PathologyState::default();
    st.begin_call();
    st.on_failure(Trigger::Loop, vec!["abc".into()], &p);
    st.begin_call();
    st.note_clean_finish();
    st.on_failure(Trigger::RepeatedToolCall, vec!["call".into()], &p);
    st.begin_call();
    assert!(st.active);
    assert_eq!(st.consecutive_failures, 2);
    assert_eq!(scale_of(&st), 1.5);
    assert_eq!(st.start_n, 2);
}

#[test]
fn start_n_drops_to_one_and_stays() {
    let p = params();
    let mut st = PathologyState::default();
    for _ in 0..4 {
        st.begin_call();
        st.on_failure(Trigger::Loop, vec!["x".into()], &p);
    }
    assert_eq!(st.consecutive_failures, 4);
    assert_eq!(scale_of(&st), 2.5);
    assert_eq!(st.start_n, 1);
    let extra = st.request_extra(&p, &reading(&st)).unwrap();
    assert_eq!(extra.get("ngram_penalty").unwrap().get("start_n").unwrap().as_u64(), Some(1));
}

#[test]
fn a_span_is_kept_once() {
    let p = params();
    let mut st = PathologyState::default();
    st.begin_call();
    st.on_failure(Trigger::Loop, vec!["abc".into(), "def".into(), "abc".into()], &p);
    st.begin_call();
    st.on_failure(Trigger::Loop, vec!["def".into(), "ghi".into()], &p);
    assert_eq!(st.spans, vec!["abc".to_string(), "def".to_string(), "ghi".to_string()]);
}

#[test]
fn a_failure_or_an_unfinished_call_does_not_reset() {
    let p = params();
    let mut st = PathologyState::default();
    st.begin_call();
    st.on_failure(Trigger::Loop, vec!["abc".into()], &p);
    st.begin_call();
    assert!(st.active);
    st.begin_call();
    assert!(st.active);
    st.note_clean_finish();
    st.begin_call();
    assert!(!st.active);
}

#[test]
fn request_extra_shape() {
    let p = params();
    let mut st = PathologyState::default();
    let extra = st.request_extra(&p, &reading(&st)).unwrap();
    assert_eq!(extra.to_text(), r#"{"repeat_stop":{}}"#);
    st.on_failure(Trigger::Loop, vec!["x y z".into()], &p);
    let extra = st.request_extra(&p, &reading(&st)).unwrap();
    let penalty = extra.get("ngram_penalty").unwrap();
    assert_eq!(penalty.get("spans").unwrap().to_text(), r#"["x y z"]"#);
    assert_eq!(penalty.get("start_n").unwrap().to_text(), "3");
    assert_eq!(penalty.get("max").unwrap().to_text(), "10.0");
    let off = PathologyParams { repeat_stop: false, penalty_on: false, ..params() };
    let mut st2 = PathologyState::default();
    st2.on_failure(Trigger::Loop, vec!["x".into()], &off);
    let none = ScaleReading { positive: false, json: "0.0".to_string() };
    assert!(st2.request_extra(&off, &none).is_none());
}

#[test]
fn loop_classification() {
    let stats = parse(r#"{"gram_text": "ab"}"#).unwrap();
    assert_eq!(loop_span(Some("repetition"), Some(&stats)), Some("ab".into()));
    let stats = parse(r#"{"flagged": true, "gram_text": "ab"}"#).unwrap();
    assert_eq!(loop_span(Some("length"), Some(&stats)), Some("ab".into()));
    let stats = parse(r#"{"flagged": false, "gram_text": "ab"}"#).unwrap();
    assert_eq!(loop_span(Some("length"), Some(&stats)), None);
    assert_eq!(loop_span(Some("stop"), None), None);
}

#[test]
fn stats_registry_roundtrip() {
    let mut registry = StatsRegistry::new();
    registry.store_repetition_stats("t", 7, parse(r#"{"flagged": true}"#).unwrap());
    let taken = registry.take_repetition_stats("t", 7).unwrap();
    assert_eq!(taken.to_text(), r#"{"flagged":true}"#);
    assert!(registry.take_repetition_stats("t", 7).is_none());
}

#[test]
fn long_spans_are_cut() {
    let long: String = "a".repeat(MAX_SPAN_CHARS + 10);
    assert_eq!(trim_span(&long).chars().count(), MAX_SPAN_CHARS);
    assert_eq!(trim_span("short"), "short");
}

fn enough(p: &RepeatStopParams) -> Vec<usize> {
    let coverage = p.coverage.parse::<f64>().unwrap() as f32;
    let largest = p.windows.iter().copied().max().unwrap_or(0);
    (0..=largest)
        .map(|w| (0..=w).find(|&c| c as f32 / w as f32 >= coverage).unwrap_or(w + 1))
        .collect()
}

fn judge(toks: &[u64]) -> RepetitionStats {
    let p = RepeatStopParams::default();
    detect(toks, &p, &enough(&p))
}

fn seq(from: u64, n: usize) -> Vec<u64> {
    (0..n as u64).map(|i| from + i).collect()
}

fn repeat_block(block: &[u64], times: usize) -> Vec<u64> {
    let mut v = Vec::new();
    for _ in 0..times {
        v.extend_from_slice(block);
    }
    v
}

#[test]
fn verbatim_loop_is_flagged() {
    let st = judge(&repeat_block(&seq(1000, 40), 10));
    assert!(st.flagged);
    let coverage = st.covered_units() as f32 / st.window as f32;
    assert!(st.count >= 3 && coverage >= 0.8);
}

#[test]
fn alternating_names_list_is_not_flagged() {
    let mut toks = Vec::new();
    let (a, b) = (seq(5000, 8), seq(6000, 8));
    for i in 1..=100u64 {
        for c in i.to_string().bytes() {
            toks.push(100 + (c - b'0') as u64);
        }
        toks.push(7);
        toks.extend_from_slice(if i % 2 == 1 { &a } else { &b });
        toks.push(8);
    }
    let st = judge(&toks);
    assert!(!st.flagged, "{st:?}");
}

#[test]
fn random_order_names_are_not_flagged() {
    let mut toks = Vec::new();
    let mut rng: u32 = 12345;
    for _ in 0..120 {
        rng = rng.wrapping_mul(1664525).wrapping_add(1013904223);
        toks.extend(seq(9000 + ((rng >> 16) % 20) as u64 * 10, 5));
        toks.push(8);
    }
    assert!(!judge(&toks).flagged);
}

#[test]
fn below_min_tokens_nothing_is_judged() {
    assert!(!judge(&repeat_block(&seq(1, 20), 10)).flagged);
}

#[test]
fn long_cycle_caught_by_larger_window() {
    let st = judge(&repeat_block(&seq(1, 250), 4));
    assert!(st.flagged);
    assert!(st.window >= 600);
}

#[test]
fn params_from_json() {
    let v = parse(r#"{"windows": [100], "min_tokens": 50, "coverage": 0.5}"#).unwrap();
    let p = RepeatStopParams::from_json(&v);
    assert_eq!(p.windows, vec![100]);
    assert_eq!(p.min_tokens, 50);
    assert_eq!(p.min_repeats, 3);
    assert!((p.coverage.parse::<f32>().unwrap() - 0.5).abs() < 1e-6);
}

#[test]
fn gram_lengths_grow_as_the_fraction_does() {
    for max_len in [0usize, 2, 3, 15, 16, 17, 40, 100, 300, 900, 5000, 100_000] {
        let mut expected: Vec<usize> = (3..=max_len.min(16)).collect();
        let mut l = 16.0f64;
        loop {
            l *= 1.12;
            let li = l as usize;
            if li > max_len {
                break;
            }
            if expected.last().is_none_or(|&last| li > last) {
                expected.push(li);
            }
        }
        assert_eq!(gram_lengths(max_len), expected, "{max_len}");
    }
}

#[test]
fn equal_grams_hash_alike_wherever_they_stand() {
    let hashes = gram_hashes(&[1, 2, 3, 9, 1, 2, 3], 3);
    assert_eq!(hashes.len(), 5);
    assert_eq!(hashes[0], hashes[4]);
    assert_ne!(hashes[0], hashes[1]);
    assert_eq!(hash_unit("ab"), hash_unit("ab"));
    assert_ne!(hash_unit("ab"), hash_unit("ba"));
}

#[test]
fn signature_ignores_key_order_and_whitespace() {
    let a = signature("str_replace", r#"{"path":"a.py","old_str":"x","new_str":"y"}"#);
    let b = signature("str_replace", r#"{ "new_str": "y", "old_str": "x", "path": "a.py" }"#);
    assert_eq!(a, b);
    let c = signature("str_replace", r#"{"path":"b.py","old_str":"x","new_str":"y"}"#);
    assert_ne!(a, c);
    assert_ne!(a, signature("create_file", r#"{"path":"a.py","old_str":"x","new_str":"y"}"#));
}

#[test]
fn a_changed_text_changes_the_signature() {
    let of = |s: &str| {
        let quoted = millie::json::Json::text(s).to_text();
        signature("edit", &format!(r#"{{"path":"a.py","edits":[{{"new":{quoted}}}]}}"#))
    };
    let texts = ["", " ", "x", "x ", "X", "\"", "\\\"", "\\", "\n", "\\n", "\u{1}", "\u{7f}", "é"];
    for (i, a) in texts.iter().enumerate() {
        for (j, b) in texts.iter().enumerate() {
            assert_eq!(of(a) == of(b), i == j, "{a:?} {b:?}");
        }
    }
}

#[test]
fn immediate_repeat_triggers() {
    let mut recent = Vec::new();
    let v1 = judge_and_remember(&mut recent, "c1", "sig", "");
    assert!(!v1.triggered());
    let v2 = judge_and_remember(&mut recent, "c2", "sig", "");
    assert!(v2.immediate_repeat && v2.triggered());
}

#[test]
fn three_in_window_triggers_even_when_not_adjacent() {
    let mut recent = Vec::new();
    judge_and_remember(&mut recent, "c1", "sig", "");
    judge_and_remember(&mut recent, "c2", "other", "");
    let v = judge_and_remember(&mut recent, "c3", "sig", "");
    assert!(!v.triggered(), "second occurrence, not adjacent: no warning yet");
    judge_and_remember(&mut recent, "c4", "other", "");
    let v = judge_and_remember(&mut recent, "c5", "sig", "");
    assert_eq!(v.repeats_in_window, 2);
    assert!(v.triggered());
}

#[test]
fn window_forgets_old_calls() {
    let mut recent = Vec::new();
    judge_and_remember(&mut recent, "c0", "sig", "");
    for i in 1..=WINDOW {
        judge_and_remember(&mut recent, &format!("x{i}"), "other", "");
    }
    let v = judge_and_remember(&mut recent, "c9", "sig", "");
    assert_eq!(v.repeats_in_window, 0);
    assert!(!v.triggered());
}

#[test]
fn current_call_already_recorded_is_not_counted_against_itself() {
    let mut recent = vec![RecentToolCall {
        call_id: "c1".into(),
        signature: "sig".into(),
        arguments: String::new(),
    }];
    let v = judge_and_remember(&mut recent, "c1", "sig", "");
    assert!(!v.triggered());
}

#[test]
fn warning_names_the_call_and_the_count() {
    let v = RepeatVerdict { immediate_repeat: true, repeats_in_window: 1 };
    let w = warning_text("shell", r#"{"command":"ls"}"#, &v);
    assert!(w.contains("call #2"));
    assert!(w.contains("`shell`"));
    assert!(w.contains(r#"{"command":"ls"}"#));
    assert!(w.contains("previous call"));
}

#[test]
fn a_retry_comes_before_the_penalty() {
    let p = PathologyParams { resamples: 1, ..params() };
    let call = |id: &str| DispatchedCall {
        tool_name: "shell".to_string(),
        call_id: id.to_string(),
        arguments: "{}".to_string(),
    };
    let mut recent = Vec::new();
    let mut resample = ResampleState::default();
    let mut st = PathologyState::default();
    let mode = RepeatGuardMode::Warn;
    let first = decide(&call("1"), mode, true, &p, &mut recent, &mut resample, &mut st);
    assert!(!first.skip && !first.penalized);
    let second = decide(&call("2"), mode, true, &p, &mut recent, &mut resample, &mut st);
    assert!(second.skip && !second.penalized);
    assert!(resample.take_requested());
    let third = decide(&call("3"), mode, true, &p, &mut recent, &mut resample, &mut st);
    assert!(!third.skip && third.penalized);
    assert_eq!(st.consecutive_failures, 1);
}

#[test]
fn cancellation_after_handler_finishes_preserves_completed_lifecycle() {
    let action = on_cancel(true, false, false);
    assert_eq!(action, CancelAction::AwaitOutcome);
    assert_eq!(after_cancel(action, TaskEnd::Returned), Answer::Result);
}

#[test]
fn cancellation_waiting_for_runtime_cleanup_emits_only_aborted_lifecycle() {
    let action = on_cancel(false, false, true);
    assert_eq!(action, CancelAction::AwaitCleanup);
    assert_eq!(after_cancel(action, TaskEnd::Returned), Answer::Aborted);
    assert!(abort_message(&None, "cleanup_tool", "0.1").contains("aborted by user"));
}

#[test]
fn failures_answer_in_the_form_of_the_call() {
    match failure_response(PayloadKind::Other, "c", "broken") {
        FailureResponse::Function { call_id, success, .. } => {
            assert_eq!(call_id, "c");
            assert!(!success);
        }
        other => panic!("{other:?}"),
    }
    assert!(matches!(
        failure_response(PayloadKind::ToolSearch, "c", "broken"),
        FailureResponse::EmptySearch { .. }
    ));
    assert!(matches!(
        failure_response(PayloadKind::Custom, "c", "broken"),
        FailureResponse::Custom { .. }
    ));
}

#[test]
fn penalties_are_summed_up() {
    let p = params();
    let mut st = PathologyState::default();
    st.on_failure(Trigger::Loop, vec!["x".into()], &p);
    let summary: Json = st.summary(&reading(&st));
    assert!(summary.as_object().is_some());
    assert_eq!(Trigger::RepeatedToolCall.as_str(), "repeated_tool_call");
}

#[test]
fn repeats_are_logged_with_their_warning() {
    let verdict = RepeatVerdict { immediate_repeat: true, repeats_in_window: 2 };
    let event = repeat_event(RepeatGuardMode::Log, "shell", "{}", "sig", &verdict);
    assert_eq!(event.str_at("mode"), Some("log"));
    assert_eq!(event.str_at("arguments"), Some("{}"));
    assert_eq!(event.str_at("signature"), Some("sig"));
    assert_eq!(event.bool_at("immediate_repeat"), Some(true));
    assert_eq!(event.i64_at("repeats_in_window"), Some(2));
    assert_eq!(event.bool_at("warning_appended"), Some(false));
    assert_eq!(
        event.str_at("warning_text"),
        Some(warning_text("shell", "{}", &verdict).as_str())
    );
    assert_eq!(
        skip_event("shell", "sig").to_text(),
        r#"{"action":"resample_skip_call","tool":"shell","signature":"sig"}"#
    );
    assert_eq!(
        penalty_event(Json::Null).to_text(),
        r#"{"trigger":"repeated_tool_call","state":null}"#
    );
}
