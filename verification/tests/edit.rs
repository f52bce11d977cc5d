use millie::alignment::fitting_alignment;
use millie::call_events::corrected_event;
use millie::call_events::declined_event;
use millie::correction::Aligned;
use millie::correction::CorrectionConfig;
use millie::correction::DistanceAllowance;
use millie::correction::FuzzySearch;
use millie::correction::Outcome;
use millie::correction::PosteriorReading;
use millie::correction::Suggestion;
use millie::correction::suggest;
use millie::edit::AutocorrectMode;
use millie::edit::CreateFileHandler;
use millie::edit::DeleteFileHandler;
use millie::edit::EditSettings;
use millie::edit::EditStep;
use millie::edit::FileRead;
use millie::edit::Lookup;
use millie::edit::StrReplaceHandler;
use millie::line_diff::short_diff;
use millie::normalization::Normalization;
use millie::normalization::normalize_with_map;

const POSTERIOR_THRESHOLD: f64 = 0.9999;
const H0_PRIOR: f64 = 0.5;
const ERROR_PRIOR_MEAN: f64 = 0.02;
const ERROR_PRIOR_STRENGTH: f64 = 50.0;
const MAX_DISTANCE_FRACTION: f64 = 0.25;
const VOTE_FRACTION: f64 = 0.25;

fn ln_gamma(x: f64) -> f64 {
    const G: f64 = 7.0;
    const COEF: [f64; 9] = [
        0.999_999_999_999_809_9,
        676.520_368_121_885_1,
        -1_259.139_216_722_402_8,
        771.323_428_777_653_1,
        -176.615_029_162_140_6,
        12.507_343_278_686_905,
        -0.138_571_095_265_720_12,
        9.984_369_578_019_572e-6,
        1.505_632_735_149_311_6e-7,
    ];
    if x < 0.5 {
        let pi = std::f64::consts::PI;
        return (pi / (pi * x).sin()).ln() - ln_gamma(1.0 - x);
    }
    let x = x - 1.0;
    let t = x + G + 0.5;
    let mut a = COEF[0];
    for (i, c) in COEF.iter().enumerate().skip(1) {
        a += c / (x + i as f64);
    }
    0.5 * (2.0 * std::f64::consts::PI).ln() + (x + 0.5) * t.ln() - t + a.ln()
}

fn ln_choose(n: usize, k: usize) -> f64 {
    ln_gamma(n as f64 + 1.0) - ln_gamma(k as f64 + 1.0) - ln_gamma((n - k) as f64 + 1.0)
}

fn ln_beta(x: f64, y: f64) -> f64 {
    ln_gamma(x) + ln_gamma(y) - ln_gamma(x + y)
}

fn posterior(found: &[Aligned], m: usize, q: f64) -> f64 {
    let a = ERROR_PRIOR_MEAN * ERROR_PRIOR_STRENGTH;
    let b = ERROR_PRIOR_STRENGTH - a;
    let background =
        |d: usize| ln_choose(m, d) + d as f64 * q.ln() + (m - d) as f64 * (1.0 - q).ln();
    let intended = |d: usize| {
        ln_choose(m, d) + ln_beta(d as f64 + a, (m - d) as f64 + b) - ln_beta(a, b)
    };
    let prior = ((1.0 - H0_PRIOR) / found.len() as f64).ln();
    let all: f64 = found.iter().map(|v| background(v.distance)).sum();
    let mut logs: Vec<f64> = found
        .iter()
        .map(|v| prior + all - background(v.distance) + intended(v.distance))
        .collect();
    logs.push(H0_PRIOR.ln() + all);
    let max = logs.iter().cloned().fold(f64::NEG_INFINITY, f64::max);
    let denom: f64 = logs.iter().map(|l| (l - max).exp()).sum();
    ((logs[0] - max).exp() / denom).clamp(0.0, 1.0)
}

fn search(s: &FuzzySearch, cfg: &CorrectionConfig) -> Outcome {
    let m = s.pattern.len();
    let allowance = DistanceAllowance {
        rounded_up: (m as f64 * MAX_DISTANCE_FRACTION).ceil() as usize,
        rounded_down: (m as f64 * MAX_DISTANCE_FRACTION).floor() as usize,
    };
    let tally = s.tally(cfg, &allowance);
    let needed = ((tally.informative as f64 * VOTE_FRACTION).ceil() as u128).max(1);
    let found = match s.verify(&tally, needed, &allowance, cfg) {
        Ok(found) => found,
        Err(outcome) => return outcome,
    };
    let dists = s.background_distances(&found, cfg);
    let q = if dists.is_empty() {
        0.6
    } else {
        let mean = dists.iter().sum::<usize>() as f64 / dists.len() as f64 / m as f64;
        mean.clamp(0.05, 0.95)
    };
    let p = posterior(&found, m, q);
    s.settle(
        &found,
        &allowance,
        &PosteriorReading {
            accepted: p >= POSTERIOR_THRESHOLD,
            shown: format!("{p:.6}"),
            threshold: POSTERIOR_THRESHOLD.to_string(),
        },
    )
}

fn propose(file: &str, old_str: &str, new_str: &str) -> Outcome {
    let cfg = CorrectionConfig::default();
    match suggest(file, old_str, new_str, &cfg) {
        Suggestion::Decided(outcome) => outcome,
        Suggestion::Search(s) => search(&s, &cfg),
    }
}

const FILE: &str = "import os\n\ndef add(a, b):\n    return a + b\n\n\ndef sub(a, b):\n    return a - b\n\nclass Calc:\n    def mul(self, a, b):\n        return a * b\n";

#[test]
fn verbatim_present_is_not_corrected() {
    assert!(matches!(propose(FILE, "def add(a, b):", "x"), Outcome::Declined(_)));
}

#[test]
fn trailing_whitespace_and_crlf_are_forgiven() {
    let out = propose(
        FILE,
        "def add(a, b):   \r\n    return a + b  ",
        "def add(a, b):\n    return a + b + 0",
    );
    let Outcome::Corrected(c) = out else { panic!("expected correction, got {out:?}") };
    assert_eq!(c.tier, "line-endings-and-trailing-whitespace");
    assert_eq!(c.matched, "def add(a, b):\n    return a + b");
    assert_eq!(c.distance, 0);
}

#[test]
fn indentation_drift_is_corrected_and_new_str_re_indented() {
    let out = propose(
        FILE,
        "def mul(self, a, b):\n    return a * b",
        "def mul(self, a, b):\n    return a * b * 1",
    );
    let Outcome::Corrected(c) = out else { panic!("expected correction, got {out:?}") };
    assert_eq!(c.tier, "indentation");
    assert_eq!(c.matched, "    def mul(self, a, b):\n        return a * b");
    assert_eq!(
        c.adjusted_new_str.as_deref(),
        Some("    def mul(self, a, b):\n        return a * b * 1")
    );
}

#[test]
fn ambiguity_at_a_tier_declines() {
    let out = propose(FILE, "return  a", "x");
    assert!(matches!(out, Outcome::Declined(_)), "{out:?}");
}

#[test]
fn single_typo_in_unique_region_is_corrected_fuzzily() {
    let out = propose(
        FILE,
        "class Calc:\n    def mull(self, a, b):\n        return a * b",
        "X",
    );
    let Outcome::Corrected(c) = out else { panic!("expected correction, got {out:?}") };
    assert_eq!(c.tier, "fuzzy");
    assert_eq!(c.matched, "class Calc:\n    def mul(self, a, b):\n        return a * b");
    assert_eq!(c.distance, 1);
    assert_eq!(&FILE[c.start..c.end], c.matched);
}

#[test]
fn no_posterior_lifts_the_cap() {
    let cfg = CorrectionConfig::default();
    let old = "class Calc:\n    def mulx(selfx, ax, b):\n        return a * b";
    let Suggestion::Search(s) = suggest(FILE, old, "X", &cfg) else { panic!("no search") };
    let sure = PosteriorReading {
        accepted: true,
        shown: "1.000000".to_string(),
        threshold: POSTERIOR_THRESHOLD.to_string(),
    };
    let wide = DistanceAllowance { rounded_up: 3, rounded_down: 3 };
    let found = s.verify(&s.tally(&cfg, &wide), 1, &wide, &cfg).unwrap();
    assert_eq!(found[0].distance, 3);
    assert!(matches!(s.settle(&found, &wide, &sure), Outcome::Corrected(c) if c.distance == 3));
    let none = DistanceAllowance { rounded_up: 0, rounded_down: 0 };
    let out = s.settle(&found, &none, &sure);
    assert!(
        matches!(&out, Outcome::Declined(d) if d.reason.contains("above the cap")
            && d.best_distance == Some(3) && d.posterior.is_none()),
        "{out:?}"
    );
}

#[test]
fn near_duplicate_regions_decline() {
    let file = "def f1(x):\n    return x + 1\n\ndef f2(x):\n    return x + 2\n";
    let out = propose(file, "def f9(x):\n    return x + 3", "X");
    assert!(matches!(out, Outcome::Declined(_)), "{out:?}");
}

#[test]
fn hallucinated_text_declines() {
    let out = propose(
        FILE,
        "def divide(self, numerator, denominator):\n        return numerator / denominator",
        "X",
    );
    assert!(matches!(out, Outcome::Declined(_)), "{out:?}");
}

#[test]
fn fitting_alignment_pins_both_ends() {
    let pattern: Vec<char> = "hello world".chars().collect();
    let window: Vec<char> = "xx hello wrld yy".chars().collect();
    let (d, s, e) = fitting_alignment(&pattern, &window);
    assert_eq!(d, 1);
    assert_eq!(window[s..e].iter().collect::<String>(), "hello wrld");
}

#[test]
fn short_diff_marks_changed_lines_only() {
    let d = short_diff("a\nb\nc", "a\nB\nc", 12);
    assert_eq!(d, "-b\n+B");
}

#[test]
fn long_diffs_are_cut_and_counted() {
    let d = short_diff("a\nb\nc\nd", "", 2);
    assert_eq!(d, "-a\n-b\n... (2 more changed lines)");
}

#[test]
fn every_refusal_says_why() {
    let reason = |file: &str, old: &str| match propose(file, old, "x") {
        Outcome::Declined(d) => d.reason,
        Outcome::Corrected(c) => panic!("corrected to {c:?}"),
    };
    assert_eq!(reason(FILE, ""), "old_str is empty");
    assert_eq!(
        reason(FILE, "import os"),
        "old_str is present verbatim; nothing to correct"
    );
    assert_eq!(
        reason(FILE, "return  a"),
        "3 matches at tier collapsed-whitespace; ambiguous"
    );
    assert_eq!(
        reason("ab", "xyz!"),
        "old_str too short or longer than the file for fuzzy matching"
    );
    assert_eq!(
        reason(FILE, "zzzzzzzzzzzzzzzzzzzz"),
        "no candidate span shares enough of old_str"
    );
    let cfg = CorrectionConfig { max_file_bytes: 3, ..CorrectionConfig::default() };
    match suggest("abcd", "x", "y", &cfg) {
        Suggestion::Decided(Outcome::Declined(d)) => {
            assert_eq!(d.reason, "file larger than 3 bytes")
        }
        other => panic!("{other:?}"),
    }
    let cfg = CorrectionConfig { max_old_str_chars: 1, ..CorrectionConfig::default() };
    match suggest("abcd", "xy", "y", &cfg) {
        Suggestion::Decided(Outcome::Declined(d)) => {
            assert_eq!(d.reason, "old_str longer than 1 chars")
        }
        other => panic!("{other:?}"),
    }
}

#[test]
fn normalization_maps_back_to_the_file() {
    let input: Vec<char> = "a  b \r\n\tc".chars().collect();
    let n = normalize_with_map(&input, Normalization::Collapse);
    let text: String = n.text.iter().collect();
    assert_eq!(text, "a b\n\tc");
    assert_eq!(n.orig_start(0), 0);
    let n = normalize_with_map(&input, Normalization::Indent);
    let text: String = n.text.iter().collect();
    assert_eq!(text, "a b\nc");
}

#[test]
fn spans_are_counted_in_bytes() {
    let file = "# \u{e9}t\u{e9}\nvalue = 1   \n";
    let out = propose(file, "value = 1\t", "value = 2");
    let Outcome::Corrected(c) = out else { panic!("expected correction, got {out:?}") };
    assert_eq!(&file[c.start..c.end], "value = 1   ");
}

#[test]
fn corrections_are_logged_with_both_edits() {
    let Outcome::Corrected(c) = propose("a  b\n", "a b ", "c") else { panic!("no correction") };
    let event = corrected_event(AutocorrectMode::Log, "f", "a b ", "c", &c, "0.5");
    assert_eq!(event.str_at("mode"), Some("log"));
    assert_eq!(event.str_at("decision"), Some("corrected"));
    assert_eq!(event.get("corrected").unwrap().str_at("old_str"), Some("a  b"));
    assert_eq!(event.get("posterior").unwrap().to_text(), "1.0");
    assert_eq!(event.bool_at("applied"), Some(false));
    let Outcome::Declined(d) = propose("a", "", "c") else { panic!("not declined") };
    assert_eq!(
        declined_event(AutocorrectMode::Correct, "f", "", "c", &d, "0.5").to_text(),
        r#"{"tool":"str_replace","mode":"correct","original":{"path":"f","old_str":"","new_str":"c"},"decision":"declined","reason":"old_str is empty","best_distance":null,"runner_up_distance":null,"posterior":null,"applied":false}"#
    );
}

fn settings() -> EditSettings {
    EditSettings { allow_null_edit: false, autocorrect: AutocorrectMode::Off, edit_reminder: None }
}

fn lookup(file: &Option<String>) -> Lookup {
    match file {
        Some(_) => Lookup::Present,
        None => Lookup::NotFound,
    }
}

fn apply(step: EditStep, file: &mut Option<String>) -> String {
    match step {
        EditStep::Reply(reply) => reply.text,
        EditStep::Write { content, reply } => {
            *file = Some(content);
            reply.text
        }
        EditStep::Remove { reply } => {
            *file = None;
            reply.text
        }
        other => panic!("{other:?}"),
    }
}

fn create(path: &str, content: &str, file: &mut Option<String>, settings: &EditSettings) -> String {
    let step = CreateFileHandler.step(path, content, &lookup(file), settings);
    apply(step, file)
}

fn delete(path: &str, file: &mut Option<String>) -> String {
    let step = DeleteFileHandler.step(path, &lookup(file));
    apply(step, file)
}

fn replace(
    path: &str,
    old_str: &str,
    new_str: &str,
    file: &mut Option<String>,
    settings: &EditSettings,
) -> String {
    let handler = StrReplaceHandler;
    if let Some(reply) = handler.refuse(old_str, new_str, settings) {
        return reply.text;
    }
    let read = match file {
        Some(text) => FileRead::Text(text.clone()),
        None => FileRead::NotFound,
    };
    match handler.step(path, old_str, new_str, &read, settings) {
        EditStep::Suggest => {
            let text = file.clone().unwrap();
            let outcome = propose(&text, old_str, new_str);
            let step =
                handler.corrected_step(path, old_str, new_str, &text, &outcome, settings);
            apply(step, file)
        }
        step => apply(step, file),
    }
}

#[test]
fn create_file_result_strings_and_trailing_newline() {
    let mut file = None;
    let output = create("nested/file.txt", "hello", &mut file, &settings());
    assert_eq!(output, "Created nested/file.txt");
    assert_eq!(file.as_deref(), Some("hello\n"));

    let mut file = Some("existing\n".to_string());
    let output = create("exists.txt", "again", &mut file, &settings());
    assert_eq!(output, "create_file failed: exists.txt already exists");
    assert_eq!(file.as_deref(), Some("existing\n"));
}

#[test]
fn delete_file_result_strings() {
    let mut file = Some("bye".to_string());
    let output = delete("gone.txt", &mut file);
    assert_eq!(output, "Deleted gone.txt");
    assert!(file.is_none());

    let output = delete("missing.txt", &mut None);
    assert_eq!(output, "delete_file failed: missing.txt not found");
}

#[test]
fn allow_null_edit_restores_identity_noop_success() {
    let mut file = Some("hello world".to_string());
    let allowing = EditSettings { allow_null_edit: true, ..settings() };
    let output = replace("same.txt", "hello", "hello", &mut file, &allowing);
    assert!(!output.contains("failed"), "{output}");
    assert_eq!(file.as_deref(), Some("hello world"));
}

#[test]
fn identity_str_replace_fails_and_leaves_file_untouched() {
    let mut file = Some("hello world".to_string());
    let output = replace("same.txt", "hello", "hello", &mut file, &settings());
    assert_eq!(
        output,
        "str_replace failed: old_str and new_str are identical, so this edit changes nothing and was not applied."
    );
    assert_eq!(file.as_deref(), Some("hello world"));
}

#[test]
fn str_replace_result_strings_and_noop_failures() {
    let output = replace("missing.txt", "x", "y", &mut None, &settings());
    assert_eq!(output, "str_replace failed: missing.txt not found");

    let mut file = Some("one\ntwo\n".to_string());
    let output = replace("sample.txt", "absent", "new", &mut file, &settings());
    assert_eq!(output, "str_replace failed: old_str not found in file");
    assert_eq!(file.as_deref(), Some("one\ntwo\n"));

    let mut file = Some("dup\ndup\n".to_string());
    let output = replace("sample.txt", "dup", "new", &mut file, &settings());
    assert_eq!(output, "str_replace failed: old_str matched 2 locations");
    assert_eq!(file.as_deref(), Some("dup\ndup\n"));

    let output = replace("sample.txt", "dup\ndup", "ok", &mut file, &settings());
    assert_eq!(output, "Replaced in sample.txt");
    assert_eq!(file.as_deref(), Some("ok\n"));
}

#[test]
fn sequential_str_replace_calls_see_prior_changes() {
    let mut file = Some("alpha\n".to_string());
    for (old_str, new_str) in [("alpha", "beta"), ("beta", "gamma")] {
        let output = replace("sample.txt", old_str, new_str, &mut file, &settings());
        assert_eq!(output, "Replaced in sample.txt");
    }
    assert_eq!(file.as_deref(), Some("gamma\n"));
}

const DRIFT_FILE: &str = "class Calc:\n    def mul(self, a, b):\n        return a * b\n";

#[test]
fn autocorrect_correct_mode_applies_indentation_drift() {
    let mut file = Some(DRIFT_FILE.to_string());
    let correcting = EditSettings { autocorrect: AutocorrectMode::Correct, ..settings() };
    let out = replace(
        "calc.py",
        "def mul(self, a, b):\n    return a * b",
        "def mul(self, a, b):\n    return a * b * 1",
        &mut file,
        &correcting,
    );
    assert!(out.starts_with("Replaced in calc.py"), "{out}");
    assert!(out.contains("was corrected"), "{out}");
    assert_eq!(
        file.as_deref(),
        Some("class Calc:\n    def mul(self, a, b):\n        return a * b * 1\n")
    );
}

#[test]
fn autocorrect_log_mode_keeps_the_original_failure() {
    let mut file = Some(DRIFT_FILE.to_string());
    let logging = EditSettings { autocorrect: AutocorrectMode::Log, ..settings() };
    let out = replace(
        "calc.py",
        "def mul(self, a, b):\n    return a * b",
        "X",
        &mut file,
        &logging,
    );
    assert_eq!(out, "str_replace failed: old_str not found in file");
    assert_eq!(file.as_deref(), Some(DRIFT_FILE));
}

#[test]
fn autocorrect_declines_ambiguous_and_hallucinated() {
    let text = "def f1(x):\n    return x + 1\n\ndef f2(x):\n    return x + 2\n";
    let mut file = Some(text.to_string());
    let correcting = EditSettings { autocorrect: AutocorrectMode::Correct, ..settings() };
    let out = replace("m.py", "def f9(x):\n    return x + 3", "X", &mut file, &correcting);
    assert_eq!(out, "str_replace failed: old_str not found in file");
    assert_eq!(file.as_deref(), Some(text));
}

#[test]
fn edit_reminder_is_appended_to_successful_edits() {
    let reminding =
        EditSettings { edit_reminder: Some("TEST REMINDER".to_string()), ..settings() };
    let out = create("a.txt", "hello\n", &mut None, &reminding);
    assert!(out.starts_with("Created a.txt"), "{out}");
    assert!(out.ends_with("TEST REMINDER"), "{out}");
    let mut file = Some("hello\n".to_string());
    let out = replace("b.txt", "hello", "bye", &mut file, &reminding);
    assert!(out.starts_with("Replaced in b.txt"), "{out}");
    assert!(out.ends_with("TEST REMINDER"), "{out}");
}

#[test]
fn edit_reminder_off_leaves_results_untouched() {
    let mut file = Some("hello\n".to_string());
    let out = replace("c.txt", "hello", "bye", &mut file, &settings());
    assert_eq!(out, "Replaced in c.txt");
}

#[test]
fn a_failed_lookup_is_an_error_and_changes_nothing() {
    let failed = Lookup::Failed("no permission".to_string());
    match DeleteFileHandler.step("a.txt", &failed) {
        EditStep::Fail(message) => assert!(message.contains("no permission"), "{message}"),
        other => panic!("{other:?}"),
    }
    let read = FileRead::Failed("no permission".to_string());
    match StrReplaceHandler.step("a.txt", "x", "y", &read, &settings()) {
        EditStep::Fail(message) => assert!(message.contains("no permission"), "{message}"),
        other => panic!("{other:?}"),
    }
}

#[test]
fn str_replace_calls_in_one_reply_execute_in_order() {
    let mut file = Some("one\n".to_string());
    let first = replace("ordered.txt", "one", "two", &mut file, &settings());
    let second = replace("ordered.txt", "two", "three", &mut file, &settings());
    assert_eq!(first, "Replaced in ordered.txt");
    assert_eq!(second, "Replaced in ordered.txt");
    assert_eq!(file.as_deref(), Some("three\n"));
}

#[test]
fn edit_tool_result_strings_preserve_compatibility() {
    let mut made = None;
    let mut dup = Some("dup\ndup\n".to_string());
    assert_eq!(create("made/new.txt", "hi", &mut made, &settings()), "Created made/new.txt");
    assert_eq!(
        create("dup.txt", "hi", &mut dup, &settings()),
        "create_file failed: dup.txt already exists"
    );
    assert_eq!(
        replace("absent.txt", "a", "b", &mut None, &settings()),
        "str_replace failed: absent.txt not found"
    );
    assert_eq!(
        replace("dup.txt", "zebra", "b", &mut dup, &settings()),
        "str_replace failed: old_str not found in file"
    );
    assert_eq!(
        replace("dup.txt", "dup", "b", &mut dup, &settings()),
        "str_replace failed: old_str matched 2 locations"
    );
    assert_eq!(delete("absent.txt", &mut None), "delete_file failed: absent.txt not found");
    assert_eq!(delete("made/new.txt", &mut made), "Deleted made/new.txt");
    assert_eq!(dup.as_deref(), Some("dup\ndup\n"));
    assert!(made.is_none());
}
