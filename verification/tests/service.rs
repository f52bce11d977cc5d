use millie::json::parse;
use millie::json::Json;
use millie::launch::chosen_template;
use millie::launch::device_names;
use millie::launch::log_tail;
use millie::launch::server_command;
use millie::launch::server_log_path;
use millie::launch::template_places;
use millie::launch::LaunchFacts;
use millie::launch::LaunchValues;
use millie::launch::LlamaCppLaunchConfig;
use millie::pets::builtin_spritesheet_path;
use millie::pets::ensure_builtin_pet;
use millie::pets::pack_dir;
use millie::pets::validate_spritesheet;
use millie::pets::SheetSize;
use millie::server::cache_was_saved;
use millie::server::check_model_path;
use millie::server::check_remote;
use millie::server::conversation_prefix;
use millie::server::endpoint_lock_name;
use millie::server::lock_step;
use millie::server::wait_step;
use millie::server::LockStep;
use millie::server::LockTry;
use millie::server::WaitStep;
use millie::server::error_reply;
use millie::server::models_url;
use millie::server::owned_reply;
use millie::server::preflight_step;
use millie::server::read_supervisor_reply;
use millie::server::served_model_path;
use millie::server::server_ctx_size;
use millie::server::startup_step;
use millie::server::system_prefix;
use millie::server::token_count;
use millie::server::token_ids;
use millie::server::warms_up;
use millie::server::Health;
use millie::server::ModelsReply;
use millie::server::PreflightStep;
use millie::server::StartupStep;
use millie::settings::max_output_tokens;
use millie::settings::nonblank;
use millie::settings::parse_numbers;
use millie::settings::parse_vision_setting;
use millie::settings::read_bool;
use millie::settings::limit_warning;
use millie::settings::read_u32;
use millie::settings::server_port;
use millie::settings::sampling_warning;
use millie::settings::served_model;
use millie::settings::thinking_budget;
use millie::settings::DEFAULT_PORT;
use millie::settings::version_string;
use millie::settings::NumberError;
use millie::settings::ShownSampling;
use millie::skills::BundledSkillsConfig;
use millie::skills::SkillsConfig;
use millie::system_prompt::candidates;
use millie::system_prompt::not_found;
use millie::system_prompt::prompt_step;
use millie::system_prompt::resolve_system_prompt_for_tests;
use millie::system_prompt::LookupError;
use millie::system_prompt::LookupErrorKind;
use millie::system_prompt::PromptStep;
use millie::system_prompt::ReadOutcome;
use millie::system_prompt::ResolvedSystemPrompt;
use millie::telemetry::resolve_exporter;
use millie::telemetry::validate_span_attributes;
use millie::telemetry::SettingErrorKind;
use millie::telemetry::OtelExporter;
use millie::update_action::shell_command;
use millie::update_action::InstallMethod;
use millie::update_action::UpdateAction;
use std::collections::HashMap;

fn value(text: &str) -> Json {
    parse(text).expect("JSON")
}

#[test]
fn vision_encodings_match_launch_behavior() {
    for value in [None, Some(""), Some("  ")] {
        assert_eq!(parse_vision_setting(value), None);
    }
    for value in ["0", "false", "off", " 0 "] {
        assert_eq!(parse_vision_setting(Some(value)), Some(false));
    }
    for value in ["1", "true", "on", " true "] {
        assert_eq!(parse_vision_setting(Some(value)), Some(true));
    }
}

#[test]
fn settings_fall_back_to_what_is_usual() {
    assert_eq!(DEFAULT_PORT, 8090);
    let port = |own: Option<&str>, shared: Option<&str>| {
        server_port(own.map(str::to_string), shared.map(str::to_string))
    };
    assert_eq!(port(Some(" 9000 "), Some("9001")), 9000);
    assert_eq!(port(Some("  "), Some("9001")), 9001);
    assert_eq!(port(Some("65536"), Some("9001")), 8090);
    assert_eq!(port(None, None), 8090);
    assert_eq!(
        limit_warning("thinking_budget", Some("many"), 1024).as_deref(),
        Some("millie: WARNING: thinking_budget not set by catalog/config; using compiled fallback 1024")
    );
    assert!(limit_warning("thinking_budget", None, 1024).is_some());
    assert_eq!(limit_warning("thinking_budget", Some(" 7 "), 1024), None);
    assert_eq!(read_u32(Some(" 12 "), 3), 12);
    assert_eq!(read_u32(Some("-1"), 3), 3);
    assert_eq!(read_u32(Some("4294967296"), 3), 3);
    assert!(read_bool(Some(" true"), false));
    assert!(!read_bool(Some("false"), true));
    assert!(read_bool(Some("1"), true));
    assert_eq!(thinking_budget(None), 1024);
    assert_eq!(thinking_budget(Some("0")), 0);
    assert_eq!(max_output_tokens(Some("x")), 8192);
    assert_eq!(served_model(Some(" ".to_string())), "millie");
    assert_eq!(served_model(Some(" m ".to_string())), " m ");
    assert_eq!(nonblank(Some(" ".to_string())), None);
    assert_eq!(parse_numbers("0, 2"), Ok(vec![0, 2]));
    assert_eq!(parse_numbers("0,x"), Err(NumberError::InvalidDigit));
    assert_eq!(parse_numbers("4294967296"), Err(NumberError::TooLarge));
    assert_eq!(NumberError::Empty.message(), "cannot parse integer from empty string");
    for bad in ["", "x", "4294967296"] {
        let std_message = bad.parse::<u32>().unwrap_err().to_string();
        let own = millie::settings::parse_number(&bad.chars().collect::<Vec<char>>()).unwrap_err();
        assert_eq!(own.message(), std_message);
    }
    let shown = ShownSampling {
        temperature: "0.5".to_string(),
        min_p: "0.001".to_string(),
        top_k: "0".to_string(),
        top_p: "1".to_string(),
    };
    assert_eq!(sampling_warning(&Vec::new(), &shown), None);
    assert_eq!(
        sampling_warning(&vec!["min_p".to_string(), "top_p".to_string()], &shown).as_deref(),
        Some("millie: WARNING: sampling parameter(s) [min_p, top_p] not set by catalog/config; using compiled fallback (temp 0.5, min_p 0.001, top_k 0, top_p 1)")
    );
}

#[test]
fn versions_say_what_was_built() {
    assert_eq!(version_string(Some("2.0"), "1.0", Some("abc"), true), "2.0");
    assert_eq!(version_string(None, "1.0", Some("abc"), true), "1.0-dev+gabc.dirty");
    assert_eq!(version_string(None, "1.0", Some("abc"), false), "1.0-dev+gabc");
    assert_eq!(version_string(None, "1.0", None, true), "1.0-dev");
}

#[test]
fn failed_warmup_does_not_save_cache() {
    assert!(!cache_was_saved(false, &None));
    assert!(!cache_was_saved(false, &Some(value(r#"{"n_saved":1}"#))));
}

#[test]
fn cache_save_accepts_the_runtime_response_with_zero_n_written() {
    let reply = value(
        r#"{"id_slot": 0, "filename": "prompt-cache.bin", "n_saved": 1, "n_written": 0, "timings": {"save_ms": 0}}"#,
    );
    assert!(cache_was_saved(true, &Some(reply)));
}

#[test]
fn cache_save_rejects_empty_malformed_and_http_error_responses() {
    for (status, body) in [
        (200, r#"{"n_saved": 0, "n_written": 0}"#),
        (200, r#"{"success": true}"#),
        (200, r#"{"n_saved": "1"}"#),
        (200, "not json"),
        (503, r#"{"n_saved": 1}"#),
    ] {
        let saved = if status == 200 { parse(body) } else { None };
        assert!(!cache_was_saved(true, &saved), "{body}");
    }
}

#[test]
fn attachment_requires_the_same_vision_mode_in_both_directions() {
    for actual in [false, true] {
        let props = value(&format!(
            r#"{{"model_path": "/same/model.gguf", "modalities": {{ "vision": {actual} }}}}"#
        ));
        assert_eq!(served_model_path(&props, actual).as_deref(), Ok("/same/model.gguf"));
        let error = served_model_path(&props, !actual).unwrap_err();
        assert!(error.contains("different vision mode"));
    }
}

#[test]
fn a_server_that_says_too_little_is_not_attached_to() {
    assert!(served_model_path(&value("{}"), true).unwrap_err().contains("vision mode"));
    let props = value(r#"{"modalities": {"vision": true}}"#);
    assert!(served_model_path(&props, true).unwrap_err().contains("model path"));
    assert!(check_model_path(true, "u", "m").is_ok());
    assert!(check_model_path(false, "u", "m").is_err());
}

#[test]
fn health_decides_what_is_done() {
    assert!(matches!(startup_step(&Health::Ready), StartupStep::Attach));
    assert!(matches!(startup_step(&Health::Refused), StartupStep::Launch));
    assert!(matches!(startup_step(&Health::NotReady), StartupStep::Fail(_)));
    match startup_step(&Health::Unknown("e".to_string())) {
        StartupStep::Fail(m) => assert_eq!(
            m,
            "Could not determine model server status: e. No replacement was launched."
        ),
        other => panic!("{other:?}"),
    }
    assert!(matches!(preflight_step(&Health::Ready), PreflightStep::Check));
    assert!(matches!(preflight_step(&Health::Refused), PreflightStep::Pass));
    assert!(matches!(preflight_step(&Health::NotReady), PreflightStep::Fail(_)));
}

#[test]
fn the_supervisor_answers_in_json() {
    for owned in [false, true] {
        assert_eq!(read_supervisor_reply(&owned_reply(owned)), Ok(owned));
    }
    assert_eq!(read_supervisor_reply(&error_reply("no")), Err("no".to_string()));
    assert_eq!(read_supervisor_reply(&value("{}")), Ok(false));
    assert!(endpoint_lock_name(8081).contains("8081"));
}

#[test]
fn replies_of_the_server_are_read() {
    let props = value(r#"{"default_generation_settings": {"n_ctx": 4096}}"#);
    assert_eq!(server_ctx_size(&props), Some(4096));
    let big = value(r#"{"default_generation_settings": {"n_ctx": 4294967296}}"#);
    assert_eq!(server_ctx_size(&big), None);
    let tokens = value(r#"{"tokens": [1, 2, 3]}"#);
    assert_eq!(token_count(&tokens), Some(3));
    assert_eq!(token_ids(&tokens), Some(vec![1, 2, 3]));
    assert_eq!(token_count(&value("{}")), None);
    assert_eq!(system_prefix("S"), "<|im_start|>system\nS<|im_end|>\n");
    assert_eq!(
        conversation_prefix("a<|im_start|>user1<|im_start|>user2").as_deref(),
        Some("a<|im_start|>user1")
    );
    assert_eq!(conversation_prefix("no turn"), None);
    assert_eq!(models_url("http://h/v1//"), "http://h/v1/models");
    let refused = ModelsReply::Answered { success: false, status: "404 Not Found".to_string() };
    assert_eq!(
        check_remote("u", &refused).unwrap_err(),
        "vLLM server at u answered 404 Not Found on /models; is the Millie model served there?"
    );
    assert!(check_remote("u", &ModelsReply::Unreachable("e".to_string())).is_err());
    let fine = ModelsReply::Answered { success: true, status: "200 OK".to_string() };
    assert!(check_remote("u", &fine).is_ok());
}

#[test]
fn a_launched_server_is_waited_for() {
    let step = |ready, exited, late| wait_step(ready, exited, late, "http://h", "/l.log", "oom");
    assert!(matches!(step(true, Some("signal: 9"), true), WaitStep::Done));
    assert!(matches!(step(false, None, false), WaitStep::Wait));
    for late in [false, true] {
        assert!(matches!(
            step(false, Some("exit status: 1"), late),
            WaitStep::Fail(m) if m
                == "llama-server exited during startup (exit status: 1). Last lines of /l.log:\noom"
        ));
    }
    assert!(matches!(
        step(false, None, true),
        WaitStep::Fail(m) if m
            == "llama-server did not become ready at http://h within the startup timeout; its output is in /l.log"
    ));
}

#[test]
fn a_lock_that_is_held_is_waited_for() {
    for late in [false, true] {
        assert!(matches!(lock_step(LockTry::Taken, late), LockStep::Done));
        assert!(matches!(lock_step(LockTry::Broken, late), LockStep::Broken));
    }
    assert!(matches!(lock_step(LockTry::Held, false), LockStep::Wait));
    assert!(matches!(
        lock_step(LockTry::Held, true),
        LockStep::Fail(m) if m
            == "Another Millie startup or download is still in progress; retry after it finishes."
    ));
}

fn values() -> LaunchValues {
    LaunchValues {
        model_path: Some("/m.gguf".to_string()),
        port: 8081,
        gpu: None,
        ctx_size: None,
        parallel: None,
        server_bin: None,
        sibling_server: None,
        model_url: None,
        model_sha256: None,
        mmproj_path: None,
        mmproj_url: None,
        mmproj_sha256: None,
        vision: None,
        kv_cache: None,
        mmap: None,
        n_cpu_moe: None,
    }
}

#[test]
fn launch_settings_have_defaults() {
    let config = LlamaCppLaunchConfig::from_values(values()).unwrap();
    assert_eq!(config.gpu, vec![0]);
    assert!(!config.gpu_explicit);
    assert_eq!(config.ctx_size, Some(131072));
    assert_eq!(config.kv_cache, "q8_0");
    assert_eq!(config.server_bin, "llama-server");
    assert_eq!(config.base_url(), "http://127.0.0.1:8081");
    let off = LaunchValues { gpu: Some("none".to_string()), ..values() };
    let config = LlamaCppLaunchConfig::from_values(off).unwrap();
    assert!(config.gpu.is_empty() && config.gpu_explicit);
    assert!(LlamaCppLaunchConfig::from_values(LaunchValues { model_path: None, ..values() }).is_err());
    let bad = LaunchValues { gpu: Some("x".to_string()), ..values() };
    assert!(LlamaCppLaunchConfig::from_values(bad).is_err());
}

fn facts() -> LaunchFacts {
    LaunchFacts {
        model_exists: true,
        cache: None,
        mmproj_exists: false,
        template: None,
        raw: true,
        inherited_mask: false,
        devices: vec!["CUDA0".to_string(), "CUDA1".to_string()],
    }
}

#[test]
fn the_server_is_started_with_its_settings() {
    let config = LlamaCppLaunchConfig::from_values(values()).unwrap();
    let command = server_command(&config, &facts()).unwrap();
    let has = |flag: &str, value: &str| {
        command.args.windows(2).any(|w| w[0] == flag && w[1] == value)
    };
    assert!(has("-m", "/m.gguf") || has("--model", "/m.gguf"), "{:?}", command.args);
    assert!(has("--port", "8081"), "{:?}", command.args);
    assert!(has("-c", "131072") || has("--ctx-size", "131072"), "{:?}", command.args);
    assert_eq!(command.cache_key, None);
    let missing = LaunchFacts { model_exists: false, ..facts() };
    assert_eq!(
        server_command(&config, &missing).unwrap_err(),
        "llama.cpp model path does not exist: /m.gguf"
    );
    assert_eq!(
        device_names("Devices:\n  CUDA0: A (1 MiB)\n  Vulkan1: B\n"),
        vec!["CUDA0".to_string(), "Vulkan1".to_string()]
    );
}

#[test]
fn prompt_caches_are_keyed_by_what_shapes_them() {
    let config = LlamaCppLaunchConfig::from_values(values()).unwrap();
    let key = config.prompt_cache_key(7);
    assert_eq!(key.len(), 64);
    assert_ne!(key, config.prompt_cache_key(8));
    let larger = LaunchValues { ctx_size: Some("4096".to_string()), ..values() };
    let other = LlamaCppLaunchConfig::from_values(larger).unwrap();
    assert_ne!(key, other.prompt_cache_key(7));
    let config = || LlamaCppLaunchConfig::from_values(values()).unwrap();
    let keys = [
        LlamaCppLaunchConfig { mmap: Some(false), ..config() }.prompt_cache_key(7),
        LlamaCppLaunchConfig { mmap: Some(true), ..config() }.prompt_cache_key(7),
        LlamaCppLaunchConfig { n_cpu_moe: Some(1), ..config() }.prompt_cache_key(7),
        LlamaCppLaunchConfig { gpu: vec![0, 1], ..config() }.prompt_cache_key(7),
        LlamaCppLaunchConfig { gpu: vec![1], ..config() }.prompt_cache_key(7),
        LlamaCppLaunchConfig { gpu: Vec::new(), ..config() }.prompt_cache_key(7),
        LlamaCppLaunchConfig { vision: Some(false), ..config() }.prompt_cache_key(7),
        LlamaCppLaunchConfig { kv_cache: "f16".to_string(), ..config() }.prompt_cache_key(7),
        LlamaCppLaunchConfig { model_path: "/n.gguf".to_string(), ..config() }.prompt_cache_key(7),
        LlamaCppLaunchConfig { model_sha256: Some("ab".to_string()), ..config() }
            .prompt_cache_key(7),
        key,
    ];
    for (i, one) in keys.iter().enumerate() {
        assert!(!keys[..i].contains(one), "{i}");
    }
    let elsewhere = LlamaCppLaunchConfig { port: 9000, ..config() };
    assert_eq!(elsewhere.prompt_cache_key(7), keys[10]);
}

#[test]
fn the_log_is_kept_under_the_home() {
    assert_eq!(server_log_path(Some("/x.log"), None, None, None, "/t"), "/x.log");
    assert_eq!(
        server_log_path(Some(" "), Some("/mh"), Some("/h"), None, "/t"),
        "/mh/llama-server.log"
    );
    assert_eq!(
        server_log_path(None, None, Some("/h"), None, "/t"),
        "/h/.millie/llama-server.log"
    );
    assert_eq!(server_log_path(None, None, None, None, "/t"), "/t/llama-server.log");
    assert_eq!(log_tail("a\nb\r\nc\n", 2), "b\nc");
    assert_eq!(log_tail("a", 5), "a");
}

const NAME: &str = "system_prompt.md";

/// Looks a prompt up among files in memory.
fn resolve(
    explicit: Option<&str>,
    home: &str,
    files: &HashMap<String, String>,
) -> Result<ResolvedSystemPrompt, LookupError> {
    let explicit = explicit.map(str::to_string);
    let is_file = explicit.as_ref().is_some_and(|p| files.contains_key(p));
    let checkout = Some("/checkout/prompts/system_prompt.md".to_string());
    let paths = candidates(&explicit, is_file, home, &None, &checkout, "MILLIE_SYSTEM_PROMPT", NAME)?;
    for path in &paths {
        let outcome = match files.get(path) {
            Some(text) => ReadOutcome::Text(text.clone()),
            None => ReadOutcome::Missing,
        };
        match prompt_step(path, outcome) {
            PromptStep::Found(prompt) => return Ok(prompt),
            PromptStep::TryNext => {}
            PromptStep::Fail(error) => return Err(error),
        }
    }
    Err(not_found("system prompt", NAME, "MILLIE_SYSTEM_PROMPT", &paths))
}

fn files(entries: &[(&str, &str)]) -> HashMap<String, String> {
    entries.iter().map(|(k, v)| (k.to_string(), v.to_string())).collect()
}

#[test]
fn millie_home_file_wins_over_checkout() {
    let on_disk = files(&[
        ("/home/system_prompt.md", "custom prompt\n"),
        ("/checkout/prompts/system_prompt.md", "checkout prompt\n"),
    ]);
    let resolved = resolve(None, "/home", &on_disk).expect("resolves");
    assert_eq!(resolved.text, "custom prompt\n");
    assert_eq!(resolved.path, "/home/system_prompt.md");
}

#[test]
fn explicit_env_path_must_exist() {
    let on_disk = files(&[("/home/system_prompt.md", "custom prompt\n")]);
    let err = resolve(Some("/home/nope.md"), "/home", &on_disk)
        .expect_err("missing explicit prompt file must be an error");
    assert_eq!(err.kind, LookupErrorKind::NotFound);
}

#[test]
fn empty_file_is_an_error() {
    let on_disk = files(&[("/home/system_prompt.md", "  \n")]);
    let err = resolve(None, "/home", &on_disk).expect_err("empty prompt rejected");
    assert_eq!(err.kind, LookupErrorKind::InvalidData);
}

#[test]
fn a_prompt_that_is_nowhere_is_an_error() {
    let err = resolve(None, "/home", &files(&[])).unwrap_err();
    assert_eq!(err.kind, LookupErrorKind::NotFound);
    assert!(err.message.starts_with("no system prompt found. Looked for system_prompt.md at:\n"));
    assert!(err.message.ends_with(
        "\nSet MILLIE_SYSTEM_PROMPT=<file> or place the file in one of those locations."
    ));
    match prompt_step("/p", ReadOutcome::Failed("denied".to_string())) {
        PromptStep::Fail(e) => assert_eq!(e.kind, LookupErrorKind::Read),
        other => panic!("{other:?}"),
    }
    let found = ResolvedSystemPrompt { text: "t".to_string(), path: "/p".to_string() };
    assert_eq!(resolve_system_prompt_for_tests(Ok(found)).text, "t");
}

#[test]
fn statsig_exporter_resolves_to_none() {
    assert!(matches!(resolve_exporter(OtelExporter::Statsig), OtelExporter::Nowhere));
}

#[test]
fn named_collectors_are_kept() {
    let named = OtelExporter::OtlpGrpc {
        endpoint: "http://collector".to_string(),
        headers: Vec::new(),
        tls: None,
    };
    match resolve_exporter(named) {
        OtelExporter::OtlpGrpc { endpoint, .. } => assert_eq!(endpoint, "http://collector"),
        other => panic!("{other:?}"),
    }
    assert!(validate_span_attributes(&vec![("k".to_string(), "v".to_string())]).is_ok());
    assert!(validate_span_attributes(&vec![("k".to_string(), String::new())]).is_ok());
    let error = validate_span_attributes(&vec![(String::new(), "v".to_string())]).unwrap_err();
    assert_eq!(error.kind, SettingErrorKind::InvalidInput);
    assert_eq!(error.message, "configured span attribute key must not be empty");
}

#[test]
fn no_install_method_maps_to_an_update_action() {
    let methods = [
        InstallMethod::Other,
        InstallMethod::Npm,
        InstallMethod::Bun,
        InstallMethod::Brew,
        InstallMethod::StandaloneUnix,
        InstallMethod::StandaloneWindows,
    ];
    for method in methods {
        assert_eq!(UpdateAction::from_install_context(method), None);
    }
}

#[test]
fn update_command_never_invokes_an_upstream_installer() {
    let cmd = UpdateAction::RerunMillieInstaller.command_str();
    assert!(cmd.contains("Millie bundle"), "{cmd}");
    for forbidden in ["chatgpt.com", "@openai", "brew", "npm "] {
        assert!(!cmd.contains(forbidden), "{cmd}");
    }
}

#[test]
fn words_with_spaces_are_quoted() {
    assert_eq!(shell_command("sh", &vec!["a b".to_string(), "c".to_string()]), "sh 'a b' c");
    assert_eq!(shell_command("sh", &vec!["a\0b".to_string()]), "sh a\0b");
    let (command, args) = UpdateAction::RerunMillieInstaller.command_args();
    assert_eq!(command, "sh");
    assert_eq!(args[0], "-c");
}

#[test]
fn bundled_skills_are_off_until_switched_on() {
    assert!(!BundledSkillsConfig::default().enabled);
    assert!(!SkillsConfig::default().bundled_enabled());
    let on = SkillsConfig {
        bundled: Some(BundledSkillsConfig { enabled: true }),
        ..SkillsConfig::default()
    };
    assert!(on.bundled_enabled());
}

#[test]
fn pets_need_their_artwork() {
    let wanted = SheetSize { width: 64, height: 32 };
    let other = SheetSize { width: 64, height: 33 };
    assert_eq!(pack_dir("/h"), "/h/cache/tui-pets/v1");
    assert_eq!(builtin_spritesheet_path("/h", "cat.png"), "/h/cache/tui-pets/v1/assets/cat.png");
    assert!(validate_spritesheet("p", wanted, wanted).is_ok());
    assert_eq!(
        validate_spritesheet("p", wanted, other).unwrap_err(),
        "invalid pet spritesheet dimensions for p: expected 64x32, got 64x33"
    );
    assert!(ensure_builtin_pet("/h", "cat.png", wanted, Some(wanted)).is_ok());
    for found in [None, Some(other)] {
        assert_eq!(
            ensure_builtin_pet("/h", "cat.png", wanted, found).unwrap_err(),
            "built-in pet artwork is not available in this build (no spritesheet at /h/cache/tui-pets/v1/assets/cat.png)"
        );
    }
}

#[test]
fn a_named_template_is_not_replaced() {
    let dir = |d: &str| Some(d.to_string());
    let places = template_places(&dir("/exe"), &None, &dir("/srv/"));
    assert_eq!(places, vec!["/exe/millie-native.jinja", "/srv/millie-native.jinja"]);
    let chosen = |explicit: Option<&str>, present: [bool; 2]| {
        chosen_template(explicit.map(str::to_string), &places, &present.to_vec())
    };
    assert_eq!(chosen(Some("/own"), [true, true]).as_deref(), Some("/own"));
    assert_eq!(chosen(Some(" "), [false, true]).as_deref(), Some("/srv/millie-native.jinja"));
    assert_eq!(chosen(None, [true, true]).as_deref(), Some("/exe/millie-native.jinja"));
    assert_eq!(chosen(None, [false, false]), None);
}

#[test]
fn only_an_owner_with_an_empty_cache_warms_it() {
    assert!(warms_up(true, false, true, "prompt"));
    assert!(!warms_up(false, false, true, "prompt"));
    assert!(!warms_up(true, true, true, "prompt"));
    assert!(!warms_up(true, false, false, "prompt"));
    assert!(!warms_up(true, false, true, " "));
}
