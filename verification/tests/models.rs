use millie::catalog::client_version_to_whole;
use millie::catalog::catalog_step;
use millie::catalog::CatalogRead;
use millie::catalog::CatalogStep;
use millie::system_prompt::LookupErrorKind;
use millie::catalog::default_model_slug;
use millie::catalog::instructions_to_warm;
use millie::catalog::total_memory_text;
use millie::catalog::device_memory_texts;
use millie::catalog::millie_models;
use millie::catalog::model_fits;
use millie::catalog::model_fits_tightly;
use millie::catalog::model_slugs;
use millie::catalog::pick_local_model_slug;
use millie::catalog::resolve_profile;
use millie::catalog::selected_device_memory;
use millie::catalog::CatalogEntry;
use millie::catalog::MachineMemory;
use millie::catalog::ModelDownload;
use millie::catalog::ModelInfo;
use millie::catalog::ModelProfile;
use millie::catalog::ProfileSettings;
use millie::installation::adopt_installed;
use millie::installation::catalog_source;
use millie::installation::configured_source;
use millie::installation::missing_files;
use millie::installation::served_entry;
use millie::installation::updated_entry;
use millie::installation::ConfiguredSource;
use millie::installation::export_source;
use millie::installation::install_missing;
use millie::installation::installs;
use millie::installation::missing;
use millie::installation::report_text;
use millie::installation::require_known_vision_revision;
use millie::installation::update_report;
use millie::installation::update_source;
use millie::installation::InstallStep;
use millie::installation::ModelSelection;
use millie::installation::UpdateAction;
use millie::installation::UpdateSource;
use millie::model_updates::ModelSource;
use millie::model_updates::RemoteFile;
use millie::oss::apply_model_sampling;
use millie::oss::apply_serving_profile;
use millie::oss::check_base_url;
use millie::oss::effective_ctx_pref;
use millie::oss::get_default_model_for_oss_provider;
use millie::oss::split_hf_spec;
use millie::oss::validate_value;
use millie::oss::FloatClass;
use millie::oss::OssDefaults;
use millie::oss::SamplingReadings;
use millie::oss::SamplingValues;
use millie::oss::ServingEnv;
use millie::selection::approve_download;
use millie::selection::config_with_model;
use millie::selection::download_approved;
use millie::selection::download_refusal;
use millie::selection::menu;
use millie::selection::menu_question;
use millie::selection::missing_files_text;
use millie::selection::picked_slug;
use millie::selection::read_choice;
use millie::selection::select_startup_model;
use millie::selection::MenuEntry;
use millie::selection::OfferedModel;
use millie::selection::StartupModel;
use millie::selection::Terminals;

/// An amount of memory as a key: integers in the order of the amounts.
fn key(gb: f64) -> i64 {
    let bits = gb.to_bits() as i64;
    if bits < 0 {
        -(bits & i64::MAX)
    } else {
        bits
    }
}

fn mem(vram: Option<f64>, ram: Option<f64>) -> MachineMemory {
    MachineMemory {
        vram: vram.map(key),
        ram: ram.map(key),
        ram_to_spare: ram.map(|r| key(r - 4.0)),
        is_apple_silicon: false,
    }
}

fn profile(name: &str, vram: Option<f64>, ram: Option<f64>, gpu: Option<bool>) -> ModelProfile {
    ModelProfile {
        name: name.to_string(),
        min_vram: vram.map(key),
        min_ram: ram.map(key),
        apple_silicon_only: name.starts_with("metal"),
        settings: ProfileSettings { gpu, ..ProfileSettings::default() },
    }
}

fn download(size: f64, profiles: Vec<ModelProfile>) -> ModelDownload {
    ModelDownload {
        repo: "org/model".to_string(),
        model_file: "model.gguf".to_string(),
        mmproj_file: None,
        min_dedicated_mem: Some(key(size)),
        profiles,
        recommended_here: false,
        tight_here: false,
    }
}

fn ladder() -> ModelDownload {
    download(
        11.0,
        vec![
            profile("metal-full", None, Some(20.0), None),
            profile("gpu-full", Some(15.5), None, Some(true)),
            profile("cpu-full", None, Some(30.0), Some(false)),
            profile("hybrid", Some(8.0), Some(16.0), Some(true)),
        ],
    )
}

#[test]
fn device_descriptions_and_unknown_memory_preserve_indices() {
    let texts = device_memory_texts(
        "Devices:\n CUDA0: Example (TM) GPU (8192 MiB, 7000 MiB free)\n Vulkan0: Unknown (TM)\n Vulkan1: Next GPU (24576 MiB, 23000 MiB free)\n",
    );
    let devices: Vec<Option<i64>> = texts
        .iter()
        .map(|t| t.as_deref().and_then(|t| t.parse::<f64>().ok()).map(key))
        .collect();
    assert_eq!(devices, vec![Some(key(8192.0)), None, Some(key(24576.0))]);
    assert_eq!(selected_device_memory(&devices, "1"), None);
    assert_eq!(selected_device_memory(&devices, "2"), Some(key(24576.0)));
    assert_eq!(selected_device_memory(&devices, "0,1"), None);
}

#[test]
fn device_memory_tracks_selection_not_largest_gpu() {
    let devices = vec![Some(key(8192.0)), Some(key(24576.0)), Some(key(16384.0))];
    assert_eq!(selected_device_memory(&devices, ""), Some(key(8192.0)));
    assert_eq!(selected_device_memory(&devices, "1"), Some(key(24576.0)));
    assert_eq!(selected_device_memory(&devices, "0,2"), Some(key(8192.0)));
    assert_eq!(selected_device_memory(&devices, "none"), None);
    assert_eq!(selected_device_memory(&devices, "7"), None);
}

#[test]
fn the_first_profile_that_fits_is_used() {
    let big = ladder();
    let pick = |m: MachineMemory, choice: Option<&str>, pin: Option<&str>| {
        resolve_profile(&big, m, &choice.map(str::to_string), pin)
            .map(|i| big.profiles[i].name.as_str())
    };
    assert_eq!(pick(mem(Some(17.0), Some(34.0)), None, None), Some("gpu-full"));
    assert_eq!(pick(mem(None, Some(34.0)), None, None), Some("cpu-full"));
    assert_eq!(pick(mem(Some(8.6), Some(17.0)), None, None), Some("hybrid"));
    assert_eq!(pick(mem(None, None), None, None), None);
    assert_eq!(pick(mem(Some(17.0), Some(34.0)), Some("None"), None), Some("cpu-full"));
    assert_eq!(pick(mem(Some(8.6), Some(34.0)), Some("0"), None), Some("hybrid"));
    assert_eq!(pick(mem(None, Some(12.0)), None, Some("cpu-full")), Some("cpu-full"));
    assert_eq!(pick(mem(None, Some(34.0)), None, Some("no-such-profile")), Some("cpu-full"));
    let mac = MachineMemory { is_apple_silicon: true, ..mem(None, Some(25.0)) };
    assert_eq!(pick(mac, None, None), Some("metal-full"));
    assert_eq!(model_fits(&big, mem(None, None), &None), Some(false));
    let bare = download(10.0, Vec::new());
    assert_eq!(model_fits(&bare, mem(None, Some(14.0)), &None), Some(true));
    assert_eq!(model_fits(&bare, mem(None, Some(13.9)), &None), Some(false));
    assert_eq!(model_fits(&bare, mem(None, None), &None), None);
    let tight = ModelDownload { tight_here: true, ..download(10.0, Vec::new()) };
    assert!(model_fits_tightly(&tight, mem(None, Some(14.0)), &None));
    assert!(!model_fits_tightly(&tight, mem(None, Some(13.0)), &None));
}

fn mapped(profile: ModelProfile, mmap: bool) -> ModelProfile {
    let settings = ProfileSettings { mmap: Some(mmap), ..profile.settings };
    ModelProfile { settings, ..profile }
}

fn windowed(profile: ModelProfile, ctx_size: u32) -> ModelProfile {
    let settings = ProfileSettings { ctx_size: Some(ctx_size), ..profile.settings };
    ModelProfile { settings, ..profile }
}

/// Whether a memory that the catalog names is that of this Mac.
fn apple_ram_matches(want: Option<f64>, ram: Option<f64>, is_apple_silicon: bool) -> bool {
    match (want, ram) {
        (Some(want), Some(ram)) => is_apple_silicon && (want - ram).abs() < 0.75,
        _ => false,
    }
}

/// The shipped models, on a machine with this memory.
fn shipped(ram: Option<f64>, is_apple_silicon: bool) -> Vec<CatalogEntry> {
    let sixteen = apple_ram_matches(Some(17.2), ram, is_apple_silicon);
    let big = ModelDownload {
        tight_here: sixteen,
        ..download(
            11.0,
            vec![
                profile("metal-full", None, Some(20.0), None),
                profile("metal-16gb", None, Some(16.0), None),
                profile("gpu-full", Some(15.5), None, Some(true)),
                mapped(profile("cpu-full", None, Some(30.0), Some(false)), false),
                profile("hybrid", Some(8.0), Some(16.0), Some(true)),
                profile("deep-hybrid", Some(4.0), Some(16.0), Some(true)),
                mapped(profile("cpu-compact", None, Some(20.0), Some(false)), true),
            ],
        )
    };
    let mid = ModelDownload {
        recommended_here: sixteen,
        ..download(
            9.0,
            vec![
                profile("gpu-full", Some(12.0), None, Some(true)),
                mapped(profile("cpu-compact", None, Some(16.0), Some(false)), false),
            ],
        )
    };
    let small = download(
        7.0,
        vec![
            windowed(mapped(profile("gpu-full", Some(10.0), None, Some(true)), false), 32768),
            windowed(mapped(profile("cpu-full", None, Some(12.0), Some(false)), false), 32768),
        ],
    );
    vec![
        CatalogEntry { slug: "millie-35B-A3B-11GB".to_string(), download: Some(big) },
        CatalogEntry { slug: "millie-35B-A3B-9GB".to_string(), download: Some(mid) },
        CatalogEntry { slug: "millie-35B-A3B-7GB".to_string(), download: Some(small) },
    ]
}

fn of<'a>(entries: &'a [CatalogEntry], slug: &str) -> &'a ModelDownload {
    entries.iter().find(|e| e.slug == slug).and_then(|e| e.download.as_ref()).unwrap()
}

fn mac(ram: Option<f64>) -> MachineMemory {
    MachineMemory { is_apple_silicon: true, ..mem(None, ram) }
}

#[test]
fn mac_16gb_recommendation_is_catalog_driven() {
    let ram = "17179869184\n".trim().parse::<f64>().ok().map(|bytes| bytes / 1e9);
    let entries = shipped(ram, true);
    let memory = mac(ram);
    let preferred: Vec<&str> = entries
        .iter()
        .filter(|e| e.download.as_ref().is_some_and(|d| d.recommended_here))
        .map(|e| e.slug.as_str())
        .collect();
    assert_eq!(preferred, vec!["millie-35B-A3B-9GB"]);
    assert_eq!(
        pick_local_model_slug(&entries, memory, &None, &None),
        Ok("millie-35B-A3B-9GB".to_string())
    );
    assert!(model_fits_tightly(of(&entries, "millie-35B-A3B-11GB"), memory, &None));
    assert!(!model_fits_tightly(of(&entries, "millie-35B-A3B-9GB"), memory, &None));
}

#[test]
fn shipped_catalog_profiles_parse_and_ladder_resolves() {
    let entries = shipped(None, false);
    let big = of(&entries, "millie-35B-A3B-11GB");
    assert_eq!(
        big.profiles.iter().map(|p| p.name.as_str()).collect::<Vec<_>>(),
        vec![
            "metal-full",
            "metal-16gb",
            "gpu-full",
            "cpu-full",
            "hybrid",
            "deep-hybrid",
            "cpu-compact"
        ],
    );
    let pick = |m: MachineMemory| {
        resolve_profile(big, m, &None, None).map(|i| big.profiles[i].name.as_str())
    };
    assert_eq!(pick(mem(Some(17.0), Some(34.0))), Some("gpu-full"));
    assert_eq!(pick(mem(None, Some(34.0))), Some("cpu-full"));
    assert_eq!(pick(mac(Some(25.0))), Some("metal-full"));
    assert_eq!(pick(mac(Some(17.0))), Some("metal-16gb"));
    assert_eq!(pick(mem(None, Some(17.0))), None);
    assert_eq!(model_fits(big, mem(None, Some(17.0)), &None), Some(false));
    assert_eq!(model_fits(big, mac(Some(17.0)), &None), Some(true));
    assert_eq!(pick(mem(Some(8.6), Some(17.0))), Some("hybrid"));
    assert_eq!(pick(mem(Some(4.2), Some(17.0))), Some("deep-hybrid"));
    assert_eq!(pick(mem(Some(4.2), Some(12.0))), None);
    assert_eq!(model_fits(big, mem(None, Some(12.0)), &None), Some(false));
}

#[test]
fn nine_gb_is_the_default_on_a_16gb_non_mac_cpu_machine() {
    let entries = shipped(Some(17.0), false);
    let small = of(&entries, "millie-35B-A3B-7GB");
    let mid = of(&entries, "millie-35B-A3B-9GB");
    let big = of(&entries, "millie-35B-A3B-11GB");
    let m = mem(None, Some(17.0));
    assert_eq!(model_fits(big, m, &None), Some(false));
    assert_eq!(model_fits(mid, m, &None), Some(true));
    let p = &mid.profiles[resolve_profile(mid, m, &None, None).unwrap()];
    assert_eq!(p.name, "cpu-compact");
    assert_eq!(p.settings.mmap, Some(false));
    assert_eq!(p.settings.n_cpu_moe, None);
    assert_eq!(model_fits(small, m, &None), Some(true));
    for prof in &small.profiles {
        assert_eq!(prof.settings.mmap, Some(false), "profile {}", prof.name);
    }
    assert_eq!(
        pick_local_model_slug(&entries, m, &None, &None),
        Ok("millie-35B-A3B-9GB".to_string())
    );
}

#[test]
fn seven_gb_model_profiles_default_32k() {
    let entries = shipped(None, false);
    let small = of(&entries, "millie-35B-A3B-7GB");
    for profile in &small.profiles {
        assert_eq!(profile.settings.ctx_size, Some(32768), "profile {}", profile.name);
    }
    let plan = apply_serving_profile(
        small,
        mem(None, Some(17.0)),
        &unset(),
        None,
        Some(131072),
        false,
        "unknown",
        "~17 GB",
    )
    .unwrap();
    assert!(plan
        .exports
        .contains(&("MILLIE_LLAMACPP_CTX_SIZE".to_string(), "32768".to_string())));
}

#[test]
fn pinned_profile_wins_even_when_it_does_not_fit() {
    let entries = shipped(None, false);
    let big = of(&entries, "millie-35B-A3B-11GB");
    let picked = resolve_profile(big, mem(None, Some(12.0)), &None, Some("cpu-compact"));
    assert_eq!(picked.map(|i| big.profiles[i].name.as_str()), Some("cpu-compact"));
    let picked = resolve_profile(big, mem(None, Some(34.0)), &None, Some("no-such-profile"));
    assert_eq!(picked.map(|i| big.profiles[i].name.as_str()), Some("cpu-full"));
}

#[test]
fn undetectable_memory_fits_nothing() {
    let entries = shipped(None, false);
    let big = of(&entries, "millie-35B-A3B-11GB");
    assert!(resolve_profile(big, mem(None, None), &None, None).is_none());
    assert_eq!(model_fits(big, mem(None, None), &None), Some(false));
}

fn entry(slug: &str, size: f64) -> CatalogEntry {
    CatalogEntry { slug: slug.to_string(), download: Some(download(size, Vec::new())) }
}

#[test]
fn the_largest_model_that_fits_is_served() {
    let entries = vec![entry("s", 7.0), entry("l", 11.0), entry("m", 9.0)];
    let pick = |ram: f64, pin: Option<&str>| {
        pick_local_model_slug(&entries, mem(None, Some(ram)), &None, &pin.map(str::to_string))
            .unwrap()
    };
    assert_eq!(pick(13.5, None), "m");
    assert_eq!(pick(40.0, None), "l");
    assert_eq!(pick(5.0, None), "s");
    assert_eq!(pick(40.0, Some(" s ")), "s");
    assert_eq!(pick(40.0, Some("unknown")), "l");
    assert_eq!(
        pick_local_model_slug(&Vec::new(), mem(None, None), &None, &None),
        Err("empty model catalog".to_string())
    );
    let mut preferred = vec![entry("s", 7.0), entry("l", 11.0)];
    if let Some(d) = &mut preferred[0].download {
        d.recommended_here = true;
    }
    assert_eq!(
        pick_local_model_slug(&preferred, mem(None, Some(40.0)), &None, &None),
        Ok("s".to_string())
    );
}

fn info(slug: &str, personality: Option<&str>, has_messages: bool) -> ModelInfo {
    ModelInfo {
        slug: slug.to_string(),
        display_name: slug.to_uppercase(),
        base_instructions: String::new(),
        default_personality: personality.map(str::to_string),
        instructions_template: None,
        has_messages,
    }
}

#[test]
fn models_are_served_the_prompt() {
    let models = vec![info("a", Some("kind"), true), info("b", None, false)];
    let found = match catalog_step("/m.json", CatalogRead::Models(models)) {
        CatalogStep::Found(found) => found,
        other => panic!("{other:?}"),
    };
    let catalog = Ok(found);
    assert_eq!(model_slugs(&catalog).unwrap(), vec!["a".to_string(), "b".to_string()]);
    assert_eq!(default_model_slug(&catalog).unwrap(), "a");
    for (read, kind, message) in [
        (
            CatalogRead::Models(Vec::new()),
            LookupErrorKind::InvalidData,
            "model catalog /m.json lists no models",
        ),
        (
            CatalogRead::Unreadable("eof".to_string()),
            LookupErrorKind::InvalidData,
            "model catalog /m.json does not parse: eof",
        ),
        (
            CatalogRead::Failed("denied".to_string()),
            LookupErrorKind::Read,
            "failed to read model catalog /m.json: denied",
        ),
    ] {
        let refused = match catalog_step("/m.json", read) {
            CatalogStep::Fail(error) => Err(error),
            other => panic!("{other:?}"),
        };
        for error in [model_slugs(&refused).unwrap_err(), default_model_slug(&refused).unwrap_err()] {
            assert_eq!(error.kind, kind);
            assert_eq!(error.message, message);
        }
    }
    assert!(matches!(catalog_step("/m.json", CatalogRead::Missing), CatalogStep::TryNext));
    let served = millie_models("Be {{ personality }}.", catalog.unwrap().models);
    assert_eq!(served[0].base_instructions, "Be kind.");
    assert_eq!(served[0].instructions_template.as_deref(), Some("Be {{ personality }}."));
    assert_eq!(served[1].base_instructions, "Be .");
    assert_eq!(served[1].instructions_template, None);
    assert_eq!(client_version_to_whole("1", "2", "3"), "1.2.3");
}

fn default_for(provider: &str) -> Option<String> {
    let defaults = OssDefaults {
        lmstudio: "openai/gpt-oss-20b".to_string(),
        ollama: "gpt-oss:20b".to_string(),
    };
    get_default_model_for_oss_provider(
        provider,
        &defaults,
        &Vec::new(),
        mem(None, None),
        &None,
        &None,
    )
}

#[test]
fn test_get_default_model_for_provider_lmstudio() {
    assert_eq!(default_for("lmstudio").as_deref(), Some("openai/gpt-oss-20b"));
}

#[test]
fn test_get_default_model_for_provider_ollama() {
    assert_eq!(default_for("ollama").as_deref(), Some("gpt-oss:20b"));
}

#[test]
fn test_get_default_model_for_provider_unknown() {
    assert_eq!(default_for("unknown-provider"), None);
}

#[test]
fn local_providers_take_their_model_from_the_catalog() {
    let defaults = OssDefaults { lmstudio: String::new(), ollama: String::new() };
    let entries = vec![entry("s", 7.0), entry("l", 11.0)];
    let of = |provider: &str| {
        get_default_model_for_oss_provider(
            provider,
            &defaults,
            &entries,
            mem(None, Some(40.0)),
            &None,
            &None,
        )
    };
    assert_eq!(of("llamacpp").as_deref(), Some("l"));
    assert_eq!(of("vllm").as_deref(), Some("s"));
    assert_eq!(default_for("vllm"), None);
}

#[test]
fn profile_cap_clamps_large_user_window() {
    assert_eq!(effective_ctx_pref(Some(32768), Some(131072)), Some(32768));
}

#[test]
fn user_window_lowers_below_cap() {
    assert_eq!(effective_ctx_pref(Some(131072), Some(65536)), Some(65536));
}

#[test]
fn either_alone_passes_through() {
    assert_eq!(effective_ctx_pref(Some(32768), None), Some(32768));
    assert_eq!(effective_ctx_pref(None, Some(65536)), Some(65536));
    assert_eq!(effective_ctx_pref(None, None), None);
}

#[test]
fn windows_out_of_range_are_ignored() {
    assert_eq!(effective_ctx_pref(Some(32768), Some(-1)), Some(32768));
    assert_eq!(effective_ctx_pref(None, Some(1 << 40)), None);
}

fn class_of(value: &str) -> FloatClass {
    match value.trim().parse::<f32>() {
        Err(_) => FloatClass::NoNumber,
        Ok(v) if !v.is_finite() => FloatClass::NotFinite,
        Ok(v) if v < 0.0 => FloatClass::Negative,
        Ok(v) if v <= 1.0 => FloatClass::UnitInterval,
        Ok(_) => FloatClass::AboveOne,
    }
}

fn check(name: &str, value: Option<&str>) -> Result<(), String> {
    validate_value(name, value, value.map_or(FloatClass::NoNumber, class_of))
}

#[test]
fn missing_and_invalid_catalog_settings_fail() {
    for name in ["temperature", "top_p", "top_k", "min_p", "thinking_budget", "max_output_tokens"] {
        assert!(check(name, None).is_err());
        assert!(check(name, Some("bad")).is_err());
    }
    for (name, value) in [
        ("temperature", "NaN"),
        ("temperature", "-1"),
        ("top_p", "1.1"),
        ("min_p", "-0.1"),
        ("top_k", "1.5"),
        ("thinking_budget", "-1"),
        ("max_output_tokens", "0"),
    ] {
        assert!(check(name, Some(value)).is_err());
    }
}

#[test]
fn deliberate_zero_values_are_preserved() {
    for name in ["temperature", "min_p", "top_k", "thinking_budget"] {
        assert!(check(name, Some("0")).is_ok());
    }
    assert!(check("top_p", Some("0.95")).is_ok());
    assert!(check("max_output_tokens", Some("8192")).is_ok());
}

#[test]
fn the_bounds_of_sampling_values() {
    assert!(check("temperature", Some("7.5")).is_ok());
    assert!(check("temperature", Some("-0.0")).is_ok());
    assert!(check("top_k", Some("2147483647")).is_ok());
    assert!(check("top_k", Some("2147483648")).is_err());
    assert!(check("top_k", Some("-0")).is_ok());
    assert!(check("unknown", Some("1")).is_err());
    assert_eq!(
        check("top_p", None).unwrap_err(),
        "Missing or invalid sampling setting `top_p` for the selected catalog model. Set it in the model's sampling block in millie-models.json or [llamacpp] in config.toml. Compiled sampling defaults are not used for catalog-managed models."
    );
}

fn no_values() -> SamplingValues {
    SamplingValues {
        temperature: None,
        top_p: None,
        top_k: None,
        min_p: None,
        thinking_budget: None,
        max_output_tokens: None,
    }
}

fn block() -> SamplingValues {
    SamplingValues {
        temperature: Some("0.5".to_string()),
        top_p: Some("1".to_string()),
        top_k: Some("0".to_string()),
        min_p: Some("0.001".to_string()),
        thinking_budget: Some("1024".to_string()),
        max_output_tokens: Some("8192".to_string()),
    }
}

fn unit_readings() -> SamplingReadings {
    SamplingReadings {
        temperature: FloatClass::UnitInterval,
        top_p: FloatClass::UnitInterval,
        min_p: FloatClass::UnitInterval,
    }
}

#[test]
fn sampling_is_supplied_where_none_is_set() {
    let env = SamplingValues { top_k: Some("40".to_string()), ..no_values() };
    let plan = apply_model_sampling(Some(&block()), &env, unit_readings()).unwrap();
    let keys: Vec<&str> = plan.exports.iter().map(|(k, _)| k.as_str()).collect();
    assert_eq!(
        keys,
        vec![
            "MILLIE_LLAMACPP_TEMPERATURE",
            "MILLIE_LLAMACPP_TOP_P",
            "MILLIE_LLAMACPP_MIN_P",
            "MILLIE_LLAMACPP_THINKING_BUDGET",
            "MILLIE_LLAMACPP_MAX_OUTPUT_TOKENS",
        ]
    );
    assert_eq!(
        plan.message.as_deref(),
        Some("millie: model sampling (catalog): temp 0.5, top_p 1, top_k 40 (config), min_p 0.001, think-budget 1024, max-out 8192")
    );
    let error = apply_model_sampling(None, &env, unit_readings()).unwrap_err();
    assert!(error.contains("`temperature`"), "{error}");
    let plan = apply_model_sampling(None, &block(), unit_readings()).unwrap();
    assert!(plan.exports.is_empty() && plan.message.is_none());
}

fn unset() -> ServingEnv {
    ServingEnv {
        gpu: None,
        ctx_size: None,
        vision: None,
        kv_cache: None,
        mmap: None,
        n_cpu_moe: None,
    }
}

#[test]
fn a_profile_supplies_what_is_not_set() {
    let mut big = ladder();
    big.profiles[1].settings.ctx_size = Some(65536);
    big.profiles[1].settings.vision = Some(true);
    let env = ServingEnv { vision: Some("off".to_string()), ..unset() };
    let m = mem(Some(17.0), Some(34.0));
    let plan =
        apply_serving_profile(&big, m, &env, None, Some(32768), false, "~17 GB", "~34 GB").unwrap();
    assert_eq!(
        plan.exports,
        vec![
            ("MILLIE_LLAMACPP_GPU".to_string(), "0".to_string()),
            ("MILLIE_LLAMACPP_CTX_SIZE".to_string(), "32768".to_string()),
        ]
    );
    assert_eq!(
        plan.message.as_deref(),
        Some("millie: serving profile gpu-full (detected): gpu 0, ctx 32768, vision off (config)")
    );
    let error = apply_serving_profile(&big, m, &env, Some("x"), None, false, "", "").unwrap_err();
    assert_eq!(
        error,
        "Unknown serving profile `x`. Available profiles: metal-full, gpu-full, cpu-full, hybrid"
    );
    let plan = apply_serving_profile(
        &big,
        mem(None, None),
        &unset(),
        Some("  "),
        None,
        false,
        "unknown",
        "unknown",
    )
    .unwrap();
    assert_eq!(
        plan.message.as_deref(),
        Some("millie: no serving profile fits this machine (VRAM unknown, RAM unknown); the model will likely not load. Settings can still be forced in config.toml.")
    );
    let plan =
        apply_serving_profile(&big, m, &unset(), Some("cpu-full"), None, true, "", "").unwrap();
    assert_eq!(
        plan.message.as_deref(),
        Some("millie: serving profile cpu-full (pinned): ")
    );
}

#[test]
fn repositories_and_files_are_taken_apart() {
    assert_eq!(
        split_hf_spec(" /org/repo/dir/file.gguf "),
        Some(("org/repo".to_string(), "dir/file.gguf".to_string()))
    );
    for bad in ["", "org/repo", "org//file", "org/repo/"] {
        assert_eq!(split_hf_spec(bad), None, "{bad}");
    }
}

#[test]
fn other_servers_conflict_with_the_managed_one() {
    assert!(check_base_url("http://127.0.0.1:8081/v1/", 8081).is_ok());
    assert!(check_base_url("http://localhost:8081", 8081).is_ok());
    let error = check_base_url("http://example.test/v1", 8081).unwrap_err();
    assert!(error.starts_with("Managed llama-server uses local port 8081, but a conflicting API URL is configured: http://example.test/v1."), "{error}");
}

fn start(explicit: Option<&str>, configured: Option<&str>, input: bool, errors: bool) -> Result<StartupModel, String> {
    select_startup_model(
        explicit,
        configured,
        None,
        Terminals { input, errors },
        &vec![entry("s", 7.0), entry("l", 11.0)],
        mem(None, Some(40.0)),
        &None,
        &None,
    )
}

fn served(slug: &str, remembered: bool) -> impl Fn(Result<StartupModel, String>) -> bool + '_ {
    move |r| matches!(r, Ok(StartupModel::Serve { slug: s, remember }) if s == slug && remember == remembered)
}

/// A start that writes what is to be remembered into `config`, as a session does before
/// it fetches or serves anything.
fn start_and_save(
    config: &mut String,
    explicit: Option<&str>,
    configured: Option<&str>,
) -> Result<String, String> {
    match start(explicit, configured, false, false)? {
        StartupModel::Serve { slug, remember } => {
            if remember {
                *config = config_with_model(config, &slug);
            }
            Ok(slug)
        }
        StartupModel::Choose { recommended } => Ok(recommended),
    }
}

fn saved_model(config: &str) -> Option<String> {
    let table = config.parse::<toml::Table>().unwrap();
    table.get("model").and_then(|v| v.as_str()).map(str::to_string)
}

#[test]
fn last_valid_selection_is_saved_before_startup_and_invalid_names_do_not_replace_it() {
    let mut config = String::new();
    assert_eq!(start_and_save(&mut config, Some("s"), None), Ok("s".to_string()));
    assert_eq!(start_and_save(&mut config, Some("l"), Some("s")), Ok("l".to_string()));
    let saved = config.clone();
    assert_eq!(saved_model(&saved).as_deref(), Some("l"));
    assert_eq!(start_and_save(&mut config, None, Some("l")), Ok("l".to_string()));
    let refused = start_and_save(&mut config, Some("invalid-model-name"), Some("l"));
    assert!(refused.is_err());
    assert_eq!(config, saved);
    assert_eq!(
        refused.unwrap_err(),
        "Unknown model `invalid-model-name`. Use `millie --model select` to choose. Available models: s, l"
    );
    assert!(served("s", true)(start(Some("s"), None, false, false)));
    assert!(served("l", false)(start(None, Some("l"), false, false)));
}

#[test]
fn a_pick_from_the_list_is_remembered() {
    let mut config = config_with_model("", "l");
    match start(Some("select"), Some("l"), true, true) {
        Ok(StartupModel::Choose { recommended }) => {
            let entries = vec![MenuEntry {
                slug: "s".to_string(),
                display_name: "Small".to_string(),
                size: "size unknown".to_string(),
                fits: None,
                tight: false,
            }];
            assert_eq!(picked_slug(&entries, &recommended, "q"), None);
            let pick = picked_slug(&entries, &recommended, "1").unwrap();
            config = config_with_model(&config, &pick);
        }
        other => panic!("{other:?}"),
    }
    assert_eq!(saved_model(&config).as_deref(), Some("s"));
}

#[test]
fn named_profile_remembers_choice_without_changing_base_or_other_profile() {
    let base = "model = 'old'\n".to_string();
    let other = base.clone();
    let mut profile = base.clone();
    start_and_save(&mut profile, Some("s"), None).unwrap();
    start_and_save(&mut profile, Some("l"), None).unwrap();
    assert_eq!(base, "model = 'old'\n");
    assert_eq!(other, "model = 'old'\n");
    assert_eq!(saved_model(&profile).as_deref(), Some("l"));
}

#[test]
fn other_lines_of_a_configuration_stay() {
    let config = "# mine\nport = 1\n  model = 'old' # was good\n[profiles.a]\nmodel = 'x'\n";
    assert_eq!(
        config_with_model(config, "new"),
        "# mine\nport = 1\nmodel = \"new\"\n[profiles.a]\nmodel = 'x'\n"
    );
    let unset = "models = 2\n[profiles.a]\nmodel = 'x'\n";
    assert_eq!(
        config_with_model(unset, "a\"b"),
        "model = \"a\\\"b\"\nmodels = 2\n[profiles.a]\nmodel = 'x'\n"
    );
    assert_eq!(saved_model(&config_with_model(unset, "a\"b")).as_deref(), Some("a\"b"));
    assert_eq!(config_with_model("", "m"), "model = \"m\"\n");
}

#[test]
fn the_chooser_needs_a_terminal() {
    assert!(matches!(
        start(None, None, true, true),
        Ok(StartupModel::Choose { recommended }) if recommended == "l"
    ));
    assert!(matches!(start(Some("select"), Some("s"), true, true), Ok(StartupModel::Choose { .. })));
    for (input, errors) in [(false, true), (true, false)] {
        assert_eq!(
            start(Some("select"), None, input, errors).unwrap_err(),
            "The model chooser requires a terminal. Use --model MODEL instead."
        );
    }
    assert!(served("l", false)(start(None, None, false, false)));
    let by_path = select_startup_model(
        None,
        None,
        Some("/m.gguf"),
        Terminals { input: true, errors: true },
        &vec![entry("s", 7.0)],
        mem(None, None),
        &None,
        &None,
    );
    assert!(served("s", false)(by_path));
}

#[test]
fn models_are_chosen_from_a_list() {
    let entries = vec![
        MenuEntry {
            slug: "s".to_string(),
            display_name: "Small".to_string(),
            size: "7.0 GB download".to_string(),
            fits: Some(true),
            tight: true,
        },
        MenuEntry {
            slug: "l".to_string(),
            display_name: "Large".to_string(),
            size: "size unknown".to_string(),
            fits: Some(true),
            tight: false,
        },
    ];
    let shown = menu(&entries, "l").unwrap();
    assert_eq!(
        shown.lines,
        vec![
            "  [1] Small -- 7.0 GB download -- fits, but tight",
            "  [2] Large -- size unknown -- fits this machine  (recommended)",
        ]
    );
    assert_eq!(shown.default_index, Some(1));
    assert!(shown.any_fits);
    assert_eq!(menu_question(Some(1)), "Use which model? [2]/number/q: ");
    assert_eq!(menu_question(None), "Use which model? number/q: ");
    assert_eq!(read_choice("\n", Some(1), 2), Some(1));
    assert_eq!(read_choice(" 1 ", Some(1), 2), Some(0));
    for bad in ["q", "Q", "0", "3", "x"] {
        assert_eq!(read_choice(bad, Some(1), 2), None);
    }
    assert_eq!(read_choice("", None, 2), None);
    assert_eq!(picked_slug(&entries, "l", "\n").as_deref(), Some("l"));
    assert_eq!(picked_slug(&entries, "l", " 1 ").as_deref(), Some("s"));
    assert_eq!(picked_slug(&entries, "other", ""), None);
    assert_eq!(picked_slug(&entries, "l", "q"), None);
    assert_eq!(picked_slug(&Vec::new(), "l", "1"), None);
    assert_eq!(
        menu(&Vec::new(), "l").unwrap_err(),
        "model catalog has no downloadable models"
    );
}

#[test]
fn downloads_are_approved() {
    assert!(download_approved(Some(" 1 ")));
    assert!(!download_approved(Some("yes")));
    assert!(!download_approved(None));
    assert!(approve_download("m", Some(" YES\n")).is_ok());
    assert!(approve_download("m", Some("y")).is_ok());
    for answer in [None, Some(""), Some("no")] {
        assert_eq!(
            approve_download("m", answer).unwrap_err(),
            "Download not approved for m. Retry with --download to approve. Your model selection is unchanged."
        );
    }
    assert_eq!(
        missing_files_text("m", &vec!["a".to_string(), "b".to_string()]),
        "Missing files for m:\n  a\n  b\nTo choose another model, run millie --model select."
    );
    let models =
        vec![OfferedModel { slug: "m".to_string(), size: "?".to_string(), fits: Some(false) }];
    assert_eq!(
        download_refusal(&models),
        "a Millie model needs to be downloaded first. To approve:\n  m: ? -- will not fit this machine  (not recommended)\npass --download to approve the selected model download"
    );
}

fn source(file: &str, revision: Option<&str>) -> ModelSource {
    ModelSource {
        repo: "org/model".to_string(),
        file: file.to_string(),
        path: format!("/models/{file}"),
        sha256: None,
        revision: revision.map(str::to_string),
    }
}

#[test]
fn only_missing_files_of_unknown_revisions_are_asked_for() {
    let unknown = vec![source("model.gguf", None), source("vision.gguf", None)];
    let known = vec![source("model.gguf", Some("r")), source("vision.gguf", Some("r"))];
    assert!(!missing(&vec![true, false], false));
    assert!(missing(&vec![true, false], true));
    assert!(missing(&vec![false, true], false));
    assert_eq!(install_missing(&unknown, &vec![true, true], true), Ok(InstallStep::Keep));
    assert_eq!(install_missing(&unknown, &vec![true, false], false), Ok(InstallStep::Keep));
    assert_eq!(install_missing(&unknown, &vec![false, false], true), Ok(InstallStep::Fetch));
    assert_eq!(install_missing(&known, &vec![true, false], true), Ok(InstallStep::Keep));
    let error = install_missing(&unknown, &vec![true, false], true).unwrap_err();
    assert!(error.starts_with("The installed model has no recorded remote revision"), "{error}");
    assert!(require_known_vision_revision(&known, &vec![true, false], true).is_ok());
}

#[test]
fn the_launcher_is_told_where_files_are() {
    let settings = export_source(0, &source("model.gguf", Some("abc")), "https://h.test").unwrap();
    let told: Vec<(String, Option<String>)> =
        settings.into_iter().map(|s| (s.key, s.value)).collect();
    assert_eq!(
        told,
        vec![
            ("MILLIE_LLAMACPP_MODEL_PATH".to_string(), Some("/models/model.gguf".to_string())),
            (
                "MILLIE_LLAMACPP_MODEL_URL".to_string(),
                Some("https://h.test/org/model/resolve/abc/model.gguf".to_string())
            ),
            ("MILLIE_LLAMACPP_MODEL_SHA256".to_string(), None),
        ]
    );
    let settings = export_source(1, &source("vision.gguf", None), "https://h.test").unwrap();
    assert_eq!(settings[1].key, "MILLIE_LLAMACPP_MMPROJ_URL");
    assert!(settings[1].value.as_deref().unwrap().contains("/resolve/main/"));
    assert_eq!(catalog_source("/m", "org/model", "a.gguf", true).path, "/m/a.gguf");
    assert_eq!(catalog_source("/m/", "org/model", "d/a.gguf", true).path, "/m/d/a.gguf");
    assert_eq!(catalog_source("/m", "org/model", "/abs/a.gguf", true).path, "/abs/a.gguf");
    assert!(catalog_source("/m", "org/model", "a.gguf", false).path.ends_with("/model.gguf"));
}

#[test]
fn update_commands_name_their_model() {
    let select = |explicit: Option<&str>, remembered: Option<&str>, hf: Option<&str>, path: Option<&str>| {
        ModelSelection {
            explicit: explicit.map(str::to_string),
            remembered: remembered.map(str::to_string),
            model_hf: hf.map(str::to_string),
            model_path: path.map(str::to_string),
        }
    };
    match update_source(&select(Some("m"), None, None, Some("/p")), Some("/q"), None).unwrap() {
        UpdateSource::Catalog { slug } => assert_eq!(slug, "m"),
        other => panic!("{other:?}"),
    }
    match update_source(&select(None, Some("m"), Some("o/r/f"), None), None, None).unwrap() {
        UpdateSource::Custom { repo, file } => {
            assert_eq!(repo, "o/r");
            assert_eq!(file, "f");
        }
        other => panic!("{other:?}"),
    }
    assert_eq!(
        update_source(&select(None, Some("m"), None, Some("/p")), None, None).unwrap_err(),
        "A manual GGUF path has no tracked update source. Name a catalog model after the command, or configure llamacpp.model_hf instead."
    );
    assert_eq!(
        update_source(&select(None, None, Some("bad"), None), None, None).unwrap_err(),
        "Invalid llamacpp.model_hf; expected org/repo/file.gguf"
    );
    assert_eq!(
        update_source(&select(None, None, None, None), None, None).unwrap_err(),
        "No model selected. Specify a catalog model after check-updates or update."
    );
}

fn remote(file: &str, installed: Option<&str>, offered: &str) -> RemoteFile {
    RemoteFile {
        source: ModelSource {
            sha256: installed.map(str::to_string),
            ..source(file, Some("old"))
        },
        revision: "new".to_string(),
        sha256: offered.to_string(),
        size: 8,
        url: String::new(),
    }
}

#[test]
fn updates_are_reported_before_they_are_installed() {
    let sizes = vec!["1.00".to_string(), "2.00".to_string(), "3.00".to_string()];
    let files = vec![
        remote("a.gguf", Some("x"), "x"),
        remote("b.gguf", Some("x"), "y"),
        remote("c.gguf", None, "z"),
    ];
    let report = update_report(&files, &vec![true, true, false], &sizes);
    assert!(report.changed);
    assert_eq!(
        report.lines,
        vec![
            "org/model/a.gguf: up to date; 1.00 GB; revision new",
            "org/model/b.gguf: update available (or installed revision unrecorded); 2.00 GB; revision new",
            "org/model/c.gguf: not installed; 3.00 GB; revision new",
        ]
    );
    assert!(!installs(UpdateAction::Check, true));
    assert!(installs(UpdateAction::Install, true));
    assert!(!installs(UpdateAction::Install, false));
    let text = report_text(report, UpdateAction::Check);
    assert!(text.ends_with("\nRun millie models update (with the same model/profile options) to download and install this revision."));
    let same = update_report(&vec![remote("a.gguf", Some("x"), "x")], &vec![true], &vec!["1.00".to_string()]);
    assert!(!same.changed);
    assert_eq!(
        report_text(same, UpdateAction::Install),
        "org/model/a.gguf: up to date; 1.00 GB; revision new"
    );
    let adopted = adopt_installed(
        &vec![source("a.gguf", None), source("b.gguf", None)],
        &vec![source("b.gguf", Some("r"))],
    );
    assert_eq!(adopted[0].revision, None);
    assert_eq!(adopted[1].revision.as_deref(), Some("r"));
}

#[test]
fn a_path_comes_before_a_repository_and_the_catalog() {
    assert!(matches!(configured_source(Some("/m"), Some("o/r/f")), ConfiguredSource::Given));
    match configured_source(Some(" "), Some("o/r/f")) {
        ConfiguredSource::Custom { repo, file } => {
            assert_eq!(repo, "o/r");
            assert_eq!(file, "f");
        }
        other => panic!("{other:?}"),
    }
    match configured_source(None, Some("bad")) {
        ConfiguredSource::Catalog { notice } => assert_eq!(
            notice.as_deref(),
            Some("millie: llamacpp.model_hf is not of the form org/repo/file.gguf: bad")
        ),
        other => panic!("{other:?}"),
    }
    assert!(matches!(
        configured_source(None, Some("")),
        ConfiguredSource::Catalog { notice: None }
    ));
}

#[test]
fn models_are_found_by_their_names() {
    let slugs = vec!["a".to_string(), "b".to_string()];
    assert_eq!(served_entry(&slugs, "b"), Ok(Some(1)));
    assert_eq!(served_entry(&Vec::new(), "b"), Ok(None));
    assert_eq!(
        served_entry(&slugs, "c").unwrap_err(),
        "Unknown model `c`. Run `millie --model select` to choose a model."
    );
    assert_eq!(updated_entry(&slugs, "a"), Ok(0));
    assert_eq!(updated_entry(&slugs, "c").unwrap_err(), "Unknown catalog model `c`");
}

#[test]
fn what_is_missing_is_listed() {
    let labels = vec!["model".to_string(), "tower".to_string()];
    assert_eq!(missing_files(&labels, &vec![false, false], true), labels);
    assert_eq!(missing_files(&labels, &vec![false, false], false), vec!["model".to_string()]);
    assert!(missing_files(&labels, &vec![true, false], false).is_empty());
}

#[test]
fn the_memory_of_the_system_is_found_in_its_table() {
    let table = "MemFree:  1 kB\nMemTotal:       16384 kB\nMemTotal: 2 kB\n";
    assert_eq!(total_memory_text(table).as_deref(), Some("16384"));
    assert_eq!(total_memory_text("none"), None);
}

#[test]
fn caches_are_warmed_with_what_the_model_is_told() {
    let models = millie_models("Be {{ personality }}.", vec![info("a", None, false)]);
    assert_eq!(instructions_to_warm(&models, "a").as_deref(), Some("Be ."));
    assert_eq!(instructions_to_warm(&models, "b"), None);
    let blank = millie_models("{{ personality }}", vec![info("a", None, false)]);
    assert_eq!(instructions_to_warm(&blank, "a"), None);
}
