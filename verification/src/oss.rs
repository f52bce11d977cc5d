//! Getting a local provider ready: which settings a serving profile and a model's
//! sampling block supply, and which of them the user's own settings keep.

use crate::catalog;
use crate::catalog::CatalogEntry;
use crate::catalog::MachineMemory;
use crate::catalog::ModelDownload;
use crate::catalog::ModelProfile;
use crate::catalog::ProfileSettings;
use crate::request;
use crate::settings;
use crate::text;
use vstd::prelude::*;
use vstd::string::*;

verus! {

// ---------------------------------------------------------------------------
// Providers.

/// The models that the other local providers start with.
#[derive(Debug)]
pub struct OssDefaults {
    pub lmstudio: String,
    pub ollama: String,
}

/// The model that a local provider serves where none is named.
pub open spec fn default_model(
    provider: Seq<char>,
    lmstudio: Seq<char>,
    ollama: Seq<char>,
    picked: Option<Seq<char>>,
    first: Option<Seq<char>>,
) -> Option<Seq<char>> {
    if provider == "lmstudio"@ {
        Some(lmstudio)
    } else if provider == "ollama"@ {
        Some(ollama)
    } else if provider == "llamacpp"@ {
        picked
    } else if provider == "vllm"@ {
        first
    } else {
        None
    }
}

/// The model that a local provider serves where none is named: the fixed one of
/// the provider, for llama.cpp the one that suits this machine, for vLLM the first
/// of the catalog.
pub fn get_default_model_for_oss_provider(
    provider_id: &str,
    defaults: &OssDefaults,
    entries: &Vec<CatalogEntry>,
    mem: MachineMemory,
    devices: &Option<String>,
    pin: &Option<String>,
) -> (r: Option<String>)
    ensures
        text::optional(r) == default_model(
            provider_id@,
            defaults.lmstudio@,
            defaults.ollama@,
            catalog::picked(entries@, mem, text::optional(*devices), text::optional(*pin)),
            if entries@.len() > 0 {
                Some(entries@[0].slug@)
            } else {
                None
            },
        ),
{
    if text::same_text(provider_id, "lmstudio") {
        Some(defaults.lmstudio.clone())
    } else if text::same_text(provider_id, "ollama") {
        Some(defaults.ollama.clone())
    } else if text::same_text(provider_id, "llamacpp") {
        match catalog::pick_local_model_slug(entries, mem, devices, pin) {
            Ok(slug) => Some(slug),
            Err(_) => None,
        }
    } else if text::same_text(provider_id, "vllm") {
        if entries.len() > 0 {
            Some(entries[0].slug.clone())
        } else {
            None
        }
    } else {
        None
    }
}

/// Whether an address is that of the server on this machine.
pub open spec fn is_own_server(base: Seq<char>, port: u16) -> bool {
    ||| request::root_of(base) == "http://127.0.0.1:"@ + text::decimal(port as nat)
    ||| request::root_of(base) == "http://localhost:"@ + text::decimal(port as nat)
}

pub open spec fn conflict(base: Seq<char>, port: u16) -> Seq<char> {
    "Managed llama-server uses local port "@ + text::decimal(port as nat)
        + ", but a conflicting API URL is configured: "@ + base
        + ". Set llamacpp.port and remove the conflicting model provider base_url or MILLIE_OSS_BASE_URL. For an external vLLM server use the vllm provider and vllm.base_url."@
}

/// Holds an address that is configured against the port of the managed server.
pub fn check_base_url(base: &str, port: u16) -> (r: Result<(), String>)
    ensures
        if is_own_server(base@, port) {
            r is Ok
        } else {
            r matches Err(m) && m@ == conflict(base@, port)
        },
{
    let root = request::local_server_root(base);
    let number = text::decimal_string(port as u128);
    let mut here = "http://127.0.0.1:".to_string();
    here.append(number.as_str());
    let mut named = "http://localhost:".to_string();
    named.append(number.as_str());
    if text::same_text(root.as_str(), here.as_str()) || text::same_text(
        root.as_str(),
        named.as_str(),
    ) {
        return Ok(());
    }
    let mut m = "Managed llama-server uses local port ".to_string();
    m.append(number.as_str());
    m.append(", but a conflicting API URL is configured: ");
    m.append(base);
    m.append(
        ". Set llamacpp.port and remove the conflicting model provider base_url or MILLIE_OSS_BASE_URL. For an external vLLM server use the vllm provider and vllm.base_url.",
    );
    Err(m)
}

/// `org/repo/file` as a repository and a file in it.
pub open spec fn hf_parts(spec_text: Seq<char>) -> Option<(Seq<char>, Seq<char>)> {
    let s = text::drop_front(text::trim(spec_text), '/');
    match text::halves(s, '/') {
        None => None,
        Some((org, rest)) => match text::halves(rest, '/') {
            None => None,
            Some((repo, file)) => if org.len() == 0 || repo.len() == 0 || file.len() == 0 {
                None
            } else {
                Some((org + seq!['/'] + repo, file))
            },
        },
    }
}

fn without_front(cs: &[char], c: char) -> (r: Vec<char>)
    ensures
        r@ == text::drop_front(cs@, c),
{
    let mut i: usize = 0;
    assert(cs@.skip(0) =~= cs@);
    while i < cs.len() && cs[i] == c
        invariant
            i <= cs@.len(),
            text::drop_front(cs@, c) == text::drop_front(cs@.skip(i as int), c),
        decreases cs@.len() - i,
    {
        assert(cs@.skip(i as int).skip(1) =~= cs@.skip(i + 1));
        i += 1;
    }
    let r = text::slice_of(cs, i, cs.len());
    assert(r@ =~= cs@.skip(i as int));
    r
}

/// Reads `org/repo/file.gguf` as a repository and the path of a file in it.
pub fn split_hf_spec(spec_text: &str) -> (r: Option<(String, String)>)
    ensures
        match r {
            Some((repo, file)) => hf_parts(spec_text@) == Some((repo@, file@)),
            None => hf_parts(spec_text@) is None,
        },
{
    let cs = text::chars_of(spec_text);
    let trimmed = text::trimmed(cs.as_slice());
    let s = without_front(trimmed.as_slice(), '/');
    match text::split_once(s.as_slice(), '/') {
        Some((org, rest)) => match text::split_once(rest.as_slice(), '/') {
            Some((repo, file)) => {
                if org.len() == 0 || repo.len() == 0 || file.len() == 0 {
                    return None;
                }
                let mut id = text::string_of(org.as_slice());
                id.push('/');
                id.append(text::string_of(repo.as_slice()).as_str());
                assert(id@ =~= org@ + seq!['/'] + repo@);
                Some((id, text::string_of(file.as_slice())))
            },
            None => None,
        },
        None => None,
    }
}

/// The context that a server should have: the least of what the profile allows and
/// what the user asks for.
pub open spec fn least_context(cap: Option<u32>, wanted: Option<i64>) -> Option<u32> {
    let user = match wanted {
        Some(w) if 0 <= w <= u32::MAX => Some(w as u32),
        _ => None,
    };
    match (cap, user) {
        (Some(p), Some(u)) => Some(
            if p <= u {
                p
            } else {
                u
            },
        ),
        (Some(p), None) => Some(p),
        (None, u) => u,
    }
}

/// The context that a server should have.
pub fn effective_ctx_pref(profile_cap: Option<u32>, user_context_window: Option<i64>) -> (r: Option<
    u32,
>)
    ensures
        r == least_context(profile_cap, user_context_window),
{
    let user: Option<u32> = match user_context_window {
        Some(w) => if 0 <= w && w <= u32::MAX as i64 {
            Some(w as u32)
        } else {
            None
        },
        None => None,
    };
    match profile_cap {
        Some(p) => match user {
            Some(u) => Some(
                if p <= u {
                    p
                } else {
                    u
                },
            ),
            None => Some(p),
        },
        None => user,
    }
}

/// What the user asks for never raises the context past what the profile allows.
pub proof fn context_stays_under_the_cap(cap: u32, wanted: Option<i64>)
    ensures
        least_context(Some(cap), wanted) matches Some(c) && c <= cap,
{
}

// ---------------------------------------------------------------------------
// Settings that are supplied where none is set.

/// A setting that can be supplied.
#[derive(Debug)]
pub struct Offer {
    pub key: String,
    pub label: String,
    /// What is supplied.
    pub value: Option<String>,
    /// What is set already.
    pub configured: Option<String>,
    /// Whether the value is shown as on or off.
    pub as_switch: bool,
}

pub struct OfferModel {
    pub key: Seq<char>,
    pub label: Seq<char>,
    pub value: Option<Seq<char>>,
    pub configured: Option<Seq<char>>,
    pub as_switch: bool,
}

impl View for Offer {
    type V = OfferModel;

    open spec fn view(&self) -> OfferModel {
        OfferModel {
            key: self.key@,
            label: self.label@,
            value: text::optional(self.value),
            configured: text::optional(self.configured),
            as_switch: self.as_switch,
        }
    }
}

pub open spec fn offer_models(v: Seq<Offer>) -> Seq<OfferModel> {
    v.map_values(|o: Offer| o@)
}

pub open spec fn pairs(v: Seq<(String, String)>) -> Seq<(Seq<char>, Seq<char>)> {
    v.map_values(|p: (String, String)| (p.0@, p.1@))
}

pub open spec fn shown_value(value: Seq<char>, as_switch: bool) -> Seq<char> {
    if !as_switch {
        value
    } else if settings::is_on(text::trim(value)) {
        "on"@
    } else {
        "off"@
    }
}

/// The value that is supplied: none where the user's own is set.
pub open spec fn supplied(o: OfferModel) -> Option<Seq<char>> {
    if settings::filled(o.configured) is Some {
        None
    } else {
        o.value
    }
}

/// What is said of a setting.
pub open spec fn note(o: OfferModel) -> Option<Seq<char>> {
    match settings::filled(o.configured) {
        Some(c) => Some(o.label + " "@ + shown_value(c, o.as_switch) + " (config)"@),
        None => match o.value {
            Some(v) => Some(o.label + " "@ + shown_value(v, o.as_switch)),
            None => None,
        },
    }
}

/// The settings that the first `n` offers supply.
pub open spec fn exports(offers: Seq<OfferModel>, n: int) -> Seq<(Seq<char>, Seq<char>)>
    decreases n,
{
    if n <= 0 {
        Seq::empty()
    } else {
        match supplied(offers[n - 1]) {
            Some(v) => exports(offers, n - 1).push((offers[n - 1].key, v)),
            None => exports(offers, n - 1),
        }
    }
}

/// What is said of the first `n` offers.
pub open spec fn notes(offers: Seq<OfferModel>, n: int) -> Seq<Seq<char>>
    decreases n,
{
    if n <= 0 {
        Seq::empty()
    } else {
        match note(offers[n - 1]) {
            Some(t) => notes(offers, n - 1).push(t),
            None => notes(offers, n - 1),
        }
    }
}

fn shown(value: &str, as_switch: bool) -> (r: String)
    ensures
        r@ == shown_value(value@, as_switch),
{
    if !as_switch {
        return value.to_string();
    }
    let trimmed = text::str_trim(value);
    if settings::on(trimmed.as_str()) {
        "on".to_string()
    } else {
        "off".to_string()
    }
}

fn note_of(label: &str, value: &str, as_switch: bool, own: bool) -> (r: String)
    ensures
        r@ == label@ + " "@ + shown_value(value@, as_switch) + (if own {
            " (config)"@
        } else {
            Seq::empty()
        }),
{
    let mut out = label.to_string();
    out.append(" ");
    out.append(shown(value, as_switch).as_str());
    if own {
        out.append(" (config)");
    }
    assert(out@ =~= label@ + " "@ + shown_value(value@, as_switch) + (if own {
        " (config)"@
    } else {
        Seq::empty()
    }));
    out
}

/// Supplies the settings that the user has not set, and says of each what holds.
pub fn supply(offers: &Vec<Offer>) -> (r: (Vec<(String, String)>, Vec<String>))
    ensures
        pairs(r.0@) == exports(offer_models(offers@), offers@.len() as int),
        text::strings(r.1@) == notes(offer_models(offers@), offers@.len() as int),
{
    let ghost all = offer_models(offers@);
    let mut out: Vec<(String, String)> = Vec::new();
    let mut said: Vec<String> = Vec::new();
    let mut i: usize = 0;
    assert(pairs(out@) =~= Seq::empty());
    assert(text::strings(said@) =~= Seq::empty());
    while i < offers.len()
        invariant
            i <= offers@.len(),
            all == offer_models(offers@),
            pairs(out@) == exports(all, i as int),
            text::strings(said@) == notes(all, i as int),
        decreases offers@.len() - i,
    {
        let o = &offers[i];
        assert(all[i as int] == o@);
        let ghost out_before = out@;
        let ghost said_before = said@;
        let own: bool = match &o.configured {
            Some(c) => !text::str_blank(c.as_str()),
            None => false,
        };
        if own {
            match &o.configured {
                Some(c) => {
                    let line = note_of(o.label.as_str(), c.as_str(), o.as_switch, true);
                    said.push(line);
                    assert(text::strings(said@) =~= text::strings(said_before).push(line@));
                },
                None => {},
            }
        } else {
            match &o.value {
                Some(v) => {
                    let line = note_of(o.label.as_str(), v.as_str(), o.as_switch, false);
                    assert(line@ =~= o.label@ + " "@ + shown_value(v@, o.as_switch));
                    said.push(line);
                    assert(text::strings(said@) =~= text::strings(said_before).push(line@));
                    let entry = (o.key.clone(), v.clone());
                    out.push(entry);
                    assert(pairs(out@) =~= pairs(out_before).push((entry.0@, entry.1@)));
                },
                None => {},
            }
        }
        i += 1;
    }
    (out, said)
}

proof fn export_is_offered(offers: Seq<OfferModel>, n: int, k: int)
    requires
        0 <= n <= offers.len(),
        0 <= k < exports(offers, n).len(),
    ensures
        exists|i: int|
            0 <= i < n && (#[trigger] offers[i]).key == exports(offers, n)[k].0
                && settings::filled(offers[i].configured) is None,
    decreases n,
{
    if n > 0 {
        if k < exports(offers, n - 1).len() {
            export_is_offered(offers, n - 1, k);
            let i = choose|i: int|
                0 <= i < n - 1 && (#[trigger] offers[i]).key == exports(offers, n - 1)[k].0
                    && settings::filled(offers[i].configured) is None;
            assert(offers[i].key == exports(offers, n)[k].0);
        } else {
            assert(offers[n - 1].key == exports(offers, n)[k].0);
        }
    }
}

/// What the user has set is never replaced: where no two offers are for one
/// setting, nothing is supplied for a setting that is set.
pub proof fn own_settings_are_kept(offers: Seq<OfferModel>, i: int, k: int)
    requires
        forall|a: int, b: int|
            0 <= a < b < offers.len() ==> (#[trigger] offers[a]).key != (#[trigger] offers[b]).key,
        0 <= i < offers.len(),
        settings::filled(offers[i].configured) is Some,
        0 <= k < exports(offers, offers.len() as int).len(),
    ensures
        exports(offers, offers.len() as int)[k].0 != offers[i].key,
{
    export_is_offered(offers, offers.len() as int, k);
    let j = choose|j: int|
        0 <= j < offers.len() && (#[trigger] offers[j]).key == exports(
            offers,
            offers.len() as int,
        )[k].0 && settings::filled(offers[j].configured) is None;
    assert(j != i);
    if j < i {
        assert(offers[j].key != offers[i].key);
    } else {
        assert(offers[i].key != offers[j].key);
    }
}

// ---------------------------------------------------------------------------
// Serving profiles.

/// The launch settings that are set.
#[derive(Debug)]
pub struct ServingEnv {
    pub gpu: Option<String>,
    pub ctx_size: Option<String>,
    pub vision: Option<String>,
    pub kv_cache: Option<String>,
    pub mmap: Option<String>,
    pub n_cpu_moe: Option<String>,
}

pub open spec fn bit(on: Option<bool>) -> Option<Seq<char>> {
    match on {
        Some(true) => Some("1"@),
        Some(false) => Some("0"@),
        None => None,
    }
}

pub open spec fn count(n: Option<u32>) -> Option<Seq<char>> {
    match n {
        Some(v) => Some(text::decimal(v as nat)),
        None => None,
    }
}

pub open spec fn device_choice(gpu: Option<bool>) -> Option<Seq<char>> {
    match gpu {
        Some(true) => Some("0"@),
        Some(false) => Some("none"@),
        None => None,
    }
}

pub open spec fn offer_model(
    key: Seq<char>,
    label: Seq<char>,
    value: Option<Seq<char>>,
    configured: Option<String>,
    as_switch: bool,
) -> OfferModel {
    OfferModel { key, label, value, configured: text::optional(configured), as_switch }
}

/// What a profile offers apart from the device.
pub open spec fn memory_offers(
    s: ProfileSettings,
    env: ServingEnv,
    wanted: Option<i64>,
) -> Seq<OfferModel> {
    seq![
        offer_model(
            "MILLIE_LLAMACPP_CTX_SIZE"@,
            "ctx"@,
            count(least_context(s.ctx_size, wanted)),
            env.ctx_size,
            false,
        ),
        offer_model("MILLIE_LLAMACPP_VISION"@, "vision"@, bit(s.vision), env.vision, true),
        offer_model(
            "MILLIE_LLAMACPP_KV_CACHE"@,
            "kv"@,
            text::optional(s.kv_cache),
            env.kv_cache,
            false,
        ),
        offer_model("MILLIE_LLAMACPP_MMAP"@, "mmap"@, bit(s.mmap), env.mmap, true),
        offer_model(
            "MILLIE_LLAMACPP_N_CPU_MOE"@,
            "cpu-experts"@,
            count(s.n_cpu_moe),
            env.n_cpu_moe,
            false,
        ),
    ]
}

/// What a profile offers. On Apple silicon memory is shared, and the device is left
/// as it is.
pub open spec fn profile_offers(
    s: ProfileSettings,
    env: ServingEnv,
    wanted: Option<i64>,
    apple_silicon: bool,
) -> Seq<OfferModel> {
    if apple_silicon {
        memory_offers(s, env, wanted)
    } else {
        seq![
            offer_model(
                "MILLIE_LLAMACPP_GPU"@,
                "gpu"@,
                device_choice(s.gpu),
                env.gpu,
                false,
            ),
        ] + memory_offers(s, env, wanted)
    }
}

fn copy_of(s: &Option<String>) -> (r: Option<String>)
    ensures
        text::optional(r) == text::optional(*s),
{
    match s {
        Some(t) => Some(t.clone()),
        None => None,
    }
}

fn bit_text(on: Option<bool>) -> (r: Option<String>)
    ensures
        text::optional(r) == bit(on),
{
    match on {
        Some(b) => Some(
            if b {
                "1".to_string()
            } else {
                "0".to_string()
            },
        ),
        None => None,
    }
}

fn count_text(n: Option<u32>) -> (r: Option<String>)
    ensures
        text::optional(r) == count(n),
{
    match n {
        Some(v) => Some(text::decimal_string(v as u128)),
        None => None,
    }
}

fn offer(
    key: &str,
    label: &str,
    value: Option<String>,
    configured: &Option<String>,
    as_switch: bool,
) -> (r: Offer)
    ensures
        r@ == offer_model(key@, label@, text::optional(value), *configured, as_switch),
{
    Offer {
        key: key.to_string(),
        label: label.to_string(),
        value,
        configured: copy_of(configured),
        as_switch,
    }
}

fn offers_of_profile(
    s: &ProfileSettings,
    env: &ServingEnv,
    wanted: Option<i64>,
    apple_silicon: bool,
) -> (r: Vec<Offer>)
    ensures
        offer_models(r@) == profile_offers(*s, *env, wanted, apple_silicon),
{
    let mut out: Vec<Offer> = Vec::new();
    if !apple_silicon {
        let device = match s.gpu {
            Some(on) => Some(
                if on {
                    "0".to_string()
                } else {
                    "none".to_string()
                },
            ),
            None => None,
        };
        assert(text::optional(device) == device_choice(s.gpu));
        out.push(offer("MILLIE_LLAMACPP_GPU", "gpu", device, &env.gpu, false));
    }
    let context = count_text(effective_ctx_pref(s.ctx_size, wanted));
    out.push(offer("MILLIE_LLAMACPP_CTX_SIZE", "ctx", context, &env.ctx_size, false));
    out.push(offer("MILLIE_LLAMACPP_VISION", "vision", bit_text(s.vision), &env.vision, true));
    out.push(offer("MILLIE_LLAMACPP_KV_CACHE", "kv", copy_of(&s.kv_cache), &env.kv_cache, false));
    out.push(offer("MILLIE_LLAMACPP_MMAP", "mmap", bit_text(s.mmap), &env.mmap, true));
    out.push(
        offer(
            "MILLIE_LLAMACPP_N_CPU_MOE",
            "cpu-experts",
            count_text(s.n_cpu_moe),
            &env.n_cpu_moe,
            false,
        ),
    );
    assert(offer_models(out@) =~= profile_offers(*s, *env, wanted, apple_silicon));
    out
}

/// What a profile comes to: settings to make, and what to tell the user.
#[derive(Debug)]
pub struct ServingPlan {
    pub exports: Vec<(String, String)>,
    pub message: Option<String>,
}

pub struct PlanModel {
    pub exports: Seq<(Seq<char>, Seq<char>)>,
    pub message: Option<Seq<char>>,
}

impl View for ServingPlan {
    type V = PlanModel;

    open spec fn view(&self) -> PlanModel {
        PlanModel { exports: pairs(self.exports@), message: text::optional(self.message) }
    }
}

pub open spec fn profile_names(profiles: Seq<ModelProfile>) -> Seq<Seq<char>> {
    profiles.map_values(|p: ModelProfile| p.name@)
}

pub open spec fn unknown_profile(pin: Seq<char>, profiles: Seq<ModelProfile>) -> Seq<char> {
    "Unknown serving profile `"@ + pin + "`. Available profiles: "@ + text::join(
        profile_names(profiles),
        ", "@,
    )
}

pub open spec fn nothing_fits(vram: Seq<char>, ram: Seq<char>) -> Seq<char> {
    "millie: no serving profile fits this machine (VRAM "@ + vram + ", RAM "@ + ram
        + "); the model will likely not load. Settings can still be forced in config.toml."@
}

pub open spec fn profile_line(name: Seq<char>, pinned: bool, said: Seq<Seq<char>>) -> Seq<char> {
    "millie: serving profile "@ + name + " ("@ + (if pinned {
        "pinned"@
    } else {
        "detected"@
    }) + "): "@ + text::join(said, ", "@)
}

/// The profile that is pinned, where one is.
pub open spec fn pinned(pin: Option<Seq<char>>) -> Option<Seq<char>> {
    match pin {
        Some(p) if text::trim(p).len() > 0 => Some(text::trim(p)),
        _ => None,
    }
}

pub open spec fn plan_by(
    p: ModelProfile,
    env: ServingEnv,
    wanted: Option<i64>,
    apple_silicon: bool,
    is_pinned: bool,
) -> PlanModel {
    let offers = profile_offers(p.settings, env, wanted, apple_silicon);
    PlanModel {
        exports: exports(offers, offers.len() as int),
        message: Some(profile_line(p.name@, is_pinned, notes(offers, offers.len() as int))),
    }
}

/// What serving a model on this machine comes to.
pub open spec fn serving_plan(
    d: ModelDownload,
    mem: MachineMemory,
    env: ServingEnv,
    pin: Option<Seq<char>>,
    wanted: Option<i64>,
    apple_silicon: bool,
    vram: Seq<char>,
    ram: Seq<char>,
) -> Result<PlanModel, Seq<char>> {
    let profiles = d.profiles@;
    let chosen = pinned(pin);
    if chosen is Some && catalog::first_named(profiles, chosen.unwrap(), 0) is None {
        Err(unknown_profile(chosen.unwrap(), profiles))
    } else {
        match catalog::chosen_profile(profiles, mem, text::optional(env.gpu), chosen) {
            Some(i) => Ok(plan_by(profiles[i], env, wanted, apple_silicon, chosen is Some)),
            None => Ok(
                PlanModel {
                    exports: Seq::empty(),
                    message: if profiles.len() > 0 {
                        Some(nothing_fits(vram, ram))
                    } else {
                        None
                    },
                },
            ),
        }
    }
}

fn names_of(profiles: &Vec<ModelProfile>) -> (r: Vec<String>)
    ensures
        text::strings(r@) == profile_names(profiles@),
{
    let ghost goal = profile_names(profiles@);
    let mut out: Vec<String> = Vec::new();
    let mut i: usize = 0;
    assert(text::strings(out@) =~= goal.take(0));
    while i < profiles.len()
        invariant
            i <= profiles@.len(),
            goal == profile_names(profiles@),
            text::strings(out@) == goal.take(i as int),
        decreases profiles@.len() - i,
    {
        let ghost before = out@;
        let name = profiles[i].name.clone();
        out.push(name);
        assert(text::strings(out@) =~= text::strings(before).push(name@));
        assert(goal.take(i + 1) =~= goal.take(i as int).push(goal[i as int]));
        i += 1;
    }
    assert(goal.take(i as int) =~= goal);
    out
}

fn has_profile(profiles: &Vec<ModelProfile>, name: &str) -> (r: bool)
    ensures
        r == (catalog::first_named(profiles@, name@, 0) is Some),
{
    let mut i: usize = 0;
    while i < profiles.len()
        invariant
            i <= profiles@.len(),
            catalog::first_named(profiles@, name@, 0) == catalog::first_named(
                profiles@,
                name@,
                i as int,
            ),
        decreases profiles@.len() - i,
    {
        if text::same_text(profiles[i].name.as_str(), name) {
            return true;
        }
        i += 1;
    }
    false
}

fn line_of_profile(name: &str, is_pinned: bool, said: &Vec<String>) -> (r: String)
    ensures
        r@ == profile_line(name@, is_pinned, text::strings(said@)),
{
    let mut m = "millie: serving profile ".to_string();
    m.append(name);
    m.append(" (");
    if is_pinned {
        m.append("pinned");
    } else {
        m.append("detected");
    }
    m.append("): ");
    m.append(text::join_strings(said, ", ").as_str());
    m
}

fn plan_of_profile(
    p: &ModelProfile,
    env: &ServingEnv,
    wanted: Option<i64>,
    apple_silicon: bool,
    is_pinned: bool,
) -> (r: ServingPlan)
    ensures
        r@ == plan_by(*p, *env, wanted, apple_silicon, is_pinned),
{
    let offers = offers_of_profile(&p.settings, env, wanted, apple_silicon);
    let (exported, said) = supply(&offers);
    let line = line_of_profile(p.name.as_str(), is_pinned, &said);
    ServingPlan { exports: exported, message: Some(line) }
}

/// What serving a model on this machine comes to: the settings that its profile
/// supplies where the user has set none, and what to tell. `vram` and `ram` say what
/// there is, for a machine that no profile fits.
pub fn apply_serving_profile(
    d: &ModelDownload,
    mem: MachineMemory,
    env: &ServingEnv,
    pin: Option<&str>,
    user_context_window: Option<i64>,
    apple_silicon: bool,
    vram: &str,
    ram: &str,
) -> (r: Result<ServingPlan, String>)
    ensures
        match r {
            Ok(p) => serving_plan(
                *d,
                mem,
                *env,
                settings::value_text(pin),
                user_context_window,
                apple_silicon,
                vram@,
                ram@,
            ) == Ok::<PlanModel, Seq<char>>(p@),
            Err(m) => serving_plan(
                *d,
                mem,
                *env,
                settings::value_text(pin),
                user_context_window,
                apple_silicon,
                vram@,
                ram@,
            ) == Err::<PlanModel, Seq<char>>(m@),
        },
{
    let name: Option<String> = match pin {
        Some(p) => {
            let trimmed = text::str_trim(p);
            if text::chars_of(trimmed.as_str()).len() > 0 {
                Some(trimmed)
            } else {
                None
            }
        },
        None => None,
    };
    assert(text::optional(name) == pinned(settings::value_text(pin)));
    match &name {
        Some(n) => {
            if !has_profile(&d.profiles, n.as_str()) {
                let mut m = "Unknown serving profile `".to_string();
                m.append(n.as_str());
                m.append("`. Available profiles: ");
                m.append(text::join_strings(&names_of(&d.profiles), ", ").as_str());
                return Err(m);
            }
        },
        None => {},
    }
    let chosen: Option<usize> = match &name {
        Some(n) => catalog::resolve_profile(d, mem, &env.gpu, Some(n.as_str())),
        None => catalog::resolve_profile(d, mem, &env.gpu, None),
    };
    match chosen {
        Some(i) => Ok(
            plan_of_profile(
                &d.profiles[i],
                env,
                user_context_window,
                apple_silicon,
                name.is_some(),
            ),
        ),
        None => {
            let message: Option<String> = if d.profiles.len() > 0 {
                let mut m = "millie: no serving profile fits this machine (VRAM ".to_string();
                m.append(vram);
                m.append(", RAM ");
                m.append(ram);
                m.append(
                    "); the model will likely not load. Settings can still be forced in config.toml.",
                );
                Some(m)
            } else {
                None
            };
            let empty: Vec<(String, String)> = Vec::new();
            assert(pairs(empty@) =~= Seq::empty());
            Ok(ServingPlan { exports: empty, message })
        },
    }
}

// ---------------------------------------------------------------------------
// Sampling.

/// How a text reads as a number with a fraction.
#[derive(Debug, Clone, Copy, PartialEq, Eq, Structural)]
pub enum FloatClass {
    NoNumber,
    NotFinite,
    Negative,
    /// From nothing to one, both of them included.
    UnitInterval,
    AboveOne,
}

/// The sampling values of a model, each as a text.
#[derive(Debug)]
pub struct SamplingValues {
    pub temperature: Option<String>,
    pub top_p: Option<String>,
    pub top_k: Option<String>,
    pub min_p: Option<String>,
    pub thinking_budget: Option<String>,
    pub max_output_tokens: Option<String>,
}

/// How the fractions among the sampling values read.
#[derive(Debug, Clone, Copy, PartialEq, Eq, Structural)]
pub struct SamplingReadings {
    pub temperature: FloatClass,
    pub top_p: FloatClass,
    pub min_p: FloatClass,
}

/// Whether a value can be sampled with. `reading` says how the value, trimmed, reads
/// as a fraction.
pub open spec fn is_valid(name: Seq<char>, value: Option<Seq<char>>, reading: FloatClass) -> bool {
    match value {
        None => false,
        Some(v) => {
            let t = text::trim(v);
            if name == "temperature"@ {
                reading == FloatClass::UnitInterval || reading == FloatClass::AboveOne
            } else if name == "top_p"@ || name == "min_p"@ {
                reading == FloatClass::UnitInterval
            } else if name == "top_k"@ {
                text::parse_signed(t, i32::MIN as int, i32::MAX as int) matches Some(n) && n >= 0
            } else if name == "thinking_budget"@ {
                text::parse_unsigned(t, u32::MAX as nat) is Some
            } else if name == "max_output_tokens"@ {
                text::parse_unsigned(t, u32::MAX as nat) matches Some(n) && n > 0
            } else {
                false
            }
        },
    }
}

pub open spec fn invalid(name: Seq<char>) -> Seq<char> {
    "Missing or invalid sampling setting `"@ + name
        + "` for the selected catalog model. Set it in the model's sampling block in millie-models.json or [llamacpp] in config.toml. Compiled sampling defaults are not used for catalog-managed models."@
}

fn is_count(cs: &[char]) -> (r: bool)
    ensures
        r == (text::parse_signed(cs@, i32::MIN as int, i32::MAX as int) matches Some(n) && n >= 0),
{
    match text::read_i64(cs) {
        Some(n) => 0 <= n && n <= i32::MAX as i64,
        None => false,
    }
}

fn valid(name: &str, value: Option<&str>, reading: FloatClass) -> (r: bool)
    ensures
        r == is_valid(name@, settings::value_text(value), reading),
{
    let v = match value {
        Some(v) => v,
        None => {
            return false;
        },
    };
    let cs = text::chars_of(v);
    let t = text::trimmed(cs.as_slice());
    if text::same_text(name, "temperature") {
        reading == FloatClass::UnitInterval || reading == FloatClass::AboveOne
    } else if text::same_text(name, "top_p") || text::same_text(name, "min_p") {
        reading == FloatClass::UnitInterval
    } else if text::same_text(name, "top_k") {
        is_count(t.as_slice())
    } else if text::same_text(name, "thinking_budget") {
        text::read_unsigned(t.as_slice(), u32::MAX as u64).is_some()
    } else if text::same_text(name, "max_output_tokens") {
        match text::read_unsigned(t.as_slice(), u32::MAX as u64) {
            Some(n) => n > 0,
            None => false,
        }
    } else {
        false
    }
}

/// Checks one sampling value.
pub fn validate_value(name: &str, value: Option<&str>, reading: FloatClass) -> (r: Result<
    (),
    String,
>)
    ensures
        if is_valid(name@, settings::value_text(value), reading) {
            r is Ok
        } else {
            r matches Err(m) && m@ == invalid(name@)
        },
{
    if valid(name, value, reading) {
        return Ok(());
    }
    let mut m = "Missing or invalid sampling setting `".to_string();
    m.append(name);
    m.append(
        "` for the selected catalog model. Set it in the model's sampling block in millie-models.json or [llamacpp] in config.toml. Compiled sampling defaults are not used for catalog-managed models.",
    );
    Err(m)
}

/// The value that counts: the user's own, else that of the catalog.
pub open spec fn resolved(configured: Option<Seq<char>>, supplied: Option<Seq<char>>) -> Option<Seq<char>> {
    match settings::filled(configured) {
        Some(c) => Some(c),
        None => supplied,
    }
}

/// The value that counts: the user's own, else that of the catalog.
pub fn resolve_value(configured: &Option<String>, supplied: &Option<String>) -> (r: Option<String>)
    ensures
        text::optional(r) == resolved(text::optional(*configured), text::optional(*supplied)),
{
    match settings::nonblank(copy_of(configured)) {
        Some(c) => Some(c),
        None => copy_of(supplied),
    }
}

pub open spec fn empty_values() -> SamplingValues {
    SamplingValues {
        temperature: None,
        top_p: None,
        top_k: None,
        min_p: None,
        thinking_budget: None,
        max_output_tokens: None,
    }
}

/// The first of the values that count with which cannot be sampled.
pub open spec fn first_invalid(
    block: SamplingValues,
    env: SamplingValues,
    readings: SamplingReadings,
) -> Option<Seq<char>> {
    let bad = |name: Seq<char>, own: Option<String>, given: Option<String>, reading: FloatClass|
        !is_valid(name, resolved(text::optional(own), text::optional(given)), reading);
    if bad("temperature"@, env.temperature, block.temperature, readings.temperature) {
        Some("temperature"@)
    } else if bad("top_p"@, env.top_p, block.top_p, readings.top_p) {
        Some("top_p"@)
    } else if bad("top_k"@, env.top_k, block.top_k, FloatClass::NoNumber) {
        Some("top_k"@)
    } else if bad("min_p"@, env.min_p, block.min_p, readings.min_p) {
        Some("min_p"@)
    } else if bad(
        "thinking_budget"@,
        env.thinking_budget,
        block.thinking_budget,
        FloatClass::NoNumber,
    ) {
        Some("thinking_budget"@)
    } else if bad(
        "max_output_tokens"@,
        env.max_output_tokens,
        block.max_output_tokens,
        FloatClass::NoNumber,
    ) {
        Some("max_output_tokens"@)
    } else {
        None
    }
}

fn check_value(
    name: &str,
    own: &Option<String>,
    given: &Option<String>,
    reading: FloatClass,
) -> (r: Result<(), String>)
    ensures
        if is_valid(name@, resolved(text::optional(*own), text::optional(*given)), reading) {
            r is Ok
        } else {
            r matches Err(m) && m@ == invalid(name@)
        },
{
    match resolve_value(own, given) {
        Some(v) => validate_value(name, Some(v.as_str()), reading),
        None => validate_value(name, None, reading),
    }
}

/// Checks the values that a model is sampled with. A model of the catalog must have
/// every one of them.
pub fn validate(
    block: &SamplingValues,
    env: &SamplingValues,
    readings: SamplingReadings,
) -> (r: Result<(), String>)
    ensures
        match first_invalid(*block, *env, readings) {
            Some(name) => r matches Err(m) && m@ == invalid(name),
            None => r is Ok,
        },
{
    match check_value("temperature", &env.temperature, &block.temperature, readings.temperature) {
        Ok(_) => {},
        Err(m) => {
            return Err(m);
        },
    }
    match check_value("top_p", &env.top_p, &block.top_p, readings.top_p) {
        Ok(_) => {},
        Err(m) => {
            return Err(m);
        },
    }
    match check_value("top_k", &env.top_k, &block.top_k, FloatClass::NoNumber) {
        Ok(_) => {},
        Err(m) => {
            return Err(m);
        },
    }
    match check_value("min_p", &env.min_p, &block.min_p, readings.min_p) {
        Ok(_) => {},
        Err(m) => {
            return Err(m);
        },
    }
    match check_value(
        "thinking_budget",
        &env.thinking_budget,
        &block.thinking_budget,
        FloatClass::NoNumber,
    ) {
        Ok(_) => {},
        Err(m) => {
            return Err(m);
        },
    }
    check_value(
        "max_output_tokens",
        &env.max_output_tokens,
        &block.max_output_tokens,
        FloatClass::NoNumber,
    )
}

/// What a sampling block offers.
pub open spec fn sampling_offers(block: SamplingValues, env: SamplingValues) -> Seq<OfferModel> {
    seq![
        offer_model(
            "MILLIE_LLAMACPP_TEMPERATURE"@,
            "temp"@,
            text::optional(block.temperature),
            env.temperature,
            false,
        ),
        offer_model(
            "MILLIE_LLAMACPP_TOP_P"@,
            "top_p"@,
            text::optional(block.top_p),
            env.top_p,
            false,
        ),
        offer_model(
            "MILLIE_LLAMACPP_TOP_K"@,
            "top_k"@,
            text::optional(block.top_k),
            env.top_k,
            false,
        ),
        offer_model(
            "MILLIE_LLAMACPP_MIN_P"@,
            "min_p"@,
            text::optional(block.min_p),
            env.min_p,
            false,
        ),
        offer_model(
            "MILLIE_LLAMACPP_THINKING_BUDGET"@,
            "think-budget"@,
            text::optional(block.thinking_budget),
            env.thinking_budget,
            false,
        ),
        offer_model(
            "MILLIE_LLAMACPP_MAX_OUTPUT_TOKENS"@,
            "max-out"@,
            text::optional(block.max_output_tokens),
            env.max_output_tokens,
            false,
        ),
    ]
}

fn offers_of_block(b: &SamplingValues, env: &SamplingValues) -> (r: Vec<Offer>)
    ensures
        offer_models(r@) == sampling_offers(*b, *env),
{
    let mut out: Vec<Offer> = Vec::new();
    out.push(
        offer(
            "MILLIE_LLAMACPP_TEMPERATURE",
            "temp",
            copy_of(&b.temperature),
            &env.temperature,
            false,
        ),
    );
    out.push(offer("MILLIE_LLAMACPP_TOP_P", "top_p", copy_of(&b.top_p), &env.top_p, false));
    out.push(offer("MILLIE_LLAMACPP_TOP_K", "top_k", copy_of(&b.top_k), &env.top_k, false));
    out.push(offer("MILLIE_LLAMACPP_MIN_P", "min_p", copy_of(&b.min_p), &env.min_p, false));
    out.push(
        offer(
            "MILLIE_LLAMACPP_THINKING_BUDGET",
            "think-budget",
            copy_of(&b.thinking_budget),
            &env.thinking_budget,
            false,
        ),
    );
    out.push(
        offer(
            "MILLIE_LLAMACPP_MAX_OUTPUT_TOKENS",
            "max-out",
            copy_of(&b.max_output_tokens),
            &env.max_output_tokens,
            false,
        ),
    );
    assert(offer_models(out@) =~= sampling_offers(*b, *env));
    out
}

pub open spec fn sampling_line(said: Seq<Seq<char>>) -> Option<Seq<char>> {
    if said.len() == 0 {
        None
    } else {
        Some("millie: model sampling (catalog): "@ + text::join(said, ", "@))
    }
}

/// What a sampling block comes to.
pub open spec fn sampling_plan(
    block: Option<SamplingValues>,
    env: SamplingValues,
    readings: SamplingReadings,
) -> Result<PlanModel, Seq<char>> {
    let given = match block {
        Some(b) => b,
        None => empty_values(),
    };
    match first_invalid(given, env, readings) {
        Some(name) => Err(invalid(name)),
        None => if block is Some {
            let offers = sampling_offers(given, env);
            Ok(
                PlanModel {
                    exports: exports(offers, offers.len() as int),
                    message: sampling_line(notes(offers, offers.len() as int)),
                },
            )
        } else {
            Ok(PlanModel { exports: Seq::empty(), message: None })
        },
    }
}

/// The settings that the sampling block of a model supplies where the user has set
/// none. The values that count are checked first, all of them.
pub fn apply_model_sampling(
    block: Option<&SamplingValues>,
    env: &SamplingValues,
    readings: SamplingReadings,
) -> (r: Result<ServingPlan, String>)
    ensures
        match r {
            Ok(p) => sampling_plan(
                match block {
                    Some(b) => Some(*b),
                    None => None,
                },
                *env,
                readings,
            ) == Ok::<PlanModel, Seq<char>>(p@),
            Err(m) => sampling_plan(
                match block {
                    Some(b) => Some(*b),
                    None => None,
                },
                *env,
                readings,
            ) == Err::<PlanModel, Seq<char>>(m@),
        },
{
    match block {
        Some(b) => {
            match validate(b, env, readings) {
                Ok(_) => {},
                Err(m) => {
                    return Err(m);
                },
            }
            let offers = offers_of_block(b, env);
            let (exported, said) = supply(&offers);
            assert(said@.len() == text::strings(said@).len());
            let message: Option<String> = if said.len() == 0 {
                None
            } else {
                let mut m = "millie: model sampling (catalog): ".to_string();
                m.append(text::join_strings(&said, ", ").as_str());
                Some(m)
            };
            Ok(ServingPlan { exports: exported, message })
        },
        None => {
            let none = SamplingValues {
                temperature: None,
                top_p: None,
                top_k: None,
                min_p: None,
                thinking_budget: None,
                max_output_tokens: None,
            };
            match validate(&none, env, readings) {
                Ok(_) => {},
                Err(m) => {
                    return Err(m);
                },
            }
            let empty: Vec<(String, String)> = Vec::new();
            assert(pairs(empty@) =~= Seq::empty());
            Ok(ServingPlan { exports: empty, message: None })
        },
    }
}

// ---------------------------------------------------------------------------
// Laws.

proof fn setting_keys_differ()
    ensures
        "MILLIE_LLAMACPP_GPU"@ != "MILLIE_LLAMACPP_CTX_SIZE"@,
        "MILLIE_LLAMACPP_GPU"@ != "MILLIE_LLAMACPP_VISION"@,
        "MILLIE_LLAMACPP_GPU"@ != "MILLIE_LLAMACPP_KV_CACHE"@,
        "MILLIE_LLAMACPP_GPU"@ != "MILLIE_LLAMACPP_MMAP"@,
        "MILLIE_LLAMACPP_GPU"@ != "MILLIE_LLAMACPP_N_CPU_MOE"@,
        "MILLIE_LLAMACPP_CTX_SIZE"@ != "MILLIE_LLAMACPP_VISION"@,
        "MILLIE_LLAMACPP_CTX_SIZE"@ != "MILLIE_LLAMACPP_KV_CACHE"@,
        "MILLIE_LLAMACPP_CTX_SIZE"@ != "MILLIE_LLAMACPP_MMAP"@,
        "MILLIE_LLAMACPP_CTX_SIZE"@ != "MILLIE_LLAMACPP_N_CPU_MOE"@,
        "MILLIE_LLAMACPP_VISION"@ != "MILLIE_LLAMACPP_KV_CACHE"@,
        "MILLIE_LLAMACPP_VISION"@ != "MILLIE_LLAMACPP_MMAP"@,
        "MILLIE_LLAMACPP_VISION"@ != "MILLIE_LLAMACPP_N_CPU_MOE"@,
        "MILLIE_LLAMACPP_KV_CACHE"@ != "MILLIE_LLAMACPP_MMAP"@,
        "MILLIE_LLAMACPP_KV_CACHE"@ != "MILLIE_LLAMACPP_N_CPU_MOE"@,
        "MILLIE_LLAMACPP_MMAP"@ != "MILLIE_LLAMACPP_N_CPU_MOE"@,
{
    reveal_strlit("MILLIE_LLAMACPP_GPU");
    assert("MILLIE_LLAMACPP_GPU"@.len() == 19);
    reveal_strlit("MILLIE_LLAMACPP_CTX_SIZE");
    assert("MILLIE_LLAMACPP_CTX_SIZE"@.len() == 24);
    reveal_strlit("MILLIE_LLAMACPP_VISION");
    assert("MILLIE_LLAMACPP_VISION"@.len() == 22);
    reveal_strlit("MILLIE_LLAMACPP_KV_CACHE");
    assert("MILLIE_LLAMACPP_KV_CACHE"@.len() == 24);
    reveal_strlit("MILLIE_LLAMACPP_MMAP");
    assert("MILLIE_LLAMACPP_MMAP"@.len() == 20);
    reveal_strlit("MILLIE_LLAMACPP_N_CPU_MOE");
    assert("MILLIE_LLAMACPP_N_CPU_MOE"@.len() == 25);
    assert("MILLIE_LLAMACPP_CTX_SIZE"@[16] != "MILLIE_LLAMACPP_KV_CACHE"@[16]);
}

proof fn sampling_keys_differ()
    ensures
        "MILLIE_LLAMACPP_TEMPERATURE"@ != "MILLIE_LLAMACPP_TOP_P"@,
        "MILLIE_LLAMACPP_TEMPERATURE"@ != "MILLIE_LLAMACPP_TOP_K"@,
        "MILLIE_LLAMACPP_TEMPERATURE"@ != "MILLIE_LLAMACPP_MIN_P"@,
        "MILLIE_LLAMACPP_TEMPERATURE"@ != "MILLIE_LLAMACPP_THINKING_BUDGET"@,
        "MILLIE_LLAMACPP_TEMPERATURE"@ != "MILLIE_LLAMACPP_MAX_OUTPUT_TOKENS"@,
        "MILLIE_LLAMACPP_TOP_P"@ != "MILLIE_LLAMACPP_TOP_K"@,
        "MILLIE_LLAMACPP_TOP_P"@ != "MILLIE_LLAMACPP_MIN_P"@,
        "MILLIE_LLAMACPP_TOP_P"@ != "MILLIE_LLAMACPP_THINKING_BUDGET"@,
        "MILLIE_LLAMACPP_TOP_P"@ != "MILLIE_LLAMACPP_MAX_OUTPUT_TOKENS"@,
        "MILLIE_LLAMACPP_TOP_K"@ != "MILLIE_LLAMACPP_MIN_P"@,
        "MILLIE_LLAMACPP_TOP_K"@ != "MILLIE_LLAMACPP_THINKING_BUDGET"@,
        "MILLIE_LLAMACPP_TOP_K"@ != "MILLIE_LLAMACPP_MAX_OUTPUT_TOKENS"@,
        "MILLIE_LLAMACPP_MIN_P"@ != "MILLIE_LLAMACPP_THINKING_BUDGET"@,
        "MILLIE_LLAMACPP_MIN_P"@ != "MILLIE_LLAMACPP_MAX_OUTPUT_TOKENS"@,
        "MILLIE_LLAMACPP_THINKING_BUDGET"@ != "MILLIE_LLAMACPP_MAX_OUTPUT_TOKENS"@,
{
    reveal_strlit("MILLIE_LLAMACPP_TEMPERATURE");
    assert("MILLIE_LLAMACPP_TEMPERATURE"@.len() == 27);
    reveal_strlit("MILLIE_LLAMACPP_TOP_P");
    assert("MILLIE_LLAMACPP_TOP_P"@.len() == 21);
    reveal_strlit("MILLIE_LLAMACPP_TOP_K");
    assert("MILLIE_LLAMACPP_TOP_K"@.len() == 21);
    reveal_strlit("MILLIE_LLAMACPP_MIN_P");
    assert("MILLIE_LLAMACPP_MIN_P"@.len() == 21);
    reveal_strlit("MILLIE_LLAMACPP_THINKING_BUDGET");
    assert("MILLIE_LLAMACPP_THINKING_BUDGET"@.len() == 31);
    reveal_strlit("MILLIE_LLAMACPP_MAX_OUTPUT_TOKENS");
    assert("MILLIE_LLAMACPP_MAX_OUTPUT_TOKENS"@.len() == 33);
    assert("MILLIE_LLAMACPP_TOP_P"@[20] != "MILLIE_LLAMACPP_TOP_K"@[20]);
    assert("MILLIE_LLAMACPP_TOP_P"@[16] != "MILLIE_LLAMACPP_MIN_P"@[16]);
    assert("MILLIE_LLAMACPP_TOP_K"@[16] != "MILLIE_LLAMACPP_MIN_P"@[16]);
}

proof fn sampling_names_differ()
    ensures
        "temperature"@ != "top_p"@,
        "temperature"@ != "top_k"@,
        "temperature"@ != "min_p"@,
        "temperature"@ != "thinking_budget"@,
        "temperature"@ != "max_output_tokens"@,
        "top_p"@ != "top_k"@,
        "top_p"@ != "min_p"@,
        "top_p"@ != "thinking_budget"@,
        "top_p"@ != "max_output_tokens"@,
        "top_k"@ != "min_p"@,
        "top_k"@ != "thinking_budget"@,
        "top_k"@ != "max_output_tokens"@,
        "min_p"@ != "thinking_budget"@,
        "min_p"@ != "max_output_tokens"@,
        "thinking_budget"@ != "max_output_tokens"@,
{
    reveal_strlit("temperature");
    assert("temperature"@.len() == 11);
    reveal_strlit("top_p");
    assert("top_p"@.len() == 5);
    reveal_strlit("top_k");
    assert("top_k"@.len() == 5);
    reveal_strlit("min_p");
    assert("min_p"@.len() == 5);
    reveal_strlit("thinking_budget");
    assert("thinking_budget"@.len() == 15);
    reveal_strlit("max_output_tokens");
    assert("max_output_tokens"@.len() == 17);
    assert("top_p"@[4] != "top_k"@[4]);
    assert("top_p"@[0] != "min_p"@[0]);
    assert("top_k"@[0] != "min_p"@[0]);
}

proof fn provider_names_differ()
    ensures
        "lmstudio"@ != "ollama"@,
        "lmstudio"@ != "llamacpp"@,
        "lmstudio"@ != "vllm"@,
        "ollama"@ != "llamacpp"@,
        "ollama"@ != "vllm"@,
        "llamacpp"@ != "vllm"@,
{
    reveal_strlit("lmstudio");
    assert("lmstudio"@.len() == 8);
    reveal_strlit("ollama");
    assert("ollama"@.len() == 6);
    reveal_strlit("llamacpp");
    assert("llamacpp"@.len() == 8);
    reveal_strlit("vllm");
    assert("vllm"@.len() == 4);
    assert("lmstudio"@[1] != "llamacpp"@[1]);
}

/// Each provider has the model that is kept for it, and one that is not known has none.
pub proof fn providers_have_their_models(
    provider: Seq<char>,
    lmstudio: Seq<char>,
    ollama: Seq<char>,
    picked: Option<Seq<char>>,
    first: Option<Seq<char>>,
)
    ensures
        default_model("lmstudio"@, lmstudio, ollama, picked, first) == Some(lmstudio),
        default_model("ollama"@, lmstudio, ollama, picked, first) == Some(ollama),
        default_model("llamacpp"@, lmstudio, ollama, picked, first) == picked,
        default_model("vllm"@, lmstudio, ollama, picked, first) == first,
        default_model(provider, lmstudio, ollama, picked, first) is Some ==> provider == "lmstudio"@
            || provider == "ollama"@ || provider == "llamacpp"@ || provider == "vllm"@,
{
    provider_names_differ();
}

/// The server on this machine is known by its port, by number or by name, whether or not the
/// version stands behind it; another port is not its own.
pub proof fn own_servers_are_known_by_their_port(port: u16, other: u16)
    ensures
        ({
            let by_number = "http://127.0.0.1:"@ + text::decimal(port as nat);
            let by_name = "http://localhost:"@ + text::decimal(port as nat);
            &&& is_own_server(by_number, port)
            &&& is_own_server(by_number + "/v1"@, port)
            &&& is_own_server(by_name, port)
            &&& is_own_server(by_name + "/v1"@, port)
            &&& other != port ==> !is_own_server(by_number + "/v1"@, other) && !is_own_server(
                by_name + "/v1"@,
                other,
            )
        }),
{
    reveal_strlit("http://127.0.0.1:");
    reveal_strlit("http://localhost:");
    assert("http://127.0.0.1:"@.len() == 17 && "http://localhost:"@.len() == 17);
    let by_number = "http://127.0.0.1:"@ + text::decimal(port as nat);
    let by_name = "http://localhost:"@ + text::decimal(port as nat);
    address_is_root("http://127.0.0.1:"@, port as nat);
    address_is_root("http://localhost:"@, port as nat);
    text::decimal_is_read_back(port as nat);
    text::decimal_is_read_back(other as nat);
    if other != port {
        let number_of_other = "http://127.0.0.1:"@ + text::decimal(other as nat);
        let name_of_other = "http://localhost:"@ + text::decimal(other as nat);
        assert(by_number.skip(17) =~= text::decimal(port as nat));
        assert(by_name.skip(17) =~= text::decimal(port as nat));
        assert(number_of_other.skip(17) =~= text::decimal(other as nat));
        assert(name_of_other.skip(17) =~= text::decimal(other as nat));
        assert(by_number[7] == '1' && name_of_other[7] == 'l');
        assert(by_name[7] == 'l' && number_of_other[7] == '1');
    }
}

proof fn address_is_root(front: Seq<char>, port: nat)
    requires
        front.len() > 2,
        front.last() == ':',
    ensures
        request::root_of(front + text::decimal(port)) == front + text::decimal(port),
        request::root_of(front + text::decimal(port) + "/v1"@) == front + text::decimal(port),
{
    reveal_strlit("/v1");
    let d = text::decimal(port);
    let root = front + d;
    text::numerals_are_not_trimmed(port, Seq::empty(), Seq::empty());
    assert(root.last() == d.last());
    if text::ends_in(root, "/v1"@) {
        let end = root.skip(root.len() - 3);
        assert(end[1] == 'v');
        assert(root[root.len() - 2] == 'v');
        if d.len() >= 2 {
            assert(root[root.len() - 2] == d[d.len() - 2]);
        } else {
            assert(root[root.len() - 2] == front.last());
        }
    }
    request::addresses_lead_to_their_root(root);
}

/// The name of a file in a repository is its owner, the repository and the path in it, with
/// slashes between them; what lacks one of them is none.
pub proof fn repository_files_have_three_parts(org: Seq<char>, repo: Seq<char>, file: Seq<char>)
    requires
        org.len() > 0 && repo.len() > 0 && file.len() > 0,
        !org.contains('/') && !repo.contains('/'),
        !text::is_white(org[0]),
        !text::is_white(file.last()),
        !text::is_white(repo.last()),
    ensures
        hf_parts(org + seq!['/'] + (repo + seq!['/'] + file)) == Some((org + seq!['/'] + repo, file)),
        hf_parts(org + seq!['/'] + repo) is None,
        hf_parts(org + seq!['/'] + (repo + seq!['/'])) is None,
{
    let none = Seq::<char>::empty();
    let rest = repo + seq!['/'] + file;
    let all = org + seq!['/'] + rest;
    assert(org[0] != '/') by {
        assert(org.contains(org[0]));
    }
    assert(all[0] == org[0]);
    assert(all.last() == file.last());
    text::trim_takes_off_the_white(none, all, none);
    parted(org, rest, '/');
    parted(repo, file, '/');
    let short = org + seq!['/'] + repo;
    assert(short[0] == org[0] && short.last() == repo.last());
    text::trim_takes_off_the_white(none, short, none);
    parted(org, repo, '/');
    text::upto_shape(repo, '/');
    assert(text::upto(repo, '/') == repo.len()) by {
        if text::upto(repo, '/') < repo.len() {
            assert(repo.contains(repo[text::upto(repo, '/')]));
        }
    }
    let ended = org + seq!['/'] + (repo + seq!['/']);
    assert(ended[0] == org[0] && ended.last() == '/');
    text::white_below_delete('/');
    text::trim_takes_off_the_white(none, ended, none);
    parted(org, repo + seq!['/'], '/');
    parted(repo, none, '/');
    assert(repo + seq!['/'] + none =~= repo + seq!['/']);
}

proof fn parted(a: Seq<char>, b: Seq<char>, c: char)
    requires
        !a.contains(c),
    ensures
        text::halves(a + seq![c] + b, c) == Some((a, b)),
{
    let s = a + seq![c] + b;
    text::upto_shape(s, c);
    assert(s[a.len() as int] == c);
    if text::upto(s, c) < a.len() {
        assert(s[text::upto(s, c)] == a[text::upto(s, c)]);
        assert(a.contains(a[text::upto(s, c)]));
    }
    assert(s.take(a.len() as int) =~= a);
    assert(s.skip(a.len() as int + 1) =~= b);
}

/// The context is the least of the cap and of what is wanted, where both are given; one of
/// them alone holds as it is, and a wish that no size can meet counts as none.
pub proof fn the_least_context_holds(cap: u32, wanted: u32, beyond: i64)
    requires
        beyond < 0 || beyond > u32::MAX,
    ensures
        least_context(Some(cap), Some(wanted as i64)) matches Some(c) && c <= cap && c <= wanted && (c
            == cap || c == wanted),
        least_context(Some(cap), None) == Some(cap),
        least_context(None, Some(wanted as i64)) == Some(wanted),
        least_context(None, None) is None,
        least_context(Some(cap), Some(beyond)) == Some(cap),
        least_context(None, Some(beyond)) is None,
{
}

/// What is offered is supplied under its name where nothing is set for it, and nothing else
/// is supplied.
pub proof fn unset_offers_are_supplied(offers: Seq<OfferModel>, n: int)
    requires
        0 <= n <= offers.len(),
    ensures
        forall|i: int|
            0 <= i < n && settings::filled((#[trigger] offers[i]).configured) is None
                && offers[i].value is Some ==> exports(offers, n).contains(
                (offers[i].key, offers[i].value.unwrap()),
            ),
        forall|k: int|
            0 <= k < exports(offers, n).len() ==> exists|i: int|
                0 <= i < n && (#[trigger] offers[i]).key == (#[trigger] exports(offers, n)[k]).0
                    && offers[i].value == Some(exports(offers, n)[k].1) && settings::filled(
                    offers[i].configured,
                ) is None,
    decreases n,
{
    if n > 0 {
        unset_offers_are_supplied(offers, n - 1);
        let before = exports(offers, n - 1);
        let all = exports(offers, n);
        assert forall|i: int|
            0 <= i < n && settings::filled((#[trigger] offers[i]).configured) is None
                && offers[i].value is Some implies all.contains(
            (offers[i].key, offers[i].value.unwrap()),
        ) by {
            let wanted = (offers[i].key, offers[i].value.unwrap());
            if i < n - 1 {
                let k = choose|k: int| 0 <= k < before.len() && before[k] == wanted;
                assert(all[k] == wanted);
            } else {
                assert(all[before.len() as int] == wanted);
            }
        }
        assert forall|k: int| 0 <= k < all.len() implies exists|i: int|
            0 <= i < n && (#[trigger] offers[i]).key == (#[trigger] all[k]).0 && offers[i].value
                == Some(all[k].1) && settings::filled(offers[i].configured) is None by {
            if k < before.len() {
                assert(all[k] == before[k]);
                let i = choose|i: int|
                    0 <= i < n - 1 && (#[trigger] offers[i]).key == (#[trigger] before[k]).0
                        && offers[i].value == Some(before[k].1) && settings::filled(
                        offers[i].configured,
                    ) is None;
                assert(offers[i].key == all[k].0);
            } else {
                assert(offers[n - 1].key == all[k].0);
            }
        }
    }
}

/// A profile supplies each of its settings under the name of that setting, where nothing is
/// set for it; the device is left alone on a machine whose memory is one.
pub proof fn profiles_supply_their_settings(
    p: ModelProfile,
    env: ServingEnv,
    wanted: Option<i64>,
    apple_silicon: bool,
    is_pinned: bool,
    value: Seq<char>,
)
    ensures
        ({
            let given = plan_by(p, env, wanted, apple_silicon, is_pinned).exports;
            let s = p.settings;
            &&& given.contains(("MILLIE_LLAMACPP_GPU"@, value)) <==> !apple_silicon
                && settings::filled(text::optional(env.gpu)) is None && ((s.gpu == Some(true)
                && value == "0"@) || (s.gpu == Some(false) && value == "none"@))
            &&& given.contains(("MILLIE_LLAMACPP_CTX_SIZE"@, value)) <==> settings::filled(
                text::optional(env.ctx_size),
            ) is None && (least_context(s.ctx_size, wanted) matches Some(c) && value
                == text::decimal(c as nat))
            &&& given.contains(("MILLIE_LLAMACPP_VISION"@, value)) <==> settings::filled(
                text::optional(env.vision),
            ) is None && ((s.vision == Some(true) && value == "1"@) || (s.vision == Some(false)
                && value == "0"@))
            &&& given.contains(("MILLIE_LLAMACPP_KV_CACHE"@, value)) <==> settings::filled(
                text::optional(env.kv_cache),
            ) is None && text::optional(s.kv_cache) == Some(value)
            &&& given.contains(("MILLIE_LLAMACPP_MMAP"@, value)) <==> settings::filled(
                text::optional(env.mmap),
            ) is None && ((s.mmap == Some(true) && value == "1"@) || (s.mmap == Some(false) && value
                == "0"@))
            &&& given.contains(("MILLIE_LLAMACPP_N_CPU_MOE"@, value)) <==> settings::filled(
                text::optional(env.n_cpu_moe),
            ) is None && (s.n_cpu_moe matches Some(c) && value == text::decimal(c as nat))
        }),
{
    setting_keys_differ();
    let offers = profile_offers(p.settings, env, wanted, apple_silicon);
    let n = offers.len() as int;
    let from: int = if apple_silicon {
        0
    } else {
        1
    };
    let m = memory_offers(p.settings, env, wanted);
    assert(m.len() == 5);
    assert(n == from + 5);
    assert forall|i: int| 0 <= i < 5 implies offers[from + i] == #[trigger] m[i] by {}
    assert(m[0].key == "MILLIE_LLAMACPP_CTX_SIZE"@);
    assert(m[1].key == "MILLIE_LLAMACPP_VISION"@);
    assert(m[2].key == "MILLIE_LLAMACPP_KV_CACHE"@);
    assert(m[3].key == "MILLIE_LLAMACPP_MMAP"@);
    assert(m[4].key == "MILLIE_LLAMACPP_N_CPU_MOE"@);
    keys_of_offers(offers, from, m);
    supplied_at(offers, from, value);
    supplied_at(offers, from + 1, value);
    supplied_at(offers, from + 2, value);
    supplied_at(offers, from + 3, value);
    supplied_at(offers, from + 4, value);
    if !apple_silicon {
        assert(offers[0].key == "MILLIE_LLAMACPP_GPU"@);
        supplied_at(offers, 0, value);
    } else {
        let wanted_pair = ("MILLIE_LLAMACPP_GPU"@, value);
        if exports(offers, n).contains(wanted_pair) {
            unset_offers_are_supplied(offers, n);
            let k = choose|k: int|
                0 <= k < exports(offers, n).len() && exports(offers, n)[k] == wanted_pair;
            let i = choose|i: int|
                0 <= i < n && (#[trigger] offers[i]).key == (#[trigger] exports(offers, n)[k]).0;
            assert(offers[from + i] == m[i]);
        }
    }
}

proof fn keys_of_offers(offers: Seq<OfferModel>, from: int, m: Seq<OfferModel>)
    requires
        from == 0 || from == 1,
        m.len() == 5,
        offers.len() == from + 5,
        forall|i: int| 0 <= i < 5 ==> offers[from + i] == #[trigger] m[i],
        m[0].key == "MILLIE_LLAMACPP_CTX_SIZE"@,
        m[1].key == "MILLIE_LLAMACPP_VISION"@,
        m[2].key == "MILLIE_LLAMACPP_KV_CACHE"@,
        m[3].key == "MILLIE_LLAMACPP_MMAP"@,
        m[4].key == "MILLIE_LLAMACPP_N_CPU_MOE"@,
        from == 1 ==> offers[0].key == "MILLIE_LLAMACPP_GPU"@,
    ensures
        forall|a: int, b: int|
            0 <= a < b < offers.len() ==> (#[trigger] offers[a]).key != (#[trigger] offers[b]).key,
{
    setting_keys_differ();
    assert forall|a: int, b: int| 0 <= a < b < offers.len() implies (#[trigger] offers[a]).key != (
    #[trigger] offers[b]).key by {
        assert(offers[from + (b - from)] == m[b - from]);
        if a >= from {
            assert(offers[from + (a - from)] == m[a - from]);
        }
    }
}

proof fn supplied_at(offers: Seq<OfferModel>, i: int, value: Seq<char>)
    requires
        0 <= i < offers.len(),
        forall|a: int, b: int|
            0 <= a < b < offers.len() ==> (#[trigger] offers[a]).key != (#[trigger] offers[b]).key,
    ensures
        exports(offers, offers.len() as int).contains((offers[i].key, value)) <==> settings::filled(
            offers[i].configured,
        ) is None && offers[i].value == Some(value),
{
    let n = offers.len() as int;
    let all = exports(offers, n);
    unset_offers_are_supplied(offers, n);
    let pair = (offers[i].key, value);
    if all.contains(pair) {
        let k = choose|k: int| 0 <= k < all.len() && all[k] == pair;
        let j = choose|j: int|
            0 <= j < n && (#[trigger] offers[j]).key == (#[trigger] exports(offers, n)[k]).0
                && offers[j].value == Some(exports(offers, n)[k].1) && settings::filled(
                offers[j].configured,
            ) is None;
        if j < i {
            assert(offers[j].key != offers[i].key);
        } else if i < j {
            assert(offers[i].key != offers[j].key);
        }
    }
}

/// A profile that is named and not known is refused; else a plan is made, by the profile that
/// is chosen, which it names, or by none.
pub proof fn only_unknown_profiles_are_refused(
    d: ModelDownload,
    mem: MachineMemory,
    env: ServingEnv,
    a: Seq<char>,
    name: Seq<char>,
    b: Seq<char>,
    wanted: Option<i64>,
    apple_silicon: bool,
    vram: Seq<char>,
    ram: Seq<char>,
)
    requires
        text::is_blank(a),
        text::is_blank(b),
        name.len() > 0,
        !text::is_white(name[0]),
        !text::is_white(name.last()),
    ensures
        serving_plan(d, mem, env, None, wanted, apple_silicon, vram, ram) is Ok,
        serving_plan(d, mem, env, Some(a), wanted, apple_silicon, vram, ram) is Ok,
        ({
            let plan = serving_plan(
                d,
                mem,
                env,
                Some(a + name + b),
                wanted,
                apple_silicon,
                vram,
                ram,
            );
            &&& plan is Err <==> forall|i: int|
                0 <= i < d.profiles@.len() ==> (#[trigger] d.profiles@[i]).name@ != name
            &&& plan is Ok ==> exists|i: int|
                0 <= i < d.profiles@.len() && (#[trigger] d.profiles@[i]).name@ == name && plan
                    == Ok::<PlanModel, Seq<char>>(
                    plan_by(d.profiles@[i], env, wanted, apple_silicon, true),
                )
        }),
{
    text::trim_takes_off_the_white(a, name, b);
    text::trim_of_blank(a);
    let profiles = d.profiles@;
    named_is_found(profiles, name, 0);
    catalog::profiles_are_chosen_by_name_then_by_fit(
        profiles,
        mem,
        text::optional(env.gpu),
        Some(name),
    );
}

proof fn named_is_found(profiles: Seq<ModelProfile>, name: Seq<char>, from: int)
    requires
        0 <= from <= profiles.len(),
    ensures
        match catalog::first_named(profiles, name, from) {
            Some(i) => from <= i < profiles.len() && profiles[i].name@ == name,
            None => forall|i: int|
                from <= i < profiles.len() ==> (#[trigger] profiles[i]).name@ != name,
        },
    decreases profiles.len() - from,
{
    if from < profiles.len() && profiles[from].name@ != name {
        named_is_found(profiles, name, from + 1);
    }
}

/// The line on a profile says its name and whether it was pinned.
pub proof fn profile_lines_name_the_profile(name: Seq<char>, said: Seq<Seq<char>>)
    ensures
        text::begins_with(
            profile_line(name, true, said),
            "millie: serving profile "@ + name + " (pinned): "@,
        ),
        text::begins_with(
            profile_line(name, false, said),
            "millie: serving profile "@ + name + " (detected): "@,
        ),
{
    reveal_strlit(" (");
    reveal_strlit("pinned");
    reveal_strlit("detected");
    reveal_strlit("): ");
    reveal_strlit(" (pinned): ");
    reveal_strlit(" (detected): ");
    let one = "millie: serving profile "@ + name + " (pinned): "@;
    let other = "millie: serving profile "@ + name + " (detected): "@;
    assert(" (pinned): "@ =~= " ("@ + "pinned"@ + "): "@);
    assert(" (detected): "@ =~= " ("@ + "detected"@ + "): "@);
    assert(profile_line(name, true, said).take(one.len() as int) =~= one);
    assert(profile_line(name, false, said).take(other.len() as int) =~= other);
}

/// A number is a setting of its kind exactly where it lies in the range of that kind, and
/// nothing is one where no value is given.
pub proof fn sampling_values_lie_in_their_range(n: nat, v: Seq<char>, name: Seq<char>, r: FloatClass)
    ensures
        !is_valid(name, None, r),
        is_valid("thinking_budget"@, Some(text::decimal(n)), r) <==> n <= u32::MAX,
        is_valid("max_output_tokens"@, Some(text::decimal(n)), r) <==> 0 < n <= u32::MAX,
        is_valid("top_k"@, Some(text::decimal(n)), r) <==> n <= i32::MAX,
        n > 0 ==> !is_valid("top_k"@, Some(seq!['-'] + text::decimal(n)), r),
        is_valid("top_p"@, Some(v), r) <==> r is UnitInterval,
        is_valid("min_p"@, Some(v), r) <==> r is UnitInterval,
        is_valid("temperature"@, Some(v), r) <==> r is UnitInterval || r is AboveOne,
{
    sampling_names_differ();
    let none = Seq::<char>::empty();
    let d = text::decimal(n);
    text::numerals_are_not_trimmed(n, none, none);
    text::decimal_is_read_back(n);
    text::numbers_are_read_back(n, u32::MAX as nat, none);
    text::numbers_are_read_back(n, i32::MAX as nat, none);
    assert(none + d =~= d);
    let minus = seq!['-'] + d;
    text::white_below_delete('-');
    text::white_below_delete(d.last());
    text::trim_takes_off_the_white(none, minus, none);
    assert(minus.skip(1) =~= d);
}

pub open spec fn all_are_valid(block: SamplingValues, env: SamplingValues, r: SamplingReadings) -> bool {
    let ok = |name: Seq<char>, own: Option<String>, given: Option<String>, reading: FloatClass|
        is_valid(name, resolved(text::optional(own), text::optional(given)), reading);
    &&& ok("temperature"@, env.temperature, block.temperature, r.temperature)
    &&& ok("top_p"@, env.top_p, block.top_p, r.top_p)
    &&& ok("min_p"@, env.min_p, block.min_p, r.min_p)
    &&& ok("top_k"@, env.top_k, block.top_k, FloatClass::NoNumber)
    &&& ok("thinking_budget"@, env.thinking_budget, block.thinking_budget, FloatClass::NoNumber)
    &&& ok(
        "max_output_tokens"@,
        env.max_output_tokens,
        block.max_output_tokens,
        FloatClass::NoNumber,
    )
}

/// A plan for sampling is made exactly where every setting has a valid value, and what is set
/// comes before what the catalog says.
pub proof fn all_sampling_values_are_needed(
    block: Option<SamplingValues>,
    env: SamplingValues,
    r: SamplingReadings,
    set: Seq<char>,
    blank: Seq<char>,
    given: Option<Seq<char>>,
)
    requires
        !text::is_blank(set),
        text::is_blank(blank),
    ensures
        block matches Some(b) ==> (sampling_plan(block, env, r) is Ok <==> all_are_valid(b, env, r)),
        block is None ==> (sampling_plan(block, env, r) is Ok <==> all_are_valid(
            empty_values(),
            env,
            r,
        )),
        block is None ==> (sampling_plan(block, env, r) matches Ok(p) ==> p.exports.len() == 0),
        resolved(Some(set), given) == Some(set),
        resolved(None, given) == given,
        resolved(Some(blank), given) == given,
{
}

/// The settings of the catalog are supplied under their names, where nothing is set for them.
pub proof fn catalogs_supply_their_sampling(
    block: SamplingValues,
    env: SamplingValues,
    value: Seq<char>,
)
    ensures
        ({
            let offers = sampling_offers(block, env);
            let given = exports(offers, offers.len() as int);
            &&& given.contains(("MILLIE_LLAMACPP_TEMPERATURE"@, value)) <==> settings::filled(
                text::optional(env.temperature),
            ) is None && text::optional(block.temperature) == Some(value)
            &&& given.contains(("MILLIE_LLAMACPP_TOP_P"@, value)) <==> settings::filled(
                text::optional(env.top_p),
            ) is None && text::optional(block.top_p) == Some(value)
            &&& given.contains(("MILLIE_LLAMACPP_TOP_K"@, value)) <==> settings::filled(
                text::optional(env.top_k),
            ) is None && text::optional(block.top_k) == Some(value)
            &&& given.contains(("MILLIE_LLAMACPP_MIN_P"@, value)) <==> settings::filled(
                text::optional(env.min_p),
            ) is None && text::optional(block.min_p) == Some(value)
            &&& given.contains(("MILLIE_LLAMACPP_THINKING_BUDGET"@, value)) <==> settings::filled(
                text::optional(env.thinking_budget),
            ) is None && text::optional(block.thinking_budget) == Some(value)
            &&& given.contains(("MILLIE_LLAMACPP_MAX_OUTPUT_TOKENS"@, value)) <==> settings::filled(
                text::optional(env.max_output_tokens),
            ) is None && text::optional(block.max_output_tokens) == Some(value)
        }),
{
    sampling_keys_differ();
    let offers = sampling_offers(block, env);
    assert(offers.len() == 6);
    assert(offers[0].key == "MILLIE_LLAMACPP_TEMPERATURE"@);
    assert(offers[1].key == "MILLIE_LLAMACPP_TOP_P"@);
    assert(offers[2].key == "MILLIE_LLAMACPP_TOP_K"@);
    assert(offers[3].key == "MILLIE_LLAMACPP_MIN_P"@);
    assert(offers[4].key == "MILLIE_LLAMACPP_THINKING_BUDGET"@);
    assert(offers[5].key == "MILLIE_LLAMACPP_MAX_OUTPUT_TOKENS"@);
    assert forall|a: int, b: int| 0 <= a < b < offers.len() implies (#[trigger] offers[a]).key != (
    #[trigger] offers[b]).key by {}
    supplied_at(offers, 0, value);
    supplied_at(offers, 1, value);
    supplied_at(offers, 2, value);
    supplied_at(offers, 3, value);
    supplied_at(offers, 4, value);
    supplied_at(offers, 5, value);
}

/// Every setting is noted in its order: one that is set with the word that it was, one that is
/// supplied without, and one that is neither not at all.
pub proof fn settings_are_noted(offers: Seq<OfferModel>, last: OfferModel, v: Seq<char>)
    requires
        !last.as_switch,
    ensures
        ({
            let n = offers.len() as int;
            let before = notes(offers, n);
            let after = notes(offers.push(last), n + 1);
            &&& last.configured == Some(v) && !text::is_blank(v) ==> after == before.push(
                last.label + " "@ + v + " (config)"@,
            )
            &&& last.configured is None && last.value == Some(v) ==> after == before.push(
                last.label + " "@ + v,
            )
            &&& last.configured is None && last.value is None ==> after == before
        }),
        shown_value("1"@, true) == "on"@,
        shown_value("0"@, true) == "off"@,
{
    same_notes(offers, last, offers.len() as int);
    assert(offers.push(last)[offers.len() as int] == last);
    let none = Seq::<char>::empty();
    reveal_strlit("1");
    reveal_strlit("0");
    reveal_strlit("true");
    reveal_strlit("on");
    assert("1"@.len() == 1 && "0"@.len() == 1 && "true"@.len() == 4 && "on"@.len() == 2);
    assert("1"@[0] != "0"@[0]);
    text::white_below_delete('1');
    text::white_below_delete('0');
    text::trim_takes_off_the_white(none, "1"@, none);
    text::trim_takes_off_the_white(none, "0"@, none);
}

proof fn same_notes(offers: Seq<OfferModel>, last: OfferModel, n: int)
    requires
        0 <= n <= offers.len(),
    ensures
        notes(offers.push(last), n) == notes(offers, n),
    decreases n,
{
    if n > 0 {
        same_notes(offers, last, n - 1);
        assert(offers.push(last)[n - 1] == offers[n - 1]);
    }
}

} // verus!
