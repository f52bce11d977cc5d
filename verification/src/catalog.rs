//! The model catalog: the models, what each needs to run, and which of them a
//! machine should serve.
//!
//! Amounts of memory are held as keys: integers in the order of the amounts they
//! stand for. Amounts themselves are fractions and belong to the caller.

use crate::system_prompt::LookupError;
use crate::system_prompt::LookupErrorKind;
use crate::text;
use vstd::prelude::*;
use vstd::string::*;

verus! {

/// A model of the catalog.
#[derive(Debug)]
pub struct ModelInfo {
    pub slug: String,
    pub display_name: String,
    pub base_instructions: String,
    /// The personality that is filled in by default, where the model has messages
    /// of its own.
    pub default_personality: Option<String>,
    pub instructions_template: Option<String>,
    pub has_messages: bool,
}

pub open spec fn slugs(models: Seq<ModelInfo>) -> Seq<Seq<char>> {
    models.map_values(|m: ModelInfo| m.slug@)
}

/// A catalog that can be used: it lists a model at least.
#[derive(Debug)]
pub struct Catalog {
    pub models: Vec<ModelInfo>,
}

impl Catalog {
    pub open spec fn well_formed(&self) -> bool {
        self.models@.len() > 0
    }
}

/// What reading one place of the catalog gave.
#[derive(Debug)]
pub enum CatalogRead {
    Models(Vec<ModelInfo>),
    /// It is no catalog.
    Unreadable(String),
    Missing,
    Failed(String),
}

/// What to do behind a read.
#[derive(Debug)]
pub enum CatalogStep {
    Found(Catalog),
    TryNext,
    Fail(LookupError),
}

/// Why a place of the catalog ends the lookup.
pub open spec fn refusal(path: Seq<char>, read: CatalogRead) -> Option<
    (LookupErrorKind, Seq<char>),
> {
    match read {
        CatalogRead::Models(models) => if models@.len() == 0 {
            Some(
                (LookupErrorKind::InvalidData, "model catalog "@ + path + " lists no models"@),
            )
        } else {
            None
        },
        CatalogRead::Unreadable(e) => Some(
            (
                LookupErrorKind::InvalidData,
                "model catalog "@ + path + " does not parse: "@ + e@,
            ),
        ),
        CatalogRead::Missing => None,
        CatalogRead::Failed(e) => Some(
            (LookupErrorKind::Read, "failed to read model catalog "@ + path + ": "@ + e@),
        ),
    }
}

/// Takes what reading a place gave: a catalog that lists models ends the lookup, and so
/// does one that lists none, or that cannot be read; only a place without a file is
/// passed over.
pub fn catalog_step(path: &str, read: CatalogRead) -> (r: CatalogStep)
    ensures
        match refusal(path@, read) {
            Some((kind, message)) => r matches CatalogStep::Fail(e) && e.kind == kind && e.message@
                == message,
            None => match read {
                CatalogRead::Models(models) => r matches CatalogStep::Found(c) && c.models == models
                    && c.well_formed(),
                _ => r is TryNext,
            },
        },
{
    match read {
        CatalogRead::Models(models) => if models.len() == 0 {
            let mut message = "model catalog ".to_string();
            message.append(path);
            message.append(" lists no models");
            CatalogStep::Fail(LookupError { kind: LookupErrorKind::InvalidData, message })
        } else {
            CatalogStep::Found(Catalog { models })
        },
        CatalogRead::Unreadable(e) => {
            let mut message = "model catalog ".to_string();
            message.append(path);
            message.append(" does not parse: ");
            message.append(e.as_str());
            CatalogStep::Fail(LookupError { kind: LookupErrorKind::InvalidData, message })
        },
        CatalogRead::Missing => CatalogStep::TryNext,
        CatalogRead::Failed(e) => {
            let mut message = "failed to read model catalog ".to_string();
            message.append(path);
            message.append(": ");
            message.append(e.as_str());
            CatalogStep::Fail(LookupError { kind: LookupErrorKind::Read, message })
        },
    }
}

/// The slugs in the order of the catalog; where it cannot be used, why not.
pub open spec fn listed(catalog: Result<Catalog, LookupError>) -> Result<
    Seq<Seq<char>>,
    (LookupErrorKind, Seq<char>),
> {
    match catalog {
        Ok(c) => Ok(slugs(c.models@)),
        Err(e) => Err((e.kind, e.message@)),
    }
}

/// The default local model: the first of the catalog; where there is none, why not.
pub open spec fn default_of(catalog: Result<Catalog, LookupError>) -> Result<
    Seq<char>,
    (LookupErrorKind, Seq<char>),
> {
    match catalog {
        Ok(c) => Ok(c.models@[0].slug@),
        Err(e) => Err((e.kind, e.message@)),
    }
}

/// The slugs in the order of the catalog; where it cannot be used, why not.
pub fn model_slugs(catalog: &Result<Catalog, LookupError>) -> (r: Result<Vec<String>, LookupError>)
    ensures
        match listed(*catalog) {
            Ok(all) => r matches Ok(v) && text::strings(v@) == all,
            Err((kind, message)) => r matches Err(e) && e.kind == kind && e.message@ == message,
        },
{
    let models = match catalog {
        Ok(c) => &c.models,
        Err(e) => {
            return Err(LookupError { kind: e.kind, message: e.message.clone() });
        },
    };
    let ghost goal = slugs(models@);
    let mut out: Vec<String> = Vec::new();
    let mut i: usize = 0;
    assert(text::strings(out@) =~= goal.take(0));
    while i < models.len()
        invariant
            i <= models@.len(),
            goal == slugs(models@),
            text::strings(out@) == goal.take(i as int),
        decreases models@.len() - i,
    {
        let ghost before = out@;
        let slug = models[i].slug.clone();
        out.push(slug);
        assert(text::strings(out@) =~= text::strings(before).push(slug@));
        assert(goal.take(i + 1) =~= goal.take(i as int).push(goal[i as int]));
        i += 1;
    }
    assert(goal.take(i as int) =~= goal);
    Ok(out)
}

/// The default local model: the first of the catalog; where there is none, why not.
pub fn default_model_slug(catalog: &Result<Catalog, LookupError>) -> (r: Result<
    String,
    LookupError,
>)
    requires
        catalog matches Ok(c) ==> c.well_formed(),
    ensures
        match default_of(*catalog) {
            Ok(slug) => r matches Ok(s) && s@ == slug,
            Err((kind, message)) => r matches Err(e) && e.kind == kind && e.message@ == message,
        },
{
    match catalog {
        Ok(c) => Ok(c.models[0].slug.clone()),
        Err(e) => Err(LookupError { kind: e.kind, message: e.message.clone() }),
    }
}

/// Where the slugs are listed there is one at least, and the first is the default model;
/// where the catalog is refused, both are refused alike.
pub proof fn the_default_is_the_first_slug(catalog: Result<Catalog, LookupError>)
    requires
        catalog matches Ok(c) ==> c.well_formed(),
    ensures
        match listed(catalog) {
            Ok(all) => all.len() > 0 && default_of(catalog) == Ok::<
                Seq<char>,
                (LookupErrorKind, Seq<char>),
            >(all[0]),
            Err(e) => default_of(catalog) == Err::<Seq<char>, (LookupErrorKind, Seq<char>)>(e),
        },
{
}

/// A model with the served prompt as its instructions.
pub open spec fn is_instructed(before: ModelInfo, after: ModelInfo, prompt: Seq<char>) -> bool {
    &&& after.slug@ == before.slug@
    &&& after.display_name@ == before.display_name@
    &&& text::optional(after.default_personality) == text::optional(before.default_personality)
    &&& after.has_messages == before.has_messages
    &&& after.base_instructions@ == text::replaced(
        prompt,
        "{{ personality }}"@,
        match before.default_personality {
            Some(p) => p@,
            None => Seq::empty(),
        },
    )
    &&& text::optional(after.instructions_template) == if before.has_messages {
        Some(prompt)
    } else {
        text::optional(before.instructions_template)
    }
}

fn instructed(model: ModelInfo, prompt: &str) -> (r: ModelInfo)
    ensures
        is_instructed(model, r, prompt@),
{
    proof {
        reveal_strlit("{{ personality }}");
    }
    let base_instructions = match &model.default_personality {
        Some(p) => text::str_replace_all(prompt, "{{ personality }}", p.as_str()),
        None => {
            let none = String::new();
            assert(none@ =~= Seq::empty());
            text::str_replace_all(prompt, "{{ personality }}", none.as_str())
        },
    };
    let instructions_template = if model.has_messages {
        Some(prompt.to_string())
    } else {
        model.instructions_template
    };
    ModelInfo {
        slug: model.slug,
        display_name: model.display_name,
        base_instructions,
        default_personality: model.default_personality,
        instructions_template,
        has_messages: model.has_messages,
    }
}

/// The models with the served prompt as the instructions of each, its personality
/// filled in.
pub fn millie_models(system_prompt: &str, models: Vec<ModelInfo>) -> (r: Vec<ModelInfo>)
    ensures
        r@.len() == models@.len(),
        forall|k: int|
            0 <= k < models@.len() ==> is_instructed(
                models@[k],
                #[trigger] r@[k],
                system_prompt@,
            ),
{
    let ghost all = models@;
    let mut out: Vec<ModelInfo> = Vec::new();
    for model in it: models
        invariant
            out@.len() == it.index(),
            it.seq() == all,
            forall|k: int|
                0 <= k < out@.len() ==> is_instructed(all[k], #[trigger] out@[k], system_prompt@),
    {
        let ghost k = out@.len() as int;
        assert(model == all[k]);
        out.push(instructed(model, system_prompt));
    }
    out
}

/// A version without what is behind its three numbers.
pub fn client_version_to_whole(major: &str, minor: &str, patch: &str) -> (r: String)
    ensures
        r@ == major@ + "."@ + minor@ + "."@ + patch@,
{
    let mut out = major.to_string();
    out.append(".");
    out.append(minor);
    out.append(".");
    out.append(patch);
    out
}

// ---------------------------------------------------------------------------
// What a model needs.

/// Launch settings that a profile defaults.
#[derive(Debug)]
pub struct ProfileSettings {
    /// Off serves on the CPU even where there is a device.
    pub gpu: Option<bool>,
    pub ctx_size: Option<u32>,
    pub vision: Option<bool>,
    pub kv_cache: Option<String>,
    pub mmap: Option<bool>,
    pub n_cpu_moe: Option<u32>,
}

impl Default for ProfileSettings {
    fn default() -> (r: Self)
        ensures
            r == (ProfileSettings {
                gpu: None,
                ctx_size: None,
                vision: None,
                kv_cache: None,
                mmap: None,
                n_cpu_moe: None,
            }),
    {
        ProfileSettings {
            gpu: None,
            ctx_size: None,
            vision: None,
            kv_cache: None,
            mmap: None,
            n_cpu_moe: None,
        }
    }
}

/// One way of serving a model, and the memory it needs.
#[derive(Debug)]
pub struct ModelProfile {
    pub name: String,
    pub min_vram: Option<i64>,
    pub min_ram: Option<i64>,
    pub apple_silicon_only: bool,
    pub settings: ProfileSettings,
}

/// What there is to fetch of a model, and what it needs.
#[derive(Debug)]
pub struct ModelDownload {
    pub repo: String,
    pub model_file: String,
    pub mmproj_file: Option<String>,
    pub min_dedicated_mem: Option<i64>,
    /// In the order in which they are preferred.
    pub profiles: Vec<ModelProfile>,
    /// Whether the catalog recommends the model for the memory of this machine.
    pub recommended_here: bool,
    /// Whether the catalog calls the model a tight fit for the memory of this
    /// machine.
    pub tight_here: bool,
}

/// What a machine has.
#[derive(Debug, Clone, Copy, PartialEq, Eq, Structural)]
pub struct MachineMemory {
    pub vram: Option<i64>,
    pub ram: Option<i64>,
    /// System memory less what the system itself needs.
    pub ram_to_spare: Option<i64>,
    pub is_apple_silicon: bool,
}

/// Whether there is as much as is needed.
pub open spec fn enough(need: Option<i64>, have: Option<i64>) -> bool {
    match (need, have) {
        (None, _) => true,
        (Some(n), Some(h)) => h >= n,
        (Some(_), None) => false,
    }
}

/// Whether the devices that were chosen allow a profile: CPU only excludes those
/// that use a device, and a chosen device those that do not.
pub open spec fn choice_allows(choice: Option<Seq<char>>, gpu: Option<bool>) -> bool {
    match choice {
        None => true,
        Some(c) => {
            let none = text::lower(c) == text::lower("none"@);
            &&& !(none && gpu != Some(false))
            &&& !(!text::is_blank(c) && !none && gpu == Some(false))
        },
    }
}

/// Whether a machine can serve a model by this profile.
pub open spec fn fits(p: ModelProfile, mem: MachineMemory, choice: Option<Seq<char>>) -> bool {
    &&& choice_allows(choice, p.settings.gpu)
    &&& p.apple_silicon_only ==> mem.is_apple_silicon
    &&& enough(p.min_vram, mem.vram)
    &&& enough(p.min_ram, mem.ram)
}

fn has_enough(need: Option<i64>, have: Option<i64>) -> (r: bool)
    ensures
        r == enough(need, have),
{
    match need {
        None => true,
        Some(n) => match have {
            Some(h) => h >= n,
            None => false,
        },
    }
}

/// Whether a machine can serve a model by this profile. `choice` is the setting of
/// devices.
pub fn profile_fits(p: &ModelProfile, mem: MachineMemory, choice: &Option<String>) -> (r: bool)
    ensures
        r == fits(*p, mem, text::optional(*choice)),
{
    let on_device: bool = match p.settings.gpu {
        Some(b) => b,
        None => true,
    };
    match choice {
        Some(c) => {
            let none: bool = text::same_ignoring_case(c.as_str(), "none");
            if none && on_device {
                return false;
            }
            if !text::str_blank(c.as_str()) && !none && !on_device {
                return false;
            }
        },
        None => {},
    }
    if p.apple_silicon_only && !mem.is_apple_silicon {
        return false;
    }
    has_enough(p.min_vram, mem.vram) && has_enough(p.min_ram, mem.ram)
}

/// The first profile from `i` on that fits.
pub open spec fn first_fitting(
    profiles: Seq<ModelProfile>,
    mem: MachineMemory,
    choice: Option<Seq<char>>,
    i: int,
) -> Option<int>
    decreases profiles.len() - i,
{
    if i >= profiles.len() {
        None
    } else if fits(profiles[i], mem, choice) {
        Some(i)
    } else {
        first_fitting(profiles, mem, choice, i + 1)
    }
}

/// The first profile from `i` on of this name.
pub open spec fn first_named(profiles: Seq<ModelProfile>, name: Seq<char>, i: int) -> Option<int>
    decreases profiles.len() - i,
{
    if i >= profiles.len() {
        None
    } else if profiles[i].name@ == name {
        Some(i)
    } else {
        first_named(profiles, name, i + 1)
    }
}

/// The profile to serve by: the one that is pinned, whether it fits or not; else
/// the first that fits.
pub open spec fn chosen_profile(
    profiles: Seq<ModelProfile>,
    mem: MachineMemory,
    choice: Option<Seq<char>>,
    pin: Option<Seq<char>>,
) -> Option<int> {
    match pin {
        Some(name) => match first_named(profiles, name, 0) {
            Some(i) => Some(i),
            None => first_fitting(profiles, mem, choice, 0),
        },
        None => first_fitting(profiles, mem, choice, 0),
    }
}

/// The place of the profile to serve by.
pub fn resolve_profile(
    download: &ModelDownload,
    mem: MachineMemory,
    choice: &Option<String>,
    pin: Option<&str>,
) -> (r: Option<usize>)
    ensures
        match chosen_profile(
            download.profiles@,
            mem,
            text::optional(*choice),
            match pin {
                Some(p) => Some(p@),
                None => None,
            },
        ) {
            Some(i) => r matches Some(j) && j == i && j < download.profiles@.len(),
            None => r is None,
        },
{
    let profiles = &download.profiles;
    let ghost pinned = match pin {
        Some(p) => Some(p@),
        None => None,
    };
    match pin {
        Some(name) => {
            let mut i: usize = 0;
            while i < profiles.len()
                invariant
                    i <= profiles@.len(),
                    profiles@ == download.profiles@,
                    pin == Some(name),
                    first_named(profiles@, name@, 0) == first_named(profiles@, name@, i as int),
                decreases profiles@.len() - i,
            {
                if text::same_text(profiles[i].name.as_str(), name) {
                    return Some(i);
                }
                i += 1;
            }
        },
        None => {},
    }
    let mut i: usize = 0;
    while i < profiles.len()
        invariant
            i <= profiles@.len(),
            profiles@ == download.profiles@,
            pinned == match pin {
                Some(p) => Some(p@),
                None => None,
            },
            chosen_profile(profiles@, mem, text::optional(*choice), pinned) == first_fitting(
                profiles@,
                mem,
                text::optional(*choice),
                0,
            ),
            first_fitting(profiles@, mem, text::optional(*choice), 0) == first_fitting(
                profiles@,
                mem,
                text::optional(*choice),
                i as int,
            ),
        decreases profiles@.len() - i,
    {
        if profile_fits(&profiles[i], mem, choice) {
            return Some(i);
        }
        i += 1;
    }
    None
}

/// A pinned profile is used even where it does not fit.
pub proof fn pinned_profile_wins(
    profiles: Seq<ModelProfile>,
    mem: MachineMemory,
    choice: Option<Seq<char>>,
    name: Seq<char>,
)
    requires
        first_named(profiles, name, 0) is Some,
    ensures
        chosen_profile(profiles, mem, choice, Some(name)) == first_named(profiles, name, 0),
{
}

/// Whether a machine can serve a model: some profile fits, or for a model without
/// profiles the memory suffices. None where it cannot be told.
pub open spec fn model_fit(d: ModelDownload, mem: MachineMemory, choice: Option<Seq<char>>) -> Option<bool> {
    if d.profiles@.len() > 0 {
        Some(first_fitting(d.profiles@, mem, choice, 0) is Some)
    } else {
        match (
            d.min_dedicated_mem,
            match mem.vram {
                Some(v) => Some(v),
                None => mem.ram_to_spare,
            },
        ) {
            (Some(need), Some(budget)) => Some(need <= budget),
            _ => None,
        }
    }
}

/// Whether a machine can serve a model.
pub fn model_fits(d: &ModelDownload, mem: MachineMemory, choice: &Option<String>) -> (r: Option<bool>)
    ensures
        r == model_fit(*d, mem, text::optional(*choice)),
{
    if d.profiles.len() > 0 {
        return Some(resolve_profile(d, mem, choice, None).is_some());
    }
    let budget: Option<i64> = match mem.vram {
        Some(v) => Some(v),
        None => mem.ram_to_spare,
    };
    match d.min_dedicated_mem {
        Some(need) => match budget {
            Some(b) => Some(need <= b),
            None => None,
        },
        None => None,
    }
}

pub open spec fn surely_fits(d: ModelDownload, mem: MachineMemory, choice: Option<Seq<char>>) -> bool {
    model_fit(d, mem, choice) == Some(true)
}

fn fits_surely(d: &ModelDownload, mem: MachineMemory, choice: &Option<String>) -> (r: bool)
    ensures
        r == surely_fits(*d, mem, text::optional(*choice)),
{
    match model_fits(d, mem, choice) {
        Some(b) => b,
        None => false,
    }
}

/// Whether the catalog calls a model a tight fit for this machine.
pub fn model_fits_tightly(d: &ModelDownload, mem: MachineMemory, choice: &Option<String>) -> (r: bool)
    ensures
        r == (d.tight_here && surely_fits(*d, mem, text::optional(*choice))),
{
    d.tight_here && fits_surely(d, mem, choice)
}

// ---------------------------------------------------------------------------
// Which model to serve.

/// A model and what there is to fetch of it.
#[derive(Debug)]
pub struct CatalogEntry {
    pub slug: String,
    pub download: Option<ModelDownload>,
}

/// How large a model is, by the memory it needs.
pub open spec fn size_of(e: CatalogEntry) -> int {
    match e.download {
        Some(d) => match d.min_dedicated_mem {
            Some(n) => n as int,
            None => 0,
        },
        None => 0,
    }
}

fn size_key(e: &CatalogEntry) -> (r: i64)
    ensures
        r == size_of(*e),
{
    match &e.download {
        Some(d) => match d.min_dedicated_mem {
            Some(n) => n,
            None => 0,
        },
        None => 0,
    }
}

pub open spec fn entry_fits(e: CatalogEntry, mem: MachineMemory, choice: Option<Seq<char>>) -> bool {
    e.download matches Some(d) && surely_fits(d, mem, choice)
}

pub open spec fn is_recommended(e: CatalogEntry, mem: MachineMemory, choice: Option<Seq<char>>) -> bool {
    e.download matches Some(d) && d.recommended_here && surely_fits(d, mem, choice)
}

/// The first model from `i` on that is recommended and fits.
pub open spec fn first_recommended(
    entries: Seq<CatalogEntry>,
    mem: MachineMemory,
    choice: Option<Seq<char>>,
    i: int,
) -> Option<int>
    decreases entries.len() - i,
{
    if i >= entries.len() {
        None
    } else if is_recommended(entries[i], mem, choice) {
        Some(i)
    } else {
        first_recommended(entries, mem, choice, i + 1)
    }
}

/// The largest of the first `n` models that fit; the first of those that are as
/// large.
pub open spec fn largest_fitting(
    entries: Seq<CatalogEntry>,
    mem: MachineMemory,
    choice: Option<Seq<char>>,
    n: int,
) -> Option<int>
    decreases n,
{
    if n <= 0 {
        None
    } else {
        let best = largest_fitting(entries, mem, choice, n - 1);
        if entry_fits(entries[n - 1], mem, choice) && (match best {
            Some(b) => size_of(entries[n - 1]) > size_of(entries[b]),
            None => true,
        }) {
            Some(n - 1)
        } else {
            best
        }
    }
}

/// The place of a slug among the first `n` models.
pub open spec fn has_slug(entries: Seq<CatalogEntry>, slug: Seq<char>, n: int) -> bool
    decreases n,
{
    n > 0 && (entries[n - 1].slug@ == slug || has_slug(entries, slug, n - 1))
}

/// The model that a machine should serve: the one that is pinned, else one that is
/// recommended for it, else the largest that fits, else the first of the catalog.
pub open spec fn picked(
    entries: Seq<CatalogEntry>,
    mem: MachineMemory,
    choice: Option<Seq<char>>,
    pin: Option<Seq<char>>,
) -> Option<Seq<char>> {
    let n = entries.len() as int;
    match pin {
        Some(p) if has_slug(entries, text::trim(p), n) => Some(text::trim(p)),
        _ => match first_recommended(entries, mem, choice, 0) {
            Some(i) => Some(entries[i].slug@),
            None => match largest_fitting(entries, mem, choice, n) {
                Some(i) => Some(entries[i].slug@),
                None => first_slug(entries),
            },
        },
    }
}

/// The slug of the first model.
pub open spec fn first_slug(entries: Seq<CatalogEntry>) -> Option<Seq<char>> {
    if entries.len() > 0 {
        Some(entries[0].slug@)
    } else {
        None
    }
}

pub(crate) fn slug_known(entries: &Vec<CatalogEntry>, slug: &str) -> (r: bool)
    ensures
        r == has_slug(entries@, slug@, entries@.len() as int),
{
    let mut n: usize = entries.len();
    while n > 0
        invariant
            n <= entries@.len(),
            has_slug(entries@, slug@, entries@.len() as int) == has_slug(
                entries@,
                slug@,
                n as int,
            ),
        decreases n,
    {
        if text::same_text(entries[n - 1].slug.as_str(), slug) {
            return true;
        }
        n -= 1;
    }
    false
}

/// The model that a machine should serve.
pub fn pick_local_model_slug(
    entries: &Vec<CatalogEntry>,
    mem: MachineMemory,
    choice: &Option<String>,
    pin: &Option<String>,
) -> (r: Result<String, String>)
    ensures
        match picked(entries@, mem, text::optional(*choice), text::optional(*pin)) {
            Some(slug) => r matches Ok(s) && s@ == slug,
            None => r matches Err(m) && m@ == "empty model catalog"@,
        },
{
    match pin {
        Some(p) => {
            let trimmed = text::str_trim(p.as_str());
            if slug_known(entries, trimmed.as_str()) {
                return Ok(trimmed);
            }
        },
        None => {},
    }
    let ghost c = text::optional(*choice);
    let n: usize = entries.len();
    let mut i: usize = 0;
    while i < n
        invariant
            i <= n == entries@.len(),
            c == text::optional(*choice),
            first_recommended(entries@, mem, c, 0) == first_recommended(
                entries@,
                mem,
                c,
                i as int,
            ),
            picked(entries@, mem, c, text::optional(*pin)) == picked(entries@, mem, c, None),
        decreases n - i,
    {
        match &entries[i].download {
            Some(d) => {
                if d.recommended_here && fits_surely(d, mem, choice) {
                    return Ok(entries[i].slug.clone());
                }
            },
            None => {},
        }
        i += 1;
    }
    let mut best: Option<usize> = None;
    let mut k: usize = 0;
    while k < n
        invariant
            k <= n == entries@.len(),
            c == text::optional(*choice),
            match best {
                Some(b) => b < k && largest_fitting(entries@, mem, c, k as int) == Some(b as int),
                None => largest_fitting(entries@, mem, c, k as int) is None,
            },
        decreases n - k,
    {
        let size: i64 = size_key(&entries[k]);
        let fitting: bool = match &entries[k].download {
            Some(d) => fits_surely(d, mem, choice),
            None => false,
        };
        if fitting {
            let better: bool = match best {
                Some(b) => size > size_key(&entries[b]),
                None => true,
            };
            if better {
                best = Some(k);
            }
        }
        k += 1;
    }
    match best {
        Some(b) => Ok(entries[b].slug.clone()),
        None => if n > 0 {
            Ok(entries[0].slug.clone())
        } else {
            Err("empty model catalog".to_string())
        },
    }
}

proof fn fitting_is_largest(
    entries: Seq<CatalogEntry>,
    mem: MachineMemory,
    choice: Option<Seq<char>>,
    n: int,
)
    requires
        0 <= n <= entries.len(),
    ensures
        match largest_fitting(entries, mem, choice, n) {
            Some(b) => {
                &&& 0 <= b < n
                &&& entry_fits(entries[b], mem, choice)
                &&& forall|k: int|
                    0 <= k < n && entry_fits(#[trigger] entries[k], mem, choice) ==> size_of(
                        entries[k],
                    ) <= size_of(entries[b])
            },
            None => forall|k: int|
                0 <= k < n ==> !entry_fits(#[trigger] entries[k], mem, choice),
        },
    decreases n,
{
    if n > 0 {
        fitting_is_largest(entries, mem, choice, n - 1);
    }
}

/// Where no model is pinned or recommended and one fits, the one that is picked fits,
/// and no larger one does.
pub proof fn the_largest_that_fits_is_picked(
    entries: Seq<CatalogEntry>,
    mem: MachineMemory,
    choice: Option<Seq<char>>,
    some: int,
)
    requires
        0 <= some < entries.len(),
        entry_fits(entries[some], mem, choice),
        first_recommended(entries, mem, choice, 0) is None,
    ensures
        exists|b: int|
            {
                &&& 0 <= b < entries.len()
                &&& picked(entries, mem, choice, None) == Some((#[trigger] entries[b]).slug@)
                &&& entry_fits(entries[b], mem, choice)
                &&& forall|k: int|
                    0 <= k < entries.len() && entry_fits(#[trigger] entries[k], mem, choice)
                        ==> size_of(entries[k]) <= size_of(entries[b])
            },
{
    fitting_is_largest(entries, mem, choice, entries.len() as int);
    match largest_fitting(entries, mem, choice, entries.len() as int) {
        Some(b) => {
            assert(picked(entries, mem, choice, None) == Some(entries[b].slug@));
        },
        None => {
            assert(!entry_fits(entries[some], mem, choice));
        },
    }
}

/// Where no model is pinned and none is known to fit, the first of the catalog is
/// picked.
pub proof fn the_first_is_picked_where_nothing_fits(
    entries: Seq<CatalogEntry>,
    mem: MachineMemory,
    choice: Option<Seq<char>>,
)
    requires
        0 < entries.len(),
        forall|k: int|
            0 <= k < entries.len() ==> !entry_fits(#[trigger] entries[k], mem, choice),
    ensures
        picked(entries, mem, choice, None) == Some(entries[0].slug@),
{
    fitting_is_largest(entries, mem, choice, entries.len() as int);
    nothing_is_recommended(entries, mem, choice, 0);
}

proof fn nothing_is_recommended(
    entries: Seq<CatalogEntry>,
    mem: MachineMemory,
    choice: Option<Seq<char>>,
    i: int,
)
    requires
        0 <= i <= entries.len(),
        forall|k: int|
            0 <= k < entries.len() ==> !entry_fits(#[trigger] entries[k], mem, choice),
    ensures
        first_recommended(entries, mem, choice, i) is None,
    decreases entries.len() - i,
{
    if i < entries.len() {
        assert(!entry_fits(entries[i], mem, choice));
        nothing_is_recommended(entries, mem, choice, i + 1);
    }
}

// ---------------------------------------------------------------------------
// Devices and their memory.

/// What stands between the last opening bracket of a line and the ` MiB` behind it.
pub open spec fn memory_text(line: Seq<char>) -> Option<Seq<char>> {
    match last_bracket(line, line.len() as int) {
        Some(i) => {
            let rest = line.skip(i + 1);
            match text::find_from(rest, " MiB"@, 0) {
                Some(p) => Some(text::trim(rest.take(p))),
                None => None,
            }
        },
        None => None,
    }
}

/// The place of the last opening bracket before `n`.
pub open spec fn last_bracket(s: Seq<char>, n: int) -> Option<int>
    decreases n,
{
    if n <= 0 {
        None
    } else if s[n - 1] == '(' {
        Some(n - 1)
    } else {
        last_bracket(s, n - 1)
    }
}

/// The devices that the first `n` lines name, each with the text of its memory.
pub open spec fn memory_texts(lines: Seq<Seq<char>>, n: int) -> Seq<Option<Seq<char>>>
    decreases n,
{
    if n <= 0 {
        Seq::empty()
    } else {
        match text::halves(text::trim(lines[n - 1]), ':') {
            Some((head, _)) if crate::launch::is_device_name(head) => memory_texts(
                lines,
                n - 1,
            ).push(memory_text(lines[n - 1])),
            _ => memory_texts(lines, n - 1),
        }
    }
}

fn text_of_memory(line: &[char]) -> (r: Option<String>)
    ensures
        text::optional(r) == memory_text(line@),
{
    let mut n: usize = line.len();
    while n > 0 && line[n - 1] != '('
        invariant
            n <= line@.len(),
            last_bracket(line@, line@.len() as int) == last_bracket(line@, n as int),
        decreases n,
    {
        n -= 1;
    }
    if n == 0 {
        return None;
    }
    let rest = text::slice_of(line, n, line.len());
    assert(rest@ =~= line@.skip(n as int));
    let unit = text::chars_of(" MiB");
    match text::find(rest.as_slice(), unit.as_slice(), 0) {
        Some(p) => {
            let head = text::slice_of(rest.as_slice(), 0, p);
            assert(head@ =~= rest@.take(p as int));
            let trimmed = text::trimmed(head.as_slice());
            Some(text::string_of(trimmed.as_slice()))
        },
        None => None,
    }
}

pub open spec fn optionals(v: Seq<Option<String>>) -> Seq<Option<Seq<char>>> {
    v.map_values(|s: Option<String>| text::optional(s))
}

/// The devices of a listing, each with the text of its memory; the caller reads the
/// numbers.
pub fn device_memory_texts(listing: &str) -> (r: Vec<Option<String>>)
    ensures
        optionals(r@) == memory_texts(text::lines(listing@), text::lines(listing@).len() as int),
{
    let cs = text::chars_of(listing);
    let lines = text::lines_of(cs.as_slice());
    let ghost all = text::texts(lines@);
    let mut out: Vec<Option<String>> = Vec::new();
    let mut i: usize = 0;
    assert(optionals(out@) =~= Seq::empty());
    while i < lines.len()
        invariant
            i <= lines@.len(),
            all == text::texts(lines@),
            optionals(out@) == memory_texts(all, i as int),
        decreases lines@.len() - i,
    {
        let line = lines[i].as_slice();
        assert(line@ == all[i as int]);
        let trimmed = text::trimmed(line);
        match text::split_once(trimmed.as_slice(), ':') {
            Some((head, _)) => {
                if crate::launch::device_named(head.as_slice()) {
                    let ghost before = out@;
                    let memory = text_of_memory(line);
                    out.push(memory);
                    assert(optionals(out@) =~= optionals(before).push(text::optional(memory)));
                }
            },
            None => {},
        }
        i += 1;
    }
    out
}

/// The memory of the device at a place that a text names.
pub open spec fn memory_at(devices: Seq<Option<i64>>, index: Seq<char>) -> Option<i64> {
    match text::parse_unsigned(text::trim(index), u64::MAX as nat) {
        Some(i) if i < devices.len() => devices[i as int],
        _ => None,
    }
}

/// The least memory of the devices at the first `n` places; none where one of them
/// has none.
pub open spec fn least_memory(devices: Seq<Option<i64>>, places: Seq<Seq<char>>, n: int) -> Option<i64>
    decreases n,
{
    if n <= 0 {
        None
    } else if n == 1 {
        memory_at(devices, places[0])
    } else {
        match (least_memory(devices, places, n - 1), memory_at(devices, places[n - 1])) {
            (Some(a), Some(b)) => Some(
                if b < a {
                    b
                } else {
                    a
                },
            ),
            _ => None,
        }
    }
}

/// The memory that counts for the devices that are chosen.
pub open spec fn selected_memory(devices: Seq<Option<i64>>, selection: Seq<char>) -> Option<i64> {
    if text::lower(selection) == text::lower("none"@) {
        None
    } else {
        let chosen = if text::is_blank(selection) {
            "0"@
        } else {
            selection
        };
        let places = text::split_on(chosen, ',');
        least_memory(devices, places, places.len() as int)
    }
}

fn memory_of(devices: &Vec<Option<i64>>, index: &[char]) -> (r: Option<i64>)
    ensures
        r == memory_at(devices@, index@),
{
    let trimmed = text::trimmed(index);
    match text::read_unsigned(trimmed.as_slice(), u64::MAX) {
        Some(i) => {
            if i < devices.len() as u64 {
                devices[i as usize]
            } else {
                None
            }
        },
        None => None,
    }
}

/// The memory that counts for the devices that are chosen: the least of them, none
/// where one of them is not there or its memory is not known.
pub fn selected_device_memory(devices: &Vec<Option<i64>>, selection: &str) -> (r: Option<i64>)
    ensures
        r == selected_memory(devices@, selection@),
{
    if text::same_ignoring_case(selection, "none") {
        return None;
    }
    let chosen = if text::str_blank(selection) {
        "0"
    } else {
        selection
    };
    let cs = text::chars_of(chosen);
    let places = text::split_chars(cs.as_slice(), ',');
    let ghost all = text::texts(places@);
    assert(all[0] == places@[0]@);
    let mut least: Option<i64> = memory_of(devices, places[0].as_slice());
    let mut i: usize = 1;
    while i < places.len()
        invariant
            1 <= i <= places@.len(),
            all == text::texts(places@),
            least == least_memory(devices@, all, i as int),
        decreases places@.len() - i,
    {
        assert(all[i as int] == places@[i as int]@);
        let here = memory_of(devices, places[i].as_slice());
        least = match (least, here) {
            (Some(a), Some(b)) => Some(
                if b < a {
                    b
                } else {
                    a
                },
            ),
            _ => None,
        };
        i += 1;
    }
    least
}

// ---------------------------------------------------------------------------
// The memory of the machine.

/// A text without any `kB` at its end.
pub open spec fn without_unit(s: Seq<char>) -> Seq<char>
    decreases s.len(),
{
    if s.len() >= 2 && s[s.len() - 2] == 'k' && s[s.len() - 1] == 'B' {
        without_unit(s.take(s.len() - 2))
    } else {
        s
    }
}

/// What the first line about the total memory says, from line `i` on.
pub open spec fn total_memory(lines: Seq<Seq<char>>, i: int) -> Option<Seq<char>>
    decreases lines.len() - i,
{
    if i < 0 || i >= lines.len() {
        None
    } else {
        match text::without_prefix(lines[i], "MemTotal:"@) {
            Some(rest) => Some(text::trim(without_unit(text::trim(rest)))),
            None => total_memory(lines, i + 1),
        }
    }
}

fn unit_dropped(cs: &[char]) -> (r: Vec<char>)
    ensures
        r@ == without_unit(cs@),
{
    let mut n: usize = cs.len();
    assert(cs@.take(n as int) =~= cs@);
    while n >= 2 && cs[n - 2] == 'k' && cs[n - 1] == 'B'
        invariant
            n <= cs@.len(),
            without_unit(cs@) == without_unit(cs@.take(n as int)),
        decreases n,
    {
        assert(cs@.take(n as int).take(n - 2) =~= cs@.take(n - 2));
        n -= 2;
    }
    let r = text::slice_of(cs, 0, n);
    assert(r@ =~= cs@.take(n as int));
    r
}

/// The number of kilobytes of memory in a table of the system's, as a text that the
/// caller reads.
pub fn total_memory_text(table: &str) -> (r: Option<String>)
    ensures
        text::optional(r) == total_memory(text::lines(table@), 0),
{
    let cs = text::chars_of(table);
    let lines = text::lines_of(cs.as_slice());
    let ghost all = text::texts(lines@);
    let mut i: usize = 0;
    while i < lines.len()
        invariant
            i <= lines@.len(),
            all == text::texts(lines@),
            all == text::lines(table@),
            total_memory(all, 0) == total_memory(all, i as int),
        decreases lines@.len() - i,
    {
        assert(all[i as int] == lines@[i as int]@);
        match text::strip_prefix(lines[i].as_slice(), "MemTotal:") {
            Some(rest) => {
                let number = unit_dropped(text::trimmed(rest.as_slice()).as_slice());
                return Some(text::string_of(text::trimmed(number.as_slice()).as_slice()));
            },
            None => {},
        }
        i += 1;
    }
    None
}

/// The instructions of the first model named `slug`, from model `i` on.
pub open spec fn instructions_of(models: Seq<ModelInfo>, slug: Seq<char>, i: int) -> Option<Seq<char>>
    decreases models.len() - i,
{
    if i < 0 || i >= models.len() {
        None
    } else if models[i].slug@ == slug {
        Some(models[i].base_instructions@)
    } else {
        instructions_of(models, slug, i + 1)
    }
}

/// The instructions that a model's cache is warmed with; none where it has none.
pub fn instructions_to_warm(models: &Vec<ModelInfo>, slug: &str) -> (r: Option<String>)
    ensures
        text::optional(r) == match instructions_of(models@, slug@, 0) {
            Some(t) if !text::is_blank(t) => Some(t),
            _ => None,
        },
{
    let mut i: usize = 0;
    while i < models.len()
        invariant
            i <= models@.len(),
            instructions_of(models@, slug@, 0) == instructions_of(models@, slug@, i as int),
        decreases models@.len() - i,
    {
        if text::same_text(models[i].slug.as_str(), slug) {
            if text::str_blank(models[i].base_instructions.as_str()) {
                return None;
            }
            return Some(models[i].base_instructions.clone());
        }
        i += 1;
    }
    None
}

// ---------------------------------------------------------------------------
// Laws.

/// Whether there is at least as much memory as is asked for; where nothing is asked for there
/// always is, and where it is not known how much there is, there never is.
pub open spec fn suffices(need: Option<i64>, have: Option<i64>) -> bool {
    need matches Some(n) ==> (have matches Some(h) && n <= h)
}

/// A profile fits a machine exactly where both kinds of memory suffice, it is meant for this
/// kind of machine, and it agrees with the choice of devices: one on the processor where
/// devices are ruled out, and none such where devices are named.
pub proof fn profiles_fit_by_memory_and_devices(
    p: ModelProfile,
    mem: MachineMemory,
    choice: Option<Seq<char>>,
)
    ensures
        fits(p, mem, choice) <==> {
            &&& suffices(p.min_vram, mem.vram)
            &&& suffices(p.min_ram, mem.ram)
            &&& p.apple_silicon_only ==> mem.is_apple_silicon
            &&& choice matches Some(c) ==> (text::lower(c) == "none"@ ==> p.settings.gpu == Some(
                false,
            )) && (text::lower(c) != "none"@ && !text::is_blank(c) ==> p.settings.gpu != Some(
                false,
            ))
        },
{
    reveal_strlit("none");
    assert(text::lower("none"@) =~= "none"@);
    match choice {
        Some(c) => {
            if text::is_blank(c) && text::lower(c) == "none"@ {
                assert(c.len() == 4);
                assert(text::lower(c)[0] == 'n');
                assert(text::is_white(c[0]));
            }
        },
        None => {},
    }
}

/// More memory never rules a profile out.
pub proof fn more_memory_is_never_worse(
    p: ModelProfile,
    mem: MachineMemory,
    more: MachineMemory,
    choice: Option<Seq<char>>,
)
    requires
        fits(p, mem, choice),
        more.is_apple_silicon == mem.is_apple_silicon,
        mem.vram matches Some(v) ==> (more.vram matches Some(w) && v <= w),
        mem.ram matches Some(v) ==> (more.ram matches Some(w) && v <= w),
    ensures
        fits(p, more, choice),
{
}

proof fn first_fitting_is_first(
    profiles: Seq<ModelProfile>,
    mem: MachineMemory,
    choice: Option<Seq<char>>,
    i: int,
)
    requires
        0 <= i,
    ensures
        match first_fitting(profiles, mem, choice, i) {
            Some(k) => i <= k < profiles.len() && fits(profiles[k], mem, choice) && forall|j: int|
                i <= j < k ==> !fits(#[trigger] profiles[j], mem, choice),
            None => forall|j: int|
                i <= j < profiles.len() ==> !fits(#[trigger] profiles[j], mem, choice),
        },
    decreases profiles.len() - i,
{
    if i < profiles.len() && !fits(profiles[i], mem, choice) {
        first_fitting_is_first(profiles, mem, choice, i + 1);
    }
}

proof fn first_named_is_first(profiles: Seq<ModelProfile>, name: Seq<char>, i: int)
    requires
        0 <= i,
    ensures
        match first_named(profiles, name, i) {
            Some(k) => i <= k < profiles.len() && profiles[k].name@ == name && forall|j: int|
                i <= j < k ==> (#[trigger] profiles[j]).name@ != name,
            None => forall|j: int|
                i <= j < profiles.len() ==> (#[trigger] profiles[j]).name@ != name,
        },
    decreases profiles.len() - i,
{
    if i < profiles.len() && profiles[i].name@ != name {
        first_named_is_first(profiles, name, i + 1);
    }
}

/// A profile that is named is used whether or not it fits; without a name, or with one that
/// no profile has, the first that fits, and none where none does.
pub proof fn profiles_are_chosen_by_name_then_by_fit(
    profiles: Seq<ModelProfile>,
    mem: MachineMemory,
    choice: Option<Seq<char>>,
    pin: Option<Seq<char>>,
)
    ensures
        ({
            let named = pin matches Some(p) && exists|k: int|
                0 <= k < profiles.len() && (#[trigger] profiles[k]).name@ == p;
            match chosen_profile(profiles, mem, choice, pin) {
                Some(i) => {
                    &&& 0 <= i < profiles.len()
                    &&& named ==> profiles[i].name@ == pin.unwrap() && forall|j: int|
                        0 <= j < i ==> (#[trigger] profiles[j]).name@ != pin.unwrap()
                    &&& !named ==> fits(profiles[i], mem, choice) && forall|j: int|
                        0 <= j < i ==> !fits(#[trigger] profiles[j], mem, choice)
                },
                None => !named && forall|j: int|
                    0 <= j < profiles.len() ==> !fits(#[trigger] profiles[j], mem, choice),
            }
        }),
{
    first_fitting_is_first(profiles, mem, choice, 0);
    match pin {
        Some(p) => {
            first_named_is_first(profiles, p, 0);
        },
        None => {},
    }
}

/// A model fits where one of its profiles does; one without profiles where the memory of the
/// device, or without a device the memory to spare, is as much as it needs, and nothing is
/// known where one of the two is not.
pub proof fn models_fit_by_profile_or_by_size(
    d: ModelDownload,
    mem: MachineMemory,
    choice: Option<Seq<char>>,
)
    ensures
        d.profiles@.len() > 0 ==> model_fit(d, mem, choice) == Some(
            exists|k: int|
                0 <= k < d.profiles@.len() && fits(#[trigger] d.profiles@[k], mem, choice),
        ),
        d.profiles@.len() == 0 ==> match (d.min_dedicated_mem, mem.vram, mem.ram_to_spare) {
            (Some(n), Some(v), _) => model_fit(d, mem, choice) == Some(n <= v),
            (Some(n), None, Some(r)) => model_fit(d, mem, choice) == Some(n <= r),
            _ => model_fit(d, mem, choice) is None,
        },
{
    first_fitting_is_first(d.profiles@, mem, choice, 0);
}

proof fn has_slug_where_one_does(entries: Seq<CatalogEntry>, slug: Seq<char>, n: int)
    requires
        0 <= n <= entries.len(),
    ensures
        has_slug(entries, slug, n) <==> exists|k: int|
            0 <= k < n && (#[trigger] entries[k]).slug@ == slug,
    decreases n,
{
    if n > 0 {
        has_slug_where_one_does(entries, slug, n - 1);
    }
}

proof fn first_recommended_is_first(
    entries: Seq<CatalogEntry>,
    mem: MachineMemory,
    choice: Option<Seq<char>>,
    i: int,
)
    requires
        0 <= i,
    ensures
        match first_recommended(entries, mem, choice, i) {
            Some(k) => i <= k < entries.len() && is_recommended(entries[k], mem, choice) && forall|
                j: int,
            |
                i <= j < k ==> !is_recommended(#[trigger] entries[j], mem, choice),
            None => forall|j: int|
                i <= j < entries.len() ==> !is_recommended(#[trigger] entries[j], mem, choice),
        },
    decreases entries.len() - i,
{
    if i < entries.len() && !is_recommended(entries[i], mem, choice) {
        first_recommended_is_first(entries, mem, choice, i + 1);
    }
}

proof fn largest_is_first_of_the_largest(
    entries: Seq<CatalogEntry>,
    mem: MachineMemory,
    choice: Option<Seq<char>>,
    n: int,
)
    requires
        0 <= n <= entries.len(),
    ensures
        match largest_fitting(entries, mem, choice, n) {
            Some(b) => {
                &&& 0 <= b < n && entry_fits(entries[b], mem, choice)
                &&& forall|k: int|
                    0 <= k < n && entry_fits(#[trigger] entries[k], mem, choice) ==> size_of(
                        entries[k],
                    ) <= size_of(entries[b]) && (k < b ==> size_of(entries[k]) < size_of(
                        entries[b],
                    ))
            },
            None => forall|k: int|
                0 <= k < n ==> !entry_fits(#[trigger] entries[k], mem, choice),
        },
    decreases n,
{
    if n > 0 {
        largest_is_first_of_the_largest(entries, mem, choice, n - 1);
    }
}

/// The model of a machine: the one that is pinned where the catalog has it; else the first
/// that is recommended for it and fits; else the largest that fits, the first of the
/// largest; else the first of the catalog.
pub proof fn models_are_picked_in_this_order(
    entries: Seq<CatalogEntry>,
    mem: MachineMemory,
    choice: Option<Seq<char>>,
    pin: Option<Seq<char>>,
)
    requires
        entries.len() > 0,
    ensures
        picked(entries, mem, choice, pin) is Some,
        ({
            let slug = picked(entries, mem, choice, pin).unwrap();
            let pinned = pin matches Some(p) && exists|k: int|
                0 <= k < entries.len() && (#[trigger] entries[k]).slug@ == text::trim(p);
            &&& pinned ==> slug == text::trim(pin.unwrap())
            &&& !pinned ==> exists|b: int|
                {
                    &&& 0 <= b < entries.len() && slug == (#[trigger] entries[b]).slug@
                    &&& if exists|k: int|
                        0 <= k < entries.len() && is_recommended(
                            #[trigger] entries[k],
                            mem,
                            choice,
                        ) {
                        is_recommended(entries[b], mem, choice) && forall|j: int|
                            0 <= j < b ==> !is_recommended(#[trigger] entries[j], mem, choice)
                    } else if exists|k: int|
                        0 <= k < entries.len() && entry_fits(#[trigger] entries[k], mem, choice) {
                        entry_fits(entries[b], mem, choice) && forall|k: int|
                            0 <= k < entries.len() && entry_fits(#[trigger] entries[k], mem, choice)
                                ==> size_of(entries[k]) <= size_of(entries[b]) && (k < b
                                ==> size_of(entries[k]) < size_of(entries[b]))
                    } else {
                        b == 0
                    }
                }
        }),
{
    let n = entries.len() as int;
    match pin {
        Some(p) => {
            has_slug_where_one_does(entries, text::trim(p), n);
        },
        None => {},
    }
    first_recommended_is_first(entries, mem, choice, 0);
    largest_is_first_of_the_largest(entries, mem, choice, n);
    match first_recommended(entries, mem, choice, 0) {
        Some(i) => {
            assert(entries[i].slug@ == entries[i].slug@);
        },
        None => match largest_fitting(entries, mem, choice, n) {
            Some(i) => {
                assert(entries[i].slug@ == entries[i].slug@);
            },
            None => {
                assert(entries[0].slug@ == entries[0].slug@);
            },
        },
    }
}

/// A model is recommended, or fits, only where it can be fetched.
pub proof fn only_models_that_can_be_fetched_fit(
    e: CatalogEntry,
    mem: MachineMemory,
    choice: Option<Seq<char>>,
)
    ensures
        entry_fits(e, mem, choice) <==> (e.download matches Some(d) && model_fit(d, mem, choice)
            == Some(true)),
        is_recommended(e, mem, choice) <==> entry_fits(e, mem, choice)
            && e.download.unwrap().recommended_here,
{
}

/// The memory of devices that are selected together is that of the least of them; it is not
/// known where that of one is not.
pub proof fn the_least_device_counts(
    devices: Seq<Option<i64>>,
    places: Seq<Seq<char>>,
    n: int,
)
    requires
        0 < n <= places.len(),
    ensures
        match least_memory(devices, places, n) {
            Some(v) => {
                &&& forall|k: int|
                    0 <= k < n ==> (memory_at(devices, #[trigger] places[k]) matches Some(m) && v
                        <= m)
                &&& exists|k: int| 0 <= k < n && memory_at(devices, #[trigger] places[k]) == Some(v)
            },
            None => exists|k: int| 0 <= k < n && memory_at(devices, #[trigger] places[k]) is None,
        },
    decreases n,
{
    if n > 1 {
        the_least_device_counts(devices, places, n - 1);
        let last = places[n - 1];
        match least_memory(devices, places, n - 1) {
            Some(v) => {
                let k = choose|k: int|
                    0 <= k < n - 1 && memory_at(devices, #[trigger] places[k]) == Some(v);
                assert(memory_at(devices, places[k]) == Some(v));
            },
            None => {
                let k = choose|k: int|
                    0 <= k < n - 1 && memory_at(devices, #[trigger] places[k]) is None;
                assert(memory_at(devices, places[k]) is None);
            },
        }
        assert(memory_at(devices, last) == memory_at(devices, places[n - 1]));
    } else {
        assert(memory_at(devices, places[0]) == memory_at(devices, places[n - 1]));
    }
}

/// A selection names devices by their places on the list: the place that is written, the
/// first where nothing is, none where devices are ruled out.
pub proof fn selections_name_places(devices: Seq<Option<i64>>, i: nat, blank: Seq<char>)
    requires
        text::is_blank(blank),
        i <= u64::MAX,
    ensures
        selected_memory(devices, text::decimal(i)) == if i < devices.len() {
            devices[i as int]
        } else {
            None
        },
        selected_memory(devices, blank) == if devices.len() > 0 {
            devices[0]
        } else {
            None
        },
        selected_memory(devices, "none"@) is None,
{
    let zeros = Seq::<char>::empty();
    reveal_strlit("none");
    reveal_strlit("0");
    numeral_is_one_place(devices, i);
    numeral_is_one_place(devices, 0);
    assert(text::decimal(0) =~= "0"@);
    if text::lower(blank) == text::lower("none"@) {
        assert(blank.len() == text::lower(blank).len());
        assert(text::lower(blank)[0] == text::lower("none"@)[0]);
        assert(text::is_white(blank[0]));
        assert("none"@[0] == 'n');
        assert(false);
    }
    text::trim_of_blank(blank);
}

proof fn numeral_is_one_place(devices: Seq<Option<i64>>, i: nat)
    requires
        i <= u64::MAX,
    ensures
        ({
            let d = text::decimal(i);
            &&& text::split_on(d, ',') == seq![d]
            &&& text::lower(d) != text::lower("none"@)
            &&& !text::is_blank(d)
            &&& least_memory(devices, seq![d], 1) == if i < devices.len() {
                devices[i as int]
            } else {
                None
            }
        }),
{
    let d = text::decimal(i);
    let none = Seq::<char>::empty();
    text::decimal_is_read_back(i);
    text::numbers_are_read_back(i, u64::MAX as nat, none);
    assert(none + d =~= d);
    text::upto_shape(d, ',');
    if text::upto(d, ',') < d.len() {
        assert(text::is_digit(d[text::upto(d, ',')]));
    }
    reveal_strlit("none");
    assert(text::is_digit(d[0]));
    assert(!text::is_white(d[0]));
    if text::lower(d) == text::lower("none"@) {
        assert(text::lower(d)[0] == text::lower("none"@)[0]);
    }
    assert(text::is_digit(d[d.len() - 1]));
    text::trim_takes_off_the_white(none, d, none);
    assert(none + d + none =~= d);
}

/// The memory of a device is what stands behind the last bracket of its line, up to the unit.
pub proof fn memory_stands_in_the_last_bracket(a: Seq<char>, amount: Seq<char>, b: Seq<char>)
    requires
        forall|i: int| 0 <= i < amount.len() ==> #[trigger] amount[i] != '(',
        forall|i: int| 0 <= i < b.len() ==> #[trigger] b[i] != '(',
        forall|j: int|
            0 <= j < amount.len() ==> !text::occurs_at(amount + " MiB"@ + b, " MiB"@, j),
    ensures
        memory_text(a + seq!['('] + (amount + " MiB"@ + b)) == Some(text::trim(amount)),
{
    reveal_strlit(" MiB");
    let rest = amount + " MiB"@ + b;
    let line = a + seq!['('] + rest;
    let n = a.len() as int;
    assert forall|i: int| n < i < line.len() implies #[trigger] line[i] != '(' by {
        let k = i - n - 1;
        assert(line[i] == rest[k]);
        if k < amount.len() {
            assert(rest[k] == amount[k]);
        } else if k >= amount.len() + 4 {
            assert(rest[k] == b[k - amount.len() - 4]);
        } else {
            assert(rest[k] == " MiB"@[k - amount.len()]);
        }
    }
    assert(line[n] == '(');
    last_bracket_is_last(line, line.len() as int, n);
    assert(line.skip(n + 1) =~= rest);
    assert(rest.subrange(amount.len() as int, amount.len() as int + 4) =~= " MiB"@);
    assert(text::occurs_at(rest, " MiB"@, amount.len() as int));
    text::find_from_is_first(rest, " MiB"@, 0);
    assert(rest.take(amount.len() as int) =~= amount);
}

proof fn last_bracket_is_last(s: Seq<char>, n: int, k: int)
    requires
        0 <= k < n <= s.len(),
        s[k] == '(',
        forall|i: int| k < i < n ==> #[trigger] s[i] != '(',
    ensures
        last_bracket(s, n) == Some(k),
    decreases n,
{
    if n - 1 > k {
        assert(s[n - 1] != '(');
        last_bracket_is_last(s, n - 1, k);
    }
}

/// The instructions are those of the first model of a name, and none where there is none.
pub proof fn the_first_of_a_name_is_instructed(models: Seq<ModelInfo>, slug: Seq<char>, i: int, at: int)
    requires
        0 <= i <= at <= models.len(),
        forall|k: int| 0 <= k < at ==> (#[trigger] models[k]).slug@ != slug,
    ensures
        at == models.len() ==> instructions_of(models, slug, i) is None,
        at < models.len() && models[at].slug@ == slug ==> instructions_of(models, slug, i) == Some(
            models[at].base_instructions@,
        ),
    decreases at - i,
{
    if i < at {
        assert(models[i].slug@ != slug);
        the_first_of_a_name_is_instructed(models, slug, i + 1, at);
    }
}

/// The memory is what the first line about it says, less the unit and the blanks.
pub proof fn the_total_memory_is_read(
    lines: Seq<Seq<char>>,
    i: int,
    at: int,
    a: Seq<char>,
    n: nat,
)
    requires
        0 <= i <= at <= lines.len(),
        text::is_blank(a),
        forall|k: int| 0 <= k < at ==> !text::begins_with(#[trigger] lines[k], "MemTotal:"@),
    ensures
        at == lines.len() ==> total_memory(lines, i) is None,
        at < lines.len() && lines[at] == "MemTotal:"@ + (a + (text::decimal(n) + seq![' ', 'k', 'B']))
            ==> total_memory(lines, i) == Some(text::decimal(n)),
    decreases at - i,
{
    if i < at {
        assert(!text::begins_with(lines[i], "MemTotal:"@));
        the_total_memory_is_read(lines, i + 1, at, a, n);
    } else if at < lines.len() {
        let none = Seq::<char>::empty();
        let d = text::decimal(n);
        let unit = seq![' ', 'k', 'B'];
        let shown = d + unit;
        let line = "MemTotal:"@ + (a + shown);
        let m = "MemTotal:"@.len() as int;
        assert(line.take(m) =~= "MemTotal:"@ && line.skip(m) =~= a + shown);
        text::numerals_are_not_trimmed(n, none, seq![' ']);
        text::white_below_delete('B');
        text::white_below_delete(' ');
        text::white_below_delete(d[0]);
        assert(shown[0] == d[0] && shown.last() == 'B');
        text::trim_takes_off_the_white(a, shown, none);
        assert(a + shown + none =~= a + shown);
        let bare = shown.take(shown.len() - 2);
        assert(bare =~= d + seq![' ']);
        assert(shown[shown.len() - 2] == 'k');
        assert(bare.last() == ' ');
        assert(without_unit(bare) == bare);
        assert(without_unit(shown) == bare);
        text::numerals_are_not_trimmed(n, none, seq![' ']);
        assert(none + d + seq![' '] =~= bare);
    }
}

/// A catalog that is there ends the search where it cannot be read or lists nothing; one that
/// is missing does not.
pub proof fn broken_catalogs_end_the_search(path: Seq<char>, models: Vec<ModelInfo>, e: String)
    ensures
        refusal(path, CatalogRead::Missing) is None,
        refusal(path, CatalogRead::Models(models)) is None <==> models@.len() > 0,
        refusal(path, CatalogRead::Unreadable(e)) matches Some((kind, _)) && kind
            == LookupErrorKind::InvalidData,
        refusal(path, CatalogRead::Failed(e)) matches Some((kind, _)) && kind
            == LookupErrorKind::Read,
{
}

} // verus!
