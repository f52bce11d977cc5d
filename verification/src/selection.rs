//! Choosing the model that is served: what was asked for, what is remembered, and
//! what the user picks from a list.

use crate::catalog;
use crate::catalog::CatalogEntry;
use crate::catalog::MachineMemory;
use crate::json;
use crate::json::Json;
use crate::json::JsonModel;
use crate::settings;
use crate::text;
use vstd::prelude::*;
use vstd::string::*;

verus! {

/// What starting a session needs to know of the model.
#[derive(Debug)]
pub enum StartupModel {
    /// Let the user choose; the model that suits this machine is recommended.
    Choose { recommended: String },
    /// Serve this model, and remember it where the user named it.
    Serve { slug: String, remember: bool },
}

pub enum StartupView {
    Choose { recommended: Seq<char> },
    Serve { slug: Seq<char>, remember: bool },
}

impl View for StartupModel {
    type V = StartupView;

    open spec fn view(&self) -> StartupView {
        match self {
            StartupModel::Choose { recommended } => StartupView::Choose {
                recommended: recommended@,
            },
            StartupModel::Serve { slug, remember } => StartupView::Serve {
                slug: slug@,
                remember: *remember,
            },
        }
    }
}

/// What the process talks to.
#[derive(Debug, Clone, Copy, PartialEq, Eq, Structural)]
pub struct Terminals {
    pub input: bool,
    pub errors: bool,
}

pub open spec fn entry_slugs(entries: Seq<CatalogEntry>) -> Seq<Seq<char>> {
    entries.map_values(|e: CatalogEntry| e.slug@)
}

pub open spec fn unknown_model(slug: Seq<char>, entries: Seq<CatalogEntry>) -> Seq<char> {
    "Unknown model `"@ + slug
        + "`. Use `millie --model select` to choose. Available models: "@ + text::join(
        entry_slugs(entries),
        ", "@,
    )
}

pub open spec fn no_terminal() -> Seq<char> {
    "The model chooser requires a terminal. Use --model MODEL instead."@
}

/// Whether the user is to choose.
pub open spec fn is_chooser(
    explicit: Option<Seq<char>>,
    configured: Option<Seq<char>>,
    manual_path: Option<Seq<char>>,
    input: bool,
) -> bool {
    match explicit {
        Some(e) => e == "select"@,
        None => configured is None && settings::filled(manual_path) is None && input,
    }
}

/// The model that was named last: on the command line, else in the configuration.
pub open spec fn named(explicit: Option<Seq<char>>, configured: Option<Seq<char>>) -> Option<Seq<char>> {
    match explicit {
        Some(e) => Some(e),
        None => configured,
    }
}

pub open spec fn served(
    slug: Seq<char>,
    entries: Seq<CatalogEntry>,
    remember: bool,
) -> Result<StartupView, Seq<char>> {
    if catalog::has_slug(entries, slug, entries.len() as int) {
        Ok(StartupView::Serve { slug, remember })
    } else {
        Err(unknown_model(slug, entries))
    }
}

/// The model to start with.
pub open spec fn startup(
    explicit: Option<Seq<char>>,
    configured: Option<Seq<char>>,
    manual_path: Option<Seq<char>>,
    terminals: Terminals,
    entries: Seq<CatalogEntry>,
    picked: Option<Seq<char>>,
) -> Result<StartupView, Seq<char>> {
    if is_chooser(explicit, configured, manual_path, terminals.input) {
        if !terminals.input || !terminals.errors {
            Err(no_terminal())
        } else {
            match picked {
                Some(recommended) => Ok(StartupView::Choose { recommended }),
                None => Err("empty model catalog"@),
            }
        }
    } else {
        match named(explicit, configured) {
            Some(slug) => served(slug, entries, explicit is Some),
            None => match picked {
                Some(slug) => served(slug, entries, false),
                None => Err("empty model catalog"@),
            },
        }
    }
}

fn slugs_of(entries: &Vec<CatalogEntry>) -> (r: Vec<String>)
    ensures
        text::strings(r@) == entry_slugs(entries@),
{
    let ghost goal = entry_slugs(entries@);
    let mut out: Vec<String> = Vec::new();
    let mut i: usize = 0;
    assert(text::strings(out@) =~= goal.take(0));
    while i < entries.len()
        invariant
            i <= entries@.len(),
            goal == entry_slugs(entries@),
            text::strings(out@) == goal.take(i as int),
        decreases entries@.len() - i,
    {
        let ghost before = out@;
        let slug = entries[i].slug.clone();
        out.push(slug);
        assert(text::strings(out@) =~= text::strings(before).push(slug@));
        assert(goal.take(i + 1) =~= goal.take(i as int).push(goal[i as int]));
        i += 1;
    }
    assert(goal.take(i as int) =~= goal);
    out
}

fn serve(slug: String, entries: &Vec<CatalogEntry>, remember: bool) -> (r: Result<
    StartupModel,
    String,
>)
    ensures
        match r {
            Ok(m) => served(slug@, entries@, remember) == Ok::<StartupView, Seq<char>>(m@),
            Err(m) => served(slug@, entries@, remember) == Err::<StartupView, Seq<char>>(m@),
        },
{
    if catalog::slug_known(entries, slug.as_str()) {
        return Ok(StartupModel::Serve { slug, remember });
    }
    let mut m = "Unknown model `".to_string();
    m.append(slug.as_str());
    m.append("`. Use `millie --model select` to choose. Available models: ");
    m.append(text::join_strings(&slugs_of(entries), ", ").as_str());
    Err(m)
}

/// The model to start with: the user's choice where they are to choose, else the one
/// that was named last, else the one that suits this machine. A name that the catalog
/// does not have is an error, and only one that was given on the command line is to
/// be remembered.
pub fn select_startup_model(
    explicit: Option<&str>,
    configured: Option<&str>,
    manual_path: Option<&str>,
    terminals: Terminals,
    entries: &Vec<CatalogEntry>,
    mem: MachineMemory,
    devices: &Option<String>,
    pin: &Option<String>,
) -> (r: Result<StartupModel, String>)
    ensures
        match r {
            Ok(m) => startup(
                settings::value_text(explicit),
                settings::value_text(configured),
                settings::value_text(manual_path),
                terminals,
                entries@,
                catalog::picked(entries@, mem, text::optional(*devices), text::optional(*pin)),
            ) == Ok::<StartupView, Seq<char>>(m@),
            Err(m) => startup(
                settings::value_text(explicit),
                settings::value_text(configured),
                settings::value_text(manual_path),
                terminals,
                entries@,
                catalog::picked(entries@, mem, text::optional(*devices), text::optional(*pin)),
            ) == Err::<StartupView, Seq<char>>(m@),
        },
{
    let manual: bool = match manual_path {
        Some(p) => !text::str_blank(p),
        None => false,
    };
    let choosing: bool = match explicit {
        Some(e) => text::same_text(e, "select"),
        None => configured.is_none() && !manual && terminals.input,
    };
    if choosing {
        if !terminals.input || !terminals.errors {
            return Err(
                "The model chooser requires a terminal. Use --model MODEL instead.".to_string(),
            );
        }
        return match catalog::pick_local_model_slug(entries, mem, devices, pin) {
            Ok(recommended) => Ok(StartupModel::Choose { recommended }),
            Err(m) => Err(m),
        };
    }
    match explicit {
        Some(e) => serve(e.to_string(), entries, true),
        None => match configured {
            Some(c) => serve(c.to_string(), entries, false),
            None => match catalog::pick_local_model_slug(entries, mem, devices, pin) {
                Ok(slug) => serve(slug, entries, false),
                Err(m) => Err(m),
            },
        },
    }
}

/// A model that is served without asking is one of the catalog, and it is remembered
/// only where it was named on the command line.
pub proof fn only_known_choices_are_remembered(
    explicit: Option<Seq<char>>,
    configured: Option<Seq<char>>,
    manual_path: Option<Seq<char>>,
    terminals: Terminals,
    entries: Seq<CatalogEntry>,
    picked: Option<Seq<char>>,
)
    ensures
        startup(explicit, configured, manual_path, terminals, entries, picked) matches Ok(
            StartupView::Serve { slug, remember },
        ) ==> catalog::has_slug(entries, slug, entries.len() as int) && (remember ==> explicit
            == Some(slug)),
{
}

/// A start of the program: what was named on the command line, what the machine is
/// like, and the model that the user picks if they are asked to; none where they
/// cancel.
pub struct Launch {
    pub named: Option<Seq<char>>,
    pub manual_path: Option<Seq<char>>,
    pub terminals: Terminals,
    pub entries: Seq<CatalogEntry>,
    pub recommended: Option<Seq<char>>,
    pub pick: Option<Seq<char>>,
}

impl Launch {
    /// What the program starts with, where `before` is remembered.
    pub open spec fn start(self, before: Option<Seq<char>>) -> Result<StartupView, Seq<char>> {
        startup(
            self.named,
            before,
            self.manual_path,
            self.terminals,
            self.entries,
            self.recommended,
        )
    }

    /// Whether the list is opened for the user to choose from.
    pub open spec fn asks(self, before: Option<Seq<char>>) -> bool {
        &&& is_chooser(self.named, before, self.manual_path, self.terminals.input)
        &&& self.terminals.input && self.terminals.errors
        &&& self.recommended is Some
    }

    /// The explicit choice that is made in a start: the pick where the user is asked, else
    /// a model of the catalog that was named on the command line.
    pub open spec fn choice(self, before: Option<Seq<char>>) -> Option<Seq<char>> {
        if self.asks(before) {
            self.pick
        } else {
            match self.named {
                Some(slug) if slug != "select"@ && catalog::has_slug(
                    self.entries,
                    slug,
                    self.entries.len() as int,
                ) => Some(slug),
                _ => None,
            }
        }
    }
}

/// The model that is remembered behind a start, from what was remembered before:
/// nothing that comes later, a download or a server, has a part in it.
pub open spec fn remembered(
    before: Option<Seq<char>>,
    start: Result<StartupView, Seq<char>>,
    pick: Option<Seq<char>>,
) -> Option<Seq<char>> {
    match start {
        Ok(StartupView::Serve { slug, remember: true }) => Some(slug),
        Ok(StartupView::Choose { .. }) => match pick {
            Some(slug) => Some(slug),
            None => before,
        },
        _ => before,
    }
}

/// The model that is remembered behind the first `n` of several starts.
pub open spec fn remembered_after(first: Option<Seq<char>>, launches: Seq<Launch>, n: int) -> Option<
    Seq<char>,
>
    decreases n,
{
    if n <= 0 {
        first
    } else {
        let before = remembered_after(first, launches, n - 1);
        remembered(before, launches[n - 1].start(before), launches[n - 1].pick)
    }
}

/// The last explicit choice in the first `n` starts.
pub open spec fn last_choice(first: Option<Seq<char>>, launches: Seq<Launch>, n: int) -> Option<
    Seq<char>,
>
    decreases n,
{
    if n <= 0 {
        first
    } else {
        let before = last_choice(first, launches, n - 1);
        match launches[n - 1].choice(before) {
            Some(slug) => Some(slug),
            None => before,
        }
    }
}

/// The last explicit choice is remembered, whether it was named on the command line or
/// picked from the list; starts without a choice and names that the catalog lacks leave
/// it.
pub proof fn the_last_choice_is_remembered(
    first: Option<Seq<char>>,
    launches: Seq<Launch>,
    n: int,
)
    requires
        0 <= n <= launches.len(),
    ensures
        remembered_after(first, launches, n) == last_choice(first, launches, n),
    decreases n,
{
    if n > 0 {
        the_last_choice_is_remembered(first, launches, n - 1);
    }
}

// ---------------------------------------------------------------------------
// The configuration that remembers it.

/// Whether a line of a configuration opens a table.
pub open spec fn opens_table(line: Seq<char>) -> bool {
    text::begins_with(text::trim_start(line), "["@)
}

/// Whether a line of a configuration sets the model.
pub open spec fn sets_model(line: Seq<char>) -> bool {
    match text::without_prefix(text::trim_start(line), "model"@) {
        Some(rest) => text::begins_with(text::trim_start(rest), "="@),
        None => false,
    }
}

/// The first line from `i` on that sets the model, ahead of all tables.
pub open spec fn model_line(lines: Seq<Seq<char>>, i: int) -> Option<int>
    decreases lines.len() - i,
{
    if i < 0 || i >= lines.len() || opens_table(lines[i]) {
        None
    } else if sets_model(lines[i]) {
        Some(i)
    } else {
        model_line(lines, i + 1)
    }
}

pub open spec fn model_setting(slug: Seq<char>) -> Seq<char> {
    "model = "@ + json::text_of(JsonModel::Text(slug))
}

/// A configuration that names `slug` as the model; every other line stays.
pub open spec fn with_model(config: Seq<char>, slug: Seq<char>) -> Seq<char> {
    let lines = text::split_on(config, '\n');
    match model_line(lines, 0) {
        Some(i) => text::join(lines.update(i, model_setting(slug)), "\n"@),
        None => model_setting(slug) + "\n"@ + config,
    }
}

fn table_opens(line: &[char]) -> (r: bool)
    ensures
        r == opens_table(line@),
{
    let bracket = text::chars_of("[");
    text::starts(text::trimmed_start(line).as_slice(), bracket.as_slice())
}

fn model_set(line: &[char]) -> (r: bool)
    ensures
        r == sets_model(line@),
{
    let equals = text::chars_of("=");
    match text::strip_prefix(text::trimmed_start(line).as_slice(), "model") {
        Some(rest) => text::starts(
            text::trimmed_start(rest.as_slice()).as_slice(),
            equals.as_slice(),
        ),
        None => false,
    }
}

fn find_model_line(lines: &Vec<Vec<char>>) -> (r: Option<usize>)
    ensures
        match r {
            Some(i) => i < lines@.len() && model_line(text::texts(lines@), 0) == Some(i as int),
            None => model_line(text::texts(lines@), 0) is None,
        },
{
    let ghost all = text::texts(lines@);
    let mut i: usize = 0;
    while i < lines.len()
        invariant
            i <= lines@.len(),
            all == text::texts(lines@),
            model_line(all, 0) == model_line(all, i as int),
        decreases lines@.len() - i,
    {
        assert(all[i as int] == lines@[i as int]@);
        if table_opens(lines[i].as_slice()) {
            return None;
        }
        if model_set(lines[i].as_slice()) {
            return Some(i);
        }
        i += 1;
    }
    None
}

/// A configuration that names `slug` as the model, and is otherwise as it was.
pub fn config_with_model(config: &str, slug: &str) -> (r: String)
    ensures
        r@ == with_model(config@, slug@),
{
    let mut setting = "model = ".to_string();
    setting.append(Json::text(slug).to_text().as_str());
    let cs = text::chars_of(config);
    let mut lines = text::split_chars(cs.as_slice(), '\n');
    match find_model_line(&lines) {
        Some(i) => {
            let ghost before = text::texts(lines@);
            lines.set(i, text::chars_of(setting.as_str()));
            assert(text::texts(lines@) =~= before.update(i as int, setting@));
            let sep = text::chars_of("\n");
            text::string_of(text::join_chars(&lines, sep.as_slice()).as_slice())
        },
        None => {
            setting.append("\n");
            setting.append(config);
            setting
        },
    }
}

// ---------------------------------------------------------------------------
// The list to choose from.

/// A model on the list. `size` says how much there is to fetch.
#[derive(Debug)]
pub struct MenuEntry {
    pub slug: String,
    pub display_name: String,
    pub size: String,
    pub fits: Option<bool>,
    pub tight: bool,
}

/// What is said of whether a model fits.
pub open spec fn fit_note(fits: Option<bool>) -> Seq<char> {
    match fits {
        Some(true) => " -- fits this machine"@,
        Some(false) => " -- will not fit this machine  (not recommended)"@,
        None => ""@,
    }
}

/// What is said of whether a model fits.
pub fn fit_label(fits: Option<bool>) -> (r: &'static str)
    ensures
        r@ == fit_note(fits),
{
    match fits {
        Some(true) => " -- fits this machine",
        Some(false) => " -- will not fit this machine  (not recommended)",
        None => "",
    }
}

pub open spec fn is_default(e: MenuEntry, recommended: Seq<char>) -> bool {
    e.slug@ == recommended && e.fits == Some(true)
}

pub open spec fn menu_line(e: MenuEntry, i: int, recommended: Seq<char>) -> Seq<char> {
    "  ["@ + text::decimal((i + 1) as nat) + "] "@ + e.display_name@ + " -- "@ + e.size@
        + (if e.tight {
        " -- fits, but tight"@
    } else {
        fit_note(e.fits)
    }) + (if is_default(e, recommended) {
        "  (recommended)"@
    } else {
        ""@
    })
}

pub open spec fn menu_lines(entries: Seq<MenuEntry>, recommended: Seq<char>) -> Seq<Seq<char>> {
    entries.map(|i: int, e: MenuEntry| menu_line(e, i, recommended))
}

/// The last of the first `n` models that is the default.
pub open spec fn default_of(entries: Seq<MenuEntry>, recommended: Seq<char>, n: int) -> Option<int>
    decreases n,
{
    if n <= 0 {
        None
    } else if is_default(entries[n - 1], recommended) {
        Some(n - 1)
    } else {
        default_of(entries, recommended, n - 1)
    }
}

pub open spec fn some_fit(entries: Seq<MenuEntry>, n: int) -> bool
    decreases n,
{
    n > 0 && (entries[n - 1].fits == Some(true) || some_fit(entries, n - 1))
}

/// The list to choose from.
#[derive(Debug)]
pub struct Menu {
    pub lines: Vec<String>,
    pub default_index: Option<usize>,
    pub any_fits: bool,
}

fn line_of_entry(e: &MenuEntry, i: usize, recommended: &str) -> (r: String)
    ensures
        r@ == menu_line(*e, i as int, recommended@),
{
    let mut out = "  [".to_string();
    out.append(text::decimal_string(i as u128 + 1).as_str());
    out.append("] ");
    out.append(e.display_name.as_str());
    out.append(" -- ");
    out.append(e.size.as_str());
    if e.tight {
        out.append(" -- fits, but tight");
    } else {
        out.append(fit_label(e.fits));
    }
    if fits_as_default(e, recommended) {
        out.append("  (recommended)");
    } else {
        out.append("");
    }
    out
}

fn fits_as_default(e: &MenuEntry, recommended: &str) -> (r: bool)
    ensures
        r == is_default(*e, recommended@),
{
    text::same_text(e.slug.as_str(), recommended) && does_fit(e)
}

fn does_fit(e: &MenuEntry) -> (r: bool)
    ensures
        r == (e.fits == Some(true)),
{
    match e.fits {
        Some(b) => b,
        None => false,
    }
}

/// The list to choose from, with the model that is recommended as the default where
/// it fits.
pub fn menu(entries: &Vec<MenuEntry>, recommended: &str) -> (r: Result<Menu, String>)
    ensures
        if entries@.len() == 0 {
            r matches Err(m) && m@ == "model catalog has no downloadable models"@
        } else {
            r matches Ok(m) && text::strings(m.lines@) == menu_lines(entries@, recommended@)
                && m.any_fits == some_fit(entries@, entries@.len() as int) && (
            match m.default_index {
                Some(i) => default_of(entries@, recommended@, entries@.len() as int) == Some(
                    i as int,
                ),
                None => default_of(entries@, recommended@, entries@.len() as int) is None,
            })
        },
{
    if entries.len() == 0 {
        return Err("model catalog has no downloadable models".to_string());
    }
    let ghost goal = menu_lines(entries@, recommended@);
    let mut lines: Vec<String> = Vec::new();
    let mut default_index: Option<usize> = None;
    let mut any_fits: bool = false;
    let mut i: usize = 0;
    assert(text::strings(lines@) =~= goal.take(0));
    while i < entries.len()
        invariant
            i <= entries@.len(),
            goal == menu_lines(entries@, recommended@),
            text::strings(lines@) == goal.take(i as int),
            any_fits == some_fit(entries@, i as int),
            match default_index {
                Some(k) => default_of(entries@, recommended@, i as int) == Some(k as int),
                None => default_of(entries@, recommended@, i as int) is None,
            },
        decreases entries@.len() - i,
    {
        let ghost before = lines@;
        if does_fit(&entries[i]) {
            any_fits = true;
        }
        if fits_as_default(&entries[i], recommended) {
            default_index = Some(i);
        }
        let line = line_of_entry(&entries[i], i, recommended);
        lines.push(line);
        assert(text::strings(lines@) =~= text::strings(before).push(line@));
        assert(goal.take(i + 1) =~= goal.take(i as int).push(goal[i as int]));
        i += 1;
    }
    assert(goal.take(i as int) =~= goal);
    Ok(Menu { lines, default_index, any_fits })
}

/// The question below the list.
pub fn menu_question(default_index: Option<usize>) -> (r: String)
    ensures
        r@ == match default_index {
            Some(i) => "Use which model? ["@ + text::decimal((i + 1) as nat) + "]/number/q: "@,
            None => "Use which model? number/q: "@,
        },
{
    match default_index {
        Some(i) => {
            let mut out = "Use which model? [".to_string();
            out.append(text::decimal_string(i as u128 + 1).as_str());
            out.append("]/number/q: ");
            out
        },
        None => "Use which model? number/q: ".to_string(),
    }
}

/// The place on the list that an answer names.
pub open spec fn chosen(answer: Seq<char>, default_index: Option<usize>, n: nat) -> Option<int> {
    let line = text::trim(answer);
    if line.len() == 0 {
        match default_index {
            Some(i) => Some(i as int),
            None => None,
        }
    } else {
        match text::parse_unsigned(line, u64::MAX as nat) {
            Some(k) if 1 <= k <= n => Some(k - 1),
            _ => None,
        }
    }
}

/// The place on the list that an answer names: the default where the answer is
/// blank, none where it is no number on the list.
pub fn read_choice(answer: &str, default_index: Option<usize>, count: usize) -> (r: Option<usize>)
    ensures
        match r {
            Some(i) => chosen(answer@, default_index, count as nat) == Some(i as int),
            None => chosen(answer@, default_index, count as nat) is None,
        },
{
    let cs = text::chars_of(answer);
    let line = text::trimmed(cs.as_slice());
    if line.len() == 0 {
        return default_index;
    }
    match text::read_unsigned(line.as_slice(), u64::MAX) {
        Some(n) => if 1 <= n && n <= count as u64 {
            Some((n - 1) as usize)
        } else {
            None
        },
        None => None,
    }
}

/// The model that an answer picks from the list.
pub open spec fn menu_pick(
    entries: Seq<MenuEntry>,
    recommended: Seq<char>,
    answer: Seq<char>,
) -> Option<Seq<char>> {
    let line = text::trim(answer);
    let place = if line.len() == 0 {
        default_of(entries, recommended, entries.len() as int)
    } else {
        match text::parse_unsigned(line, u64::MAX as nat) {
            Some(k) if 1 <= k <= entries.len() => Some(k - 1),
            _ => None,
        }
    };
    match place {
        Some(i) => Some(entries[i].slug@),
        None => None,
    }
}

/// The default is on the list.
proof fn default_is_listed(entries: Seq<MenuEntry>, recommended: Seq<char>, n: int)
    ensures
        default_of(entries, recommended, n) matches Some(i) ==> 0 <= i < n,
    decreases n,
{
    if n > 0 {
        default_is_listed(entries, recommended, n - 1);
    }
}

/// The model that an answer picks from the list, which is the one to serve and to
/// remember; none where the user cancels.
pub fn picked_slug(entries: &Vec<MenuEntry>, recommended: &str, answer: &str) -> (r: Option<
    String,
>)
    ensures
        text::optional(r) == menu_pick(entries@, recommended@, answer@),
{
    let default_index: Option<usize> = match menu(entries, recommended) {
        Ok(m) => m.default_index,
        Err(_) => None,
    };
    proof {
        default_is_listed(entries@, recommended@, entries@.len() as int);
    }
    match read_choice(answer, default_index, entries.len()) {
        Some(i) => Some(entries[i].slug.clone()),
        None => None,
    }
}

// ---------------------------------------------------------------------------
// Approving a download.

/// A model as a refusal lists it.
#[derive(Debug)]
pub struct OfferedModel {
    pub slug: String,
    pub size: String,
    pub fits: Option<bool>,
}

/// The lines that list the first `n` models.
pub open spec fn offered_lines(models: Seq<OfferedModel>, n: int) -> Seq<char>
    decreases n,
{
    if n <= 0 {
        "a Millie model needs to be downloaded first. To approve:"@
    } else {
        offered_lines(models, n - 1) + "\n"@ + ("  "@ + models[n - 1].slug@ + ": "@
            + models[n - 1].size@ + fit_note(models[n - 1].fits))
    }
}

/// The error of a run that was not allowed to fetch a model: what could be fetched,
/// and how to approve it.
pub fn download_refusal(models: &Vec<OfferedModel>) -> (r: String)
    ensures
        r@ == offered_lines(models@, models@.len() as int) + "\n"@
            + "pass --download to approve the selected model download"@,
{
    let mut out = "a Millie model needs to be downloaded first. To approve:".to_string();
    let mut i: usize = 0;
    while i < models.len()
        invariant
            i <= models@.len(),
            out@ == offered_lines(models@, i as int),
        decreases models@.len() - i,
    {
        let m = &models[i];
        let mut line = "  ".to_string();
        line.append(m.slug.as_str());
        line.append(": ");
        line.append(m.size.as_str());
        line.append(fit_label(m.fits));
        out.append("\n");
        out.append(line.as_str());
        i += 1;
    }
    out.append("\n");
    out.append("pass --download to approve the selected model download");
    out
}

/// Whether fetching is approved without asking.
pub fn download_approved(value: Option<&str>) -> (r: bool)
    ensures
        r == (settings::value_text(value) matches Some(v) && text::trim(v) == "1"@),
{
    match value {
        Some(v) => text::same_text(text::str_trim(v).as_str(), "1"),
        None => false,
    }
}

/// What is said before asking whether to fetch files.
pub fn missing_files_text(model: &str, files: &Vec<String>) -> (r: String)
    ensures
        r@ == "Missing files for "@ + model@ + ":\n  "@ + text::join(
            text::strings(files@),
            "\n  "@,
        ) + "\nTo choose another model, run millie --model select."@,
{
    let mut out = "Missing files for ".to_string();
    out.append(model);
    out.append(":\n  ");
    out.append(text::join_strings(files, "\n  ").as_str());
    out.append("\nTo choose another model, run millie --model select.");
    out
}

pub open spec fn is_yes(answer: Seq<char>) -> bool {
    text::lower(text::trim(answer)) == text::lower("y"@) || text::lower(text::trim(answer))
        == text::lower("yes"@)
}

/// Takes the answer to whether to fetch files; none where nobody could be asked.
pub fn approve_download(model: &str, answer: Option<&str>) -> (r: Result<(), String>)
    ensures
        if settings::value_text(answer) matches Some(a) && is_yes(a) {
            r is Ok
        } else {
            r matches Err(m) && m@ == "Download not approved for "@ + model@
                + ". Retry with --download to approve. Your model selection is unchanged."@
        },
{
    match answer {
        Some(a) => {
            let trimmed = text::str_trim(a);
            if text::same_ignoring_case(trimmed.as_str(), "y") || text::same_ignoring_case(
                trimmed.as_str(),
                "yes",
            ) {
                return Ok(());
            }
        },
        None => {},
    }
    let mut m = "Download not approved for ".to_string();
    m.append(model);
    m.append(". Retry with --download to approve. Your model selection is unchanged.");
    Err(m)
}

// ---------------------------------------------------------------------------
// Laws.

/// A model that is named is served and remembered where the catalog has it, and refused where
/// it has not; one that is configured is served likewise and not remembered anew.
pub proof fn named_models_are_served(
    slug: Seq<char>,
    configured: Option<Seq<char>>,
    manual_path: Option<Seq<char>>,
    terminals: Terminals,
    entries: Seq<CatalogEntry>,
    picked: Option<Seq<char>>,
)
    requires
        slug != "select"@,
    ensures
        catalog::has_slug(entries, slug, entries.len() as int) ==> {
            &&& startup(Some(slug), configured, manual_path, terminals, entries, picked) == Ok::<
                StartupView,
                Seq<char>,
            >(StartupView::Serve { slug, remember: true })
            &&& startup(None, Some(slug), manual_path, terminals, entries, picked) == Ok::<
                StartupView,
                Seq<char>,
            >(StartupView::Serve { slug, remember: false })
        },
        !catalog::has_slug(entries, slug, entries.len() as int) ==> {
            &&& startup(Some(slug), configured, manual_path, terminals, entries, picked) is Err
            &&& startup(None, Some(slug), manual_path, terminals, entries, picked) is Err
        },
{
}

/// The user is asked where they ask to be, or where nothing says which model to serve and
/// they can answer; they are asked only at a terminal, and with the model that suits this
/// machine recommended. Where they cannot answer and nothing is said, that model is served.
pub proof fn users_are_asked_where_they_can_answer(
    configured: Option<Seq<char>>,
    manual_path: Option<Seq<char>>,
    terminals: Terminals,
    entries: Seq<CatalogEntry>,
    picked: Option<Seq<char>>,
)
    ensures
        ({
            let asked = startup(
                Some("select"@),
                configured,
                manual_path,
                terminals,
                entries,
                picked,
            );
            &&& asked is Ok <==> terminals.input && terminals.errors && picked is Some
            &&& asked matches Ok(v) ==> v == (StartupView::Choose { recommended: picked.unwrap() })
        }),
        ({
            let unsaid = startup(None, None, manual_path, terminals, entries, picked);
            let by_hand = manual_path is Some && !text::is_blank(manual_path.unwrap());
            &&& terminals.input && !by_hand ==> {
                &&& unsaid is Ok <==> terminals.errors && picked is Some
                &&& unsaid matches Ok(v) ==> v == (StartupView::Choose {
                    recommended: picked.unwrap(),
                })
            }
            &&& !terminals.input || by_hand ==> {
                &&& unsaid is Ok <==> (picked matches Some(slug) && catalog::has_slug(
                    entries,
                    slug,
                    entries.len() as int,
                ))
                &&& unsaid matches Ok(v) ==> v == (StartupView::Serve {
                    slug: picked.unwrap(),
                    remember: false,
                })
            }
        }),
{
}

/// A number from one up to the count picks the entry that the menu shows with it, an empty
/// answer the one that is recommended, and no other answer picks anything.
pub proof fn answers_pick_by_number(
    entries: Seq<MenuEntry>,
    recommended: Seq<char>,
    k: nat,
    a: Seq<char>,
    b: Seq<char>,
    default_index: Option<usize>,
)
    requires
        text::is_blank(a),
        text::is_blank(b),
        entries.len() <= u64::MAX,
    ensures
        ({
            let n = entries.len();
            let answer = a + text::decimal(k) + b;
            &&& chosen(answer, default_index, n) == if 1 <= k <= n {
                Some(k - 1)
            } else {
                None
            }
            &&& menu_pick(entries, recommended, answer) == if 1 <= k <= n {
                Some(entries[k - 1].slug@)
            } else {
                None
            }
            &&& chosen(a, default_index, n) == match default_index {
                Some(i) => Some(i as int),
                None => None,
            }
            &&& menu_pick(entries, recommended, a) is Some ==> menu_pick(entries, recommended, a)
                == Some(recommended)
            &&& menu_pick(entries, recommended, a) is Some <==> exists|i: int|
                0 <= i < n && (#[trigger] entries[i]).slug@ == recommended && entries[i].fits == Some(
                    true,
                )
        }),
{
    text::numerals_are_not_trimmed(k, a, b);
    text::numbers_are_read_back(k, u64::MAX as nat, Seq::empty());
    assert(Seq::<char>::empty() + text::decimal(k) =~= text::decimal(k));
    text::trim_of_blank(a);
    the_recommended_is_default(entries, recommended, entries.len() as int);
}

proof fn the_recommended_is_default(entries: Seq<MenuEntry>, recommended: Seq<char>, n: int)
    requires
        0 <= n <= entries.len(),
    ensures
        match default_of(entries, recommended, n) {
            Some(i) => 0 <= i < n && entries[i].slug@ == recommended && entries[i].fits == Some(true),
            None => forall|i: int|
                0 <= i < n ==> (#[trigger] entries[i]).slug@ != recommended || entries[i].fits != Some(
                    true,
                ),
        },
    decreases n,
{
    if n > 0 {
        the_recommended_is_default(entries, recommended, n - 1);
    }
}

/// Whatever is no number picks nothing, unless it is blank.
pub proof fn other_answers_pick_nothing(
    entries: Seq<MenuEntry>,
    recommended: Seq<char>,
    answer: Seq<char>,
    default_index: Option<usize>,
    i: int,
)
    requires
        0 <= i < text::trim(answer).len(),
        !text::is_digit(text::trim(answer)[i]),
        text::trim(answer)[i] != '+',
    ensures
        chosen(answer, default_index, entries.len()) is None,
        menu_pick(entries, recommended, answer) is None,
{
    if text::parse_unsigned(text::trim(answer), u64::MAX as nat) is Some {
        text::only_numerals_are_numbers(text::trim(answer), u64::MAX as nat, i);
    }
}

/// Some model fits exactly where one of them is said to.
pub proof fn one_fit_is_enough(entries: Seq<MenuEntry>, n: int)
    requires
        0 <= n <= entries.len(),
    ensures
        some_fit(entries, n) <==> exists|i: int| 0 <= i < n && (#[trigger] entries[i]).fits == Some(true),
    decreases n,
{
    if n > 0 {
        one_fit_is_enough(entries, n - 1);
        if some_fit(entries, n - 1) {
            let i = choose|i: int| 0 <= i < n - 1 && (#[trigger] entries[i]).fits == Some(true);
            assert(entries[i].fits == Some(true));
        }
        if entries[n - 1].fits == Some(true) {
            assert(entries[n - 1].fits == Some(true));
        }
    }
}

/// A line of the menu shows the number that picks it, the name and the size, and says that
/// it is recommended only of the model that is and that fits.
pub proof fn lines_show_their_number(e: MenuEntry, i: int, recommended: Seq<char>)
    requires
        0 <= i,
    ensures
        text::begins_with(
            menu_line(e, i, recommended),
            "  ["@ + text::decimal((i + 1) as nat) + "] "@ + e.display_name@ + " -- "@ + e.size@,
        ),
        e.slug@ == recommended && e.fits == Some(true) ==> text::ends_in(
            menu_line(e, i, recommended),
            "  (recommended)"@,
        ),
        e.slug@ != recommended && e.tight ==> text::ends_in(
            menu_line(e, i, recommended),
            " -- fits, but tight"@,
        ),
        !e.tight && e.fits == Some(true) && e.slug@ != recommended ==> text::ends_in(
            menu_line(e, i, recommended),
            " -- fits this machine"@,
        ),
        !e.tight && e.fits == Some(false) ==> text::ends_in(
            menu_line(e, i, recommended),
            " -- will not fit this machine  (not recommended)"@,
        ),
        !e.tight && e.fits is None ==> text::ends_in(menu_line(e, i, recommended), " -- "@ + e.size@),
{
    reveal_strlit("");
    assert(""@.len() == 0);
    let line = menu_line(e, i, recommended);
    let front = "  ["@ + text::decimal((i + 1) as nat) + "] "@ + e.display_name@ + " -- "@ + e.size@;
    assert(line.take(front.len() as int) =~= front);
    ended_by(line, "  (recommended)"@);
    ended_by(line, " -- fits, but tight"@);
    ended_by(line, " -- fits this machine"@);
    ended_by(line, " -- will not fit this machine  (not recommended)"@);
    ended_by(line, " -- "@ + e.size@);
}

proof fn ended_by(line: Seq<char>, end: Seq<char>)
    ensures
        text::ends_in(line, end) <==> (end.len() <= line.len() && line.skip(line.len() - end.len()) =~= end),
{
}

/// A setting of the model is exchanged where it stands, before any table opens, and all else
/// stays as it is.
pub proof fn the_model_setting_is_exchanged(
    before: Seq<Seq<char>>,
    old_line: Seq<char>,
    behind: Seq<Seq<char>>,
    slug: Seq<char>,
)
    requires
        sets_model(old_line),
        !opens_table(old_line),
        forall|k: int|
            0 <= k < before.len() ==> !sets_model(#[trigger] before[k]) && !opens_table(before[k]),
        ({
            let all = before + seq![old_line] + behind;
            forall|k: int, i: int|
                0 <= k < all.len() && 0 <= i < all[k].len() ==> #[trigger] all[k][i] != '\n'
        }),
    ensures
        with_model(text::join(before + seq![old_line] + behind, seq!['\n']), slug) == text::join(
            before + seq![model_setting(slug)] + behind,
            seq!['\n'],
        ),
{
    reveal_strlit("\n");
    assert("\n"@ =~= seq!['\n']);
    let all = before + seq![old_line] + behind;
    text::parts_are_cut_again(all, '\n');
    let at = before.len() as int;
    assert forall|k: int| 0 <= k < at implies !sets_model(#[trigger] all[k]) && !opens_table(all[k]) by {
        assert(all[k] == before[k]);
    }
    assert(all[at] == old_line);
    found_at(all, 0, at);
    assert(all.update(at, model_setting(slug)) =~= before + seq![model_setting(slug)] + behind);
}

proof fn found_at(lines: Seq<Seq<char>>, i: int, at: int)
    requires
        0 <= i <= at < lines.len(),
        sets_model(lines[at]),
        !opens_table(lines[at]),
        forall|k: int| 0 <= k < at ==> !sets_model(#[trigger] lines[k]) && !opens_table(lines[k]),
    ensures
        model_line(lines, i) == Some(at),
    decreases at - i,
{
    if i < at {
        assert(!sets_model(lines[i]));
        found_at(lines, i + 1, at);
    }
}

/// Where the model is not set before the first table, the setting goes in front of all else.
pub proof fn a_new_model_setting_comes_first(
    before: Seq<Seq<char>>,
    behind: Seq<Seq<char>>,
    slug: Seq<char>,
)
    requires
        before.len() + behind.len() > 0,
        behind.len() > 0 ==> opens_table(behind[0]),
        forall|k: int| 0 <= k < before.len() ==> !sets_model(#[trigger] before[k]),
        ({
            let all = before + behind;
            forall|k: int, i: int|
                0 <= k < all.len() && 0 <= i < all[k].len() ==> #[trigger] all[k][i] != '\n'
        }),
    ensures
        ({
            let config = text::join(before + behind, seq!['\n']);
            with_model(config, slug) == model_setting(slug) + seq!['\n'] + config
        }),
{
    reveal_strlit("\n");
    assert("\n"@ =~= seq!['\n']);
    let all = before + behind;
    text::parts_are_cut_again(all, '\n');
    let at = before.len() as int;
    assert forall|k: int| 0 <= k < at implies !sets_model(#[trigger] all[k]) by {
        assert(all[k] == before[k]);
    }
    assert(behind.len() > 0 ==> all[at] == behind[0]);
    found_nowhere(all, 0, at);
}

proof fn found_nowhere(lines: Seq<Seq<char>>, i: int, at: int)
    requires
        0 <= i <= at <= lines.len(),
        at < lines.len() ==> opens_table(lines[at]),
        forall|k: int| 0 <= k < at ==> !sets_model(#[trigger] lines[k]),
    ensures
        model_line(lines, i) is None,
    decreases at - i,
{
    if i < at {
        assert(!sets_model(lines[i]));
        found_nowhere(lines, i + 1, at);
    }
}

/// A download is approved by a yes, in small letters or capital ones, with blanks around it,
/// and by nothing else.
pub proof fn only_a_yes_approves(a: Seq<char>, s: Seq<char>, b: Seq<char>)
    requires
        text::is_blank(a),
        text::is_blank(b),
        s.len() > 0,
        !text::is_white(s[0]),
        !text::is_white(s.last()),
    ensures
        !is_yes(a),
        s.len() == 1 ==> (is_yes(a + s + b) <==> s[0] == 'y' || s[0] == 'Y'),
        s.len() == 3 ==> (is_yes(a + s + b) <==> (s[0] == 'y' || s[0] == 'Y') && (s[1] == 'e' || s[1]
            == 'E') && (s[2] == 's' || s[2] == 'S')),
        s.len() != 1 && s.len() != 3 ==> !is_yes(a + s + b),
{
    text::trim_takes_off_the_white(a, s, b);
    text::trim_of_blank(a);
    reveal_strlit("y");
    reveal_strlit("yes");
    let (y, yes) = ("y"@, "yes"@);
    assert(y.len() == 1 && yes.len() == 3);
    assert(text::lower(y) =~= y);
    assert(text::lower(yes) =~= yes);
    assert(text::lower(s).len() == s.len());
    assert(text::lower(text::trim(a)).len() == 0);
    if s.len() == 1 {
        assert(text::lower(s) =~= y <==> text::lower(s)[0] == 'y');
    }
    if s.len() == 3 {
        assert(text::lower(s) =~= yes <==> text::lower(s)[0] == 'y' && text::lower(s)[1] == 'e'
            && text::lower(s)[2] == 's');
    }
}

/// A refusal of a model that is not known names it and lists every model that is.
pub proof fn refusals_list_the_models(slug: Seq<char>, entries: Seq<CatalogEntry>)
    ensures
        text::begins_with(unknown_model(slug, entries), "Unknown model `"@ + slug),
        text::ends_in(
            unknown_model(slug, entries),
            text::join(entries.map_values(|e: CatalogEntry| e.slug@), ", "@),
        ),
{
    let all = unknown_model(slug, entries);
    let front = "Unknown model `"@ + slug;
    let list = text::join(entry_slugs(entries), ", "@);
    assert(all.take(front.len() as int) =~= front);
    assert(all.skip(all.len() - list.len()) =~= list);
    assert(entry_slugs(entries) =~= entries.map_values(|e: CatalogEntry| e.slug@));
}

/// Each model that could be fetched is offered on a line of its own, with its size and
/// whether it fits.
pub proof fn models_are_offered_line_by_line(models: Seq<OfferedModel>, n: int)
    requires
        0 < n <= models.len(),
    ensures
        offered_lines(models, n) == offered_lines(models, n - 1) + "\n"@ + ("  "@ + models[n
            - 1].slug@ + ": "@ + models[n - 1].size@ + (match models[n - 1].fits {
            Some(true) => " -- fits this machine"@,
            Some(false) => " -- will not fit this machine  (not recommended)"@,
            None => ""@,
        })),
{
}

} // verus!
