//! Installing models and updating them: which files are missing, when the server is
//! asked for a revision, and what an update check reports.

use crate::model_updates;
use crate::model_updates::ModelSource;
use crate::model_updates::RemoteFile;
use crate::model_updates::SourceModel;
use crate::oss;
use crate::settings;
use crate::text;
use vstd::prelude::*;
use vstd::string::*;

verus! {

// ---------------------------------------------------------------------------
// What is missing.

/// Whether a file that is needed is missing. The first file is always needed, the
/// others for vision alone.
pub open spec fn is_missing(present: Seq<bool>, vision: bool) -> bool {
    exists|i: int| 0 <= i < present.len() && (i == 0 || vision) && !#[trigger] present[i]
}

/// Whether a file that is needed is missing. `present` says of each file whether it
/// is there.
pub fn missing(present: &Vec<bool>, vision: bool) -> (r: bool)
    ensures
        r == is_missing(present@, vision),
{
    let mut i: usize = 0;
    while i < present.len()
        invariant
            i <= present@.len(),
            forall|k: int| 0 <= k < i && (k == 0 || vision) ==> #[trigger] present@[k],
        decreases present@.len() - i,
    {
        if (i == 0 || vision) && !present[i] {
            return true;
        }
        i += 1;
    }
    false
}

/// Where the files of a catalog model lie: where they were put by hand, else in the
/// cache.
pub open spec fn source_at(models: Seq<char>, repo: Seq<char>, file: Seq<char>, by_hand: bool) -> SourceModel {
    SourceModel {
        repo,
        file,
        path: if by_hand {
            text::path_under(models, file)
        } else {
            model_updates::cache_path(models, repo, file)
        },
        sha256: None,
        revision: None,
    }
}

/// A file of a catalog model. `by_hand` says whether it lies right in the models
/// directory.
pub fn catalog_source(models: &str, repo: &str, file: &str, by_hand: bool) -> (r: ModelSource)
    ensures
        r@ == source_at(models@, repo@, file@, by_hand),
{
    let path = if by_hand {
        text::join_path(models, file)
    } else {
        model_updates::hf_cache_path(models, repo, file)
    };
    ModelSource {
        repo: repo.to_string(),
        file: file.to_string(),
        path,
        sha256: None,
        revision: None,
    }
}

/// Whether the model is installed without a record of its revision while its vision
/// tower is missing.
pub open spec fn is_unmatched(first: SourceModel, present: Seq<bool>, vision: bool) -> bool {
    vision && present[0] && first.revision is None && is_missing(present, vision)
}

pub open spec fn unmatched_text() -> Seq<char> {
    "The installed model has no recorded remote revision and its vision tower is missing. Existing model files were preserved. Use --no-vision to keep using it, provide a matching local tower, or explicitly run millie models update to install a matching model and tower."@
}

/// Refuses to fetch a vision tower for a model whose revision is not known: the two
/// might not match.
pub fn require_known_vision_revision(
    sources: &Vec<ModelSource>,
    present: &Vec<bool>,
    vision: bool,
) -> (r: Result<(), String>)
    requires
        sources@.len() > 0,
        present@.len() == sources@.len(),
    ensures
        if is_unmatched(sources@[0]@, present@, vision) {
            r matches Err(m) && m@ == unmatched_text()
        } else {
            r is Ok
        },
{
    if vision && present[0] && sources[0].revision.is_none() && missing(present, vision) {
        return Err(
            "The installed model has no recorded remote revision and its vision tower is missing. Existing model files were preserved. Use --no-vision to keep using it, provide a matching local tower, or explicitly run millie models update to install a matching model and tower.".to_string(),
        );
    }
    Ok(())
}

/// What installing comes to.
#[derive(Debug, Clone, Copy, PartialEq, Eq, Structural)]
pub enum InstallStep {
    /// Keep what is there. Files of a known revision are repaired from that revision.
    Keep,
    /// Ask the server for a revision, and fetch what is missing.
    Fetch,
}

/// What installing the files of a model comes to. The server is asked only where a
/// file is missing of which no revision is known.
pub fn install_missing(sources: &Vec<ModelSource>, present: &Vec<bool>, vision: bool) -> (r: Result<
    InstallStep,
    String,
>)
    requires
        sources@.len() > 0,
        present@.len() == sources@.len(),
    ensures
        if !is_missing(present@, vision) || sources@[0].revision is Some {
            r == Ok::<InstallStep, String>(InstallStep::Keep)
        } else if is_unmatched(sources@[0]@, present@, vision) {
            r matches Err(m) && m@ == unmatched_text()
        } else {
            r == Ok::<InstallStep, String>(InstallStep::Fetch)
        },
{
    if !missing(present, vision) || sources[0].revision.is_some() {
        return Ok(InstallStep::Keep);
    }
    match require_known_vision_revision(sources, present, vision) {
        Ok(_) => Ok(InstallStep::Fetch),
        Err(m) => Err(m),
    }
}

/// A launch of a model that is all there never asks the server for anything.
pub proof fn complete_models_stay_offline(present: Seq<bool>, vision: bool)
    requires
        forall|i: int| 0 <= i < present.len() ==> #[trigger] present[i],
    ensures
        !is_missing(present, vision),
{
}

// ---------------------------------------------------------------------------
// What the launcher is told.

/// A setting to make, or to clear.
#[derive(Debug)]
pub struct SourceSetting {
    pub key: String,
    pub value: Option<String>,
}

pub open spec fn setting_models(v: Seq<SourceSetting>) -> Seq<(Seq<char>, Option<Seq<char>>)> {
    v.map_values(|s: SourceSetting| (s.key@, text::optional(s.value)))
}

pub open spec fn prefix_of(index: int) -> Seq<char> {
    if index == 0 {
        "MILLIE_LLAMACPP_MODEL"@
    } else {
        "MILLIE_LLAMACPP_MMPROJ"@
    }
}

pub open spec fn revision_or_main(revision: Option<Seq<char>>) -> Seq<char> {
    match revision {
        Some(r) => r,
        None => "main"@,
    }
}

pub open spec fn source_settings(index: int, s: SourceModel, url: Seq<char>) -> Seq<
    (Seq<char>, Option<Seq<char>>),
> {
    seq![
        (prefix_of(index) + "_PATH"@, Some(s.path)),
        (prefix_of(index) + "_URL"@, Some(url)),
        (prefix_of(index) + "_SHA256"@, s.sha256),
    ]
}

fn key_of(index: usize, tail: &str) -> (r: String)
    ensures
        r@ == prefix_of(index as int) + tail@,
{
    let mut out = if index == 0 {
        "MILLIE_LLAMACPP_MODEL".to_string()
    } else {
        "MILLIE_LLAMACPP_MMPROJ".to_string()
    };
    out.append(tail);
    out
}

/// What the launcher is told of a file: where it lies, where it is fetched from, and
/// its digest, which is cleared where none is known.
pub fn export_source(index: usize, source: &ModelSource, endpoint: &str) -> (r: Result<
    Vec<SourceSetting>,
    String,
>)
    requires
        endpoint@.len() + source.repo@.len() + revision_or_main(source@.revision).len()
            + source.file@.len() <= 99_000_000,
    ensures
        match model_updates::url_of_file(
            endpoint@,
            source.repo@,
            revision_or_main(source@.revision),
            source.file@,
        ) {
            Ok(url) => r matches Ok(v) && setting_models(v@) == source_settings(
                index as int,
                source@,
                url,
            ),
            Err(m) => r matches Err(e) && e@ == m,
        },
{
    let revision = match &source.revision {
        Some(r) => r.clone(),
        None => "main".to_string(),
    };
    let url = match model_updates::file_url(
        endpoint,
        source.repo.as_str(),
        revision.as_str(),
        source.file.as_str(),
    ) {
        Ok(u) => u,
        Err(m) => {
            return Err(m);
        },
    };
    let mut out: Vec<SourceSetting> = Vec::new();
    out.push(SourceSetting { key: key_of(index, "_PATH"), value: Some(source.path.clone()) });
    out.push(SourceSetting { key: key_of(index, "_URL"), value: Some(url) });
    out.push(
        SourceSetting {
            key: key_of(index, "_SHA256"),
            value: model_updates::copied(&source.sha256),
        },
    );
    assert(setting_models(out@) =~= source_settings(index as int, source@, url@));
    Ok(out)
}

// ---------------------------------------------------------------------------
// Update commands.

/// What an update command does with a newer revision.
#[derive(Debug, Clone, Copy, PartialEq, Eq, Structural)]
pub enum UpdateAction {
    Check,
    Install,
}

/// What names the model of an update command.
#[derive(Debug)]
pub struct ModelSelection {
    pub explicit: Option<String>,
    pub remembered: Option<String>,
    pub model_hf: Option<String>,
    pub model_path: Option<String>,
}

/// Where the files of an update command come from.
#[derive(Debug)]
pub enum UpdateSource {
    /// A file of a repository of the user's own.
    Custom { repo: String, file: String },
    /// A model of the catalog.
    Catalog { slug: String },
}

pub enum UpdateSourceView {
    Custom { repo: Seq<char>, file: Seq<char> },
    Catalog { slug: Seq<char> },
}

impl View for UpdateSource {
    type V = UpdateSourceView;

    open spec fn view(&self) -> UpdateSourceView {
        match self {
            UpdateSource::Custom { repo, file } => UpdateSourceView::Custom {
                repo: repo@,
                file: file@,
            },
            UpdateSource::Catalog { slug } => UpdateSourceView::Catalog { slug: slug@ },
        }
    }
}

pub open spec fn untracked() -> Seq<char> {
    "A manual GGUF path has no tracked update source. Name a catalog model after the command, or configure llamacpp.model_hf instead."@
}

/// Where the files of an update command come from: the model it names; else, unless
/// a file is given by its path, the user's own repository; else the model that is
/// remembered.
pub open spec fn update_source_of(
    s: ModelSelection,
    path_set: Option<Seq<char>>,
    hf_set: Option<Seq<char>>,
) -> Result<UpdateSourceView, Seq<char>> {
    match s.explicit {
        Some(model) => Ok(UpdateSourceView::Catalog { slug: model@ }),
        None => if s.model_path is Some || settings::filled(path_set) is Some {
            Err(untracked())
        } else {
            match (match s.model_hf {
                Some(h) => Some(h@),
                None => hf_set,
            }) {
                Some(spec_text) => match oss::hf_parts(spec_text) {
                    Some((repo, file)) => Ok(UpdateSourceView::Custom { repo, file }),
                    None => Err("Invalid llamacpp.model_hf; expected org/repo/file.gguf"@),
                },
                None => match s.remembered {
                    Some(slug) => Ok(UpdateSourceView::Catalog { slug: slug@ }),
                    None => Err(
                        "No model selected. Specify a catalog model after check-updates or update."@,
                    ),
                },
            }
        },
    }
}

/// Where the files of an update command come from.
pub fn update_source(s: &ModelSelection, path_set: Option<&str>, hf_set: Option<&str>) -> (r: Result<
    UpdateSource,
    String,
>)
    ensures
        match r {
            Ok(u) => update_source_of(
                *s,
                settings::value_text(path_set),
                settings::value_text(hf_set),
            ) == Ok::<UpdateSourceView, Seq<char>>(u@),
            Err(m) => update_source_of(
                *s,
                settings::value_text(path_set),
                settings::value_text(hf_set),
            ) == Err::<UpdateSourceView, Seq<char>>(m@),
        },
{
    match &s.explicit {
        Some(model) => {
            return Ok(UpdateSource::Catalog { slug: model.clone() });
        },
        None => {},
    }
    let by_path: bool = match path_set {
        Some(p) => !text::str_blank(p),
        None => false,
    };
    if s.model_path.is_some() || by_path {
        return Err(
            "A manual GGUF path has no tracked update source. Name a catalog model after the command, or configure llamacpp.model_hf instead.".to_string(),
        );
    }
    let custom: Option<String> = match &s.model_hf {
        Some(h) => Some(h.clone()),
        None => match hf_set {
            Some(h) => Some(h.to_string()),
            None => None,
        },
    };
    match custom {
        Some(spec_text) => match oss::split_hf_spec(spec_text.as_str()) {
            Some((repo, file)) => Ok(UpdateSource::Custom { repo, file }),
            None => Err("Invalid llamacpp.model_hf; expected org/repo/file.gguf".to_string()),
        },
        None => match &s.remembered {
            Some(slug) => Ok(UpdateSource::Catalog { slug: slug.clone() }),
            None => Err(
                "No model selected. Specify a catalog model after check-updates or update.".to_string(),
            ),
        },
    }
}

/// The first of the files from `i` on that is called `file`.
pub open spec fn installed_as(active: Seq<SourceModel>, file: Seq<char>, i: int) -> Option<SourceModel>
    decreases active.len() - i,
{
    if i >= active.len() {
        None
    } else if active[i].file == file {
        Some(active[i])
    } else {
        installed_as(active, file, i + 1)
    }
}

/// The sources with what is installed in place of each that is.
pub open spec fn adopted(sources: Seq<SourceModel>, active: Seq<SourceModel>) -> Seq<SourceModel> {
    sources.map_values(
        |s: SourceModel|
            match installed_as(active, s.file, 0) {
                Some(a) => a,
                None => s,
            },
    )
}

fn find_installed(active: &Vec<ModelSource>, file: &str) -> (r: Option<ModelSource>)
    ensures
        match r {
            Some(a) => installed_as(model_updates::source_models(active@), file@, 0) == Some(a@),
            None => installed_as(model_updates::source_models(active@), file@, 0) is None,
        },
{
    let ghost all = model_updates::source_models(active@);
    let mut i: usize = 0;
    while i < active.len()
        invariant
            i <= active@.len(),
            all == model_updates::source_models(active@),
            installed_as(all, file@, 0) == installed_as(all, file@, i as int),
        decreases active@.len() - i,
    {
        assert(all[i as int] == active@[i as int]@);
        if text::same_text(active[i].file.as_str(), file) {
            return Some(active[i].clone());
        }
        i += 1;
    }
    None
}

/// The sources with what is installed in place of each that is.
pub fn adopt_installed(sources: &Vec<ModelSource>, active: &Vec<ModelSource>) -> (r: Vec<ModelSource>)
    ensures
        model_updates::source_models(r@) == adopted(
            model_updates::source_models(sources@),
            model_updates::source_models(active@),
        ),
{
    let ghost goal = adopted(
        model_updates::source_models(sources@),
        model_updates::source_models(active@),
    );
    let mut out: Vec<ModelSource> = Vec::new();
    let mut i: usize = 0;
    assert(model_updates::source_models(out@) =~= goal.take(0));
    while i < sources.len()
        invariant
            i <= sources@.len(),
            goal == adopted(
                model_updates::source_models(sources@),
                model_updates::source_models(active@),
            ),
            model_updates::source_models(out@) == goal.take(i as int),
        decreases sources@.len() - i,
    {
        let ghost before = out@;
        assert(model_updates::source_models(sources@)[i as int] == sources@[i as int]@);
        let next = match find_installed(active, sources[i].file.as_str()) {
            Some(a) => a,
            None => sources[i].clone(),
        };
        out.push(next);
        assert(model_updates::source_models(out@) =~= model_updates::source_models(before).push(
            next@,
        ));
        assert(goal.take(i + 1) =~= goal.take(i as int).push(goal[i as int]));
        i += 1;
    }
    assert(goal.take(i as int) =~= goal);
    out
}

/// What is said of a file.
pub open spec fn state_of(f: RemoteFile, present: bool) -> Seq<char> {
    if !present {
        "not installed"@
    } else if f.source@.sha256 == Some(f.sha256@) {
        "up to date"@
    } else {
        "update available (or installed revision unrecorded)"@
    }
}

pub open spec fn is_changed(f: RemoteFile, present: bool) -> bool {
    !present || f.source@.sha256 != Some(f.sha256@)
}

pub open spec fn state_line(f: RemoteFile, present: bool, size: Seq<char>) -> Seq<char> {
    f.source.repo@ + "/"@ + f.source.file@ + ": "@ + state_of(f, present) + "; "@ + size
        + " GB; revision "@ + f.revision@
}

pub open spec fn state_lines(files: Seq<RemoteFile>, present: Seq<bool>, sizes: Seq<Seq<char>>) -> Seq<
    Seq<char>,
> {
    files.map(|i: int, f: RemoteFile| state_line(f, present[i], sizes[i]))
}

/// Whether one of the first `n` files is not as the server has it.
pub open spec fn some_changed(files: Seq<RemoteFile>, present: Seq<bool>, n: int) -> bool
    decreases n,
{
    n > 0 && (is_changed(files[n - 1], present[n - 1]) || some_changed(files, present, n - 1))
}

/// What an update check found.
#[derive(Debug)]
pub struct UpdateReport {
    pub lines: Vec<String>,
    pub changed: bool,
}

fn has_digest(f: &RemoteFile) -> (r: bool)
    ensures
        r == (f.source@.sha256 == Some(f.sha256@)),
{
    match &f.source.sha256 {
        Some(d) => text::same_text(d.as_str(), f.sha256.as_str()),
        None => false,
    }
}

fn line_of_file(f: &RemoteFile, present: bool, size: &str) -> (r: String)
    ensures
        r@ == state_line(*f, present, size@),
{
    let mut out = f.source.repo.clone();
    out.append("/");
    out.append(f.source.file.as_str());
    out.append(": ");
    if !present {
        out.append("not installed");
    } else if has_digest(f) {
        out.append("up to date");
    } else {
        out.append("update available (or installed revision unrecorded)");
    }
    out.append("; ");
    out.append(size);
    out.append(" GB; revision ");
    out.append(f.revision.as_str());
    out
}

/// What an update check found. `present` and `sizes` say of each file whether it is
/// there and how large it is, in gigabytes.
pub fn update_report(files: &Vec<RemoteFile>, present: &Vec<bool>, sizes: &Vec<String>) -> (r: UpdateReport)
    requires
        present@.len() == files@.len(),
        sizes@.len() == files@.len(),
    ensures
        text::strings(r.lines@) == state_lines(files@, present@, text::strings(sizes@)),
        r.changed == some_changed(files@, present@, files@.len() as int),
{
    let ghost goal = state_lines(files@, present@, text::strings(sizes@));
    let mut lines: Vec<String> = Vec::new();
    let mut changed: bool = false;
    let mut i: usize = 0;
    assert(text::strings(lines@) =~= goal.take(0));
    while i < files.len()
        invariant
            i <= files@.len(),
            present@.len() == files@.len(),
            sizes@.len() == files@.len(),
            goal == state_lines(files@, present@, text::strings(sizes@)),
            text::strings(lines@) == goal.take(i as int),
            changed == some_changed(files@, present@, i as int),
        decreases files@.len() - i,
    {
        let ghost before = lines@;
        if !present[i] || !has_digest(&files[i]) {
            changed = true;
        }
        let line = line_of_file(&files[i], present[i], sizes[i].as_str());
        lines.push(line);
        assert(text::strings(lines@) =~= text::strings(before).push(line@));
        assert(goal.take(i + 1) =~= goal.take(i as int).push(goal[i as int]));
        i += 1;
    }
    assert(goal.take(i as int) =~= goal);
    UpdateReport { lines, changed }
}

/// Whether an update command fetches anything.
pub fn installs(action: UpdateAction, changed: bool) -> (r: bool)
    ensures
        r == (action == UpdateAction::Install && changed),
{
    match action {
        UpdateAction::Install => changed,
        UpdateAction::Check => false,
    }
}

/// The line that ends the report of an update command.
pub open spec fn last_line(action: UpdateAction, changed: bool) -> Seq<Seq<char>> {
    if !changed {
        Seq::empty()
    } else {
        match action {
            UpdateAction::Install => seq![
                "Update verified and installed. It will be used on the next model-server launch. Existing model files and running sessions were preserved. Sampling settings are unchanged."@,
            ],
            UpdateAction::Check => seq![
                "Run millie models update (with the same model/profile options) to download and install this revision."@,
            ],
        }
    }
}

/// What an update command prints, once what it fetches is installed.
pub fn report_text(report: UpdateReport, action: UpdateAction) -> (r: String)
    ensures
        r@ == text::join(
            text::strings(report.lines@) + last_line(action, report.changed),
            "\n"@,
        ),
{
    let mut lines = report.lines;
    let ghost before = lines@;
    if report.changed {
        match action {
            UpdateAction::Install => lines.push(
                "Update verified and installed. It will be used on the next model-server launch. Existing model files and running sessions were preserved. Sampling settings are unchanged.".to_string(),
            ),
            UpdateAction::Check => lines.push(
                "Run millie models update (with the same model/profile options) to download and install this revision.".to_string(),
            ),
        }
    }
    assert(text::strings(lines@) =~= text::strings(before) + last_line(action, report.changed));
    text::join_strings(&lines, "\n")
}

/// A check never installs anything, and neither does an update of files that are as
/// the server has them.
pub proof fn only_changed_files_are_installed(
    files: Seq<RemoteFile>,
    present: Seq<bool>,
    n: int,
)
    requires
        0 <= n <= files.len(),
        forall|i: int|
            0 <= i < files.len() ==> present[i] && (#[trigger] files[i]).source@.sha256 == Some(
                files[i].sha256@,
            ),
    ensures
        !some_changed(files, present, n),
    decreases n,
{
    if n > 0 {
        only_changed_files_are_installed(files, present, n - 1);
        assert(!is_changed(files[n - 1], present[n - 1]));
    }
}

// ---------------------------------------------------------------------------
// What is served at start.

/// Where the model that is served comes from, as far as the settings say.
#[derive(Debug)]
pub enum ConfiguredSource {
    /// A file that is given by its path.
    Given,
    /// A file of a repository of the user's own.
    Custom { repo: String, file: String },
    /// The catalog; with what the user is told of a repository that was not understood.
    Catalog { notice: Option<String> },
}

pub enum ConfiguredView {
    Given,
    Custom { repo: Seq<char>, file: Seq<char> },
    Catalog { notice: Option<Seq<char>> },
}

impl View for ConfiguredSource {
    type V = ConfiguredView;

    open spec fn view(&self) -> ConfiguredView {
        match self {
            ConfiguredSource::Given => ConfiguredView::Given,
            ConfiguredSource::Custom { repo, file } => ConfiguredView::Custom {
                repo: repo@,
                file: file@,
            },
            ConfiguredSource::Catalog { notice } => ConfiguredView::Catalog {
                notice: text::optional(*notice),
            },
        }
    }
}

pub open spec fn configured(path_set: Option<Seq<char>>, hf_set: Option<Seq<char>>) -> ConfiguredView {
    if settings::filled(path_set) is Some {
        ConfiguredView::Given
    } else {
        match settings::filled(hf_set) {
            Some(spec_text) => match oss::hf_parts(spec_text) {
                Some((repo, file)) => ConfiguredView::Custom { repo, file },
                None => ConfiguredView::Catalog {
                    notice: Some(
                        "millie: llamacpp.model_hf is not of the form org/repo/file.gguf: "@
                            + spec_text,
                    ),
                },
            },
            None => ConfiguredView::Catalog { notice: None },
        }
    }
}

/// Where the model that is served comes from: a path comes before a repository, and that
/// before the catalog.
pub fn configured_source(path_set: Option<&str>, hf_set: Option<&str>) -> (r: ConfiguredSource)
    ensures
        r@ == configured(settings::value_text(path_set), settings::value_text(hf_set)),
{
    match path_set {
        Some(p) => {
            if !text::str_blank(p) {
                return ConfiguredSource::Given;
            }
        },
        None => {},
    }
    match hf_set {
        Some(h) => {
            if text::str_blank(h) {
                return ConfiguredSource::Catalog { notice: None };
            }
            match oss::split_hf_spec(h) {
                Some((repo, file)) => ConfiguredSource::Custom { repo, file },
                None => {
                    let mut m =
                        "millie: llamacpp.model_hf is not of the form org/repo/file.gguf: ".to_string();
                    m.append(h);
                    ConfiguredSource::Catalog { notice: Some(m) }
                },
            }
        },
        None => ConfiguredSource::Catalog { notice: None },
    }
}

/// The place of the first text that is `wanted`, from `i` on.
pub open spec fn place_of_text(all: Seq<Seq<char>>, wanted: Seq<char>, i: int) -> Option<int>
    decreases all.len() - i,
{
    if i < 0 || i >= all.len() {
        None
    } else if all[i] == wanted {
        Some(i)
    } else {
        place_of_text(all, wanted, i + 1)
    }
}

fn find_text(all: &Vec<String>, wanted: &str) -> (r: Option<usize>)
    ensures
        match r {
            Some(i) => i < all@.len() && place_of_text(text::strings(all@), wanted@, 0) == Some(
                i as int,
            ),
            None => place_of_text(text::strings(all@), wanted@, 0) is None,
        },
{
    let mut i: usize = 0;
    while i < all.len()
        invariant
            i <= all@.len(),
            place_of_text(text::strings(all@), wanted@, 0) == place_of_text(
                text::strings(all@),
                wanted@,
                i as int,
            ),
        decreases all@.len() - i,
    {
        if text::same_text(all[i].as_str(), wanted) {
            return Some(i);
        }
        i += 1;
    }
    None
}

/// Finds the model to serve among those that can be downloaded. Nothing is served from a
/// catalog that offers none.
pub fn served_entry(slugs: &Vec<String>, slug: &str) -> (r: Result<Option<usize>, String>)
    ensures
        if slugs@.len() == 0 {
            r == Ok::<Option<usize>, String>(None)
        } else {
            match place_of_text(text::strings(slugs@), slug@, 0) {
                Some(i) => r == Ok::<Option<usize>, String>(Some(i as usize)) && i < slugs@.len(),
                None => r matches Err(m) && m@ == "Unknown model `"@ + slug@
                    + "`. Run `millie --model select` to choose a model."@,
            }
        },
{
    if slugs.len() == 0 {
        return Ok(None);
    }
    match find_text(slugs, slug) {
        Some(i) => Ok(Some(i)),
        None => {
            let mut m = "Unknown model `".to_string();
            m.append(slug);
            m.append("`. Run `millie --model select` to choose a model.");
            Err(m)
        },
    }
}

/// Finds the model that an update command names.
pub fn updated_entry(slugs: &Vec<String>, slug: &str) -> (r: Result<usize, String>)
    ensures
        match place_of_text(text::strings(slugs@), slug@, 0) {
            Some(i) => r == Ok::<usize, String>(i as usize) && i < slugs@.len(),
            None => r matches Err(m) && m@ == "Unknown catalog model `"@ + slug@ + "`"@,
        },
{
    match find_text(slugs, slug) {
        Some(i) => Ok(i),
        None => {
            let mut m = "Unknown catalog model `".to_string();
            m.append(slug);
            m.append("`");
            Err(m)
        },
    }
}

/// The labels of the files that are needed and missing, among the first `n`.
pub open spec fn missing_labels(labels: Seq<Seq<char>>, present: Seq<bool>, vision: bool, n: int) -> Seq<
    Seq<char>,
>
    decreases n,
{
    if n <= 0 {
        Seq::empty()
    } else {
        let before = missing_labels(labels, present, vision, n - 1);
        if (n == 1 || vision) && !present[n - 1] {
            before.push(labels[n - 1])
        } else {
            before
        }
    }
}

/// The files that are needed and missing, as the user is shown them.
pub fn missing_files(labels: &Vec<String>, present: &Vec<bool>, vision: bool) -> (r: Vec<String>)
    requires
        present@.len() == labels@.len(),
    ensures
        text::strings(r@) == missing_labels(
            text::strings(labels@),
            present@,
            vision,
            labels@.len() as int,
        ),
{
    let mut out: Vec<String> = Vec::new();
    let mut i: usize = 0;
    assert(text::strings(out@) =~= Seq::empty());
    while i < labels.len()
        invariant
            i <= labels@.len() == present@.len(),
            text::strings(out@) == missing_labels(
                text::strings(labels@),
                present@,
                vision,
                i as int,
            ),
        decreases labels@.len() - i,
    {
        if (i == 0 || vision) && !present[i] {
            let ghost before = out@;
            let label = labels[i].clone();
            out.push(label);
            assert(text::strings(out@) =~= text::strings(before).push(label@));
        }
        i += 1;
    }
    out
}

/// Files are listed as missing exactly where one that is needed is missing, so that
/// whoever is asked to approve a download is shown what it is for.
pub proof fn something_is_listed_where_something_is_missing(
    labels: Seq<Seq<char>>,
    present: Seq<bool>,
    vision: bool,
)
    requires
        labels.len() == present.len(),
    ensures
        is_missing(present, vision) <==> missing_labels(
            labels,
            present,
            vision,
            labels.len() as int,
        ).len() > 0,
{
    listed_up_to(labels, present, vision, labels.len() as int);
}

proof fn listed_up_to(labels: Seq<Seq<char>>, present: Seq<bool>, vision: bool, n: int)
    requires
        0 <= n <= labels.len() == present.len(),
    ensures
        missing_labels(labels, present, vision, n).len() > 0 <==> exists|i: int|
            0 <= i < n && (i == 0 || vision) && !#[trigger] present[i],
    decreases n,
{
    if n > 0 {
        listed_up_to(labels, present, vision, n - 1);
        assert(present[n - 1] || !present[n - 1]);
    }
}

// ---------------------------------------------------------------------------
// Laws.

/// A model is missing something where its first file is, or, where it is to see, any of its
/// files.
pub proof fn vision_needs_every_file(present: Seq<bool>, i: int)
    requires
        0 <= i < present.len(),
        !present[i],
    ensures
        is_missing(present, true),
        i == 0 ==> is_missing(present, false),
        is_missing(present, false) <==> !present[0],
{
}

/// A file of the catalog lies where the user put it, or in the place for what was fetched.
pub proof fn catalog_files_have_their_place(models: Seq<char>, repo: Seq<char>, file: Seq<char>)
    ensures
        source_at(models, repo, file, true).path == text::path_under(models, file),
        source_at(models, repo, file, false).path == model_updates::cache_path(models, repo, file),
        forall|h: bool| #[trigger] source_at(models, repo, file, h).repo == repo && source_at(
            models,
            repo,
            file,
            h,
        ).file == file && source_at(models, repo, file, h).sha256 is None && source_at(
            models,
            repo,
            file,
            h,
        ).revision is None,
{
}

/// A tower cannot be matched exactly where one is wanted and missing beside a model of no
/// known revision.
pub proof fn towers_need_a_known_revision(first: SourceModel, present: Seq<bool>)
    requires
        present.len() > 0,
    ensures
        !is_unmatched(first, present, false),
        first.revision is Some ==> !is_unmatched(first, present, true),
        !present[0] ==> !is_unmatched(first, present, true),
        present[0] && first.revision is None ==> (is_unmatched(first, present, true) <==> exists|i: int|
            0 < i < present.len() && !#[trigger] present[i]),
{
    if present[0] && is_missing(present, true) {
        let i = choose|i: int| 0 <= i < present.len() && (i == 0 || true) && !#[trigger] present[i];
        assert(0 < i < present.len() && !present[i]);
    }
}

/// A file is handed to the server by its path, its address and, where it is known, its digest,
/// the first file as the model and the others as its tower.
pub proof fn files_are_handed_to_the_server(index: int, s: SourceModel, url: Seq<char>)
    requires
        index >= 0,
    ensures
        ({
            let all = source_settings(index, s, url);
            let name = if index == 0 {
                "MILLIE_LLAMACPP_MODEL"@
            } else {
                "MILLIE_LLAMACPP_MMPROJ"@
            };
            &&& all.len() == 3
            &&& all.contains((name + "_PATH"@, Some(s.path)))
            &&& all.contains((name + "_URL"@, Some(url)))
            &&& all.contains((name + "_SHA256"@, s.sha256))
        }),
        revision_or_main(None) == "main"@,
        forall|r: Seq<char>| #[trigger] revision_or_main(Some(r)) == r,
{
    let all = source_settings(index, s, url);
    assert(all[0] == (prefix_of(index) + "_PATH"@, Some(s.path)));
    assert(all[1] == (prefix_of(index) + "_URL"@, Some(url)));
    assert(all[2] == (prefix_of(index) + "_SHA256"@, s.sha256));
}

/// What is updated is the model that is named; else nothing where a file is given by hand, the
/// repository that is set, or the model that is remembered, in this order.
pub proof fn updates_go_by_name_first(
    s: ModelSelection,
    path_set: Option<Seq<char>>,
    hf_set: Option<Seq<char>>,
    h: Seq<char>,
)
    ensures
        ({
            let r = update_source_of(s, path_set, hf_set);
            let by_hand = s.model_path is Some || (path_set is Some && !text::is_blank(
                path_set.unwrap(),
            ));
            let set = text::optional(s.model_hf) == Some(h) || (s.model_hf is None && hf_set == Some(
                h,
            ));
            &&& s.explicit matches Some(m) ==> r == Ok::<UpdateSourceView, Seq<char>>(
                UpdateSourceView::Catalog { slug: m@ },
            )
            &&& s.explicit is None && by_hand ==> r is Err
            &&& s.explicit is None && !by_hand && set ==> match oss::hf_parts(h) {
                Some((repo, file)) => r == Ok::<UpdateSourceView, Seq<char>>(
                    UpdateSourceView::Custom { repo, file },
                ),
                None => r is Err,
            }
            &&& s.explicit is None && !by_hand && s.model_hf is None && hf_set is None ==> match s.remembered {
                Some(m) => r == Ok::<UpdateSourceView, Seq<char>>(
                    UpdateSourceView::Catalog { slug: m@ },
                ),
                None => r is Err,
            }
        }),
{
}

/// A file that is installed is used as it is installed, and any other as the catalog has it;
/// none is added and none is lost.
pub proof fn installed_files_are_adopted(sources: Seq<SourceModel>, active: Seq<SourceModel>, i: int, at: int)
    requires
        0 <= i < sources.len(),
        0 <= at <= active.len(),
        forall|k: int| 0 <= k < at ==> (#[trigger] active[k]).file != sources[i].file,
    ensures
        adopted(sources, active).len() == sources.len(),
        at == active.len() ==> adopted(sources, active)[i] == sources[i],
        at < active.len() && active[at].file == sources[i].file ==> adopted(sources, active)[i]
            == active[at],
{
    found_as(active, sources[i].file, 0, at);
}

proof fn found_as(active: Seq<SourceModel>, file: Seq<char>, i: int, at: int)
    requires
        0 <= i <= at <= active.len(),
        forall|k: int| 0 <= k < at ==> (#[trigger] active[k]).file != file,
    ensures
        at == active.len() ==> installed_as(active, file, i) is None,
        at < active.len() && active[at].file == file ==> installed_as(active, file, i) == Some(
            active[at],
        ),
    decreases at - i,
{
    if i < at {
        assert(active[i].file != file);
        found_as(active, file, i + 1, at);
    }
}

/// A file is up to date exactly where it is there with the digest that the server gives, and
/// something changed exactly where one of the files is not.
pub proof fn updates_are_found_by_digest(files: Seq<RemoteFile>, present: Seq<bool>, n: int, i: int)
    requires
        0 <= i < n <= files.len(),
    ensures
        !present[i] ==> state_of(files[i], present[i]) == "not installed"@,
        present[i] && files[i].source@.sha256 == Some(files[i].sha256@) ==> state_of(
            files[i],
            present[i],
        ) == "up to date"@,
        present[i] && files[i].source@.sha256 != Some(files[i].sha256@) ==> state_of(
            files[i],
            present[i],
        ) == "update available (or installed revision unrecorded)"@,
        !present[i] || files[i].source@.sha256 != Some(files[i].sha256@) ==> some_changed(
            files,
            present,
            n,
        ),
    decreases n,
{
    if i < n - 1 {
        updates_are_found_by_digest(files, present, n - 1, i);
    }
}

/// A report on a file names the repository, the file, its state and its revision.
pub proof fn reports_name_the_file(f: RemoteFile, present: bool, size: Seq<char>)
    ensures
        text::begins_with(
            state_line(f, present, size),
            f.source.repo@ + "/"@ + f.source.file@ + ": "@ + state_of(f, present),
        ),
        text::ends_in(state_line(f, present, size), f.revision@),
{
    let line = state_line(f, present, size);
    let front = f.source.repo@ + "/"@ + f.source.file@ + ": "@ + state_of(f, present);
    assert(line.take(front.len() as int) =~= front);
    assert(line.skip(line.len() - f.revision@.len()) =~= f.revision@);
}

/// What is served is the file that is given, else the repository that is set, else the
/// catalog, which comes with a notice where what is set is no repository.
pub proof fn given_files_come_first(path: Seq<char>, blank: Seq<char>, h: Seq<char>, hf_set: Option<Seq<char>>)
    requires
        !text::is_blank(path),
        text::is_blank(blank),
        !text::is_blank(h),
    ensures
        configured(Some(path), hf_set) is Given,
        configured(None, None) == (ConfiguredView::Catalog { notice: None }),
        configured(Some(blank), Some(blank)) == (ConfiguredView::Catalog { notice: None }),
        match oss::hf_parts(h) {
            Some((repo, file)) => configured(None, Some(h)) == (ConfiguredView::Custom { repo, file })
                && configured(Some(blank), Some(h)) == (ConfiguredView::Custom { repo, file }),
            None => configured(None, Some(h)) matches ConfiguredView::Catalog { notice }
                && notice is Some,
        },
{
}

/// The first entry of a name is found, and none where there is none.
pub proof fn the_first_of_a_name_is_found(all: Seq<Seq<char>>, wanted: Seq<char>, i: int, at: int)
    requires
        0 <= i <= at <= all.len(),
        forall|k: int| 0 <= k < at ==> #[trigger] all[k] != wanted,
    ensures
        at == all.len() ==> place_of_text(all, wanted, i) is None,
        at < all.len() && all[at] == wanted ==> place_of_text(all, wanted, i) == Some(at),
    decreases at - i,
{
    if i < at {
        assert(all[i] != wanted);
        the_first_of_a_name_is_found(all, wanted, i + 1, at);
    }
}

/// Every file that is missing and needed is listed, and no other is.
pub proof fn what_is_missing_is_listed(
    labels: Seq<Seq<char>>,
    present: Seq<bool>,
    vision: bool,
    n: int,
)
    requires
        0 < n <= labels.len(),
        present.len() == labels.len(),
    ensures
        missing_labels(labels, present, vision, 0).len() == 0,
        !present[n - 1] && (vision || n == 1) ==> missing_labels(labels, present, vision, n)
            == missing_labels(labels, present, vision, n - 1).push(labels[n - 1]),
        present[n - 1] || (!vision && n > 1) ==> missing_labels(labels, present, vision, n)
            == missing_labels(labels, present, vision, n - 1),
{
}

/// What is to be done next is said only where something changed, and what was done only where
/// it was to be installed.
pub proof fn changes_are_told()
    ensures
        last_line(UpdateAction::Check, false).len() == 0,
        last_line(UpdateAction::Install, false).len() == 0,
        last_line(UpdateAction::Check, true) == seq![
            "Run millie models update (with the same model/profile options) to download and install this revision."@,
        ],
        last_line(UpdateAction::Install, true) == seq![
            "Update verified and installed. It will be used on the next model-server launch. Existing model files and running sessions were preserved. Sampling settings are unchanged."@,
        ],
{
}

} // verus!
