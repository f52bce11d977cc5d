//! Model files and their updates. Files are never changed once they are there; a
//! record of one revision switches a whole set of them.

use crate::digest;
use crate::digest::Content;
use crate::text;
use vstd::prelude::*;
use vstd::string::*;

verus! {

/// A model file: where it comes from and where it lies.
#[derive(Debug)]
pub struct ModelSource {
    pub repo: String,
    pub file: String,
    pub path: String,
    pub sha256: Option<String>,
    pub revision: Option<String>,
}

pub struct SourceModel {
    pub repo: Seq<char>,
    pub file: Seq<char>,
    pub path: Seq<char>,
    pub sha256: Option<Seq<char>>,
    pub revision: Option<Seq<char>>,
}

impl View for ModelSource {
    type V = SourceModel;

    open spec fn view(&self) -> SourceModel {
        SourceModel {
            repo: self.repo@,
            file: self.file@,
            path: self.path@,
            sha256: text::optional(self.sha256),
            revision: text::optional(self.revision),
        }
    }
}

pub open spec fn source_models(v: Seq<ModelSource>) -> Seq<SourceModel> {
    v.map_values(|s: ModelSource| s@)
}

impl Clone for ModelSource {
    fn clone(&self) -> (r: Self)
        ensures
            r@ == self@,
    {
        ModelSource {
            repo: self.repo.clone(),
            file: self.file.clone(),
            path: self.path.clone(),
            sha256: copied(&self.sha256),
            revision: copied(&self.revision),
        }
    }
}

pub(crate) fn copied(s: &Option<String>) -> (r: Option<String>)
    ensures
        text::optional(r) == text::optional(*s),
{
    match s {
        Some(t) => Some(t.clone()),
        None => None,
    }
}

/// A file of an installed revision.
#[derive(Debug)]
pub struct InstalledFile {
    pub file: String,
    pub sha256: String,
}

pub open spec fn installed_models(v: Seq<InstalledFile>) -> Seq<(Seq<char>, Seq<char>)> {
    v.map_values(|f: InstalledFile| (f.file@, f.sha256@))
}

/// The record of an installed revision.
#[derive(Debug)]
pub struct InstalledRevision {
    pub revision: String,
    pub files: Vec<InstalledFile>,
}

/// A file as the server offers it.
#[derive(Debug)]
pub struct RemoteFile {
    pub source: ModelSource,
    pub revision: String,
    pub sha256: String,
    pub size: u64,
    pub url: String,
}

/// A file that was there before, remembered by its place.
#[derive(Debug)]
pub struct LocalFile {
    pub file: String,
    pub path: String,
}

pub open spec fn local_models(v: Seq<LocalFile>) -> Seq<(Seq<char>, Seq<char>)> {
    v.map_values(|f: LocalFile| (f.file@, f.path@))
}

// ---------------------------------------------------------------------------
// Where files lie.

/// What a file is known by: its repository and its full path in it.
pub open spec fn identity(repo: Seq<char>, file: Seq<char>) -> Seq<char> {
    repo + seq!['\0'] + file
}

/// The key of a file.
pub open spec fn key_of(repo: Seq<char>, file: Seq<char>) -> Seq<char> {
    digest::sha256_hex(vstd::utf8::encode_utf8(identity(repo, file)))
}

/// The key of a file.
pub fn source_key(repo: &str, file: &str) -> (r: String)
    ensures
        r@ == key_of(repo@, file@),
{
    let mut id = repo.to_string();
    id.push('\0');
    id.append(file);
    assert(id@ =~= identity(repo@, file@));
    digest::sha256_of_text(id.as_str())
}

/// Two files of different repositories, or in different places of one, are known
/// by different texts.
pub proof fn identities_differ(r1: Seq<char>, f1: Seq<char>, r2: Seq<char>, f2: Seq<char>)
    requires
        r1 != r2 || f1 != f2,
        !r1.contains('\0'),
        !r2.contains('\0'),
    ensures
        identity(r1, f1) != identity(r2, f2),
{
    let s = identity(r1, f1);
    let t = identity(r2, f2);
    if s == t {
        if r1.len() < r2.len() {
            assert(s[r1.len() as int] == '\0');
            assert(r2.contains(r2[r1.len() as int]));
        } else if r2.len() < r1.len() {
            assert(t[r2.len() as int] == '\0');
            assert(r1.contains(r1[r2.len() as int]));
        } else {
            assert(s.take(r1.len() as int) =~= r1);
            assert(t.take(r2.len() as int) =~= r2);
            assert(s.skip(r1.len() as int + 1) =~= f1);
            assert(t.skip(r2.len() as int + 1) =~= f2);
        }
    }
}

/// The directory of updates of a file.
pub open spec fn updates_of(models: Seq<char>, repo: Seq<char>, file: Seq<char>) -> Seq<char> {
    text::path_under(text::path_under(models, "updates"@), key_of(repo, file))
}

/// Where a file that was fetched lies.
pub open spec fn cache_path(models: Seq<char>, repo: Seq<char>, file: Seq<char>) -> Seq<char> {
    text::path_under(
        text::path_under(text::path_under(models, "huggingface"@), key_of(repo, file)),
        "model.gguf"@,
    )
}

/// Where a file of a custom repository is cached: by its whole identity, never by
/// its name alone.
pub fn hf_cache_path(models: &str, repo: &str, file: &str) -> (r: String)
    ensures
        r@ == cache_path(models@, repo@, file@),
{
    let base = text::join_path(models, "huggingface");
    let dir = text::join_path(base.as_str(), source_key(repo, file).as_str());
    text::join_path(dir.as_str(), "model.gguf")
}

/// The directory of updates of a file.
pub fn update_dir(models: &str, repo: &str, file: &str) -> (r: String)
    ensures
        r@ == updates_of(models@, repo@, file@),
{
    let base = text::join_path(models, "updates");
    text::join_path(base.as_str(), source_key(repo, file).as_str())
}

/// Where a file with this digest lies under the directory of updates.
pub open spec fn stored_path(dir: Seq<char>, sha256: Seq<char>) -> Seq<char> {
    text::path_under(text::path_under(dir, "files"@), sha256)
}

/// Where a file with this digest lies under the directory of updates.
pub fn stored_file(dir: &str, sha256: &str) -> (r: String)
    ensures
        r@ == stored_path(dir@, sha256@),
{
    let files = text::join_path(dir, "files");
    text::join_path(files.as_str(), sha256)
}

// ---------------------------------------------------------------------------
// What is installed.

/// The files that were there before: without digest and revision, for nothing is
/// known of them.
pub open spec fn local_source(repo: Seq<char>, f: (Seq<char>, Seq<char>)) -> SourceModel {
    SourceModel { repo, file: f.0, path: f.1, sha256: None, revision: None }
}

/// The files of a local record; an error where the record is of another file.
pub fn local_sources(repo: &str, file: &str, files: Vec<LocalFile>) -> (r: Result<
    Vec<ModelSource>,
    String,
>)
    ensures
        if files@.len() > 0 && files@[0].file@ == file@ {
            r matches Ok(v) && source_models(v@) == local_models(files@).map_values(
                |f: (Seq<char>, Seq<char>)| local_source(repo@, f),
            )
        } else {
            r matches Err(m) && m@ == "Invalid local model installation record"@
        },
{
    if files.len() == 0 || !text::same_text(files[0].file.as_str(), file) {
        return Err("Invalid local model installation record".to_string());
    }
    let ghost goal = local_models(files@).map_values(
        |f: (Seq<char>, Seq<char>)| local_source(repo@, f),
    );
    let mut out: Vec<ModelSource> = Vec::new();
    let mut i: usize = 0;
    assert(source_models(out@) =~= goal.take(0));
    while i < files.len()
        invariant
            i <= files@.len(),
            goal == local_models(files@).map_values(
                |f: (Seq<char>, Seq<char>)| local_source(repo@, f),
            ),
            source_models(out@) == goal.take(i as int),
        decreases files@.len() - i,
    {
        let ghost before = out@;
        let source = ModelSource {
            repo: repo.to_string(),
            file: files[i].file.clone(),
            path: files[i].path.clone(),
            sha256: None,
            revision: None,
        };
        out.push(source);
        assert(source_models(out@) =~= source_models(before).push(source@));
        assert(goal.take(i + 1) =~= goal.take(i as int).push(goal[i as int]));
        i += 1;
    }
    assert(goal.take(i as int) =~= goal);
    Ok(out)
}

/// Whether a record is of this file and names a revision.
pub open spec fn is_record_of(active: InstalledRevision, file: Seq<char>) -> bool {
    &&& digest::is_hash(active.revision@, 40)
    &&& active.files@.len() > 0
    &&& active.files@[0].file@ == file
}

/// The source of an installed file.
pub open spec fn installed_source(
    dir: Seq<char>,
    repo: Seq<char>,
    revision: Seq<char>,
    f: (Seq<char>, Seq<char>),
) -> SourceModel {
    SourceModel {
        repo,
        file: f.0,
        path: stored_path(dir, f.1),
        sha256: Some(f.1),
        revision: Some(revision),
    }
}

pub open spec fn all_hashed(files: Seq<InstalledFile>) -> bool {
    forall|k: int| 0 <= k < files.len() ==> digest::is_hash((#[trigger] files[k]).sha256@, 64)
}

/// The files of an installed revision, as its record names them.
pub open spec fn recorded_sources(
    dir: Seq<char>,
    repo: Seq<char>,
    active: InstalledRevision,
) -> Seq<SourceModel> {
    installed_models(active.files@).map_values(
        |f: (Seq<char>, Seq<char>)| installed_source(dir, repo, active.revision@, f),
    )
}

/// The files of an installed revision; an error where its record is damaged.
pub fn installed_sources(
    dir: &str,
    repo: &str,
    file: &str,
    active: InstalledRevision,
) -> (r: Result<Vec<ModelSource>, String>)
    ensures
        if !is_record_of(active, file@) {
            r matches Err(m) && m@
                == "Invalid installed model revision; rerun millie models update"@
        } else if !all_hashed(active.files@) {
            r matches Err(m) && m@ == "Invalid installed model checksum"@
        } else {
            r matches Ok(v) && source_models(v@) == recorded_sources(dir@, repo@, active)
        },
{
    if !digest::valid_hash(active.revision.as_str(), 40) || active.files.len() == 0
        || !text::same_text(active.files[0].file.as_str(), file) {
        return Err("Invalid installed model revision; rerun millie models update".to_string());
    }
    let ghost goal = recorded_sources(dir@, repo@, active);
    let mut out: Vec<ModelSource> = Vec::new();
    let mut i: usize = 0;
    assert(source_models(out@) =~= goal.take(0));
    while i < active.files.len()
        invariant
            i <= active.files@.len(),
            is_record_of(active, file@),
            goal == installed_models(active.files@).map_values(
                |f: (Seq<char>, Seq<char>)| installed_source(dir@, repo@, active.revision@, f),
            ),
            forall|k: int|
                0 <= k < i ==> digest::is_hash((#[trigger] active.files@[k]).sha256@, 64),
            source_models(out@) == goal.take(i as int),
        decreases active.files@.len() - i,
    {
        let item = &active.files[i];
        if !digest::valid_hash(item.sha256.as_str(), 64) {
            return Err("Invalid installed model checksum".to_string());
        }
        let ghost before = out@;
        let source = ModelSource {
            repo: repo.to_string(),
            file: item.file.clone(),
            path: stored_file(dir, item.sha256.as_str()),
            sha256: Some(item.sha256.clone()),
            revision: Some(active.revision.clone()),
        };
        out.push(source);
        assert(source_models(out@) =~= source_models(before).push(source@));
        assert(goal.take(i + 1) =~= goal.take(i as int).push(goal[i as int]));
        i += 1;
    }
    assert(goal.take(i as int) =~= goal);
    Ok(out)
}

// ---------------------------------------------------------------------------
// Where files come from.

/// What comes of a base URL with segments behind its path: the URL, or the message
/// of its parser, or nothing where it has no path.
pub uninterp spec fn extended_url(base: Seq<char>, segments: Seq<Seq<char>>) -> Result<
    Seq<char>,
    Option<Seq<char>>,
>;

/// The characters of texts, with one more for each.
pub open spec fn total_len(texts: Seq<Seq<char>>) -> nat
    decreases texts.len(),
{
    if texts.len() == 0 {
        0
    } else {
        total_len(texts.drop_last()) + texts.last().len() + 1
    }
}

/// `Url::parse`, then `PathSegmentsMut::pop_if_empty` and `extend` on its path: the
/// URL in text, the message of the parser where the base is no URL, nothing where
/// the base has no path. How segments are encoded is left to the crate. A URL of
/// more than four gigabytes is left out, for there the crate gives up.
#[verifier::external_body]
fn url_with_segments(base: &str, segments: &Vec<String>) -> (r: Result<String, Option<String>>)
    requires
        base@.len() + total_len(text::strings(segments@)) <= 100_000_000,
    ensures
        match r {
            Ok(u) => extended_url(base@, text::strings(segments@)) == Ok::<
                Seq<char>,
                Option<Seq<char>>,
            >(u@),
            Err(m) => extended_url(base@, text::strings(segments@)) == Err::<
                Seq<char>,
                Option<Seq<char>>,
            >(text::optional(m)),
        },
{
    let mut url = reqwest::Url::parse(base).map_err(|e| Some(e.to_string()))?;
    url.path_segments_mut().map_err(|_| None)?.pop_if_empty().extend(segments);
    Ok(url.to_string())
}

/// The segments of the path to a file.
pub open spec fn url_segments(repo: Seq<char>, revision: Seq<char>, file: Seq<char>) -> Seq<Seq<char>> {
    text::split_on(repo, '/') + seq!["resolve"@, revision] + text::split_on(file, '/')
}

/// Whether a part of a path names something.
pub open spec fn is_path_part(p: Seq<char>) -> bool {
    p.len() > 0 && p != "."@ && p != ".."@
}

pub open spec fn all_path_parts(parts: Seq<Seq<char>>) -> bool {
    forall|k: int| 0 <= k < parts.len() ==> is_path_part(#[trigger] parts[k])
}

/// Whether a repository and a file in it are well named: an owner and a name, and
/// no part of either is empty or steps aside.
pub open spec fn well_named(repo: Seq<char>, file: Seq<char>) -> bool {
    &&& text::split_on(repo, '/').len() == 2
    &&& all_path_parts(text::split_on(repo, '/'))
    &&& all_path_parts(text::split_on(file, '/'))
}

/// The URL of a file, or why there is none.
pub open spec fn url_of_file(
    base: Seq<char>,
    repo: Seq<char>,
    revision: Seq<char>,
    file: Seq<char>,
) -> Result<Seq<char>, Seq<char>> {
    match extended_url(base, url_segments(repo, revision, file)) {
        Err(Some(m)) => Err(m),
        found => if !well_named(repo, file) {
            Err("Invalid Hugging Face repository or file path"@)
        } else {
            match found {
                Ok(u) => Ok(u),
                Err(_) => Err("Invalid Hugging Face base URL"@),
            }
        },
    }
}

fn parts_named(parts: &Vec<Vec<char>>) -> (r: bool)
    ensures
        r == all_path_parts(text::texts(parts@)),
{
    let ghost all = text::texts(parts@);
    let dot = text::chars_of(".");
    let dots = text::chars_of("..");
    let mut i: usize = 0;
    while i < parts.len()
        invariant
            i <= parts@.len(),
            all == text::texts(parts@),
            dot@ == "."@,
            dots@ == ".."@,
            forall|k: int| 0 <= k < i ==> is_path_part(#[trigger] all[k]),
        decreases parts@.len() - i,
    {
        let p = parts[i].as_slice();
        assert(all[i as int] == p@);
        if p.len() == 0 || text::same_chars(p, dot.as_slice()) || text::same_chars(
            p,
            dots.as_slice(),
        ) {
            assert(!is_path_part(all[i as int]));
            return false;
        }
        i += 1;
    }
    true
}

fn push_parts(out: &mut Vec<String>, parts: &Vec<Vec<char>>)
    ensures
        text::strings(final(out)@) == text::strings(old(out)@) + text::texts(parts@),
{
    let ghost start = text::strings(out@);
    let ghost all = text::texts(parts@);
    let mut i: usize = 0;
    assert(start + all.take(0) =~= start);
    while i < parts.len()
        invariant
            i <= parts@.len(),
            all == text::texts(parts@),
            text::strings(out@) == start + all.take(i as int),
        decreases parts@.len() - i,
    {
        let ghost before = out@;
        let s = text::string_of(parts[i].as_slice());
        out.push(s);
        assert(text::strings(out@) =~= text::strings(before).push(s@));
        assert(start + all.take(i + 1) =~= (start + all.take(i as int)).push(all[i as int]));
        i += 1;
    }
    assert(all.take(i as int) =~= all);
}

proof fn total_len_of_join(a: Seq<Seq<char>>, b: Seq<Seq<char>>)
    ensures
        total_len(a + b) == total_len(a) + total_len(b),
    decreases b.len(),
{
    if b.len() == 0 {
        assert(a + b =~= a);
    } else {
        total_len_of_join(a, b.drop_last());
        assert((a + b).drop_last() =~= a + b.drop_last());
        assert((a + b).last() == b.last());
    }
}

proof fn total_len_of_one(s: Seq<char>)
    ensures
        total_len(seq![s]) == s.len() + 1,
{
    assert(seq![s].drop_last() =~= Seq::empty());
    assert(total_len(Seq::<Seq<char>>::empty()) == 0);
}

proof fn total_len_of_split(s: Seq<char>, c: char)
    ensures
        total_len(text::split_on(s, c)) == s.len() + 1,
    decreases s.len(),
{
    text::upto_shape(s, c);
    let i = text::upto(s, c);
    if i < s.len() {
        let rest = s.skip(i + 1);
        total_len_of_split(rest, c);
        assert(text::split_on(s, c) == seq![s.take(i)] + text::split_on(rest, c));
        total_len_of_join(seq![s.take(i)], text::split_on(rest, c));
        total_len_of_one(s.take(i));
    } else {
        assert(text::split_on(s, c) == seq![s]);
        total_len_of_one(s);
    }
}

/// The URL of a file of a repository at a revision.
pub fn file_url(base: &str, repo: &str, revision: &str, file: &str) -> (r: Result<String, String>)
    requires
        base@.len() + repo@.len() + revision@.len() + file@.len() <= 99_000_000,
    ensures
        match r {
            Ok(u) => url_of_file(base@, repo@, revision@, file@) == Ok::<Seq<char>, Seq<char>>(u@),
            Err(m) => url_of_file(base@, repo@, revision@, file@) == Err::<Seq<char>, Seq<char>>(
                m@,
            ),
        },
{
    let repo_parts = text::split_chars(text::chars_of(repo).as_slice(), '/');
    let file_parts = text::split_chars(text::chars_of(file).as_slice(), '/');
    let mut segments: Vec<String> = Vec::new();
    assert(text::strings(segments@) =~= Seq::empty());
    push_parts(&mut segments, &repo_parts);
    let ghost first = text::strings(segments@);
    assert(first =~= text::split_on(repo@, '/'));
    segments.push("resolve".to_string());
    segments.push(revision.to_string());
    let ghost second = text::strings(segments@);
    assert(second =~= first + seq!["resolve"@, revision@]);
    push_parts(&mut segments, &file_parts);
    let ghost all = text::strings(segments@);
    proof {
        assert(all =~= url_segments(repo@, revision@, file@));
        total_len_of_split(repo@, '/');
        total_len_of_split(file@, '/');
        reveal_strlit("resolve");
        let mid = seq!["resolve"@, revision@];
        total_len_of_join(first, mid);
        total_len_of_join(second, text::split_on(file@, '/'));
        assert(mid.drop_last() =~= seq!["resolve"@]);
        total_len_of_one("resolve"@);
    }
    let found = url_with_segments(base, &segments);
    match found {
        Err(Some(m)) => Err(m),
        other => {
            if repo_parts.len() != 2 || !parts_named(&repo_parts) || !parts_named(&file_parts) {
                return Err("Invalid Hugging Face repository or file path".to_string());
            }
            match other {
                Ok(u) => Ok(u),
                Err(_) => Err("Invalid Hugging Face base URL".to_string()),
            }
        },
    }
}

/// A file outside its repository has no URL.
pub proof fn paths_do_not_leave_the_repository(
    base: Seq<char>,
    repo: Seq<char>,
    revision: Seq<char>,
    file: Seq<char>,
)
    requires
        text::split_on(file, '/').contains(".."@),
    ensures
        url_of_file(base, repo, revision, file) is Err,
{
    let parts = text::split_on(file, '/');
    let k = choose|k: int| 0 <= k < parts.len() && parts[k] == ".."@;
    assert(!is_path_part(parts[k]));
    assert(!all_path_parts(parts));
}

// ---------------------------------------------------------------------------
// What the server says of a file.

/// The head of an answer about a file.
#[derive(Debug)]
pub struct FileHead {
    pub status: u16,
    /// The status in words.
    pub status_text: String,
    pub commit: Option<String>,
    pub linked_etag: Option<String>,
    pub etag: Option<String>,
    pub linked_size: Option<String>,
    pub content_length: Option<String>,
}

/// A header without the quotes round it.
pub open spec fn unquoted(header: Option<String>) -> Option<Seq<char>> {
    match header {
        Some(h) => Some(text::drop_back(text::drop_front(h@, '"'), '"')),
        None => None,
    }
}

/// The first header where it is there, else the second.
pub open spec fn either(a: Option<Seq<char>>, b: Option<Seq<char>>) -> Option<Seq<char>> {
    match a {
        Some(s) => Some(s),
        None => b,
    }
}

fn unquote(header: &Option<String>) -> (r: Option<String>)
    ensures
        text::optional(r) == unquoted(*header),
{
    match header {
        Some(h) => Some(text::trim_matches(h.as_str(), '"')),
        None => None,
    }
}

/// What is known of a file: its revision, its digest and its size.
pub struct CheckedModel {
    pub revision: Seq<char>,
    pub sha256: Seq<char>,
    pub size: nat,
}

/// What the head of an answer says of a file, asked for at `revision`; else the
/// message of what is wrong with it.
pub open spec fn checked(
    head: FileHead,
    repo: Seq<char>,
    file: Seq<char>,
    revision: Seq<char>,
) -> Result<CheckedModel, Seq<char>> {
    if !(200 <= head.status < 400) {
        Err("Cannot check "@ + repo + "/"@ + file + ": "@ + head.status_text@)
    } else {
        match unquoted(head.commit) {
            Some(commit) if digest::is_hash(commit, 40) => if revision != "main"@ && revision
                != commit {
                Err("Hugging Face revision changed during check"@)
            } else {
                match either(unquoted(head.linked_etag), unquoted(head.etag)) {
                    Some(sha256) if digest::is_hash(sha256, 64) => match either(
                        unquoted(head.linked_size),
                        unquoted(head.content_length),
                    ) {
                        Some(size) => match text::parse_unsigned(size, u64::MAX as nat) {
                            Some(n) if n > 0 => Ok(
                                CheckedModel { revision: commit, sha256, size: n },
                            ),
                            _ => Err("Hugging Face did not provide the model size"@),
                        },
                        None => Err("Hugging Face did not provide the model size"@),
                    },
                    _ => Err(
                        "Hugging Face did not provide a SHA256 checksum for the model"@,
                    ),
                }
            },
            _ => Err("Hugging Face did not provide an immutable revision"@),
        }
    }
}

/// What the head of an answer says of a file, asked for at `revision`: the commit
/// it is at, its digest and its size.
pub fn check_head(head: &FileHead, repo: &str, file: &str, revision: &str) -> (r: Result<
    (String, String, u64),
    String,
>)
    ensures
        match checked(*head, repo@, file@, revision@) {
            Ok(c) => r matches Ok((rev, sha, size)) && rev@ == c.revision && sha@ == c.sha256
                && size == c.size,
            Err(e) => r matches Err(m) && m@ == e,
        },
{
    if !(200 <= head.status && head.status < 400) {
        let mut m = "Cannot check ".to_string();
        m.append(repo);
        m.append("/");
        m.append(file);
        m.append(": ");
        m.append(head.status_text.as_str());
        return Err(m);
    }
    let commit = match unquote(&head.commit) {
        Some(c) => {
            if !digest::valid_hash(c.as_str(), 40) {
                return Err("Hugging Face did not provide an immutable revision".to_string());
            }
            c
        },
        None => {
            return Err("Hugging Face did not provide an immutable revision".to_string());
        },
    };
    if !text::same_text(revision, "main") && !text::same_text(revision, commit.as_str()) {
        return Err("Hugging Face revision changed during check".to_string());
    }
    let sha256 = match unquote(&head.linked_etag) {
        Some(s) => Some(s),
        None => unquote(&head.etag),
    };
    let sha256 = match sha256 {
        Some(s) => {
            if !digest::valid_hash(s.as_str(), 64) {
                return Err(
                    "Hugging Face did not provide a SHA256 checksum for the model".to_string(),
                );
            }
            s
        },
        None => {
            return Err("Hugging Face did not provide a SHA256 checksum for the model".to_string());
        },
    };
    let size = match unquote(&head.linked_size) {
        Some(s) => Some(s),
        None => unquote(&head.content_length),
    };
    match size {
        Some(s) => {
            let cs = text::chars_of(s.as_str());
            match text::read_unsigned(cs.as_slice(), u64::MAX) {
                Some(n) => if n > 0 {
                    Ok((commit, sha256, n))
                } else {
                    Err("Hugging Face did not provide the model size".to_string())
                },
                None => Err("Hugging Face did not provide the model size".to_string()),
            }
        },
        None => Err("Hugging Face did not provide the model size".to_string()),
    }
}

/// The revision of the first of some files.
pub open spec fn first_revision(sources: Seq<SourceModel>) -> Option<Seq<char>> {
    if sources.len() > 0 {
        sources[0].revision
    } else {
        None
    }
}

/// The revision at which files are asked for: that of the first file, else the
/// current one.
pub fn revision_to_check(sources: &Vec<ModelSource>) -> (r: String)
    ensures
        r@ == match first_revision(source_models(sources@)) {
            Some(v) => v,
            None => "main"@,
        },
{
    if sources.len() > 0 {
        assert(source_models(sources@)[0] == sources@[0]@);
        match &sources[0].revision {
            Some(v) => v.clone(),
            None => "main".to_string(),
        }
    } else {
        "main".to_string()
    }
}

/// Files that are checked one behind the other, each at the revision that the one
/// before it was at, are all at one revision.
pub proof fn checks_pin_one_revision(
    heads: (FileHead, FileHead),
    repo: Seq<char>,
    files: (Seq<char>, Seq<char>),
    revision: Seq<char>,
)
    requires
        checked(heads.0, repo, files.0, revision) is Ok,
        checked(heads.1, repo, files.1, checked(heads.0, repo, files.0, revision)->Ok_0.revision) is Ok,
    ensures
        checked(heads.1, repo, files.1, checked(heads.0, repo, files.0, revision)->Ok_0.revision)->Ok_0.revision
            == checked(heads.0, repo, files.0, revision)->Ok_0.revision,
{
    reveal_strlit("main");
    let first = checked(heads.0, repo, files.0, revision)->Ok_0.revision;
    assert(first.len() == 40);
    assert("main"@.len() == 4);
}

// ---------------------------------------------------------------------------
// Installing.

/// Whether all files are of one repository at one revision.
pub open spec fn one_revision(files: Seq<RemoteFile>) -> bool {
    forall|k: int|
        0 <= k < files.len() ==> (#[trigger] files[k]).revision@ == files[0].revision@
            && files[k].source.repo@ == files[0].source.repo@
}

/// Whether the files can be installed together.
pub fn check_one_revision(files: &Vec<RemoteFile>) -> (r: Result<(), String>)
    ensures
        if files@.len() == 0 {
            r matches Err(m) && m@ == "No model files to update"@
        } else if !one_revision(files@) {
            r matches Err(m) && m@ == "An update must use one repository revision"@
        } else {
            r is Ok
        },
{
    if files.len() == 0 {
        return Err("No model files to update".to_string());
    }
    let mut i: usize = 0;
    while i < files.len()
        invariant
            i <= files@.len(),
            0 < files@.len(),
            forall|k: int|
                0 <= k < i ==> (#[trigger] files@[k]).revision@ == files@[0].revision@
                    && files@[k].source.repo@ == files@[0].source.repo@,
        decreases files@.len() - i,
    {
        if !text::same_text(files[i].revision.as_str(), files[0].revision.as_str())
            || !text::same_text(files[i].source.repo.as_str(), files[0].source.repo.as_str()) {
            return Err("An update must use one repository revision".to_string());
        }
        i += 1;
    }
    Ok(())
}

/// Whether an installation still starts from where its check did: the revision
/// that is installed is the one that the check saw, or for a first installation
/// the one that is to be installed.
pub open spec fn still_current(
    installed: Option<Seq<char>>,
    seen: Option<Seq<char>>,
    wanted: Seq<char>,
    initial: bool,
) -> bool {
    installed == seen || (initial && installed == Some(wanted))
}

fn same_optional(a: &Option<String>, b: &Option<String>) -> (r: bool)
    ensures
        r == (text::optional(*a) == text::optional(*b)),
{
    match (a, b) {
        (Some(x), Some(y)) => text::same_text(x.as_str(), y.as_str()),
        (None, None) => true,
        _ => false,
    }
}

/// What is said where another installation came first.
pub open spec fn overtaken() -> Seq<char> {
    "Another model update completed during this check; rerun the update command to use the latest installed revision"@
}

/// Whether an installation still starts from where its check did.
pub fn check_still_current(
    installed: &Option<String>,
    seen: &Option<String>,
    wanted: &str,
    initial: bool,
) -> (r: Result<(), String>)
    ensures
        if still_current(text::optional(*installed), text::optional(*seen), wanted@, initial) {
            r is Ok
        } else {
            r matches Err(m) && m@ == overtaken()
        },
{
    let same: bool = same_optional(installed, seen);
    let there: bool = match installed {
        Some(v) => initial && text::same_text(v.as_str(), wanted),
        None => false,
    };
    if same || there {
        Ok(())
    } else {
        Err(
            "Another model update completed during this check; rerun the update command to use the latest installed revision".to_string(),
        )
    }
}

/// Whether the digests and revisions of all files are well formed.
pub open spec fn all_valid(files: Seq<RemoteFile>) -> bool {
    forall|k: int|
        0 <= k < files.len() ==> digest::is_hash((#[trigger] files[k]).sha256@, 64)
            && digest::is_hash(files[k].revision@, 40)
}

/// The record of a set of files: every one of them, whether or not it is fetched.
pub fn record_of(files: &Vec<RemoteFile>) -> (active: InstalledRevision)
    requires
        0 < files@.len(),
    ensures
        active.revision@ == files@[0].revision@,
        active.files@.len() == files@.len(),
        forall|k: int|
            0 <= k < files@.len() ==> (#[trigger] active.files@[k]).file@ == files@[k].source.file@
                && active.files@[k].sha256@ == files@[k].sha256@,
{
    let mut out: Vec<InstalledFile> = Vec::new();
    let mut i: usize = 0;
    while i < files.len()
        invariant
            i <= files@.len(),
            out@.len() == i,
            forall|k: int|
                0 <= k < i ==> (#[trigger] out@[k]).file@ == files@[k].source.file@
                    && out@[k].sha256@ == files@[k].sha256@,
        decreases files@.len() - i,
    {
        out.push(
            InstalledFile {
                file: files[i].source.file.clone(),
                sha256: files[i].sha256.clone(),
            },
        );
        i += 1;
    }
    InstalledRevision { revision: files[0].revision.clone(), files: out }
}

/// Whether a file of a set is fetched: the first always, the others only where
/// vision is served.
pub fn is_fetched(index: usize, vision: bool) -> (r: bool)
    ensures
        r == (index == 0 || vision),
{
    index == 0 || vision
}

/// What to do about the place of a file.
#[derive(Debug, Clone, Copy, PartialEq, Eq, Structural)]
pub enum PlaceStep {
    /// It is there and sound.
    Keep,
    /// It is there and damaged.
    Damaged,
    /// It lies elsewhere with the same content: link it, or copy it.
    Reuse,
    /// It has to be fetched.
    Fetch,
}

/// What to do about the place of a file whose digest is to be `wanted`. `stored` is
/// what is in the place, `source` the file as it was; none where there is no file.
pub open spec fn place_rule(
    stored: Option<Seq<u8>>,
    source: Option<Seq<u8>>,
    wanted: Seq<char>,
) -> PlaceStep {
    match stored {
        Some(bytes) => if digest::sha256_hex(bytes) == wanted {
            PlaceStep::Keep
        } else {
            PlaceStep::Damaged
        },
        None => match source {
            Some(bytes) if digest::sha256_hex(bytes) == wanted => PlaceStep::Reuse,
            _ => PlaceStep::Fetch,
        },
    }
}

pub open spec fn content_bytes(c: Option<Content>) -> Option<Seq<u8>> {
    match c {
        Some(c) => Some(c@),
        None => None,
    }
}

/// Whether a file has the digest that it is to have.
pub fn has_digest(content: Content, wanted: &str) -> (r: bool)
    ensures
        r == (digest::sha256_hex(content@) == wanted@),
{
    let found = content.digest();
    text::same_text(found.as_str(), wanted)
}

/// What to do about the place of a file.
pub fn place_step(stored: Option<Content>, source: Option<Content>, wanted: &str) -> (r: PlaceStep)
    ensures
        r == place_rule(content_bytes(stored), content_bytes(source), wanted@),
{
    match stored {
        Some(content) => if has_digest(content, wanted) {
            PlaceStep::Keep
        } else {
            PlaceStep::Damaged
        },
        None => match source {
            Some(content) => if has_digest(content, wanted) {
                PlaceStep::Reuse
            } else {
                PlaceStep::Fetch
            },
            None => PlaceStep::Fetch,
        },
    }
}

/// What is said of a damaged file.
pub open spec fn damaged_text(path: Seq<char>) -> Seq<char> {
    "Cached update "@ + path + " failed verification; move that damaged file aside and retry"@
}

/// The message for a damaged file.
pub fn damaged_message(path: &str) -> (r: String)
    ensures
        r@ == damaged_text(path@),
{
    let mut m = "Cached update ".to_string();
    m.append(path);
    m.append(" failed verification; move that damaged file aside and retry");
    m
}

// ---------------------------------------------------------------------------
// Laws.

/// The address of a file names the repository, the revision and the path of the file in it,
/// part by part.
pub proof fn addresses_name_the_revision(
    owner: Seq<char>,
    repo: Seq<char>,
    revision: Seq<char>,
    parts: Seq<Seq<char>>,
)
    requires
        parts.len() > 0,
        !owner.contains('/') && !repo.contains('/'),
        forall|k: int, i: int|
            0 <= k < parts.len() && 0 <= i < parts[k].len() ==> #[trigger] parts[k][i] != '/',
    ensures
        ({
            let all = url_segments(
                owner + seq!['/'] + repo,
                revision,
                text::join(parts, seq!['/']),
            );
            &&& all.len() == 4 + parts.len()
            &&& all[0] == owner && all[1] == repo
            &&& all[2] == "resolve"@ && all[3] == revision
            &&& all.skip(4) == parts
        }),
        ({
            let named = well_named(owner + seq!['/'] + repo, text::join(parts, seq!['/']));
            let plain = |p: Seq<char>| p.len() > 0 && p != "."@ && p != ".."@;
            named <==> plain(owner) && plain(repo) && forall|k: int|
                0 <= k < parts.len() ==> plain(#[trigger] parts[k])
        }),
{
    let halves = seq![owner, repo];
    assert forall|k: int, i: int| 0 <= k < halves.len() && 0 <= i < halves[k].len() implies
        #[trigger] halves[k][i] != '/' by {
        assert(halves[k].contains(halves[k][i]));
    }
    text::parts_are_cut_again(halves, '/');
    assert(halves.drop_last() =~= seq![owner]);
    reveal_with_fuel(text::join, 3);
    assert(halves.drop_last()[0] == owner && halves.last() == repo);
    assert(text::join(halves, seq!['/']) =~= owner + seq!['/'] + repo);
    text::parts_are_cut_again(parts, '/');
    let all = url_segments(owner + seq!['/'] + repo, revision, text::join(parts, seq!['/']));
    assert(all =~= halves + seq!["resolve"@, revision] + parts);
    assert(all.skip(4) =~= parts);
    assert(is_path_part(halves[0]) == is_path_part(owner));
    assert(is_path_part(halves[1]) == is_path_part(repo));
    let named = well_named(owner + seq!['/'] + repo, text::join(parts, seq!['/']));
    if named {
        assert forall|k: int| 0 <= k < parts.len() implies is_path_part(#[trigger] parts[k]) by {}
    }
}

/// Quotes around a header are left out.
pub proof fn quotes_are_left_out(quoted: String, value: Seq<char>)
    requires
        quoted@ == seq!['"'] + value + seq!['"'] || quoted@ == value,
        value.len() > 0,
        value[0] != '"',
        value.last() != '"',
    ensures
        unquoted(Some(quoted)) == Some(value),
        unquoted(None) is None,
{
    let q = quoted@;
    reveal_with_fuel(text::drop_front, 3);
    reveal_with_fuel(text::drop_back, 3);
    if q != value {
        assert(q[0] == '"');
        assert(q.skip(1) =~= value + seq!['"']);
        assert((value + seq!['"'])[0] == value[0]);
        assert((value + seq!['"']).last() == '"');
        assert((value + seq!['"']).drop_last() =~= value);
    }
}

/// A file can be updated to exactly where the server answers, pins a revision, the one that
/// is asked for unless any is, and gives the digest and the size, first by the name for linked
/// files and then by the usual one; what it gives is what is told.
pub proof fn only_pinned_files_are_updated_to(
    head: FileHead,
    repo: Seq<char>,
    file: Seq<char>,
    revision: Seq<char>,
    commit: Seq<char>,
    sha256: Seq<char>,
    size: Seq<char>,
    n: nat,
)
    ensures
        ({
            let c = checked(head, repo, file, revision);
            &&& (200 <= head.status < 400 && unquoted(head.commit) == Some(commit)
                && digest::is_hash(commit, 40) && (revision == "main"@ || revision == commit) && (
            unquoted(head.linked_etag) == Some(sha256) || (head.linked_etag is None && unquoted(
                head.etag,
            ) == Some(sha256))) && digest::is_hash(sha256, 64) && (unquoted(head.linked_size)
                == Some(size) || (head.linked_size is None && unquoted(head.content_length) == Some(
                size,
            ))) && text::parse_unsigned(size, u64::MAX as nat) == Some(n) && n > 0) ==> c == Ok::<
                CheckedModel,
                Seq<char>,
            >(CheckedModel { revision: commit, sha256, size: n })
            &&& c matches Ok(found) ==> {
                &&& 200 <= head.status < 400
                &&& unquoted(head.commit) == Some(found.revision)
                &&& digest::is_hash(found.revision, 40) && digest::is_hash(found.sha256, 64)
                &&& revision == "main"@ || revision == found.revision
                &&& found.size > 0
                &&& unquoted(head.linked_etag) == Some(found.sha256) || (head.linked_etag is None
                    && unquoted(head.etag) == Some(found.sha256))
            }
        }),
{
}

/// A hash of a length has just that many digits and letters from a to f.
pub proof fn hashes_have_their_length(s: Seq<char>, n: nat, i: int)
    requires
        digest::is_hash(s, n),
        0 <= i < s.len(),
    ensures
        s.len() == n,
        ('0' <= s[i] <= '9') || ('a' <= s[i] <= 'f') || ('A' <= s[i] <= 'F'),
{
}

/// An installation goes on where what is installed is what was seen, or where a first one
/// finds that another brought just what it wanted.
pub proof fn overtaken_updates_stop(
    installed: Option<Seq<char>>,
    seen: Option<Seq<char>>,
    wanted: Seq<char>,
)
    ensures
        still_current(seen, seen, wanted, false),
        still_current(seen, seen, wanted, true),
        still_current(Some(wanted), seen, wanted, true),
        installed != seen ==> !still_current(installed, seen, wanted, false),
        installed != seen && installed != Some(wanted) ==> !still_current(
            installed,
            seen,
            wanted,
            true,
        ),
{
}

/// A file that is in its place is kept where it is what is wanted, and else damaged; one that
/// is not is taken from where it lies where that is what is wanted, and fetched in every other
/// case.
pub proof fn only_sound_files_are_kept(bytes: Seq<u8>, other: Seq<u8>, source: Option<Seq<u8>>)
    ensures
        ({
            let wanted = digest::sha256_hex(bytes);
            &&& place_rule(Some(bytes), source, wanted) is Keep
            &&& place_rule(None, Some(bytes), wanted) is Reuse
            &&& place_rule(None, None, wanted) is Fetch
            &&& digest::sha256_hex(other) != wanted ==> place_rule(Some(other), source, wanted)
                is Damaged && place_rule(None, Some(other), wanted) is Fetch
        }),
{
}

/// Where a file lies tells its repository, its name and what it holds apart from others of
/// its kind.
pub proof fn files_lie_below_the_models(models: Seq<char>, repo: Seq<char>, file: Seq<char>, sha256: Seq<char>)
    ensures
        cache_path(models, repo, file) == text::path_under(
            text::path_under(text::path_under(models, "huggingface"@), key_of(repo, file)),
            "model.gguf"@,
        ),
        stored_path(updates_of(models, repo, file), sha256) == text::path_under(
            text::path_under(
                text::path_under(text::path_under(models, "updates"@), key_of(repo, file)),
                "files"@,
            ),
            sha256,
        ),
        key_of(repo, file) == digest::sha256_hex(
            vstd::utf8::encode_utf8(repo + seq!['\0'] + file),
        ),
{
}

/// The revision to check is the one of the first file.
pub proof fn the_first_file_says_the_revision(first: SourceModel, more: Seq<SourceModel>)
    ensures
        first_revision(seq![first] + more) == first.revision,
        first_revision(Seq::empty()) is None,
{
}

} // verus!
