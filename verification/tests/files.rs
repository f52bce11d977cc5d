use millie::digest::sha256_of_text;
use millie::digest::valid_hash;
use millie::digest::Content;
use millie::download::resumed_total;
use millie::download::timeout_seconds;
use millie::download::ChunkStep;
use millie::download::Download;
use millie::download::EndStep;
use millie::download::ResponseStep;
use millie::download::RetryStep;
use millie::install_plan::InstallAction;
use millie::install_plan::InstallEvent;
use millie::install_plan::InstallPlan;
use millie::model_updates::check_head;
use millie::model_updates::check_one_revision;
use millie::model_updates::check_still_current;
use millie::model_updates::damaged_message;
use millie::model_updates::file_url;
use millie::model_updates::has_digest;
use millie::model_updates::hf_cache_path;
use millie::model_updates::installed_sources;
use millie::model_updates::is_fetched;
use millie::model_updates::local_sources;
use millie::model_updates::place_step;
use millie::model_updates::record_of;
use millie::model_updates::revision_to_check;
use millie::model_updates::source_key;
use millie::model_updates::stored_file;
use millie::model_updates::update_dir;
use millie::model_updates::FileHead;
use millie::model_updates::InstalledFile;
use millie::model_updates::InstalledRevision;
use millie::model_updates::LocalFile;
use millie::model_updates::ModelSource;
use millie::model_updates::PlaceStep;
use millie::model_updates::RemoteFile;
use sha2::Digest;
use std::collections::HashMap;

#[test]
fn only_exact_complete_parts_accept_416() {
    assert_eq!(resumed_total(416, Some("bytes */8"), 8).unwrap(), Some(8));
    for (header, offset) in [
        (Some("bytes */8"), 9),
        (Some("bytes */8"), 4),
        (None, 8),
        (Some("bytes */0"), 0),
    ] {
        assert!(resumed_total(416, header, offset).is_err());
    }
}

#[test]
fn ranges_must_start_at_the_resume_offset() {
    assert_eq!(resumed_total(206, Some("bytes 4-7/8"), 4).unwrap(), Some(8));
    for value in ["bytes 0-7/8", "bytes 5-7/8", "bytes 4-8/8", "bytes 4-7/*", "garbage"] {
        assert!(resumed_total(206, Some(value), 4).is_err());
    }
}

/// A server that closes each connection behind `limit` bytes.
struct Server {
    payload: Vec<u8>,
    limit: usize,
    status: Option<(u16, &'static str)>,
    requests: Vec<Option<String>>,
}

fn content(bytes: &[u8]) -> Content {
    let mut content = Content::new();
    for piece in bytes.chunks(4) {
        content.take_piece(piece);
    }
    content
}

fn fetch(server: &mut Server, part: &mut Vec<u8>, sha: Option<&str>) -> Result<(), String> {
    let mut state = Download::resume_from(content(part));
    loop {
        let range = state.begin_attempt();
        server.requests.push(range.clone());
        let start = range
            .as_deref()
            .map_or(0, |r| r.trim_start_matches("bytes=").trim_end_matches('-').parse().unwrap());
        let size = server.payload.len();
        let (status, header, length) = match server.status {
            Some((status, header)) => (status, Some(header.to_string()), None),
            None if start > 0 && start >= size => (416, Some(format!("bytes */{size}")), Some(0)),
            None if start > 0 => (
                206,
                Some(format!("bytes {start}-{}/{size}", size - 1)),
                Some((size - start) as u64),
            ),
            None => (200, None, Some(size as u64)),
        };
        let text = format!("{status} status");
        let step =
            state.on_response(status, &text, header.as_deref(), length, "test", "http://h.test/f");
        let complete = match step {
            ResponseStep::Complete => true,
            ResponseStep::Fail(message) => return Err(message),
            ResponseStep::Body { restart } => {
                if restart {
                    part.clear();
                }
                let from = if restart { 0 } else { start };
                let serve = (size - from).min(server.limit);
                for chunk in server.payload[from..from + serve].chunks(1000) {
                    match state.on_chunk(chunk) {
                        ChunkStep::Write => part.extend_from_slice(chunk),
                        ChunkStep::Fail(message) => return Err(message),
                    }
                }
                let cut = serve < size - from;
                let end = if cut {
                    EndStep::Interrupted("connection closed".to_string())
                } else {
                    state.on_body_end()
                };
                match end {
                    EndStep::Complete => true,
                    EndStep::Fail(message) => return Err(message),
                    EndStep::Resume => false,
                    EndStep::Interrupted(problem) => {
                        match state.on_interruption(&problem, "test") {
                            RetryStep::Wait(_) => false,
                            RetryStep::Fail(message) => return Err(message),
                        }
                    }
                }
            }
        };
        if complete {
            return state.verify(sha, "test");
        }
    }
}

fn server(payload: &[u8], limit: usize) -> Server {
    Server { payload: payload.to_vec(), limit, status: None, requests: Vec::new() }
}

#[test]
fn invalid_ranges_preserve_partial_files_without_a_checksum() {
    for (status, range) in [(416, "bytes */3"), (206, "bytes 0-3/8"), (204, "")] {
        let mut refusing = server(b"whatever", usize::MAX);
        refusing.status = Some((status, range));
        let mut part = b"part".to_vec();
        assert!(fetch(&mut refusing, &mut part, None).is_err());
        assert_eq!(part, b"part");
        assert_eq!(refusing.requests, vec![Some("bytes=4-".to_string())]);
    }
}

#[test]
fn http_error_preserves_partial_download() {
    let mut failing = server(b"whatever", usize::MAX);
    failing.status = Some((503, ""));
    let mut part = b"already downloaded".to_vec();
    assert!(fetch(&mut failing, &mut part, None).is_err());
    assert_eq!(part, b"already downloaded");
}

#[test]
fn successful_ignored_range_restarts_download() {
    let mut state = Download::resume_from(content(b"old"));
    assert_eq!(state.begin_attempt().as_deref(), Some("bytes=3-"));
    match state.on_response(200, "200 OK", None, Some(8), "test", "http://h.test/f") {
        ResponseStep::Body { restart } => assert!(restart),
        other => panic!("{other:?}"),
    }
    assert!(matches!(state.on_chunk(b"complete"), ChunkStep::Write));
    assert!(matches!(state.on_body_end(), EndStep::Complete));
    assert_eq!(state.downloaded(), 8);
    let sha = format!("{:x}", sha2::Sha256::digest(b"complete"));
    assert!(state.verify(Some(&sha), "test").is_ok());
}

#[test]
fn stalled_download_resumes_after_inactivity_timeout() {
    let mut stalling = server(b"partrest", 4);
    let mut part = Vec::new();
    fetch(&mut stalling, &mut part, None).unwrap();
    assert_eq!(part, b"partrest");
    assert_eq!(stalling.requests, vec![None, Some("bytes=4-".to_string())]);
}

#[test]
fn download_resumes_across_dropped_connections() {
    let payload: Vec<u8> = (0..3_000_000u32).map(|i| (i % 251) as u8).collect();
    let sha = format!("{:x}", sha2::Sha256::digest(&payload));
    let mut flaky = server(&payload, 1_000_000);
    let mut part = Vec::new();
    fetch(&mut flaky, &mut part, Some(&sha)).expect("download should survive dropped connections");
    assert_eq!(part, payload);
    assert_eq!(flaky.requests.len(), 3);
}

#[test]
fn completed_part_finalizes_via_416() {
    let payload: Vec<u8> = (0..500_000u32).map(|i| (i % 199) as u8).collect();
    let sha = format!("{:x}", sha2::Sha256::digest(&payload));
    let mut whole = server(&payload, usize::MAX);
    let mut part = payload.clone();
    fetch(&mut whole, &mut part, Some(&sha)).expect("complete .part should finalize via the checksum");
    assert_eq!(part, payload);
    assert_eq!(whole.requests, vec![Some("bytes=500000-".to_string())]);
}

#[test]
fn a_wrong_digest_is_refused() {
    let mut whole = server(b"payload", usize::MAX);
    let mut part = Vec::new();
    let wrong = "0".repeat(64);
    let digest = format!("{:x}", sha2::Sha256::digest(b"payload"));
    assert_eq!(
        fetch(&mut whole, &mut part, Some(&wrong)).unwrap_err(),
        format!("test download checksum mismatch: expected {wrong}, got {digest};                  partial file removed, rerun to retry")
    );
    let mut part = b"pay".to_vec();
    fetch(&mut whole, &mut part, Some(&digest.to_uppercase())).unwrap();
    let mut part = b"xxx".to_vec();
    assert!(fetch(&mut whole, &mut part, Some(&digest)).is_err());
    assert_eq!(part, b"xxxload");
}

#[test]
fn a_content_is_known_by_its_bytes() {
    let mut pieces = Content::new();
    assert_eq!(pieces.len(), 0);
    pieces.take_piece(b"ab");
    pieces.take_piece(b"");
    pieces.take_piece(b"c");
    assert_eq!(pieces.len(), 3);
    assert_eq!(pieces.digest(), sha256_of_text("abc"));
    assert!(has_digest(content(b"abc"), &sha256_of_text("abc")));
    assert!(!has_digest(content(b"abd"), &sha256_of_text("abc")));
}

#[test]
fn a_server_that_never_gets_on_is_given_up() {
    let mut stuck = server(b"payload", 0);
    let mut part = Vec::new();
    assert!(fetch(&mut stuck, &mut part, None).is_err());
    assert!(stuck.requests.len() > 1);
}

#[test]
fn timeouts_are_read_in_seconds() {
    assert_eq!(timeout_seconds(Some("30"), 300), 30);
    assert_eq!(timeout_seconds(Some("0"), 300), 300);
    assert_eq!(timeout_seconds(Some(" 30"), 300), 300);
    assert_eq!(timeout_seconds(None, 300), 300);
}

fn source(file: &str) -> ModelSource {
    ModelSource {
        repo: "org/model".to_string(),
        file: file.to_string(),
        path: "missing".to_string(),
        sha256: None,
        revision: None,
    }
}

#[test]
fn cache_identity_includes_repository_and_full_path() {
    let first = hf_cache_path("models", "a/model", "model.gguf");
    assert_ne!(first, hf_cache_path("models", "b/model", "model.gguf"));
    assert_ne!(first, hf_cache_path("models", "a/model", "sub/model.gguf"));
    assert!(file_url("https://huggingface.co", "a/model", "main", "../model.gguf").is_err());
}

#[test]
fn keys_are_digests_of_the_whole_identity() {
    let key = format!("{:x}", sha2::Sha256::digest(b"a/model\0sub/m.gguf"));
    assert_eq!(source_key("a/model", "sub/m.gguf"), key);
    assert_eq!(
        hf_cache_path("models", "a/model", "sub/m.gguf"),
        format!("models/huggingface/{key}/model.gguf")
    );
    assert_eq!(update_dir("models", "a/model", "sub/m.gguf"), format!("models/updates/{key}"));
    assert_eq!(
        sha256_of_text("abc"),
        "ba7816bf8f01cfea414140de5dae2223b00361a396177a9cb410ff61f20015ad"
    );
    assert!(valid_hash(&"a".repeat(64), 64));
    assert!(!valid_hash(&"a".repeat(63), 64));
    assert!(!valid_hash(&"g".repeat(64), 64));
}

#[test]
fn addresses_are_escaped() {
    assert_eq!(
        file_url("https://h.test/", "org/model", "main", "a b/c?.gguf").unwrap(),
        "https://h.test/org/model/resolve/main/a%20b/c%3F.gguf"
    );
    assert!(file_url("no address", "org/model", "main", "m.gguf").is_err());
}

fn head(commit: &str, etag: &str) -> FileHead {
    FileHead {
        status: 302,
        status_text: "302 Found".to_string(),
        commit: Some(commit.to_string()),
        linked_etag: Some(etag.to_string()),
        etag: None,
        linked_size: Some("8".to_string()),
        content_length: None,
    }
}

#[test]
fn check_is_metadata_only_and_pins_all_files_to_one_revision() {
    let commit = "a".repeat(40);
    let sources = vec![source("model.gguf"), source("vision.gguf")];
    let mut revision = revision_to_check(&sources);
    assert_eq!(revision, "main");
    let mut files = Vec::new();
    for source in sources {
        let (found, sha256, size) =
            check_head(&head(&commit, &"b".repeat(64)), &source.repo, &source.file, &revision)
                .unwrap();
        let url = file_url("http://h.test", &source.repo, &found, &source.file).unwrap();
        revision = found.clone();
        files.push(RemoteFile { source, revision: found, sha256, size, url });
    }
    check_one_revision(&files).unwrap();
    assert_eq!(revision, commit);
    assert_eq!(files.len(), 2);
    assert!(files.iter().all(|v| v.revision == commit && v.url.contains(&commit)));
    files[1].revision = "b".repeat(40);
    assert!(check_one_revision(&files).is_err());
}

#[test]
fn heads_without_an_identity_are_refused() {
    let commit = "a".repeat(40);
    let etag = "b".repeat(64);
    assert!(check_head(&head("short", &etag), "o/m", "f", "main").is_err());
    assert!(check_head(&head(&commit, "short"), "o/m", "f", "main").is_err());
    let missing = FileHead { status: 404, ..head(&commit, &etag) };
    assert!(check_head(&missing, "o/m", "f", "main").is_err());
    let sizeless = FileHead { linked_size: None, ..head(&commit, &etag) };
    assert!(check_head(&sizeless, "o/m", "f", "main").is_err());
}

fn remote(file: &str, digest: &str) -> RemoteFile {
    RemoteFile {
        source: source(file),
        revision: "c".repeat(40),
        sha256: digest.to_string(),
        size: 8,
        url: String::new(),
    }
}

#[test]
fn initial_download_uses_remote_hash_and_pins_undownloaded_vision() {
    let weights = format!("{:x}", sha2::Sha256::digest(b"new weights"));
    let tower = format!("{:x}", sha2::Sha256::digest(b"new tower"));
    let files = vec![remote("model.gguf", &weights), remote("vision.gguf", &tower)];
    assert!(is_fetched(0, false));
    assert!(!is_fetched(1, false));
    assert!(is_fetched(1, true));
    let record = record_of(&files);
    let installed = installed_sources("/u", "org/model", "model.gguf", record).unwrap();
    assert_eq!(installed[0].path, stored_file("/u", &weights));
    assert!(installed.iter().all(|f| f.revision == Some("c".repeat(40))));
    assert_eq!(installed[1].sha256, Some(tower));
}

/// A directory of files, the record of what is installed, and what the server has.
struct Disk {
    files: HashMap<String, Vec<u8>>,
    active: Option<(String, Vec<(String, String)>)>,
    remote: HashMap<String, Vec<u8>>,
    fetches: usize,
}

impl Disk {
    fn look(&self, path: &str) -> Option<Content> {
        self.files.get(path).map(|bytes| content(bytes))
    }

    /// Does what is asked for with one file.
    fn perform(&mut self, file: &RemoteFile, action: &InstallAction) -> InstallEvent {
        let place = stored_file("/u", &file.sha256);
        match action {
            InstallAction::Look(_) => {
                return InstallEvent::Looked {
                    stored: self.look(&place),
                    source: self.look(&file.source.path),
                };
            }
            InstallAction::Reuse(_) => {
                let bytes = self.files[&file.source.path].clone();
                self.files.insert(place, bytes);
            }
            _ => {
                if !self.files.contains_key(&place) {
                    self.fetches += 1;
                    let Some(bytes) = self.remote.get(&file.url) else {
                        return InstallEvent::Broken("503 Service Unavailable".to_string());
                    };
                    let mut part = Vec::new();
                    let mut from = server(bytes, 4);
                    if let Err(message) = fetch(&mut from, &mut part, Some(&file.sha256)) {
                        return InstallEvent::Broken(message);
                    }
                    self.files.insert(place, part);
                }
            }
        }
        InstallEvent::Done
    }

    fn install(&mut self, files: Vec<RemoteFile>, vision: bool, initial: bool) -> Result<(), String> {
        let installed = self.active.as_ref().map(|(revision, _)| revision.clone());
        let (mut plan, mut action) =
            InstallPlan::start("/u".to_string(), files, vision, initial, &installed)?;
        loop {
            let index = match action {
                InstallAction::Publish(record) => {
                    let files = record.files.into_iter().map(|f| (f.file, f.sha256)).collect();
                    self.active = Some((record.revision, files));
                    return Ok(());
                }
                InstallAction::Fail(message) => return Err(message),
                InstallAction::Wait => panic!("nothing was asked for"),
                InstallAction::Look(i) | InstallAction::Reuse(i) | InstallAction::Fetch(i) => i,
            };
            let event = self.perform(&plan.files[index], &action);
            action = plan.on_event(event);
        }
    }

    fn installed(&self) -> Vec<ModelSource> {
        let (revision, files) = self.active.clone().unwrap();
        let files = files.into_iter().map(|(file, sha256)| InstalledFile { file, sha256 }).collect();
        installed_sources("/u", "org/model", "model.gguf", InstalledRevision { revision, files })
            .unwrap()
    }
}

fn update() -> Vec<RemoteFile> {
    [("model.gguf", b"new model".as_slice()), ("vision.gguf", b"new vision".as_slice())]
        .into_iter()
        .map(|(file, bytes)| RemoteFile {
            source: ModelSource { revision: Some("a".repeat(40)), ..source(file) },
            revision: "b".repeat(40),
            sha256: format!("{:x}", sha2::Sha256::digest(bytes)),
            size: bytes.len() as u64,
            url: format!("http://h.test/{file}"),
        })
        .collect()
}

#[test]
fn failed_update_keeps_previous_revision_and_success_switches_the_whole_set() {
    let old_hash = format!("{:x}", sha2::Sha256::digest(b"old model"));
    let old = Some(("a".repeat(40), vec![("model.gguf".to_string(), old_hash.clone())]));
    let mut disk = Disk {
        files: HashMap::from([(stored_file("/u", &old_hash), b"old model".to_vec())]),
        active: old.clone(),
        remote: HashMap::from([("http://h.test/model.gguf".to_string(), b"new model".to_vec())]),
        fetches: 0,
    };
    assert!(disk.install(update(), true, false).is_err());
    assert_eq!(disk.active, old);
    disk.remote.insert("http://h.test/vision.gguf".to_string(), b"new vision".to_vec());
    disk.install(update(), true, false).unwrap();
    let active = disk.installed();
    assert_eq!(active.len(), 2);
    assert_eq!(disk.files[&active[0].path], b"new model");
    assert_eq!(disk.files[&active[1].path], b"new vision");
    assert!(active.iter().all(|f| f.revision == Some("b".repeat(40))));
    assert!(disk.files.len() >= 3);
    // The first file was fetched once, the second twice.
    assert_eq!(disk.fetches, 3);
    // The set is not installed a second time from the same start.
    assert!(disk.install(update(), true, false).is_err());
}

#[test]
fn damaged_and_malformed_sets_are_not_installed() {
    let mut files = update();
    let place = stored_file("/u", &files[0].sha256);
    let mut disk = Disk {
        files: HashMap::from([(place.clone(), b"damaged".to_vec())]),
        active: Some(("a".repeat(40), Vec::new())),
        remote: HashMap::new(),
        fetches: 0,
    };
    let before = disk.active.clone();
    assert_eq!(disk.install(update(), true, false).unwrap_err(), damaged_message(&place));
    assert_eq!(disk.active, before);
    files[1].sha256 = "short".to_string();
    disk.files.insert(place, b"new model".to_vec());
    assert_eq!(
        disk.install(files, false, false).unwrap_err(),
        "Invalid update checksum or revision"
    );
    assert_eq!(disk.active, before);
    let mut files = update();
    files[1].revision = "c".repeat(40);
    assert!(disk.install(files, true, false).is_err());
    assert!(disk.install(Vec::new(), true, false).is_err());
    // Weights that lie elsewhere are used again; without vision the rest is only recorded.
    let mut files = update();
    files[0].source.path = "/old/model.gguf".to_string();
    disk.files.clear();
    disk.files.insert("/old/model.gguf".to_string(), b"new model".to_vec());
    disk.install(files, false, false).unwrap();
    assert_eq!(disk.fetches, 0);
    assert_eq!(disk.installed().len(), 2);
    assert_eq!(disk.files.len(), 2);
}

#[test]
fn places_are_decided_by_content() {
    let old = Some("a".repeat(40));
    let newer = Some("d".repeat(40));
    let wanted = "b".repeat(40);
    assert!(check_still_current(&old, &old, &wanted, false).is_ok());
    assert!(check_still_current(&newer, &old, &wanted, false).is_err());
    let digest = sha256_of_text("weights");
    let right = || Some(content(b"weights"));
    let wrong = || Some(content(b"other"));
    assert_eq!(place_step(right(), None, &digest), PlaceStep::Keep);
    assert_eq!(place_step(wrong(), None, &digest), PlaceStep::Damaged);
    assert_eq!(place_step(None, right(), &digest), PlaceStep::Reuse);
    assert_eq!(place_step(None, wrong(), &digest), PlaceStep::Fetch);
    assert_eq!(place_step(None, None, &digest), PlaceStep::Fetch);
    assert!(damaged_message("/u/f").contains("/u/f"));
}

#[test]
fn local_installation_preserves_paths_without_reading_weights() {
    let files = vec![LocalFile {
        file: "model.gguf".to_string(),
        path: "/models/model.gguf".to_string(),
    }];
    let sources = local_sources("org/model", "model.gguf", files).unwrap();
    assert_eq!(sources[0].path, "/models/model.gguf");
    assert_eq!(sources[0].revision, None);
    assert_eq!(sources[0].sha256, None);
    assert!(local_sources("org/model", "model.gguf", Vec::new()).is_err());
}
