//! Cache roots, groups and entries on a disk held in memory.
use cache_manager::constants::{CACHE_DIR_NAME, CARGO_TOML_FILE_NAME};
use cache_manager::discovery::{find_crate_root, Discovery};
use cache_manager::disk::{Answer, DirEntry, Progress, Request};
use cache_manager::ensure::EnsureTask;
use cache_manager::entries::FileEntry;
use cache_manager::process::ScopeTask;
use cache_manager::report::ReportTask;
use cache_manager::scan::{collect_files, FileScan};
use cache_manager::threads::{current_thread_cache_group_id, ThreadGroupIds};
use cache_manager::touch::TouchTask;
use cache_manager::{
    CacheGroup, CacheRoot, Duration, EvictPolicy, EvictionReport, PosixPath,
    ProcessScopedCacheGroup, Timestamp,
};
use std::collections::{BTreeMap, BTreeSet, VecDeque};
use std::io::ErrorKind;
use std::path::{Path, PathBuf};

fn path(text: &str) -> PosixPath {
    PosixPath::from_text(text)
}

fn text(path: &PosixPath) -> String {
    String::from_utf8(path.as_bytes().to_vec()).expect("utf-8 path")
}

fn std_path(path: &PosixPath) -> PathBuf {
    PathBuf::from(text(path))
}

fn from_std(path: &Path) -> PosixPath {
    PosixPath::from_text(path.to_str().expect("utf-8 path"))
}

/// The spelling of a path without anything that does not count.
fn normal(path: &PosixPath) -> String {
    let clean: PathBuf = std_path(path).components().collect();
    clean.to_str().expect("utf-8 path").to_string()
}

/// A disk held in memory, with a clock that moves on at each write.
struct Disk {
    dirs: BTreeSet<String>,
    files: BTreeMap<String, (i64, u64)>,
    others: BTreeSet<String>,
    stuck: BTreeSet<String>,
    unreadable: BTreeSet<String>,
    links: BTreeMap<String, String>,
    cwd: Option<String>,
    millis: i64,
    open: Vec<VecDeque<DirEntry>>,
    log: Vec<String>,
}

impl Disk {
    fn new() -> Disk {
        let mut disk = Disk {
            dirs: BTreeSet::new(),
            files: BTreeMap::new(),
            others: BTreeSet::new(),
            stuck: BTreeSet::new(),
            unreadable: BTreeSet::new(),
            links: BTreeMap::new(),
            cwd: None,
            millis: 1_000_000,
            open: Vec::new(),
            log: Vec::new(),
        };
        disk.create_dir_all("/tmp");
        disk
    }

    fn create_dir_all(&mut self, dir: &str) {
        let mut at = Some(Path::new(dir));
        while let Some(p) = at {
            self.dirs.insert(p.to_str().expect("utf-8 path").to_string());
            at = p.parent();
        }
    }

    fn timestamp(millis: i64) -> Timestamp {
        Timestamp::new(millis.div_euclid(1000), (millis.rem_euclid(1000) * 1_000_000) as u32)
            .expect("timestamp")
    }

    fn sleep(&mut self, millis: i64) {
        self.millis += millis;
    }

    fn write(&mut self, file: &PosixPath, len: u64) {
        let name = normal(file);
        let parent = Path::new(&name).parent().expect("parent").to_str().expect("utf-8").to_string();
        assert!(self.dirs.contains(&parent), "no directory {parent}");
        self.millis += 1;
        self.files.insert(name, (self.millis, len));
    }

    fn is_dir(&self, dir: &PosixPath) -> bool {
        self.dirs.contains(&self.name(dir))
    }

    fn is_file(&self, file: &PosixPath) -> bool {
        self.files.contains_key(&self.name(file))
    }

    /// The name of what a path means, seen from the current directory.
    fn name(&self, path: &PosixPath) -> String {
        match &self.cwd {
            Some(cwd) if !path.as_bytes().is_empty() => normal(&from_std(Path::new(cwd)).join(path)),
            _ => normal(path),
        }
    }

    /// The entries of the directory that was named by `shown`.
    fn children(&self, dir: &str, shown: &PosixPath) -> VecDeque<DirEntry> {
        let is_child = |p: &String| Path::new(p).parent() == Some(Path::new(dir));
        let entry_path = |p: &String| {
            let name = Path::new(p).file_name().and_then(|n| n.to_str()).expect("name");
            shown.join(&path(name))
        };
        let mut entries = VecDeque::new();
        for (file, (modified, len)) in &self.files {
            if is_child(file) {
                let modified = Some(Disk::timestamp(*modified));
                entries.push_front(DirEntry::File { path: entry_path(file), modified, len: *len });
            }
        }
        for other in self.others.iter().filter(|p| is_child(p)) {
            assert!(other.starts_with(dir));
            entries.push_back(DirEntry::Other);
        }
        for sub in self.dirs.iter().filter(|p| is_child(p)) {
            entries.push_front(DirEntry::Dir(entry_path(sub)));
        }
        entries
    }

    fn verdict(ok: bool, kind: ErrorKind) -> Answer<ErrorKind> {
        if ok {
            Answer::Done
        } else {
            Answer::Failed(kind)
        }
    }

    fn answer(&mut self, request: Request) -> Answer<ErrorKind> {
        match request {
            Request::CurrentDir => match &self.cwd {
                Some(cwd) => Answer::Path(path(cwd)),
                None => Answer::Failed(ErrorKind::NotFound),
            },
            Request::IsFile(p) => Answer::Flag(self.is_file(&p)),
            Request::Canonicalize(p) => {
                let name = self.name(&p);
                let real = self.links.get(&name).cloned().unwrap_or(name);
                if self.dirs.contains(&real) {
                    Answer::Path(path(&real))
                } else {
                    Answer::Failed(ErrorKind::NotFound)
                }
            }
            Request::CreateDirAll(p) => {
                self.log.push(format!("create {}", text(&p)));
                let name = self.name(&p);
                let blocked = Path::new(&name)
                    .ancestors()
                    .any(|a| self.files.contains_key(a.to_str().expect("utf-8")));
                if blocked {
                    return Answer::Failed(ErrorKind::AlreadyExists);
                }
                self.create_dir_all(&name);
                Answer::Done
            }
            Request::OpenDir(p) => {
                let name = self.name(&p);
                if !self.dirs.contains(&name) {
                    return Answer::Failed(ErrorKind::NotFound);
                }
                if self.unreadable.contains(&name) {
                    return Answer::Failed(ErrorKind::PermissionDenied);
                }
                let entries = self.children(&name, &p);
                self.open.push(entries);
                Answer::Done
            }
            Request::NextEntry(_) => match self.open.last_mut().expect("open directory").pop_front() {
                Some(entry) => Answer::Entry(entry),
                None => {
                    self.open.pop();
                    Answer::End
                }
            },
            Request::ReadClock => Answer::Now(Disk::timestamp(self.millis)),
            Request::RemoveFile(p) => {
                self.log.push(format!("remove {}", text(&p)));
                let name = self.name(&p);
                if self.stuck.contains(&name) {
                    return Answer::Failed(ErrorKind::PermissionDenied);
                }
                let gone = self.files.remove(&name).is_some();
                Disk::verdict(gone, ErrorKind::NotFound)
            }
            Request::OpenAppend(p) => {
                self.log.push(format!("open {}", text(&p)));
                let name = self.name(&p);
                if self.dirs.contains(&name) {
                    return Answer::Failed(ErrorKind::IsADirectory);
                }
                let parent = Path::new(&name).parent().and_then(|p| p.to_str()).map(String::from);
                if !parent.is_some_and(|p| self.dirs.contains(&p)) {
                    return Answer::Failed(ErrorKind::NotFound);
                }
                let now = self.millis;
                self.files.entry(name).or_insert((now, 0));
                Answer::Done
            }
            Request::SetModified { path, time } => {
                self.log.push(format!("update {}", text(&path)));
                let name = self.name(&path);
                if self.stuck.contains(&name) {
                    return Answer::Failed(ErrorKind::PermissionDenied);
                }
                let millis = time.secs() * 1000 + i64::from(time.subsec_nanos() / 1_000_000);
                match self.files.get_mut(&name) {
                    Some(file) => {
                        file.0 = millis;
                        Answer::Done
                    }
                    None => Answer::Failed(ErrorKind::NotFound),
                }
            }
            Request::CreateTempDir { parent, prefix } => {
                if !self.is_dir(&parent) {
                    return Answer::Failed(ErrorKind::NotFound);
                }
                let name = String::from_utf8(prefix).expect("utf-8 prefix") + "Xy12Zw";
                let dir = parent.join(&path(&name));
                self.create_dir_all(&self.name(&dir));
                Answer::Path(dir)
            }
        }
    }

    fn ensure(&mut self, mut task: EnsureTask<ErrorKind>) -> Result<PosixPath, ErrorKind> {
        loop {
            match task.progress() {
                Progress::Finished(outcome) => return outcome,
                Progress::Waiting(t) => {
                    let request = t.request().expect("request");
                    task = t.step(self.answer(request));
                }
            }
        }
    }

    fn report(&mut self, mut task: ReportTask<ErrorKind>) -> Result<EvictionReport, ErrorKind> {
        loop {
            match task.progress() {
                Progress::Finished(outcome) => return outcome,
                Progress::Waiting(t) => {
                    let request = t.request().expect("request");
                    task = t.step(self.answer(request));
                }
            }
        }
    }

    fn touch(&mut self, mut task: TouchTask<ErrorKind>) -> Result<PosixPath, ErrorKind> {
        loop {
            match task.progress() {
                Progress::Finished(outcome) => return outcome,
                Progress::Waiting(t) => {
                    let request = t.request().expect("request");
                    task = t.step(self.answer(request));
                }
            }
        }
    }

    fn discover(&mut self, mut task: Discovery<ErrorKind>) -> Result<CacheRoot, ErrorKind> {
        loop {
            match task.progress() {
                Progress::Finished(outcome) => return outcome,
                Progress::Waiting(t) => {
                    let request = t.request().expect("request");
                    task = t.step(self.answer(request));
                }
            }
        }
    }

    fn scope(&mut self, mut task: ScopeTask<ErrorKind>) -> Result<ProcessScopedCacheGroup, ErrorKind> {
        loop {
            match task.progress() {
                Progress::Finished(outcome) => return outcome,
                Progress::Waiting(t) => {
                    let request = t.request().expect("request");
                    task = t.step(self.answer(request));
                }
            }
        }
    }

    fn collect(&mut self, dir: &PosixPath) -> Result<Vec<FileEntry>, ErrorKind> {
        let mut scan: FileScan<ErrorKind> = collect_files(dir);
        loop {
            match scan.progress() {
                Progress::Finished(outcome) => return outcome,
                Progress::Waiting(s) => {
                    let request = s.request().expect("request");
                    scan = s.step(self.answer(request));
                }
            }
        }
    }

    fn file_names(&mut self, dir: &PosixPath) -> BTreeSet<String> {
        self.collect(dir).expect("collect files").iter().map(|f| text(&f.path)).collect()
    }
}

/// A disk, and a cache root in a directory of it.
fn setup() -> (Disk, CacheRoot) {
    let mut disk = Disk::new();
    disk.create_dir_all("/tmp/work");
    (disk, CacheRoot::from_root(path("/tmp/work")))
}

fn group_with_dir(disk: &mut Disk, cache: &CacheRoot, name: &str) -> CacheGroup {
    let group = cache.group(&path(name));
    disk.ensure(group.ensure_dir()).expect("ensure dir");
    group
}

fn write(disk: &mut Disk, group: &CacheGroup, name: &str, len: u64) {
    disk.write(&group.entry_path(&path(name)), len);
}

fn temp_path() -> PathBuf {
    tempfile::TempDir::new().expect("tempdir").path().to_path_buf()
}

#[test]
fn from_discovery_uses_cwd_dot_cache_when_no_cargo_toml() {
    let (mut disk, _) = setup();
    disk.create_dir_all("/private/tmp/work");
    disk.links.insert("/tmp/work".to_string(), "/private/tmp/work".to_string());
    disk.cwd = Some("/tmp/work".to_string());

    let cache = disk.discover(CacheRoot::from_discovery()).expect("discover");
    let expected = path("/private/tmp/work").join(&path(CACHE_DIR_NAME));
    assert_eq!(cache.path().as_bytes(), expected.as_bytes());
}

#[test]
fn from_discovery_prefers_nearest_crate_root() {
    let (mut disk, _) = setup();
    disk.create_dir_all("/tmp/work/workspace/src/nested");
    disk.write(&path("/tmp/work").join(&path(CARGO_TOML_FILE_NAME)), 50);
    disk.write(&path("/tmp/work/workspace").join(&path(CARGO_TOML_FILE_NAME)), 50);
    disk.cwd = Some("/tmp/work/workspace/src/nested".to_string());

    let cache = disk.discover(CacheRoot::from_discovery()).expect("discover");
    assert_eq!(text(cache.path()), "/tmp/work/workspace/.cache");
}

#[test]
fn from_discovery_keeps_anchor_without_canonical_form() {
    let mut disk = Disk::new();
    disk.cwd = Some("/gone/away".to_string());
    let cache = disk.discover(CacheRoot::from_discovery()).expect("discover");
    assert_eq!(text(cache.path()), "/gone/away/.cache");
}

#[test]
fn from_discovery_fails_without_current_dir() {
    let mut disk = Disk::new();
    let outcome = disk.discover(CacheRoot::from_discovery());
    assert_eq!(outcome.expect_err("no current directory"), ErrorKind::NotFound);
}

#[test]
fn find_crate_root_ends_at_the_root() {
    let mut disk = Disk::new();
    let mut search = find_crate_root(&path("/a/b"));
    let mut probed = Vec::new();
    let outcome = loop {
        match search.progress() {
            Progress::Finished(outcome) => break outcome,
            Progress::Waiting(s) => {
                let request = s.request().expect("request");
                if let Request::IsFile(p) = &request {
                    probed.push(text(p));
                }
                search = s.step(disk.answer(request));
            }
        }
    };
    assert!(outcome.is_none());
    assert_eq!(probed, vec!["/a/b/Cargo.toml", "/a/Cargo.toml", "/Cargo.toml"]);
}

#[test]
fn from_root_supports_arbitrary_path_and_grouping() {
    let tmp = temp_path();
    let root = CacheRoot::from_root(from_std(&tmp.join("custom-cache-root")));
    let group = root.group(&path("taxonomy/v1"));

    assert_eq!(std_path(group.path()), std_path(root.path()).join("taxonomy/v1").as_path());
}

#[test]
fn group_path_building_and_dir_creation() {
    let (mut disk, cache) = setup();
    let group = cache.group(&path("artifacts/json"));

    let nested_group = group.subgroup(&path("v1"));
    let ensured = disk.ensure(nested_group.ensure_dir()).expect("ensure nested dir");
    let expected_group_suffix = Path::new("artifacts").join("json").join("v1");
    assert!(std_path(&ensured).ends_with(&expected_group_suffix));
    assert!(disk.is_dir(&ensured));

    let entry = nested_group.entry_path(&path("a/b/cache.json"));
    let expected_entry_suffix =
        Path::new("artifacts").join("json").join("v1").join("a").join("b").join("cache.json");
    assert!(std_path(&entry).ends_with(&expected_entry_suffix));
}

#[test]
fn touch_creates_blank_file_and_is_idempotent() {
    let (mut disk, cache) = setup();
    let group = cache.group(&path("artifacts/json"));

    let touched = disk.touch(group.touch(&path("a/b/cache.json"))).expect("touch file");
    assert!(disk.is_file(&touched));
    assert_eq!(disk.files[&normal(&touched)].1, 0);

    let touched_again = disk.touch(group.touch(&path("a/b/cache.json"))).expect("touch file again");
    assert_eq!(touched_again, touched);
    assert_eq!(disk.files[&normal(&touched_again)].1, 0);
}

#[test]
fn touch_with_root_group_and_empty_relative_path_errors() {
    let mut disk = Disk::new();
    let root = CacheRoot::from_root(path("/"));
    let group = root.group(&path(""));

    let result = disk.touch(group.touch(&path("")));
    assert!(result.is_err());
    assert_eq!(disk.log, vec!["open /"]);
}

#[test]
fn touch_creates_the_parent_then_opens_and_updates_the_entry() {
    let (mut disk, cache) = setup();
    let entry = disk.touch(cache.group(&path("g")).touch(&path("a/b"))).expect("touch");
    assert_eq!(text(&entry), "/tmp/work/g/a/b");
    assert_eq!(
        disk.log,
        vec!["create /tmp/work/g/a", "open /tmp/work/g/a/b", "update /tmp/work/g/a/b"]
    );
}

#[test]
fn touch_stops_when_the_parent_cannot_be_created() {
    let (mut disk, cache) = setup();
    disk.write(&path("/tmp/work/g"), 1);
    let outcome = disk.touch(cache.group(&path("g")).touch(&path("a/b")));
    assert_eq!(outcome.expect_err("blocked"), ErrorKind::AlreadyExists);
    assert_eq!(disk.log, vec!["create /tmp/work/g/a"]);
}

#[test]
fn from_discovery_cache_path_uses_root_and_group() {
    let (mut disk, _) = setup();
    disk.create_dir_all("/tmp/work/workspace/src/nested");
    disk.write(&path("/tmp/work/workspace").join(&path(CARGO_TOML_FILE_NAME)), 50);
    disk.cwd = Some("/tmp/work/workspace/src/nested".to_string());

    let p = disk
        .discover(CacheRoot::from_discovery())
        .expect("discover")
        .cache_path(&path("taxonomy"), &path("taxonomy_cache.json"));
    let parent = p.parent().expect("cache path parent");
    let expected_parent =
        path("/tmp/work/workspace").join(&path(CACHE_DIR_NAME)).join(&path("taxonomy"));
    assert_eq!(parent, expected_parent);
    assert_eq!(
        std_path(&p).file_name().and_then(|s| s.to_str()),
        Some("taxonomy_cache.json")
    );
    assert!(!disk.is_file(&p));
}

#[test]
fn from_discovery_ignores_other_custom_cache_dir_names() {
    let (mut disk, _) = setup();
    disk.create_dir_all("/tmp/work/workspace/src/nested");
    disk.create_dir_all("/tmp/work/workspace/.cache-v2");
    disk.write(&path("/tmp/work/workspace").join(&path(CARGO_TOML_FILE_NAME)), 50);
    disk.cwd = Some("/tmp/work/workspace/src/nested".to_string());

    let cache = disk.discover(CacheRoot::from_discovery()).expect("discover");
    let expected = path("/tmp/work/workspace").join(&path(CACHE_DIR_NAME));
    assert_eq!(*cache.path(), expected);
}

#[test]
fn cache_path_preserves_absolute_paths() {
    let root = CacheRoot::from_root(path("/tmp/project"));
    let absolute = path("/tmp/custom/cache.json");
    let resolved = root.cache_path(&path(CACHE_DIR_NAME), &absolute);
    assert_eq!(resolved, absolute);
    assert_eq!(text(&resolved), "/tmp/custom/cache.json");
}

#[test]
fn from_project_dirs_matches_directories_cache_dir() {
    let qualifier = "com";
    let organization = "CacheManagerTests";
    let application = "CacheManagerOsCacheRoot";

    let expected = directories::ProjectDirs::from(qualifier, organization, application)
        .expect("project dirs")
        .cache_dir()
        .to_path_buf();

    let root = CacheRoot::from_project_dirs(qualifier, organization, application)
        .expect("from project dirs");

    assert_eq!(std_path(root.path()), expected.as_path());
}

#[test]
fn missing_project_cache_dir_is_an_error() {
    let error = CacheRoot::from_project_cache_dir(None).expect_err("no directory");
    assert_eq!(
        error.message(),
        "could not resolve an OS cache directory for the provided project identity"
    );
    let root = CacheRoot::from_project_cache_dir(Some(b"/home/alice/.cache/barapp".to_vec()));
    assert_eq!(text(root.expect("root").path()), "/home/alice/.cache/barapp");
}

#[test]
fn ensure_dir_with_policy_max_files() {
    let (mut disk, cache) = setup();
    let group = group_with_dir(&mut disk, &cache, "artifacts");

    write(&mut disk, &group, "a.txt", 1);
    write(&mut disk, &group, "b.txt", 1);
    write(&mut disk, &group, "c.txt", 1);

    let policy = EvictPolicy { max_files: Some(2), ..EvictPolicy::default() };
    disk.ensure(group.ensure_dir_with_policy(Some(&policy))).expect("ensure with policy");

    let files = disk.collect(group.path()).expect("collect files");
    assert_eq!(files.len(), 2);
}

#[test]
fn ensure_dir_with_policy_max_bytes() {
    let (mut disk, cache) = setup();
    let group = group_with_dir(&mut disk, &cache, "artifacts");

    write(&mut disk, &group, "a.bin", 5);
    write(&mut disk, &group, "b.bin", 5);
    write(&mut disk, &group, "c.bin", 5);

    let policy = EvictPolicy { max_bytes: Some(10), ..EvictPolicy::default() };
    disk.ensure(group.ensure_dir_with_policy(Some(&policy))).expect("ensure with policy");

    let total: u64 =
        disk.collect(group.path()).expect("collect files").iter().map(|f| f.len).sum();
    assert!(total <= 10);
}

#[test]
fn ensure_dir_with_policy_max_age_zero_evicts_all() {
    let (mut disk, cache) = setup();
    let group = group_with_dir(&mut disk, &cache, "artifacts");

    write(&mut disk, &group, "a.txt", 1);
    write(&mut disk, &group, "b.txt", 1);

    let policy = EvictPolicy { max_age: Some(Duration::zero()), ..EvictPolicy::default() };
    disk.ensure(group.ensure_dir_with_policy(Some(&policy))).expect("ensure with policy");

    let files = disk.collect(group.path()).expect("collect files");
    assert!(files.is_empty());
}

#[test]
fn eviction_report_matches_applied_evictions() {
    let (mut disk, cache) = setup();
    let group = group_with_dir(&mut disk, &cache, "artifacts");

    write(&mut disk, &group, "a.bin", 5);
    write(&mut disk, &group, "b.bin", 5);
    write(&mut disk, &group, "c.bin", 5);

    let policy = EvictPolicy { max_bytes: Some(10), ..EvictPolicy::default() };

    let before = disk.file_names(group.path());
    let report = disk.report(group.eviction_report(&policy)).expect("eviction report");
    let planned: BTreeSet<String> = report.marked_for_eviction.iter().map(text).collect();
    assert_eq!(disk.file_names(group.path()), before);

    disk.log.clear();
    disk.ensure(group.ensure_dir_with_policy(Some(&policy))).expect("ensure with policy");

    let after = disk.file_names(group.path());
    let expected_after: BTreeSet<String> = before.difference(&planned).cloned().collect();
    assert_eq!(after, expected_after);
    assert_eq!(
        disk.log,
        vec!["create /tmp/work/artifacts", "remove /tmp/work/artifacts/a.bin"]
    );
}

#[test]
fn no_policy_and_default_policy_report_do_not_mark_evictions() {
    let (mut disk, cache) = setup();
    let group = group_with_dir(&mut disk, &cache, "artifacts");

    write(&mut disk, &group, "a.txt", 1);
    write(&mut disk, &group, "b.txt", 1);

    let report =
        disk.report(group.eviction_report(&EvictPolicy::default())).expect("eviction report");
    assert!(report.marked_for_eviction.is_empty());

    disk.ensure(group.ensure_dir_with_policy(None)).expect("ensure with no policy");

    let files = disk.collect(group.path()).expect("collect files");
    assert_eq!(files.len(), 2);
}

#[test]
fn eviction_policy_applies_in_documented_order() {
    let (mut disk, cache) = setup();
    let group = group_with_dir(&mut disk, &cache, "artifacts");

    write(&mut disk, &group, "old.txt", 1);

    disk.sleep(300);

    write(&mut disk, &group, "b.bin", 7);
    write(&mut disk, &group, "c.bin", 6);
    write(&mut disk, &group, "d.bin", 1);

    let policy = EvictPolicy {
        max_age: Some(Duration::from_millis(200)),
        max_files: Some(2),
        max_bytes: Some(5),
    };

    let report = disk.report(group.eviction_report(&policy)).expect("eviction report");
    let evicted_names: Vec<String> = report
        .marked_for_eviction
        .iter()
        .map(|p| {
            std_path(p)
                .file_name()
                .and_then(|name| name.to_str())
                .expect("evicted file name")
                .to_string()
        })
        .collect();
    assert_eq!(evicted_names, vec!["old.txt", "b.bin", "c.bin"]);

    disk.ensure(group.ensure_dir_with_policy(Some(&policy))).expect("apply policy");

    let remaining = disk.file_names(group.path());
    assert_eq!(remaining, BTreeSet::from([text(&group.entry_path(&path("d.bin")))]));
}

#[test]
fn single_root_supports_distinct_policies_per_subdirectory() {
    let (mut disk, cache) = setup();
    let images = group_with_dir(&mut disk, &cache, "artifacts/images");
    let reports = group_with_dir(&mut disk, &cache, "artifacts/reports");

    write(&mut disk, &images, "img1.bin", 5);
    write(&mut disk, &images, "img2.bin", 5);
    write(&mut disk, &images, "img3.bin", 5);

    write(&mut disk, &reports, "a.txt", 1);
    write(&mut disk, &reports, "b.txt", 1);
    write(&mut disk, &reports, "c.txt", 1);

    let images_policy = EvictPolicy { max_bytes: Some(10), ..EvictPolicy::default() };
    let reports_policy = EvictPolicy { max_files: Some(1), ..EvictPolicy::default() };

    disk.ensure(images.ensure_dir_with_policy(Some(&images_policy))).expect("apply images policy");
    disk.ensure(reports.ensure_dir_with_policy(Some(&reports_policy)))
        .expect("apply reports policy");

    let images_total: u64 =
        disk.collect(images.path()).expect("collect images files").iter().map(|f| f.len).sum();
    assert!(images_total <= 10);

    let reports_files = disk.collect(reports.path()).expect("collect reports files");
    assert_eq!(reports_files.len(), 1);
}

#[test]
fn group_path_and_ensure_group_create_expected_directory() {
    let (mut disk, cache) = setup();

    let expected = path("/tmp/work").join(&path("a/b/c"));
    assert_eq!(cache.group_path(&path("/elsewhere"), &path("a/b/c")), expected);

    let ensured = disk.ensure(cache.ensure_group(&path("a/b/c"))).expect("ensure group");
    assert_eq!(ensured, expected);
    assert!(disk.is_dir(&ensured));
}

#[test]
fn ensure_group_with_policy_applies_eviction_rules() {
    let (mut disk, cache) = setup();
    disk.ensure(cache.ensure_group_with_policy(&path("artifacts"), None))
        .expect("ensure group without policy");

    let group = cache.group(&path("artifacts"));
    write(&mut disk, &group, "a.bin", 1);
    write(&mut disk, &group, "b.bin", 1);
    write(&mut disk, &group, "c.bin", 1);

    let policy = EvictPolicy { max_files: Some(1), ..EvictPolicy::default() };
    let ensured = disk
        .ensure(cache.ensure_group_with_policy(&path("artifacts"), Some(&policy)))
        .expect("ensure group with policy");
    assert_eq!(ensured, *group.path());

    let files = disk.collect(group.path()).expect("collect files");
    assert_eq!(files.len(), 1);
}

#[test]
fn cache_path_joins_relative_paths_under_group() {
    let tmp = temp_path();
    let cache = CacheRoot::from_root(from_std(&tmp));

    let got = cache.cache_path(&path(CACHE_DIR_NAME), &path("tool/v1/data.bin"));
    let expected = tmp.join(CACHE_DIR_NAME).join("tool").join("v1").join("data.bin");
    assert_eq!(std_path(&got), expected);
}

#[test]
fn subgroup_touch_creates_parent_directories() {
    let (mut disk, cache) = setup();
    let subgroup = cache.group(&path("artifacts")).subgroup(&path("json/v1"));

    let touched = disk.touch(subgroup.touch(&path("nested/output.bin"))).expect("touch subgroup entry");

    assert!(disk.is_file(&touched));
    assert!(disk.is_dir(&subgroup.path().join(&path("nested"))));
}

#[test]
fn eviction_report_errors_when_group_directory_is_missing() {
    let (mut disk, cache) = setup();
    let missing = cache.group(&path("does-not-exist"));

    let err = disk
        .report(missing.eviction_report(&EvictPolicy::default()))
        .expect_err("eviction report should fail for missing directory");
    assert_eq!(err, ErrorKind::NotFound);
}

#[test]
fn eviction_policy_scans_nested_subdirectories_recursively() {
    let (mut disk, cache) = setup();
    let group = group_with_dir(&mut disk, &cache, "artifacts");

    disk.create_dir_all(&normal(&group.entry_path(&path("nested/deeper"))));
    write(&mut disk, &group, "root.bin", 1);
    write(&mut disk, &group, "nested/a.bin", 1);
    write(&mut disk, &group, "nested/deeper/b.bin", 1);

    let policy = EvictPolicy { max_files: Some(1), ..EvictPolicy::default() };
    disk.ensure(group.ensure_dir_with_policy(Some(&policy))).expect("apply recursive policy");

    let remaining = disk.collect(group.path()).expect("collect remaining");
    assert_eq!(remaining.len(), 1);
}

#[test]
fn collect_files_recursive_ignores_non_file_non_directory_entries() {
    let (mut disk, cache) = setup();
    let group = group_with_dir(&mut disk, &cache, "artifacts");

    disk.others.insert(normal(&group.entry_path(&path("live.sock"))));
    write(&mut disk, &group, "a.bin", 1);

    let files = disk.collect(group.path()).expect("collect files");
    assert_eq!(files.len(), 1);
    assert_eq!(files[0].path, group.entry_path(&path("a.bin")));
}

#[test]
fn max_bytes_policy_under_threshold_does_not_evict() {
    let (mut disk, cache) = setup();
    let group = group_with_dir(&mut disk, &cache, "artifacts");

    write(&mut disk, &group, "a.bin", 2);
    write(&mut disk, &group, "b.bin", 3);

    let policy = EvictPolicy { max_bytes: Some(10), ..EvictPolicy::default() };

    let report = disk.report(group.eviction_report(&policy)).expect("eviction report");
    assert!(report.marked_for_eviction.is_empty());

    disk.ensure(group.ensure_dir_with_policy(Some(&policy))).expect("ensure with policy");

    let files = disk.collect(group.path()).expect("collect files");
    assert_eq!(files.len(), 2);
}

#[test]
fn ensure_dir_equals_ensure_dir_with_policy_none() {
    let (mut disk, cache) = setup();
    let group = cache.group(&path("artifacts/eq"));

    let p1 = disk.ensure(group.ensure_dir()).expect("ensure dir");
    write(&mut disk, &group, "keep.txt", 4);
    let p2 = disk.ensure(group.ensure_dir_with_policy(None)).expect("ensure dir with None policy");

    assert_eq!(p1, p2);
    assert!(disk.is_file(&group.entry_path(&path("keep.txt"))));
}

#[test]
fn ensure_group_equals_ensure_group_with_policy_none() {
    let (mut disk, cache) = setup();

    let p1 = disk.ensure(cache.ensure_group(&path("artifacts/roots"))).expect("ensure group");
    let group = cache.group(&path("artifacts/roots"));
    write(&mut disk, &group, "keep_root.txt", 4);
    let p2 = disk
        .ensure(cache.ensure_group_with_policy(&path("artifacts/roots"), None))
        .expect("ensure group with None policy");

    assert_eq!(p1, p2);
    assert!(disk.is_file(&group.entry_path(&path("keep_root.txt"))));
}

#[test]
fn files_that_cannot_be_removed_are_passed_over() {
    let (mut disk, cache) = setup();
    let group = group_with_dir(&mut disk, &cache, "artifacts");
    write(&mut disk, &group, "a.txt", 1);
    write(&mut disk, &group, "b.txt", 1);
    disk.stuck.insert(normal(&group.entry_path(&path("a.txt"))));
    disk.log.clear();

    let policy = EvictPolicy { max_files: Some(0), ..EvictPolicy::default() };
    let ensured = disk.ensure(group.ensure_dir_with_policy(Some(&policy))).expect("ensure");
    assert_eq!(ensured, *group.path());
    assert_eq!(
        disk.log,
        vec![
            "create /tmp/work/artifacts",
            "remove /tmp/work/artifacts/a.txt",
            "remove /tmp/work/artifacts/b.txt"
        ]
    );
    assert_eq!(
        disk.file_names(group.path()),
        BTreeSet::from(["/tmp/work/artifacts/a.txt".to_string()])
    );
}

#[test]
fn ensure_fails_when_the_directory_cannot_be_created() {
    let (mut disk, cache) = setup();
    disk.write(&path("/tmp/work/g"), 1);
    let policy = EvictPolicy { max_files: Some(0), ..EvictPolicy::default() };
    let outcome = disk.ensure(cache.ensure_group_with_policy(&path("g"), Some(&policy)));
    assert_eq!(outcome.expect_err("blocked"), ErrorKind::AlreadyExists);
    assert_eq!(disk.log, vec!["create /tmp/work/g"]);
}

#[test]
fn unreadable_subdirectory_ends_the_search() {
    let (mut disk, cache) = setup();
    let group = group_with_dir(&mut disk, &cache, "artifacts");
    write(&mut disk, &group, "a.txt", 1);
    disk.create_dir_all("/tmp/work/artifacts/closed");
    disk.unreadable.insert("/tmp/work/artifacts/closed".to_string());
    disk.log.clear();

    let policy = EvictPolicy { max_files: Some(0), ..EvictPolicy::default() };
    let report = disk.report(group.eviction_report(&policy));
    assert_eq!(report.expect_err("closed"), ErrorKind::PermissionDenied);
    disk.open.clear();
    let ensured = disk.ensure(group.ensure_dir_with_policy(Some(&policy)));
    assert_eq!(ensured.expect_err("closed"), ErrorKind::PermissionDenied);
    assert_eq!(disk.log, vec!["create /tmp/work/artifacts"]);
}

#[test]
fn files_are_collected_depth_first_in_the_order_of_reading() {
    let file = |name: &str, secs: Option<i64>| DirEntry::File {
        path: path(name),
        modified: secs.map(|s| Timestamp::new(s, 0).expect("timestamp")),
        len: 7,
    };
    let answers: Vec<Answer<ErrorKind>> = vec![
        Answer::Done,
        Answer::Entry(file("r/z", Some(3))),
        Answer::Entry(DirEntry::Dir(path("r/d"))),
        Answer::Done,
        Answer::Entry(file("r/d/y", None)),
        Answer::End,
        Answer::Entry(DirEntry::Other),
        Answer::Entry(file("r/a", Some(1))),
        Answer::End,
    ];
    let mut scan: FileScan<ErrorKind> = collect_files(&path("r"));
    let mut asked = Vec::new();
    for answer in answers {
        asked.push(match scan.request().expect("request") {
            Request::OpenDir(p) => format!("open {}", text(&p)),
            Request::NextEntry(p) => format!("next {}", text(&p)),
            other => panic!("unexpected request {other:?}"),
        });
        scan = scan.step(answer);
    }
    assert!(scan.request().is_none());
    let found = match scan.progress() {
        Progress::Finished(outcome) => outcome.expect("files"),
        Progress::Waiting(_) => panic!("still waiting"),
    };
    let names: Vec<String> = found.iter().map(|f| text(&f.path)).collect();
    assert_eq!(names, vec!["r/z", "r/d/y", "r/a"]);
    assert_eq!(found[1].modified, Timestamp::unix_epoch());
    assert_eq!(
        asked,
        vec!["open r", "next r", "next r", "open r/d", "next r/d", "next r/d", "next r", "next r", "next r"]
    );
}

#[test]
fn failure_while_reading_ends_the_search() {
    let mut scan: FileScan<ErrorKind> = collect_files(&path("r"));
    scan = scan.step(Answer::Done);
    scan = scan.step(Answer::Failed(ErrorKind::Interrupted));
    match scan.progress() {
        Progress::Finished(outcome) => {
            assert_eq!(outcome.expect_err("failure"), ErrorKind::Interrupted)
        }
        Progress::Waiting(_) => panic!("still waiting"),
    }
}

#[test]
fn answers_that_do_not_fit_are_ignored() {
    let group = CacheRoot::from_root(path("/r")).group(&path("g"));
    let task: EnsureTask<ErrorKind> = group.ensure_dir();
    let task = task.step(Answer::Now(Timestamp::unix_epoch())).step(Answer::End);
    match task.request() {
        Some(Request::CreateDirAll(p)) => assert_eq!(text(&p), "/r/g"),
        other => panic!("unexpected request {other:?}"),
    }
    match task.step(Answer::Done).progress() {
        Progress::Finished(outcome) => assert_eq!(text(&outcome.expect("path")), "/r/g"),
        Progress::Waiting(_) => panic!("still waiting"),
    }
}

#[test]
fn clock_is_read_only_for_an_age_limit() {
    let reads_clock = |policy: EvictPolicy| {
        let group = CacheRoot::from_root(path("/r")).group(&path("g"));
        let task: ReportTask<ErrorKind> = group.eviction_report(&policy);
        matches!(task.step(Answer::Done).step(Answer::End).request(), Some(Request::ReadClock))
    };
    assert!(!reads_clock(EvictPolicy { max_files: Some(1), ..EvictPolicy::default() }));
    assert!(reads_clock(EvictPolicy { max_age: Some(Duration::zero()), ..EvictPolicy::default() }));
}

#[test]
fn roots_and_groups_compare_by_path() {
    let root = |p: &str| CacheRoot::from_root(path(p));
    assert_eq!(root("/a/b/"), root("/a//b"));
    assert_ne!(root("/a/b"), root("/a/c"));
    assert_eq!(root("/a").group(&path("b/c")), root("/a").group(&path("b")).subgroup(&path("c")));
    assert_ne!(root("/a").group(&path("b")), root("/a").group(&path("c")));
    assert_eq!(root("/a").clone(), root("/a"));
    assert_eq!(CacheGroup::at(path("/a/b")).clone(), root("/a").group(&path("b")));
}

#[test]
fn process_scoped_cache_respects_root_and_group_assignments() {
    let mut disk = Disk::new();
    let root = CacheRoot::from_root(path("/tmp/work/custom-root"));

    let scoped = disk
        .scope(ProcessScopedCacheGroup::new(&root, &path("artifacts/session"), 4242))
        .expect("create");
    let group = root.group(&path("artifacts/session"));
    let expected_prefix = std_path(group.path());

    assert!(std_path(scoped.path()).starts_with(&expected_prefix));
    assert!(disk.is_dir(scoped.path()));
    let name = std_path(scoped.path());
    let name = name.file_name().and_then(|n| n.to_str()).expect("name");
    assert!(name.starts_with("pid-4242-"));
}

#[test]
fn process_scoped_cache_thread_group_is_stable_per_thread() {
    let (mut disk, root) = setup();
    let scoped =
        disk.scope(ProcessScopedCacheGroup::new(&root, &path("artifacts"), 1)).expect("create");
    let mut ids = ThreadGroupIds::new();
    let mut slot = None;

    let first = scoped.thread_group(current_thread_cache_group_id(&mut slot, &mut ids));
    let second = scoped.thread_group(current_thread_cache_group_id(&mut slot, &mut ids));

    assert_eq!(first.path(), second.path());
}

#[test]
fn process_scoped_cache_thread_group_differs_across_threads() {
    let (mut disk, root) = setup();
    let scoped =
        disk.scope(ProcessScopedCacheGroup::new(&root, &path("artifacts"), 1)).expect("create");
    let mut ids = ThreadGroupIds::new();
    let (mut main_slot, mut other_slot) = (None, None);

    let main_thread_group = scoped.thread_group(current_thread_cache_group_id(&mut main_slot, &mut ids));
    let other_thread_group = current_thread_cache_group_id(&mut other_slot, &mut ids);
    let expected_other =
        scoped.process_group().subgroup(&path(&format!("thread-{other_thread_group}")));

    assert_ne!(main_thread_group.path(), expected_other.path());
    assert_eq!(scoped.thread_group(other_thread_group).path(), expected_other.path());
}

#[test]
fn process_scoped_cache_from_group_uses_given_base_group() {
    let (mut disk, root) = setup();
    let base_group = root.group(&path("artifacts/custom-base"));

    let scoped =
        disk.scope(ProcessScopedCacheGroup::from_group(base_group.clone(), 1)).expect("create");

    assert!(std_path(scoped.path()).starts_with(std_path(base_group.path())));
    assert_eq!(scoped.process_group().path(), scoped.path());
}

#[test]
fn process_scoped_cache_thread_entry_path_matches_touch_location() {
    let (mut disk, root) = setup();
    let scoped =
        disk.scope(ProcessScopedCacheGroup::new(&root, &path("artifacts"), 1)).expect("create");

    let planned = scoped.thread_entry_path(3, &path("nested/data.bin"));
    let touched =
        disk.touch(scoped.touch_thread_entry(3, &path("nested/data.bin"))).expect("touch thread entry");

    assert_eq!(planned, touched);
    assert!(disk.is_file(&touched));
}

#[test]
fn touch_thread_entry_creates_entry_under_thread_group() {
    let (mut disk, root) = setup();
    let scoped =
        disk.scope(ProcessScopedCacheGroup::new(&root, &path("artifacts"), 1)).expect("create");
    disk.log.clear();

    let entry =
        disk.touch(scoped.touch_thread_entry(3, &path("nested/data.bin"))).expect("touch thread entry");

    assert!(disk.is_file(&entry));
    assert!(std_path(&entry).starts_with(std_path(scoped.path())));
    let thread_group = scoped.thread_group(3);
    assert!(std_path(&entry).starts_with(std_path(thread_group.path())));
    let group = text(thread_group.path());
    assert_eq!(
        disk.log,
        vec![
            format!("create {group}"),
            format!("create {group}/nested"),
            format!("open {group}/nested/data.bin"),
            format!("update {group}/nested/data.bin")
        ]
    );
}

#[test]
fn touched_thread_entry_has_the_planned_path() {
    let scope = |dir: &str| {
        let base = CacheGroup::at(path("base"));
        let task: ScopeTask<ErrorKind> = ProcessScopedCacheGroup::from_group(base, 7);
        match task.step(Answer::Done).step(Answer::Path(path(dir))).progress() {
            Progress::Finished(outcome) => outcome.expect("scope"),
            Progress::Waiting(_) => panic!("still waiting"),
        }
    };
    for dir in ["/base/pid-7-x", "base/pid-7-x"] {
        let scoped = scope(dir);
        let task: TouchTask<ErrorKind> = scoped.touch_thread_entry(2, &path("v1/a.bin"));
        let now = Answer::Now(Timestamp::unix_epoch());
        let task = task.step(Answer::Done).step(Answer::Done).step(Answer::Done).step(now);
        match task.step(Answer::Done).progress() {
            Progress::Finished(outcome) => {
                let entry = outcome.expect("touch");
                assert_eq!(text(&entry), format!("{dir}/thread-2/v1/a.bin"));
                assert_eq!(entry, scoped.thread_entry_path(2, &path("v1/a.bin")));
            }
            Progress::Waiting(_) => panic!("still waiting"),
        }
    }
}

#[test]
fn ensure_thread_group_creates_its_directory() {
    let (mut disk, root) = setup();
    let scoped =
        disk.scope(ProcessScopedCacheGroup::new(&root, &path("artifacts"), 1)).expect("create");
    let dir = disk.ensure(scoped.ensure_thread_group(9)).expect("ensure thread group");
    assert_eq!(dir, *scoped.thread_group(9).path());
    assert!(disk.is_dir(&dir));
}

#[test]
fn process_scope_fails_when_its_directory_cannot_be_made() {
    let root = CacheRoot::from_root(path("/r"));
    let start = || -> ScopeTask<ErrorKind> { ProcessScopedCacheGroup::new(&root, &path("g"), 7) };
    let failures = [
        start().step(Answer::Failed(ErrorKind::PermissionDenied)),
        start().step(Answer::Done).step(Answer::Failed(ErrorKind::PermissionDenied)),
    ];
    for task in failures {
        match task.progress() {
            Progress::Finished(outcome) => {
                assert_eq!(outcome.expect_err("failure"), ErrorKind::PermissionDenied)
            }
            Progress::Waiting(_) => panic!("still waiting"),
        }
    }
    match start().step(Answer::Done).request() {
        Some(Request::CreateTempDir { parent, prefix }) => {
            assert_eq!(text(&parent), "/r/g");
            assert_eq!(prefix, b"pid-7-".to_vec());
        }
        other => panic!("unexpected request {other:?}"),
    }
}

#[test]
fn eviction_from_one_group_leaves_the_others_alone() {
    let (mut disk, cache) = setup();
    let images = group_with_dir(&mut disk, &cache, "images");
    let reports = group_with_dir(&mut disk, &cache, "reports");
    write(&mut disk, &images, "a.bin", 5);
    write(&mut disk, &reports, "b.txt", 5);

    let policy = EvictPolicy { max_age: Some(Duration::zero()), ..EvictPolicy::default() };
    disk.ensure(images.ensure_dir_with_policy(Some(&policy))).expect("ensure");
    assert!(disk.file_names(images.path()).is_empty());
    assert_eq!(
        disk.file_names(reports.path()),
        BTreeSet::from(["/tmp/work/reports/b.txt".to_string()])
    );
}

#[test]
fn touch_updates_an_existing_entry_and_keeps_its_contents() {
    let (mut disk, cache) = setup();
    let group = group_with_dir(&mut disk, &cache, "artifacts");
    write(&mut disk, &group, "a.bin", 5);
    write(&mut disk, &group, "b.bin", 6);
    disk.sleep(1000);
    let now = disk.millis;

    let touched = disk.touch(group.touch(&path("a.bin"))).expect("touch");
    assert_eq!(disk.files[&normal(&touched)], (now, 5));

    let policy = EvictPolicy { max_files: Some(1), ..EvictPolicy::default() };
    let report = disk.report(group.eviction_report(&policy)).expect("report");
    let marked: Vec<String> = report.marked_for_eviction.iter().map(text).collect();
    assert_eq!(marked, vec!["/tmp/work/artifacts/b.bin"]);
}

#[test]
fn touch_fails_when_the_time_cannot_be_set() {
    let (mut disk, cache) = setup();
    let group = group_with_dir(&mut disk, &cache, "artifacts");
    write(&mut disk, &group, "a.bin", 5);
    disk.stuck.insert(normal(&group.entry_path(&path("a.bin"))));
    let outcome = disk.touch(group.touch(&path("a.bin")));
    assert_eq!(outcome.expect_err("stuck"), ErrorKind::PermissionDenied);
}

#[test]
fn group_path_of_a_relative_root_is_absolute() {
    let root = CacheRoot::from_root(path("cache"));
    let cwd = path("/tmp/work");
    assert_eq!(text(&root.group_path(&cwd, &path("a/b"))), "/tmp/work/cache/a/b");
    assert_eq!(text(&root.group_path(&cwd, &path("/x"))), "/x");
    assert_eq!(text(root.group(&path("a/b")).path()), "cache/a/b");
}

/// A disk with two files under `cache/g` in the current directory, and that group.
fn relative_group() -> (Disk, CacheGroup) {
    let (mut disk, _) = setup();
    disk.cwd = Some("/tmp/work".to_string());
    disk.create_dir_all("/tmp/work/cache/g/sub");
    disk.write(&path("/tmp/work/cache/g/a.bin"), 1);
    disk.write(&path("/tmp/work/cache/g/sub/b.bin"), 1);
    (disk, CacheRoot::from_root(path("cache")).group(&path("g")))
}

#[test]
fn reports_of_a_relative_group_hold_absolute_paths() {
    let (mut disk, group) = relative_group();
    let policy = EvictPolicy { max_files: Some(0), ..EvictPolicy::default() };
    let report = disk.report(group.eviction_report(&policy)).expect("report");
    let marked: Vec<String> = report.marked_for_eviction.iter().map(text).collect();
    assert_eq!(marked, vec!["/tmp/work/cache/g/a.bin", "/tmp/work/cache/g/sub/b.bin"]);
    assert!(report.marked_for_eviction.iter().all(PosixPath::is_absolute));
}

#[test]
fn eviction_from_a_relative_group_does_not_ask_for_the_current_dir() {
    let (mut disk, group) = relative_group();
    let policy = EvictPolicy { max_files: Some(0), ..EvictPolicy::default() };
    let mut task: EnsureTask<ErrorKind> = group.ensure_dir_with_policy(Some(&policy));
    let ensured = loop {
        match task.progress() {
            Progress::Finished(outcome) => break outcome.expect("ensure"),
            Progress::Waiting(t) => {
                let request = t.request().expect("request");
                assert!(!matches!(request, Request::CurrentDir));
                task = t.step(disk.answer(request));
            }
        }
    };
    assert_eq!(text(&ensured), "cache/g");
    assert_eq!(
        disk.log,
        vec!["create cache/g", "remove cache/g/a.bin", "remove cache/g/sub/b.bin"]
    );
    assert!(disk.files.is_empty());
}

#[test]
fn report_asks_for_the_current_dir_only_where_a_path_needs_it() {
    let run = |name: &str, answer: Answer<ErrorKind>| {
        let policy = EvictPolicy { max_files: Some(0), ..EvictPolicy::default() };
        let task: ReportTask<ErrorKind> = CacheGroup::at(path(name)).eviction_report(&policy);
        let found = path(name).join(&path("a"));
        let entry = DirEntry::File { path: found, modified: None, len: 1 };
        let task = task.step(Answer::Done).step(Answer::Entry(entry)).step(Answer::End);
        if let Some(request) = task.request() {
            assert!(matches!(request, Request::CurrentDir));
        }
        match task.step(answer).progress() {
            Progress::Finished(outcome) => {
                outcome.map(|r| r.marked_for_eviction.iter().map(text).collect::<Vec<String>>())
            }
            Progress::Waiting(_) => panic!("still waiting"),
        }
    };
    assert_eq!(run("/g", Answer::Failed(ErrorKind::NotFound)), Ok(vec!["/g/a".to_string()]));
    assert_eq!(run("g", Answer::Path(path("/w"))), Ok(vec!["/w/g/a".to_string()]));
    assert_eq!(run("./g", Answer::Path(path("/w"))), Ok(vec!["/w/./g/a".to_string()]));
    assert_eq!(run("g", Answer::Failed(ErrorKind::NotFound)), Err(ErrorKind::NotFound));
}

#[test]
fn touch_in_a_relative_group_gives_an_absolute_path() {
    let (mut disk, _) = setup();
    disk.cwd = Some("/tmp/work".to_string());
    let group = CacheRoot::from_root(path("cache")).group(&path("g"));
    let entry = disk.touch(group.touch(&path("v1/a.bin"))).expect("touch");
    assert_eq!(text(&entry), "/tmp/work/cache/g/v1/a.bin");
    assert_eq!(
        disk.log,
        vec![
            "create /tmp/work/cache/g/v1",
            "open /tmp/work/cache/g/v1/a.bin",
            "update /tmp/work/cache/g/v1/a.bin"
        ]
    );
}

#[test]
fn relative_groups_need_the_current_dir() {
    let mut disk = Disk::new();
    let group = CacheRoot::from_root(path("cache")).group(&path("g"));
    let report = disk.report(group.eviction_report(&EvictPolicy::default()));
    assert_eq!(report.expect_err("no current directory"), ErrorKind::NotFound);
    let touched = disk.touch(group.touch(&path("a.bin")));
    assert_eq!(touched.expect_err("no current directory"), ErrorKind::NotFound);
    assert!(disk.log.is_empty());
}

#[test]
fn the_empty_path_is_not_taken_for_the_current_dir() {
    let group = CacheRoot::from_root(path("")).group(&path(""));
    let report: ReportTask<ErrorKind> = group.eviction_report(&EvictPolicy::default());
    assert!(matches!(report.request(), Some(Request::OpenDir(p)) if p.as_bytes().is_empty()));
    let touch: TouchTask<ErrorKind> = group.touch(&path(""));
    assert!(matches!(touch.request(), Some(Request::OpenAppend(p)) if p.as_bytes().is_empty()));
}
