//! Selecting files for eviction.
use cache_manager::entries::{sort_entries_oldest_first, FileEntry};
use cache_manager::evict::build_eviction_report;
use cache_manager::path::Comparison;
use cache_manager::{Duration, EvictPolicy, EvictionReport, PosixPath, Timestamp};

fn at(secs: i64) -> Timestamp {
    Timestamp::new(secs, 0).expect("timestamp")
}

fn file(path: &str, secs: i64, len: u64) -> FileEntry {
    FileEntry { path: PosixPath::from_text(path), modified: at(secs), len }
}

fn text(path: &PosixPath) -> String {
    String::from_utf8(path.as_bytes().to_vec()).expect("utf-8 path")
}

fn names(report: &EvictionReport) -> Vec<String> {
    report.marked_for_eviction.iter().map(text).collect()
}

fn sorted(mut entries: Vec<FileEntry>) -> Vec<(String, u64)> {
    sort_entries_oldest_first(&mut entries);
    entries.iter().map(|e| (text(&e.path), e.len)).collect()
}

#[test]
fn sort_entries_uses_path_as_tie_break_for_equal_modified_time() {
    let same_time = Timestamp::new(1_234_567, 0).expect("timestamp");
    let mut entries = vec![
        FileEntry { path: PosixPath::from_text("z.bin"), modified: same_time, len: 1 },
        FileEntry { path: PosixPath::from_text("a.bin"), modified: same_time, len: 1 },
        FileEntry { path: PosixPath::from_text("m.bin"), modified: same_time, len: 1 },
    ];

    sort_entries_oldest_first(&mut entries);

    let ordered_paths: Vec<PosixPath> = entries.into_iter().map(|entry| entry.path).collect();
    assert_eq!(
        ordered_paths,
        vec![
            PosixPath::from_text("a.bin"),
            PosixPath::from_text("m.bin"),
            PosixPath::from_text("z.bin")
        ]
    );
}

#[test]
fn sorting_puts_older_files_first() {
    let got = sorted(vec![file("c", 30, 1), file("a", 20, 2), file("b", 10, 3), file("d", 20, 4)]);
    let expected = [("b", 3), ("a", 2), ("d", 4), ("c", 1)];
    assert_eq!(got, expected.map(|(p, l)| (p.to_string(), l)).to_vec());
}

#[test]
fn sorting_tells_times_before_the_epoch_apart() {
    let got = sorted(vec![file("a", -1, 1), file("b", -2, 1)]);
    assert_eq!(got, vec![("b".to_string(), 1), ("a".to_string(), 1)]);
    let got = sorted(vec![file("b", -5, 1), file("a", 0, 2), file("c", -100, 3)]);
    let expected = [("c", 3), ("b", 1), ("a", 2)];
    assert_eq!(got, expected.map(|(p, l)| (p.to_string(), l)).to_vec());
}

#[test]
fn sorting_keeps_the_order_of_ties() {
    let got = sorted(vec![file("x/y", 1, 1), file("x//y", 1, 2), file("w", 9, 0), file("x/./y", 1, 3)]);
    let expected = [("x/y", 1), ("x//y", 2), ("x/./y", 3), ("w", 0)];
    assert_eq!(got, expected.map(|(p, l)| (p.to_string(), l)).to_vec());
}

#[test]
fn sorting_many_entries_agrees_with_a_stable_sort() {
    let mut entries: Vec<FileEntry> = Vec::new();
    let mut seed: u64 = 12345;
    for i in 0..500 {
        seed = seed.wrapping_mul(6364136223846793005).wrapping_add(1442695040888963407);
        let secs = ((seed >> 33) % 20) as i64 - 3;
        entries.push(file(&format!("d{}/f{}", seed % 5, seed % 7), secs, i));
    }
    let mut expected: Vec<(i64, std::path::PathBuf, u64)> = Vec::new();
    for e in &entries {
        let secs = (-3..20).find(|s| at(*s) == e.modified).expect("second");
        expected.push((secs, std::path::PathBuf::from(text(&e.path)), e.len));
    }
    expected.sort_by(|a, b| a.0.cmp(&b.0).then_with(|| a.1.cmp(&b.1)));
    let got: Vec<u64> = sorted(entries).into_iter().map(|(_, l)| l).collect();
    let want: Vec<u64> = expected.into_iter().map(|(_, _, l)| l).collect();
    assert_eq!(got, want);
}

#[test]
fn limits_apply_in_order() {
    let entries = vec![file("c", 50, 6), file("old2", 2, 1), file("b", 40, 7), file("old1", 1, 1), file("d", 60, 1)];
    let policy = EvictPolicy {
        max_age: Some(Duration::from_secs(90)),
        max_files: Some(2),
        max_bytes: Some(5),
    };
    let report = build_eviction_report(entries, at(100), &policy);
    assert_eq!(names(&report), vec!["old2", "old1", "b", "c"]);
}

#[test]
fn age_limit_is_reached_at_equality() {
    let policy = EvictPolicy { max_age: Some(Duration::from_secs(10)), ..EvictPolicy::default() };
    let entries = vec![file("young", 91, 1), file("just", 90, 1), file("future", 200, 1)];
    let report = build_eviction_report(entries, at(100), &policy);
    assert_eq!(names(&report), vec!["just"]);
}

#[test]
fn zero_age_limit_evicts_files_of_the_future_too() {
    let policy = EvictPolicy { max_age: Some(Duration::zero()), ..EvictPolicy::default() };
    let report = build_eviction_report(vec![file("b", 200, 1), file("a", 1, 1)], at(100), &policy);
    assert_eq!(names(&report), vec!["b", "a"]);
}

#[test]
fn byte_limit_stops_as_soon_as_the_rest_fits() {
    let policy = EvictPolicy { max_bytes: Some(10), ..EvictPolicy::default() };
    let entries = vec![file("a", 1, 5), file("b", 2, 1), file("c", 3, 5), file("d", 4, 5)];
    let report = build_eviction_report(entries, at(100), &policy);
    assert_eq!(names(&report), vec!["a", "b"]);
}

#[test]
fn byte_limit_of_zero_keeps_empty_files_behind_the_last_full_one() {
    let policy = EvictPolicy { max_bytes: Some(0), ..EvictPolicy::default() };
    let entries = vec![file("a", 1, 0), file("b", 2, 3), file("c", 3, 0)];
    let report = build_eviction_report(entries, at(100), &policy);
    assert_eq!(names(&report), vec!["a", "b"]);
}

#[test]
fn sizes_may_add_up_to_more_than_64_bits() {
    let policy = EvictPolicy { max_bytes: Some(u64::MAX), ..EvictPolicy::default() };
    let entries = vec![file("a", 1, u64::MAX), file("b", 2, u64::MAX), file("c", 3, 0)];
    let report = build_eviction_report(entries, at(100), &policy);
    assert_eq!(names(&report), vec!["a"]);
}

#[test]
fn file_limit_of_zero_evicts_everything() {
    let policy = EvictPolicy { max_files: Some(0), ..EvictPolicy::default() };
    let report = build_eviction_report(vec![file("b", 2, 1), file("a", 1, 1)], at(100), &policy);
    assert_eq!(names(&report), vec!["a", "b"]);
}

#[test]
fn selecting_again_evicts_nothing() {
    let policy = EvictPolicy {
        max_age: Some(Duration::from_secs(50)),
        max_files: Some(3),
        max_bytes: Some(9),
    };
    let all = [("a", 10, 1), ("b", 60, 4), ("c", 70, 4), ("d", 80, 4), ("e", 90, 4)];
    let report = build_eviction_report(all.map(|(p, t, l)| file(p, t, l)).to_vec(), at(100), &policy);
    let gone = names(&report);
    assert_eq!(gone, vec!["a", "b", "c"]);
    let rest: Vec<FileEntry> =
        all.iter().filter(|e| !gone.contains(&e.0.to_string())).map(|e| file(e.0, e.1, e.2)).collect();
    assert_eq!(build_eviction_report(rest, at(100), &policy), EvictionReport::default());
}

#[test]
fn scan_order_does_not_matter_for_count_and_size() {
    let policy = EvictPolicy { max_files: Some(2), max_bytes: Some(3), ..EvictPolicy::default() };
    let one = vec![file("a", 1, 1), file("b", 1, 2), file("c", 3, 3), file("d", 4, 1)];
    let two = vec![file("d", 4, 1), file("b", 1, 2), file("c", 3, 3), file("a", 1, 1)];
    let first = build_eviction_report(one, at(100), &policy);
    let second = build_eviction_report(two, at(100), &policy);
    assert_eq!(names(&first), vec!["a", "b", "c"]);
    assert_eq!(first, second);
}

#[test]
fn without_age_limit_the_time_does_not_matter() {
    let policy = EvictPolicy { max_files: Some(1), ..EvictPolicy::default() };
    let entries = || vec![file("a", 1, 1), file("b", 2, 2)];
    let early = build_eviction_report(entries(), at(-100), &policy);
    let late = build_eviction_report(entries(), at(100), &policy);
    assert_eq!(names(&early), vec!["a"]);
    assert_eq!(early, late);
}

#[test]
fn reports_compare_by_path() {
    let report = |p: &str| EvictionReport { marked_for_eviction: vec![PosixPath::from_text(p)] };
    assert_eq!(report("a/b"), report("a//b"));
    assert_ne!(report("a/b"), report("a/c"));
    assert_ne!(report("a/b"), EvictionReport::default());
    assert_eq!(report("a/b").clone(), report("a/b"));
}

#[test]
fn default_policy_has_no_limits() {
    let policy = EvictPolicy::default();
    assert_eq!(policy, EvictPolicy { max_files: None, max_bytes: None, max_age: None });
    assert_eq!(policy.clone(), policy);
}

#[test]
fn entries_compare_by_time_then_path() {
    assert_eq!(file("b", 1, 0).compare(&file("a", 2, 0)), Comparison::Before);
    assert_eq!(file("b", 2, 0).compare(&file("a", 2, 0)), Comparison::After);
    assert_eq!(file("a", -1, 0).compare(&file("a", 0, 9)), Comparison::Before);
    assert_eq!(file("a", -1, 0).compare(&file("a", -2, 0)), Comparison::After);
    assert_eq!(file("a", -1, 0).compare(&file("a", -1, 9)), Comparison::Same);
    assert_eq!(text(&file("a", 1, 2).clone().path), "a");
}

#[test]
fn spans_of_time_are_exact() {
    let early = Timestamp::new(-2, 750_000_000).expect("timestamp");
    let late = Timestamp::new(1, 250_000_000).expect("timestamp");
    assert_eq!(late.duration_since(&early), Duration::new(2, 500_000_000).expect("duration"));
    assert_eq!(early.duration_since(&late), Duration::zero());
    assert_eq!(Duration::from_millis(2500), Duration::new(2, 500_000_000).expect("duration"));
    assert!(Duration::from_secs(1).at_least(&Duration::from_millis(1000)));
    assert!(!Duration::from_millis(999).at_least(&Duration::from_secs(1)));
    assert!(Duration::new(0, 1_000_000_000).is_none());
    assert!(Timestamp::new(0, 1_000_000_000).is_none());
    let first = Timestamp::new(i64::MIN, 0).expect("timestamp");
    let last = Timestamp::new(i64::MAX, 999_999_999).expect("timestamp");
    assert_eq!(last.duration_since(&first), Duration::new(u64::MAX, 999_999_999).expect("duration"));
    assert_eq!(Timestamp::unix_epoch(), at(0));
    assert_eq!((early.secs(), early.subsec_nanos()), (-2, 750_000_000));
    assert_eq!((late.secs(), late.subsec_nanos()), (1, 250_000_000));
    assert!(early.is_before(&late) && !late.is_before(&early) && !early.is_before(&early));
}
