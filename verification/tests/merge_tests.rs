use dirdiff::classify::{
    assemble_level, resolve_files, split_plan, Classification, CompareOutcome,
};
use dirdiff::content::{stream_step, StepVerdict, ThreadLocalBuffers};
use dirdiff::entry::{name_cmp, sort_entries, Entry, NameOrder};
use dirdiff::exclude::{filter_excluded, ExcludeSet};
use dirdiff::merge::{merge_entries, MergeItem};

fn entry(name: &str, path: &str, is_dir: bool, len: u64) -> Entry {
    Entry { name: name.as_bytes().to_vec(), path: path.to_string(), is_dir, len }
}

fn show(c: &Classification) -> String {
    match c {
        Classification::Added(p) => format!("A:{}", p),
        Classification::Deleted(p) => format!("D:{}", p),
        Classification::Modified(p) => format!("M:{}", p),
        Classification::Unchanged(p) => format!("-:{}", p),
        Classification::TypeMismatch(a, b) => format!("T:{}|{}", a, b),
        Classification::ComparisonError(a, b, m) => format!("E:{}|{}|{}", a, b, m),
    }
}

fn show_all(cs: &[Classification]) -> Vec<String> {
    cs.iter().map(show).collect()
}

#[test]
fn name_cmp_orders_bytewise() {
    let a = b"abc".to_vec();
    let b = b"abd".to_vec();
    assert!(matches!(name_cmp(&a, &b), NameOrder::Before));
    assert!(matches!(name_cmp(&b, &a), NameOrder::After));
    assert!(matches!(name_cmp(&a, &a), NameOrder::Same));
    let prefix = b"ab".to_vec();
    assert!(matches!(name_cmp(&prefix, &a), NameOrder::Before));
    let empty: Vec<u8> = Vec::new();
    assert!(matches!(name_cmp(&empty, &prefix), NameOrder::Before));
    assert!(matches!(name_cmp(&empty, &empty), NameOrder::Same));
}

#[test]
fn sort_entries_orders_by_name() {
    let listing = vec![
        entry("zeta", "d/zeta", false, 1),
        entry("alpha", "d/alpha", true, 0),
        entry("mid", "d/mid", false, 7),
    ];
    let sorted = sort_entries(listing);
    let names: Vec<&str> = sorted
        .iter()
        .map(|e| std::str::from_utf8(&e.name).unwrap())
        .collect();
    assert_eq!(names, vec!["alpha", "mid", "zeta"]);
}

#[test]
fn merge_classifies_each_name() {
    let l = vec![
        entry("both.txt", "a/both.txt", false, 3),
        entry("gone.txt", "a/gone.txt", false, 1),
        entry("sub", "a/sub", true, 0),
    ];
    let r = vec![
        entry("both.txt", "b/both.txt", false, 3),
        entry("new.txt", "b/new.txt", false, 2),
        entry("sub", "b/sub", true, 0),
    ];
    let items = merge_entries(l, r);
    assert_eq!(items.len(), 4);
    assert!(matches!(&items[0], MergeItem::ContentJob(a, b)
        if a.path == "a/both.txt" && b.path == "b/both.txt"));
    assert!(matches!(&items[1], MergeItem::LeftOnly(a) if a.path == "a/gone.txt"));
    assert!(matches!(&items[2], MergeItem::RightOnly(b) if b.path == "b/new.txt"));
    assert!(matches!(&items[3], MergeItem::DirPair(a, b)
        if a.path == "a/sub" && b.path == "b/sub"));
}

#[test]
fn merge_pairs_empty_files_as_unchanged() {
    let l = vec![entry("empty.txt", "a/empty.txt", false, 0)];
    let r = vec![entry("empty.txt", "b/empty.txt", false, 0)];
    let items = merge_entries(l, r);
    assert_eq!(items.len(), 1);
    assert!(matches!(&items[0], MergeItem::EmptyPair(_, _)));
    let plan_quiet = split_plan(merge_entries(
        vec![entry("empty.txt", "a/empty.txt", false, 0)],
        vec![entry("empty.txt", "b/empty.txt", false, 0)],
    ), false);
    assert!(plan_quiet.classes.is_empty());
    assert!(plan_quiet.files.is_empty());
    let plan_all = split_plan(items, true);
    assert_eq!(show_all(&plan_all.classes), vec!["-:b/empty.txt"]);
}

#[test]
fn stream_step_matches_chunks() {
    let mut bufs = ThreadLocalBuffers::new();
    assert_eq!(bufs.buffer1.len(), 131072);
    assert_eq!(bufs.buffer2.len(), 131072);
    bufs.buffer1[0] = b'x';
    bufs.buffer2[0] = b'x';
    assert_eq!(stream_step(&bufs, 1, 1), StepVerdict::Advance);
    assert_eq!(stream_step(&bufs, 0, 0), StepVerdict::Done);
    bufs.buffer2[0] = b'y';
    assert_eq!(stream_step(&bufs, 1, 1), StepVerdict::Mismatch);
    assert_eq!(stream_step(&bufs, 1, 0), StepVerdict::Mismatch);
    assert_eq!(stream_step(&bufs, 0, 1), StepVerdict::Mismatch);
}

#[test]
fn resolve_files_keeps_job_order_and_tags_errors() {
    let jobs = vec![
        dirdiff::classify::FileJob {
            left_path: "a/f1".to_string(),
            right_path: "b/f1".to_string(),
            len: 4,
        },
        dirdiff::classify::FileJob {
            left_path: "a/f2".to_string(),
            right_path: "b/f2".to_string(),
            len: 4,
        },
        dirdiff::classify::FileJob {
            left_path: "a/f3".to_string(),
            right_path: "b/f3".to_string(),
            len: 4,
        },
    ];
    let outcomes = vec![
        CompareOutcome::Equal,
        CompareOutcome::Differ,
        CompareOutcome::Failed("permission denied".to_string()),
    ];
    let out = resolve_files(jobs, outcomes, false);
    assert_eq!(
        show_all(&out),
        vec!["M:b/f2", "E:a/f3|b/f3|permission denied"]
    );
}

#[test]
fn assemble_level_splices_groups_in_order() {
    let immediate = vec![Classification::Deleted("a/gone".to_string())];
    let file_results = vec![Classification::Modified("b/f".to_string())];
    let dir_results = vec![
        vec![Classification::Added("b/sub/new".to_string())],
        vec![Classification::Modified("b/sub2/f".to_string())],
    ];
    let out = assemble_level(immediate, file_results, dir_results);
    assert_eq!(
        show_all(&out),
        vec!["D:a/gone", "M:b/f", "A:b/sub/new", "M:b/sub2/f"]
    );
}

#[test]
fn exclude_set_membership() {
    let mut ex = ExcludeSet::new();
    assert!(!ex.contains_name(&b".git".to_vec()));
    ex.add(b".git".to_vec());
    ex.add(b"target".to_vec());
    assert!(ex.contains_name(&b".git".to_vec()));
    assert!(ex.contains_name(&b"target".to_vec()));
    assert!(!ex.contains_name(&b"src".to_vec()));
}

#[test]
fn filter_excluded_drops_only_named_entries() {
    let mut ex = ExcludeSet::new();
    ex.add(b".git".to_vec());
    let listing = vec![
        entry(".git", "a/.git", true, 0),
        entry("src", "a/src", true, 0),
        entry("readme", "a/readme", false, 5),
    ];
    let kept = filter_excluded(listing, &ex);
    let names: Vec<&str> = kept
        .iter()
        .map(|e| std::str::from_utf8(&e.name).unwrap())
        .collect();
    assert_eq!(names, vec!["src", "readme"]);
}
