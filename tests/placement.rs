use dataset_split::cleanup::{cleanup_targets, is_split_dir};
use dataset_split::entry::FileEntry;
use dataset_split::enumerate::{collect_classes, collect_files, DirChild, ViolationKind};
use dataset_split::layout::{category_dir, destination, output_dirs, plan_transfers, Category};
use dataset_split::naming::{join_path, numbered, push_decimal};
use dataset_split::registry::SeenRegistry;
use dataset_split::run::{plan_run, resolve_root};
use dataset_split::split::{Partition, SplitError};
use std::collections::BTreeMap;

fn entry(path: &str, name: &str, class: Option<&str>) -> FileEntry {
    FileEntry {
        path: path.to_string(),
        name: name.to_string(),
        class: class.map(|c| c.to_string()),
    }
}

fn child(name: &str, is_file: bool) -> DirChild {
    DirChild { name: name.to_string(), is_file }
}

#[test]
fn numbered_inserts_before_extension() {
    assert_eq!(numbered("photo.jpg", 1), "photo-1.jpg");
    assert_eq!(numbered("a.txt", 2), "a-2.txt");
    assert_eq!(numbered("archive.tar.gz", 3), "archive.tar-3.gz");
}

#[test]
fn numbered_appends_without_extension() {
    assert_eq!(numbered("README", 1), "README-1");
    assert_eq!(numbered("a", 12), "a-12");
}

#[test]
fn numbered_hidden_file_uses_last_dot() {
    assert_eq!(numbered(".bashrc", 1), "-1.bashrc");
}

#[test]
fn push_decimal_writes_digits() {
    let mut s = String::from("n=");
    push_decimal(&mut s, 0);
    assert_eq!(s, "n=0");
    let mut t = String::new();
    push_decimal(&mut t, 1234567890);
    assert_eq!(t, "1234567890");
    let mut u = String::new();
    push_decimal(&mut u, u64::MAX);
    assert_eq!(u, u64::MAX.to_string());
}

#[test]
fn join_path_puts_slash_between() {
    assert_eq!(join_path("out", "a.txt"), "out/a.txt");
    assert_eq!(join_path("", "a"), "/a");
}

#[test]
fn registry_counts_each_source() {
    let mut r = SeenRegistry::new();
    let a = "in/a.txt".to_string();
    let b = "in/b.txt".to_string();
    assert_eq!(r.register(&a), 0);
    assert_eq!(r.register(&a), 1);
    assert_eq!(r.register(&b), 0);
    assert_eq!(r.register(&a), 2);
    assert_eq!(r.register(&b), 1);
}

#[test]
fn category_dirs_under_root() {
    assert_eq!(category_dir("r", Category::Train), "r/train");
    assert_eq!(category_dir("r", Category::Test), "r/test");
    assert_eq!(category_dir("r", Category::Val), "r/val");
}

#[test]
fn output_dirs_without_val() {
    assert_eq!(output_dirs("r", false), vec!["r/train", "r/test"]);
}

#[test]
fn output_dirs_with_val() {
    assert_eq!(output_dirs("r", true), vec!["r/train", "r/test", "r/val"]);
}

#[test]
fn destination_flat_and_class() {
    let flat = destination("out/test", &entry("in/x.jpg", "x.jpg", None), 0);
    assert_eq!(flat.source, "in/x.jpg");
    assert_eq!(flat.dir, "out/test");
    assert_eq!(flat.dest, "out/test/x.jpg");
    let cat = destination("out/test", &entry("in/cat/x.jpg", "x.jpg", Some("cat")), 0);
    assert_eq!(cat.dir, "out/test/cat");
    assert_eq!(cat.dest, "out/test/cat/x.jpg");
    let again = destination("out/test", &entry("in/cat/x.jpg", "x.jpg", Some("cat")), 1);
    assert_eq!(again.dest, "out/test/cat/x-1.jpg");
}

#[test]
fn repeated_source_is_numbered() {
    let p = Partition {
        test: vec![entry("in/a.txt", "a.txt", None)],
        val: Some(vec![entry("in/a.txt", "a.txt", None)]),
        train: vec![entry("in/b.txt", "b.txt", None), entry("in/a.txt", "a.txt", None)],
    };
    let t = plan_transfers(&p, "out");
    let dests: Vec<&str> = t.iter().map(|x| x.dest.as_str()).collect();
    assert_eq!(
        dests,
        vec!["out/test/a.txt", "out/val/a-1.txt", "out/train/b.txt", "out/train/a-2.txt"]
    );
}

#[test]
fn plan_transfers_keeps_order_and_categories() {
    let p = Partition {
        test: vec![entry("in/dog/1.png", "1.png", Some("dog"))],
        val: None,
        train: vec![
            entry("in/cat/2.png", "2.png", Some("cat")),
            entry("in/dog/3.png", "3.png", Some("dog")),
        ],
    };
    let t = plan_transfers(&p, "out");
    assert_eq!(t.len(), 3);
    assert_eq!(t[0].dest, "out/test/dog/1.png");
    assert_eq!(t[1].dest, "out/train/cat/2.png");
    assert_eq!(t[2].dir, "out/train/dog");
    assert_eq!(t[2].source, "in/dog/3.png");
}

#[test]
fn collect_files_flat_root() {
    let kids = vec![child("a.txt", true), child("sub", false), child("b", true)];
    let l = collect_files("in", &None, &kids);
    assert_eq!(l.entries.len(), 2);
    assert_eq!(l.entries[0].path, "in/a.txt");
    assert_eq!(l.entries[0].name, "a.txt");
    assert_eq!(l.entries[0].class, None);
    assert_eq!(l.entries[1].path, "in/b");
    assert_eq!(l.violations.len(), 1);
    assert_eq!(l.violations[0].kind, ViolationKind::DirectoryInRoot);
    assert_eq!(l.violations[0].path, "in/sub");
}

#[test]
fn collect_files_in_class_dir() {
    let kids = vec![child("nested", false), child("x.jpg", true)];
    let l = collect_files("in/cat", &Some("cat".to_string()), &kids);
    assert_eq!(l.entries.len(), 1);
    assert_eq!(l.entries[0].path, "in/cat/x.jpg");
    assert_eq!(l.entries[0].class, Some("cat".to_string()));
    assert_eq!(l.violations[0].kind, ViolationKind::DirectoryInClass);
    assert_eq!(l.violations[0].path, "in/cat/nested");
}

#[test]
fn collect_files_empty_dir() {
    let l = collect_files("in", &None, &Vec::new());
    assert!(l.entries.is_empty());
    assert!(l.violations.is_empty());
}

#[test]
fn collect_classes_skips_files() {
    let kids = vec![child("cat", false), child("notes.txt", true), child("dog", false)];
    let c = collect_classes("in", &kids);
    assert_eq!(c.classes, vec!["cat", "dog"]);
    assert_eq!(c.violations.len(), 1);
    assert_eq!(c.violations[0].kind, ViolationKind::FileInRoot);
    assert_eq!(c.violations[0].path, "in/notes.txt");
}

#[test]
fn split_dir_names_recognised() {
    assert!(is_split_dir("train"));
    assert!(is_split_dir("test"));
    assert!(is_split_dir("val"));
    assert!(!is_split_dir("cat"));
    assert!(!is_split_dir("tests"));
    assert!(!is_split_dir(""));
}

#[test]
fn cleanup_removes_class_dirs_in_dataset_mode() {
    let names: Vec<String> = ["train", "cat", "test", "dog", "val"].iter().map(|s| s.to_string()).collect();
    assert_eq!(cleanup_targets("root", true, &names), vec!["root/cat", "root/dog"]);
}

#[test]
fn cleanup_removes_nothing_in_flat_mode() {
    let names: Vec<String> = vec!["cat".to_string()];
    assert!(cleanup_targets("root", false, &names).is_empty());
}

#[test]
fn resolve_root_modes() {
    let a = resolve_root("in".to_string(), None);
    assert!(a.in_place);
    assert_eq!(a.root, "in");
    let b = resolve_root("in".to_string(), Some("out".to_string()));
    assert!(!b.in_place);
    assert_eq!(b.root, "out");
}

fn count_under(plan: &dataset_split::run::RunPlan, prefix: &str) -> usize {
    plan.transfers.iter().filter(|t| t.dest.starts_with(prefix)).count()
}

#[test]
fn run_on_ten_flat_files() {
    let files: Vec<FileEntry> = (0..10)
        .map(|i| entry(&format!("in/{}.txt", i), &format!("{}.txt", i), None))
        .collect();
    let plan = plan_run(files, None, None, "in").unwrap();
    assert_eq!(plan.dirs, vec!["in/train", "in/test"]);
    assert_eq!(count_under(&plan, "in/test/"), 2);
    assert_eq!(count_under(&plan, "in/val/"), 0);
    assert_eq!(count_under(&plan, "in/train/"), 8);
    let mut sources: Vec<String> = plan.transfers.iter().map(|t| t.source.clone()).collect();
    sources.sort();
    let mut expected: Vec<String> = (0..10).map(|i| format!("in/{}.txt", i)).collect();
    expected.sort();
    assert_eq!(sources, expected);
}

#[test]
fn run_on_cat_and_dog_dataset() {
    let mut files: Vec<FileEntry> = Vec::new();
    for class in ["cat", "dog"] {
        for i in 0..5 {
            files.push(entry(
                &format!("in/{}/{}.jpg", class, i),
                &format!("{}.jpg", i),
                Some(class),
            ));
        }
    }
    let plan = plan_run(files, Some(2), Some(2), "out").unwrap();
    assert_eq!(plan.dirs, vec!["out/train", "out/test", "out/val"]);
    assert_eq!(count_under(&plan, "out/test/"), 2);
    assert_eq!(count_under(&plan, "out/val/"), 2);
    assert_eq!(count_under(&plan, "out/train/"), 6);
    let mut per_class: BTreeMap<String, usize> = BTreeMap::new();
    for t in &plan.transfers {
        let class = t.source.split('/').nth(1).unwrap().to_string();
        let parent = t.dir.rsplit('/').next().unwrap().to_string();
        assert_eq!(parent, class);
        assert!(t.dest.starts_with(&t.dir));
        *per_class.entry(class).or_insert(0) += 1;
    }
    assert_eq!(per_class.get("cat"), Some(&5));
    assert_eq!(per_class.get("dog"), Some(&5));
}

#[test]
fn run_with_zero_val_quota_makes_empty_val_dir() {
    let files: Vec<FileEntry> = (0..5)
        .map(|i| entry(&format!("in/{}", i), &format!("{}", i), None))
        .collect();
    let plan = plan_run(files, None, Some(0), "in").unwrap();
    assert_eq!(plan.dirs, vec!["in/train", "in/test", "in/val"]);
    assert_eq!(count_under(&plan, "in/val/"), 0);
    assert_eq!(plan.partition.val.as_ref().unwrap().len(), 0);
}

#[test]
fn run_refuses_oversized_quota() {
    let files: Vec<FileEntry> = (0..10)
        .map(|i| entry(&format!("in/{}", i), &format!("{}", i), None))
        .collect();
    assert!(matches!(
        plan_run(files, Some(15), None, "in"),
        Err(SplitError::QuotaExceedsFiles { requested: 15, available: 10 })
    ));
}
