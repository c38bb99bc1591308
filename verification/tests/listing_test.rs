use expman::listing::{
    describe_file, file_extension, is_reserved_name, list_artifacts, list_experiments, list_runs,
    stale_runs, DirEntry, EntryKind, SavedFile,
};
use expman::order::{sort_names, text_before};

fn dir(name: &str) -> DirEntry {
    DirEntry { name: name.to_string(), kind: EntryKind::Directory, size: 0 }
}

fn file(name: &str, size: u64) -> DirEntry {
    DirEntry { name: name.to_string(), kind: EntryKind::File, size }
}

#[test]
fn experiments_are_the_directories_in_ascending_order() {
    let entries = vec![dir("zeta"), file("notes.txt", 3), dir("alpha"), dir("Beta"), dir("alpha2"),
        DirEntry { name: "link".to_string(), kind: EntryKind::Other, size: 0 }, dir("artifacts")];
    assert_eq!(list_experiments(&entries), vec!["Beta", "alpha", "alpha2", "artifacts", "zeta"]);
    assert!(list_experiments(&[]).is_empty());
}

#[test]
fn runs_are_newest_first_and_leave_out_artifacts() {
    let entries = vec![
        dir("20240101_120000"),
        dir("artifacts"),
        dir("20240301_080000"),
        file("experiment.yaml", 10),
        dir("20240201_000000"),
        dir("20240201_000000_b"),
    ];
    assert_eq!(
        list_runs(&entries),
        vec!["20240301_080000", "20240201_000000_b", "20240201_000000", "20240101_120000"]
    );
    assert!(list_runs(&[dir("artifacts")]).is_empty());
}

#[test]
fn the_order_of_names_is_that_of_their_bytes() {
    assert!(text_before("", ""));
    assert!(text_before("", "a"));
    assert!(!text_before("a", ""));
    assert!(text_before("a", "a"));
    assert!(text_before("a", "ab"));
    assert!(!text_before("ab", "a"));
    assert!(text_before("Z", "a"));
    assert!(text_before("a", "é"));
    assert!(text_before("z", "é"));
    assert!(!text_before("é", "z"));
    let mut expected = vec!["b", "", "é", "a", "B", "ab", "a", "~", "10", "9"];
    let sorted = sort_names(expected.iter().map(|s| s.to_string()).collect());
    expected.sort();
    assert_eq!(sorted, expected);
}

#[test]
fn extensions() {
    assert_eq!(file_extension("metrics.parquet"), "parquet");
    assert_eq!(file_extension("archive.tar.gz"), "gz");
    assert_eq!(file_extension("README"), "");
    assert_eq!(file_extension(".hidden"), "");
    assert_eq!(file_extension(".hidden.txt"), "txt");
    assert_eq!(file_extension("trailing."), "");
    assert_eq!(file_extension(""), "");
    assert_eq!(file_extension("Plot.PNG"), "PNG");
    assert_eq!(file_extension("ü.é"), "é");
}

#[test]
fn reserved_names() {
    for name in ["metrics.parquet", "config.yaml", "run.yaml", "run.log", "console.log"] {
        assert!(is_reserved_name(name));
    }
    for name in ["experiment.yaml", "Run.yaml", "run.yaml ", "", "interactive.ipynb"] {
        assert!(!is_reserved_name(name));
    }
}

#[test]
fn a_file_is_described_with_its_extension_in_lower_case() {
    let info = describe_file("plots/Curve.PNG", "Curve.PNG", 12, false);
    assert_eq!(info.path, "plots/Curve.PNG");
    assert_eq!(info.name, "Curve.PNG");
    assert_eq!(info.size, 12);
    assert_eq!(info.ext, "png");
    assert!(!info.is_default);
}

#[test]
fn artifacts_list_reserved_files_first() {
    let root = vec![
        file("run.yaml", 100),
        dir("artifacts"),
        file("notes.md", 5),
        file("metrics.parquet", 2048),
        dir("run.log"),
        file("console.log", 0),
    ];
    let saved = vec![
        SavedFile { path: "model.bin".to_string(), name: "model.bin".to_string(), size: 7 },
        SavedFile { path: "plots/a.PNG".to_string(), name: "a.PNG".to_string(), size: 9 },
    ];
    let files = list_artifacts(&root, &saved);
    let shown: Vec<(String, String, u64, String, bool)> =
        files.into_iter().map(|f| (f.path, f.name, f.size, f.ext, f.is_default)).collect();
    let s = |x: &str| x.to_string();
    assert_eq!(
        shown,
        vec![
            (s("run.yaml"), s("run.yaml"), 100, s("yaml"), true),
            (s("metrics.parquet"), s("metrics.parquet"), 2048, s("parquet"), true),
            (s("console.log"), s("console.log"), 0, s("log"), true),
            (s("model.bin"), s("model.bin"), 7, s("bin"), false),
            (s("plots/a.PNG"), s("a.PNG"), 9, s("png"), false),
        ]
    );
    assert!(list_artifacts(&[], &[]).is_empty());
}

#[test]
fn the_newest_runs_stay() {
    let runs = || vec!["c".to_string(), "b".to_string(), "a".to_string()];
    assert_eq!(stale_runs(runs(), 0), vec!["c", "b", "a"]);
    assert_eq!(stale_runs(runs(), 1), vec!["b", "a"]);
    assert_eq!(stale_runs(runs(), 2), vec!["a"]);
    assert!(stale_runs(runs(), 3).is_empty());
    assert!(stale_runs(runs(), 9).is_empty());
    assert!(stale_runs(Vec::new(), 0).is_empty());
}
