use gitfetch_tui::tree::{merge_delta, merge_status, path_chars, delta_path_chars};
use gitfetch_tui::status::FileEntry;
use gitfetch_tui::tree::{build_tree_items, FileDelta, PathDelta, TreeItem, TreeKind};

fn entry(path: &str, staged: bool, unstaged: bool, untracked: bool) -> FileEntry {
    FileEntry { path: path.to_string(), staged, unstaged, untracked }
}

fn delta(path: &str, a: usize, r: usize) -> FileDelta {
    FileDelta { path: path.to_string(), delta: PathDelta { added_lines: a, removed_lines: r } }
}

fn labels(rows: &[TreeItem]) -> Vec<String> {
    rows.iter().map(|r| r.label.clone()).collect()
}

#[test]
fn folders_before_files_then_names() {
    let files = vec![
        entry("z.txt", true, false, false),
        entry("src/b.rs", false, true, false),
        entry("src/a/x.rs", true, false, false),
        entry("a.txt", false, true, false),
        entry("docs/readme.md", false, true, false),
    ];
    let lines = vec![0; files.len()];
    let rows = build_tree_items(&files, &Vec::new(), &lines);
    assert_eq!(
        labels(&rows),
        vec!["docs/", "  readme.md", "src/", "  a/", "    x.rs", "  b.rs", "a.txt", "z.txt"]
    );
    assert_eq!(rows[3].path, "src/a");
    assert_eq!(rows[3].kind, TreeKind::Folder);
    assert_eq!(rows[4].kind, TreeKind::File);
}

#[test]
fn folder_rollup() {
    let files = vec![
        entry("src/a.rs", true, false, false),
        entry("src/b.rs", false, true, false),
        entry("src/new.rs", false, true, true),
    ];
    let deltas = vec![delta("src/a.rs", 3, 1), delta("src/b.rs", 2, 4)];
    let lines = vec![0, 0, 5];
    let rows = build_tree_items(&files, &deltas, &lines);
    assert_eq!(rows[0].path, "src");
    assert!(rows[0].staged && rows[0].unstaged && rows[0].untracked);
    assert_eq!((rows[0].added_lines, rows[0].removed_lines), (10, 5));
    let new_row = rows.iter().find(|r| r.path == "src/new.rs").unwrap();
    assert_eq!((new_row.added_lines, new_row.removed_lines), (5, 0));
}

#[test]
fn same_input_same_rows_in_any_order() {
    let a = vec![
        entry("b/c.txt", true, false, false),
        entry("a.txt", false, true, false),
        entry("b/a.txt", false, true, false),
    ];
    let b = vec![a[2].clone(), a[0].clone(), a[1].clone()];
    let ra = build_tree_items(&a, &Vec::new(), &vec![0; 3]);
    let rb = build_tree_items(&b, &Vec::new(), &vec![0; 3]);
    let ra2 = build_tree_items(&a, &Vec::new(), &vec![0; 3]);
    assert_eq!(labels(&ra), labels(&rb));
    assert_eq!(labels(&ra), labels(&ra2));
    let pa: Vec<String> = ra.iter().map(|r| r.path.clone()).collect();
    assert_eq!(pa, vec!["b", "b/a.txt", "b/c.txt", "a.txt"]);
}

#[test]
fn empty_tree() {
    assert!(build_tree_items(&Vec::new(), &Vec::new(), &Vec::new()).is_empty());
}

#[test]
fn name_prefix_orders_shorter_first() {
    let files = vec![entry("ab", true, false, false), entry("a", true, false, false), entry("a_b", true, false, false)];
    let rows = build_tree_items(&files, &Vec::new(), &vec![0; 3]);
    assert_eq!(labels(&rows), vec!["a", "a_b", "ab"]);
}

#[test]
fn nested_folder_sums() {
    let files = vec![entry("a/b/c.txt", false, true, false), entry("a/d.txt", false, true, false)];
    let deltas = vec![delta("a/b/c.txt", 1, 2), delta("a/d.txt", 10, 20)];
    let rows = build_tree_items(&files, &deltas, &vec![0, 0]);
    assert_eq!(labels(&rows), vec!["a/", "  b/", "    c.txt", "  d.txt"]);
    assert_eq!((rows[0].added_lines, rows[0].removed_lines), (11, 22));
    assert_eq!((rows[1].added_lines, rows[1].removed_lines), (1, 2));
}

#[test]
fn folder_merges() {
    let files = vec![entry("d/a", true, false, false), entry("d/b", false, false, true), entry("e/c", false, true, false)];
    let deltas = vec![delta("d/a", 2, 3), delta("d/a", 4, 5), delta("e/c", 9, 9)];
    let fp = path_chars(&files);
    let dp = delta_path_chars(&deltas);
    let folder: Vec<char> = "d".chars().collect();
    assert_eq!(merge_status(&files, &fp, &folder), (true, false, true));
    let d = merge_delta(&files, &deltas, &dp, &fp, &vec![0, 7, 0], &folder);
    assert_eq!((d.added_lines, d.removed_lines), (11, 5));
}
