use gitfetch_tui::overview::preview_for_untracked;
use gitfetch_tui::overview::collect_methods_from_content;
use gitfetch_tui::diff::DiffPreviewKind;
use gitfetch_tui::overview::{
    build_file_overview, build_folder_overview, build_state_label, folder_members,
    summarize_untracked, FileOverview,
};
use gitfetch_tui::status::FileEntry;
use gitfetch_tui::tree::{TreeItem, TreeKind};

fn entry(path: &str, staged: bool, unstaged: bool, untracked: bool) -> FileEntry {
    FileEntry { path: path.to_string(), staged, unstaged, untracked }
}

fn folder(path: &str) -> TreeItem {
    TreeItem {
        path: path.to_string(),
        label: format!("{}/", path),
        kind: TreeKind::Folder,
        staged: true,
        unstaged: true,
        untracked: false,
        added_lines: 0,
        removed_lines: 0,
    }
}

#[test]
fn state_labels() {
    assert_eq!(build_state_label(&entry("a", false, false, false)), "clean");
    assert_eq!(build_state_label(&entry("a", true, false, false)), "staged");
    assert_eq!(build_state_label(&entry("a", true, true, false)), "staged, unstaged");
    assert_eq!(build_state_label(&entry("a", false, true, true)), "unstaged, new");
    assert_eq!(build_state_label(&entry("a", true, true, true)), "staged, unstaged, new");
}

#[test]
fn untracked_three_line_file() {
    let s = summarize_untracked("def a():\n    return 1\ndef b(x):\n", "m.py");
    assert_eq!(s.added_lines, 3);
    assert_eq!(s.removed_lines, 0);
    assert_eq!(s.methods_added, vec!["a".to_string(), "b".to_string()]);
    assert!(s.methods_modified.is_empty() && s.methods_deleted.is_empty());
    assert_eq!(s.diff_preview.len(), 3);
    assert_eq!(s.diff_preview[1].text, "+    return 1");
    assert_eq!(s.diff_preview[0].kind, DiffPreviewKind::Added);
}

#[test]
fn untracked_preview_is_bounded() {
    let content: String = (0..40).map(|i| format!("{}{}\n", i, "x".repeat(200))).collect();
    let s = summarize_untracked(&content, "notes.txt");
    assert_eq!(s.added_lines, 40);
    assert_eq!(s.diff_preview.len(), 24);
    assert_eq!(s.diff_preview[0].text.chars().count(), 1 + 95 + 3);
}

#[test]
fn file_overview_paths() {
    let known = entry("lib.rs", false, true, false);
    let o = build_file_overview(&known, Some("@@ -1 +1 @@\n-fn old() {\n+fn new() {\n"));
    assert_eq!(o.file, "lib.rs");
    assert_eq!(o.state, "unstaged");
    assert_eq!(o.methods_added, vec!["new".to_string()]);
    assert_eq!(o.methods_deleted, vec!["old".to_string()]);
    assert!(!o.use_traditional_overview);

    let none = build_file_overview(&known, None);
    assert_eq!((none.added_lines, none.removed_lines), (0, 0));
    assert!(none.use_traditional_overview);

    let fresh = entry("t.txt", false, true, true);
    let unread = build_file_overview(&fresh, None);
    assert_eq!(unread.added_lines, 0);
    assert_eq!(unread.state, "unstaged, new");
    let read = build_file_overview(&fresh, Some("one\ntwo\n"));
    assert_eq!(read.added_lines, 2);
    assert!(read.use_traditional_overview);
}

fn overview(file: &str, added: &[&str], modified: &[&str], a: usize, r: usize) -> FileOverview {
    let mut o = build_file_overview(&entry(file, false, true, false), None);
    o.methods_added = added.iter().map(|s| s.to_string()).collect();
    o.methods_modified = modified.iter().map(|s| s.to_string()).collect();
    o.added_lines = a;
    o.removed_lines = r;
    o
}

#[test]
fn folder_of_two_files() {
    let members = vec![overview("src/one.py", &["a"], &[], 4, 1), overview("src/two.py", &[], &["b"], 2, 3)];
    let o = build_folder_overview(&folder("src"), &members);
    assert_eq!(o.file, "src/");
    assert_eq!(o.state, "staged, unstaged");
    assert_eq!(o.methods_added, vec!["a".to_string()]);
    assert_eq!(o.methods_modified, vec!["b".to_string()]);
    assert!(o.methods_deleted.is_empty());
    assert_eq!((o.added_lines, o.removed_lines), (6, 4));
    assert!(!o.use_traditional_overview);
    assert_eq!(o.traditional_diff.len(), 2);
    assert_eq!(o.traditional_diff[0].text, "file: src/one.py");
}

#[test]
fn folder_union_collapses_duplicates() {
    let members = vec![overview("d/x.py", &["a", "c"], &[], 0, 0), overview("d/y.py", &["a"], &[], 0, 0)];
    let o = build_folder_overview(&folder("d"), &members);
    assert_eq!(o.methods_added, vec!["a".to_string(), "c".to_string()]);
}

#[test]
fn folder_preview_is_bounded() {
    let body: String = (0..30).map(|i| format!("line {}\n", i)).collect();
    let mut members = Vec::new();
    for i in 0..10 {
        let f = entry(&format!("p/f{}.txt", i), false, true, true);
        members.push(build_file_overview(&f, Some(&body)));
    }
    let o = build_folder_overview(&folder("p"), &members);
    assert_eq!(o.traditional_diff.len(), 24);
    assert_eq!(o.traditional_diff[7].text, "file: p/f1.txt");
    assert_eq!(o.traditional_diff[1].text, "+line 0");
    assert_eq!(o.added_lines, 300);
}

#[test]
fn members_of_folder() {
    let files = vec![entry("src/a.rs", true, false, false), entry("srcx/b.rs", true, false, false), entry("src", true, false, false), entry("src/d/e.rs", false, true, false)];
    let m = folder_members("src", &files);
    let paths: Vec<&str> = m.iter().map(|f| f.path.as_str()).collect();
    assert_eq!(paths, vec!["src/a.rs", "src", "src/d/e.rs"]);
}

#[test]
fn untracked_preview_rows() {
    let rows = preview_for_untracked("a\r\nb\n\nc");
    let texts: Vec<&str> = rows.iter().map(|r| r.text.as_str()).collect();
    assert_eq!(texts, vec!["+a", "+b", "+", "+c"]);
    assert!(preview_for_untracked("").is_empty());
}

#[test]
fn methods_from_content() {
    let names = collect_methods_from_content("fn b() {}\n  pub fn a(x: u8) {}\nlet z = 1;\nfn b() {}\n", "lib.rs");
    assert_eq!(names, vec!["a".to_string(), "b".to_string()]);
    assert!(collect_methods_from_content("", "lib.rs").is_empty());
}
