use gitfetch_tui::diff::{
    parse_hunk_header, summarize_diff, truncate_text, DiffPreviewKind, PREVIEW_MAX_CHARS,
    PREVIEW_MAX_ROWS,
};

#[test]
fn rewritten_signature_is_modified() {
    let diff = "diff --git a/main.go b/main.go\nindex 1111111..2222222 100644\n--- a/main.go\n+++ b/main.go\n@@ -3 +3 @@\n-func foo(x, y):\n+func foo(x):\n";
    let s = summarize_diff(diff, "main.go");
    assert_eq!(s.methods_modified, vec!["foo".to_string()]);
    assert!(s.methods_added.is_empty());
    assert!(s.methods_deleted.is_empty());
    assert_eq!(s.added_lines, 1);
    assert_eq!(s.removed_lines, 1);
}

#[test]
fn removed_definition_is_deleted() {
    let diff = "@@ -10,2 +9,0 @@\n-func bar():\n-    return 1\n";
    let s = summarize_diff(diff, "tool.go");
    assert_eq!(s.methods_deleted, vec!["bar".to_string()]);
    assert!(s.methods_added.is_empty());
    assert!(s.methods_modified.is_empty());
    assert_eq!(s.removed_lines, 2);
    assert_eq!(s.added_lines, 0);
}

#[test]
fn added_definition_is_added() {
    let diff = "@@ -0,0 +1,2 @@\n+def fresh():\n+    pass\n";
    let s = summarize_diff(diff, "m.py");
    assert_eq!(s.methods_added, vec!["fresh".to_string()]);
    assert!(s.methods_modified.is_empty());
    assert!(s.methods_deleted.is_empty());
}

#[test]
fn hunk_context_marks_body_change_as_modified() {
    let diff = "@@ -5,1 +5,1 @@ fn compute(x: u32) -> u32 {\n-    x + 1\n+    x + 2\n@@ -40 +40 @@\n+// note\n";
    let s = summarize_diff(diff, "lib.rs");
    assert_eq!(s.methods_modified, vec!["compute".to_string()]);
    assert_eq!(s.added_lines, 2);
    assert_eq!(s.removed_lines, 1);
}

#[test]
fn symbol_sets_are_disjoint() {
    let diff = "@@ -1 +1 @@ def a():\n+def a():\n-def a():\n+def b():\n-def c():\n";
    let s = summarize_diff(diff, "x.py");
    assert_eq!(s.methods_added, vec!["b".to_string()]);
    assert_eq!(s.methods_deleted, vec!["c".to_string()]);
    assert_eq!(s.methods_modified, vec!["a".to_string()]);
    for n in &s.methods_added {
        assert!(!s.methods_modified.contains(n) && !s.methods_deleted.contains(n));
    }
    for n in &s.methods_modified {
        assert!(!s.methods_deleted.contains(n));
    }
}

#[test]
fn touched_hunk_symbol_also_added_is_not_modified() {
    let diff = "@@ -1 +1 @@ def g():\n+def g():\n";
    let s = summarize_diff(diff, "x.py");
    assert_eq!(s.methods_added, vec!["g".to_string()]);
    assert!(s.methods_modified.is_empty());
}

#[test]
fn preview_rows_have_kinds() {
    let diff = "diff --git a/x b/x\n@@ -1 +1 @@\n-old\n+new\n context\n";
    let s = summarize_diff(diff, "x.txt");
    let kinds: Vec<DiffPreviewKind> = s.diff_preview.iter().map(|r| r.kind).collect();
    assert_eq!(
        kinds,
        vec![
            DiffPreviewKind::Meta,
            DiffPreviewKind::Meta,
            DiffPreviewKind::Removed,
            DiffPreviewKind::Added,
            DiffPreviewKind::Context
        ]
    );
    assert_eq!(s.diff_preview[2].text, "-old");
}

#[test]
fn preview_bounds_hold_for_large_input() {
    let mut diff = String::from("@@ -1,100 +1,100 @@\n");
    for i in 0..100 {
        diff.push_str(&format!("+{}\n", "y".repeat(300 + i)));
    }
    let s = summarize_diff(&diff, "big.txt");
    assert_eq!(s.added_lines, 100);
    assert_eq!(s.diff_preview.len(), PREVIEW_MAX_ROWS);
    for row in &s.diff_preview {
        assert!(row.text.chars().count() <= PREVIEW_MAX_CHARS + 3);
    }
    assert_eq!(s.diff_preview[1].text.chars().count(), PREVIEW_MAX_CHARS + 3);
    assert!(s.diff_preview[1].text.ends_with("..."));
}

#[test]
fn empty_diff_gives_empty_summary() {
    let s = summarize_diff("", "a.rs");
    assert_eq!(s.added_lines, 0);
    assert_eq!(s.removed_lines, 0);
    assert!(s.methods_added.is_empty() && s.methods_modified.is_empty() && s.methods_deleted.is_empty());
    assert!(s.diff_preview.is_empty());
}

#[test]
fn truncation_appends_ellipsis() {
    assert_eq!(truncate_text("abcdef", 3), "abc...");
    assert_eq!(truncate_text("abc", 3), "abc");
    assert_eq!(truncate_text("", 0), "");
    assert_eq!(truncate_text("héllo", 2), "hé...");
}

#[test]
fn hunk_header_context() {
    assert_eq!(parse_hunk_header("@@ -1,2 +1,3 @@ fn main() {"), Some("fn main() {".to_string()));
    assert_eq!(parse_hunk_header("@@ -1 +1 @@"), None);
    assert_eq!(parse_hunk_header("@@ -1 +1 @@   "), None);
    assert_eq!(parse_hunk_header("@@ -1 +1 @@ a @@ b"), Some("a".to_string()));
    assert_eq!(parse_hunk_header("no markers"), None);
}

#[test]
fn repeated_names_collapse() {
    let diff = "@@ -1 +1 @@\n+def a():\n+def a():\n+def b():\n";
    let s = summarize_diff(diff, "x.py");
    assert_eq!(s.methods_added, vec!["a".to_string(), "b".to_string()]);
}

#[test]
fn names_come_sorted() {
    let diff = "@@ -1 +1 @@\n+def zeta():\n+def Alpha():\n+def mid():\n+def _x():\n";
    let s = summarize_diff(diff, "x.py");
    assert_eq!(s.methods_added, vec!["Alpha", "_x", "mid", "zeta"]);
}
