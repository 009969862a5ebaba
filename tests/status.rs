use gitfetch_tui::delta::collect_file_deltas;
use gitfetch_tui::status::{parse_branch_line, parse_status, parse_status_line};

#[test]
fn branch_with_divergence() {
    let b = parse_branch_line("## main...origin/main [ahead 2, behind 5]");
    assert_eq!(b.branch, "main");
    assert_eq!(b.ahead, 2);
    assert_eq!(b.behind, 5);
}

#[test]
fn branch_without_upstream() {
    let b = parse_branch_line("## feature/x");
    assert_eq!(b.branch, "feature/x");
    assert_eq!((b.ahead, b.behind), (0, 0));
}

#[test]
fn branch_with_upstream_only() {
    let b = parse_branch_line("## dev...origin/dev");
    assert_eq!(b.branch, "dev");
    assert_eq!((b.ahead, b.behind), (0, 0));
}

#[test]
fn branch_with_bad_counts() {
    let b = parse_branch_line("## main...origin/main [behind x, ahead 3]");
    assert_eq!(b.branch, "main");
    assert_eq!(b.ahead, 3);
    assert_eq!(b.behind, 0);
    let c = parse_branch_line("## main...origin/main [ahead 99999999999999999999999]");
    assert_eq!(c.ahead, 0);
}

#[test]
fn status_lines_give_flags() {
    let e = parse_status_line("M  src/a.rs").unwrap();
    assert_eq!(e.path, "src/a.rs");
    assert!(e.staged && !e.unstaged && !e.untracked);
    let e = parse_status_line(" M b.rs").unwrap();
    assert!(!e.staged && e.unstaged && !e.untracked);
    let e = parse_status_line("?? new.txt").unwrap();
    assert!(!e.staged && e.unstaged && e.untracked);
    let e = parse_status_line("MM both.rs ").unwrap();
    assert_eq!(e.path, "both.rs");
    assert!(e.staged && e.unstaged && !e.untracked);
    assert!(parse_status_line("M  a").is_some());
    assert!(parse_status_line("M a").is_none());
    assert!(parse_status_line("M ").is_none());
}

#[test]
fn whole_report() {
    let out = "## main...origin/main [ahead 1]\nM  a.rs\n?? dir/b.txt\nxx\n M c.rs\n";
    let r = parse_status(out);
    assert_eq!(r.branch.branch, "main");
    assert_eq!(r.branch.ahead, 1);
    assert_eq!(r.branch.behind, 0);
    let paths: Vec<&str> = r.files.iter().map(|f| f.path.as_str()).collect();
    assert_eq!(paths, vec!["a.rs", "dir/b.txt", "c.rs"]);
    assert!(r.files[1].untracked);
}

#[test]
fn empty_report_is_valid() {
    let r = parse_status("");
    assert_eq!(r.branch.branch, "unknown");
    assert_eq!((r.branch.ahead, r.branch.behind), (0, 0));
    assert!(r.files.is_empty());
}

#[test]
fn entry_count_matches_well_formed_lines() {
    let out = "## x\nM  a\n\nab\n?? b\nA  c\n";
    let r = parse_status(out);
    assert_eq!(r.files.len(), 3);
}

#[test]
fn numstat_lines() {
    let d = collect_file_deltas("3\t1\tsrc/a.rs\n-\t-\timg.png\n10\t0\t\n7\tx\tb.rs\n");
    assert_eq!(d.len(), 3);
    assert_eq!(d[0].path, "src/a.rs");
    assert_eq!((d[0].delta.added_lines, d[0].delta.removed_lines), (3, 1));
    assert_eq!(d[1].path, "img.png");
    assert_eq!((d[1].delta.added_lines, d[1].delta.removed_lines), (0, 0));
    assert_eq!((d[2].delta.added_lines, d[2].delta.removed_lines), (7, 0));
}

#[test]
fn numstat_empty() {
    assert!(collect_file_deltas("").is_empty());
}
