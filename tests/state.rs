use gitfetch_tui::state::StageChange;
use gitfetch_tui::overview::build_file_overview;
use gitfetch_tui::state::{overview_line_count, single_line, ActivePane, App, Mode};
use gitfetch_tui::status::{parse_status, FileEntry};

fn loaded(n: usize) -> App {
    let mut out = String::from("## main\n");
    for i in 0..n {
        out.push_str(&format!(" M f{}.txt\n", i));
    }
    let report = parse_status(&out);
    let lines = vec![0; report.files.len()];
    let mut app = App::new();
    app.refresh_status(report, &Vec::new(), &lines);
    app
}

#[test]
fn new_app_defaults() {
    let app = App::new();
    assert_eq!(app.branch, "unknown");
    assert_eq!(app.status_line, "Ready");
    assert_eq!(app.selected, 0);
    assert_eq!(app.active_pane, ActivePane::Files);
    assert_eq!(app.mode, Mode::Normal);
    assert!(app.selected_item().is_none());
}

#[test]
fn selection_wraps() {
    let mut app = loaded(3);
    assert_eq!(app.tree_items.len(), 3);
    app.select_prev();
    assert_eq!(app.selected, 2);
    app.select_next();
    assert_eq!(app.selected, 0);
    app.select_next();
    assert_eq!(app.selected_item().unwrap().path, "f1.txt");
}

#[test]
fn selection_on_empty_list() {
    let mut app = App::new();
    app.select_next();
    assert_eq!(app.selected, 0);
    app.select_prev();
    assert_eq!(app.selected, 0);
}

#[test]
fn refresh_clamps_selection() {
    let mut app = loaded(5);
    app.selected = 4;
    let report = parse_status("## main\n M a\n M b\n");
    app.refresh_status(report, &Vec::new(), &vec![0, 0]);
    assert_eq!(app.selected, 1);
    let empty = parse_status("");
    app.refresh_status(empty, &Vec::new(), &Vec::new());
    assert_eq!(app.selected, 0);
}

#[test]
fn focus_changes_pane() {
    let mut app = App::new();
    app.focus_right();
    assert_eq!(app.active_pane, ActivePane::Overview);
    app.focus_left();
    assert_eq!(app.active_pane, ActivePane::Files);
}

#[test]
fn overview_sizes_and_scroll() {
    assert_eq!(overview_line_count(None), 1);
    let e = FileEntry { path: "x.txt".to_string(), staged: false, unstaged: true, untracked: true };
    let body: String = (0..30).map(|i| format!("{}\n", i)).collect();
    let o = build_file_overview(&e, Some(&body));
    assert_eq!(overview_line_count(Some(&o)), 6 + 2 + 24);
    let mut app = App::new();
    app.overview_scroll = 50;
    app.refresh_selected_overview(Some(o));
    assert_eq!(app.max_overview_scroll(), 10);
    assert_eq!(app.overview_scroll, 10);
    app.refresh_selected_overview(None);
    assert_eq!(app.overview_scroll, 0);
}

#[test]
fn first_line_trimmed() {
    assert_eq!(single_line("  hello  \nworld"), "hello");
    assert_eq!(single_line(""), "");
}

#[test]
fn toggle_stage_choice() {
    let report = parse_status("## main\nM  staged.rs\n M loose.rs\n");
    let mut app = App::new();
    app.refresh_status(report, &Vec::new(), &vec![0, 0]);
    assert_eq!(app.tree_items[0].path, "loose.rs");
    app.selected = 0;
    assert_eq!(app.toggle_stage(), Some(("loose.rs".to_string(), StageChange::Stage)));
    app.selected = 1;
    assert_eq!(app.toggle_stage(), Some(("staged.rs".to_string(), StageChange::Unstage)));
    app.selected = 5;
    assert_eq!(app.toggle_stage(), None);
    assert_eq!(app.status_line, "No item selected");
}
