use gitfetch_tui::commands::{
    first_push_step, git_message, needs_upstream, preferred_remote, second_push_message, PushStep,
};
use gitfetch_tui::state::{ActivePane, App, Key, KeyAction, Mode};
use gitfetch_tui::status::parse_status;

#[test]
fn git_messages() {
    assert_eq!(git_message(true, "  done \n", "", "add -- a"), "done");
    assert_eq!(git_message(true, "", "warn", "add -- a"), "✓ git add -- a");
    assert_eq!(git_message(false, "out", " fatal: x \n", "commit -m m"), "fatal: x");
    assert_eq!(git_message(false, "", "", "commit -m m"), "git commit -m m failed");
}

#[test]
fn upstream_detection() {
    assert!(needs_upstream("fatal: The current branch x has no upstream branch."));
    assert!(needs_upstream("use git push --set-upstream origin x"));
    assert!(needs_upstream("please set upstream first"));
    assert!(!needs_upstream("rejected: non-fast-forward"));
    assert!(!needs_upstream(""));
}

#[test]
fn first_push_outcomes() {
    match first_push_step(true, "", "") {
        PushStep::Done(m) => assert_eq!(m, "✓ git push"),
        PushStep::SetUpstream => panic!("unexpected"),
    }
    match first_push_step(true, "pushed\n", "") {
        PushStep::Done(m) => assert_eq!(m, "pushed"),
        PushStep::SetUpstream => panic!("unexpected"),
    }
    assert!(matches!(first_push_step(false, "", "fatal: has no upstream branch"), PushStep::SetUpstream));
    match first_push_step(false, "", "") {
        PushStep::Done(m) => assert_eq!(m, "git push failed"),
        PushStep::SetUpstream => panic!("unexpected"),
    }
    match first_push_step(false, "rejected", "") {
        PushStep::Done(m) => assert_eq!(m, "rejected"),
        PushStep::SetUpstream => panic!("unexpected"),
    }
}

#[test]
fn second_push_messages() {
    assert_eq!(second_push_message("origin", true, "", ""), "✓ git push -u origin HEAD");
    assert_eq!(second_push_message("up", true, "ok\n", ""), "Set upstream to up and pushed\nok");
    assert_eq!(second_push_message("up", false, "o", "e"), "e");
    assert_eq!(second_push_message("up", false, "o", ""), "o");
    assert_eq!(second_push_message("up", false, "", ""), "git push -u up HEAD failed");
}

#[test]
fn remote_choice() {
    assert_eq!(preferred_remote("upstream\norigin\n"), "origin");
    assert_eq!(preferred_remote("\n  fork \nmirror\n"), "fork");
    assert_eq!(preferred_remote(""), "origin");
}

fn loaded() -> App {
    let report = parse_status("## main\n M a\n M b\n");
    let mut app = App::new();
    app.refresh_status(report, &Vec::new(), &vec![0, 0]);
    app
}

#[test]
fn normal_keys() {
    let mut app = loaded();
    assert!(matches!(app.handle_normal_key(Key::Char('q')), KeyAction::Quit));
    assert!(matches!(app.handle_normal_key(Key::Char('j')), KeyAction::RefreshOverview));
    assert_eq!(app.selected, 1);
    assert!(matches!(app.handle_normal_key(Key::Down), KeyAction::RefreshOverview));
    assert_eq!(app.selected, 0);
    assert!(matches!(app.handle_normal_key(Key::Char('l')), KeyAction::Nothing));
    assert_eq!(app.active_pane, ActivePane::Overview);
    app.handle_normal_key(Key::Char('j'));
    app.handle_normal_key(Key::Char('j'));
    assert_eq!(app.overview_scroll, 2);
    app.handle_normal_key(Key::Up);
    assert_eq!(app.overview_scroll, 1);
    assert!(matches!(app.handle_normal_key(Key::Char('r')), KeyAction::Refresh));
    assert!(matches!(app.handle_normal_key(Key::Char(' ')), KeyAction::ToggleStage));
    assert!(matches!(app.handle_normal_key(Key::Char('p')), KeyAction::Push));
    assert!(matches!(app.handle_normal_key(Key::Other), KeyAction::Nothing));
    app.handle_normal_key(Key::Char('c'));
    assert_eq!(app.mode, Mode::CommitInput);
}

#[test]
fn commit_keys() {
    let mut app = loaded();
    app.handle_normal_key(Key::Char('c'));
    app.handle_commit_key(Key::Char(' '));
    app.handle_commit_key(Key::Char('f'));
    app.handle_commit_key(Key::Char('x'));
    app.handle_commit_key(Key::Backspace);
    app.handle_commit_key(Key::Char('i'));
    assert_eq!(app.commit_input, " fi");
    match app.handle_commit_key(Key::Enter) {
        KeyAction::Commit(m) => assert_eq!(m, "fi"),
        _ => panic!("expected a commit"),
    }
    assert_eq!(app.mode, Mode::Normal);
    assert_eq!(app.commit_input, "");

    app.handle_normal_key(Key::Char('c'));
    app.handle_commit_key(Key::Char(' '));
    assert!(matches!(app.handle_commit_key(Key::Enter), KeyAction::Nothing));
    assert_eq!(app.status_line, "Commit message is empty");

    app.handle_normal_key(Key::Char('c'));
    assert!(matches!(app.handle_commit_key(Key::Esc), KeyAction::Nothing));
    assert_eq!(app.mode, Mode::Normal);
    assert_eq!(app.status_line, "Commit cancelled");
}
