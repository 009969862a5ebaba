//! The dashboard's state between refreshes: the current snapshot, the
//! selected row, the focused pane and the overview's scroll offset.
use vstd::prelude::*;
use crate::overview::FileOverview;
use crate::status::{BranchInfo, FileEntry, StatusReport};
use crate::tree::{build_tree_items, rows_cover, rows_sorted, rows_valid, FileDelta, TreeItem};
use crate::text::{lines_of, split_lines, string_of, to_chars, trim, trim_chars};

verus! {

/// Rows of the overview panel visible at once.
pub const OVERVIEW_VISIBLE_ROWS: usize = 22;

/// Most symbol names listed per section of the overview.
pub const OVERVIEW_NAMES_PER_SECTION: usize = 8;

/// Most preview rows listed in the overview.
pub const OVERVIEW_PREVIEW_ROWS: usize = 24;

#[derive(Clone, Copy, Debug, PartialEq, Eq, Structural)]
pub enum ActivePane {
    Files,
    Overview,
}

#[derive(Clone, Copy, Debug, PartialEq, Eq, Structural)]
pub enum Mode {
    Normal,
    CommitInput,
}

#[derive(Clone, Debug)]
pub struct App {
    pub branch: String,
    pub ahead: usize,
    pub behind: usize,
    pub files: Vec<FileEntry>,
    pub tree_items: Vec<TreeItem>,
    pub selected: usize,
    pub selected_overview: Option<FileOverview>,
    pub active_pane: ActivePane,
    pub overview_scroll: u16,
    pub status_line: String,
    pub mode: Mode,
    pub commit_input: String,
}

/// The lines the overview panel takes for `info`.
pub open spec fn overview_lines(info: Option<FileOverview>) -> nat {
    match info {
        None => 1,
        Some(o) => if o.use_traditional_overview {
            6 + 2 + min_nat(o.traditional_diff@.len(), OVERVIEW_PREVIEW_ROWS as nat)
        } else {
            6 + 1 + min_nat(o.methods_added@.len(), OVERVIEW_NAMES_PER_SECTION as nat) + 1 + min_nat(
                o.methods_modified@.len(),
                OVERVIEW_NAMES_PER_SECTION as nat,
            ) + 1 + min_nat(o.methods_deleted@.len(), OVERVIEW_NAMES_PER_SECTION as nat)
        },
    }
}

pub open spec fn min_nat(a: nat, b: nat) -> nat {
    if a < b {
        a
    } else {
        b
    }
}

/// How far the overview can scroll: the lines beyond the visible ones.
pub open spec fn max_scroll_of(info: Option<FileOverview>) -> nat {
    if overview_lines(info) > OVERVIEW_VISIBLE_ROWS {
        (overview_lines(info) - OVERVIEW_VISIBLE_ROWS) as nat
    } else {
        0
    }
}

fn min_usize(a: usize, b: usize) -> (r: usize)
    ensures
        r == min_nat(a as nat, b as nat),
{
    if a < b {
        a
    } else {
        b
    }
}

/// The number of lines the overview panel takes.
pub fn overview_line_count(info: Option<&FileOverview>) -> (r: usize)
    ensures
        r == overview_lines(
            match info {
                Some(o) => Some(*o),
                None => None,
            },
        ),
        r <= 33,
{
    match info {
        None => 1,
        Some(o) => {
            if o.use_traditional_overview {
                8 + min_usize(o.traditional_diff.len(), OVERVIEW_PREVIEW_ROWS)
            } else {
                9 + min_usize(o.methods_added.len(), OVERVIEW_NAMES_PER_SECTION) + min_usize(
                    o.methods_modified.len(),
                    OVERVIEW_NAMES_PER_SECTION,
                ) + min_usize(o.methods_deleted.len(), OVERVIEW_NAMES_PER_SECTION)
            }
        },
    }
}

/// The first line of `text`, trimmed.
pub fn single_line(text: &str) -> (r: String)
    ensures
        lines_of(text@).len() > 0 ==> r@ == trim(lines_of(text@)[0]),
        lines_of(text@).len() == 0 ==> r@.len() == 0,
{
    let cs = to_chars(text);
    let ls = split_lines(&cs);
    if ls.len() == 0 {
        String::new()
    } else {
        let t = trim_chars(&ls[0]);
        string_of(t.as_slice())
    }
}

impl App {
    /// A dashboard with nothing loaded yet.
    pub fn new() -> (r: App)
        ensures
            r.branch@ == "unknown"@,
            r.ahead == 0,
            r.behind == 0,
            r.files@.len() == 0,
            r.tree_items@.len() == 0,
            r.selected == 0,
            r.selected_overview is None,
            r.active_pane == ActivePane::Files,
            r.overview_scroll == 0,
            r.status_line@ == "Ready"@,
            r.mode == Mode::Normal,
            r.commit_input@.len() == 0,
    {
        App {
            branch: String::from_str("unknown"),
            ahead: 0,
            behind: 0,
            files: Vec::new(),
            tree_items: Vec::new(),
            selected: 0,
            selected_overview: None,
            active_pane: ActivePane::Files,
            overview_scroll: 0,
            status_line: String::from_str("Ready"),
            mode: Mode::Normal,
            commit_input: String::new(),
        }
    }

    /// The selected row, where the selection is inside the list.
    pub fn selected_item(&self) -> (r: Option<&TreeItem>)
        ensures
            self.selected < self.tree_items@.len() ==> r == Some(&self.tree_items@[self.selected as int]),
            self.selected >= self.tree_items@.len() ==> r is None,
    {
        if self.selected < self.tree_items.len() {
            Some(&self.tree_items[self.selected])
        } else {
            None
        }
    }

    /// Moves the selection down one row, from the last row to the first.
    pub fn select_next(&mut self)
        ensures
            final(self).tree_items == old(self).tree_items,
            old(self).tree_items@.len() == 0 ==> final(self).selected == 0,
            old(self).tree_items@.len() > 0 ==> final(self).selected as int == (old(self).selected as int + 1)
                % old(self).tree_items@.len() as int,
    {
        let n = self.tree_items.len();
        if n == 0 {
            self.selected = 0;
        } else {
            let s = self.selected;
            let r = s % n;
            assert((r as int + 1) % (n as int) == (s as int + 1) % (n as int)) by (nonlinear_arith)
                requires
                    n > 0,
                    r == s % n,
            {
                vstd::arithmetic::div_mod::lemma_add_mod_noop(s as int, 1, n as int);
                vstd::arithmetic::div_mod::lemma_mod_twice(s as int, n as int);
                vstd::arithmetic::div_mod::lemma_add_mod_noop(r as int, 1, n as int);
            }
            self.selected = (r + 1) % n;
        }
    }

    /// Moves the selection up one row, from the first row to the last.
    pub fn select_prev(&mut self)
        ensures
            final(self).tree_items == old(self).tree_items,
            old(self).tree_items@.len() == 0 ==> final(self).selected == 0,
            old(self).tree_items@.len() > 0 && old(self).selected == 0 ==> final(self).selected
                == old(self).tree_items@.len() - 1,
            old(self).tree_items@.len() > 0 && old(self).selected > 0 ==> final(self).selected
                == old(self).selected - 1,
    {
        if self.tree_items.len() == 0 {
            self.selected = 0;
        } else if self.selected == 0 {
            self.selected = self.tree_items.len() - 1;
        } else {
            self.selected = self.selected - 1;
        }
    }

    /// Focuses the file list.
    pub fn focus_left(&mut self)
        ensures
            final(self).active_pane == ActivePane::Files,
            final(self).selected == old(self).selected,
    {
        self.active_pane = ActivePane::Files;
    }

    /// Focuses the overview.
    pub fn focus_right(&mut self)
        ensures
            final(self).active_pane == ActivePane::Overview,
            final(self).selected == old(self).selected,
    {
        self.active_pane = ActivePane::Overview;
    }

    /// How far the overview of the selection can scroll.
    pub fn max_overview_scroll(&self) -> (r: u16)
        ensures
            r as nat == max_scroll_of(self.selected_overview),
    {
        let lines = overview_line_count(self.selected_overview.as_ref());
        if lines > OVERVIEW_VISIBLE_ROWS {
            (lines - OVERVIEW_VISIBLE_ROWS) as u16
        } else {
            0
        }
    }

    /// Keeps the scroll offset within what the overview allows.
    pub fn clamp_scroll(&mut self)
        ensures
            final(self).selected == old(self).selected,
            final(self).tree_items == old(self).tree_items,
            final(self).selected_overview == old(self).selected_overview,
            final(self).overview_scroll as nat == min_nat(
                old(self).overview_scroll as nat,
                max_scroll_of(old(self).selected_overview),
            ),
    {
        let m = self.max_overview_scroll();
        if self.overview_scroll > m {
            self.overview_scroll = m;
        }
    }

    /// What toggling the stage of the selected row does: unstage a staged
    /// row, stage any other; with no row selected, nothing, and the status
    /// line says so.
    pub fn toggle_stage(&mut self) -> (r: Option<(String, StageChange)>)
        ensures
            final(self).selected == old(self).selected,
            final(self).tree_items == old(self).tree_items,
            old(self).selected < old(self).tree_items@.len() ==> (r matches Some((p, c)) && p@ == old(
                self,
            ).tree_items@[old(self).selected as int].path@ && c == (if old(self).tree_items@[old(
                self,
            ).selected as int].staged {
                StageChange::Unstage
            } else {
                StageChange::Stage
            })),
            old(self).selected >= old(self).tree_items@.len() ==> r is None && final(self).status_line@
                == "No item selected"@,
    {
        if self.selected < self.tree_items.len() {
            let item = &self.tree_items[self.selected];
            let path = string_of(to_chars(item.path.as_str()).as_slice());
            let change = if item.staged {
                StageChange::Unstage
            } else {
                StageChange::Stage
            };
            Some((path, change))
        } else {
            self.status_line = String::from_str("No item selected");
            None
        }
    }

    /// Shows `overview` for the selection, keeping the scroll offset within it.
    pub fn refresh_selected_overview(&mut self, overview: Option<FileOverview>)
        ensures
            final(self).selected_overview == overview,
            final(self).selected == old(self).selected,
            final(self).tree_items == old(self).tree_items,
            overview is None ==> final(self).overview_scroll == 0,
            overview is Some ==> final(self).overview_scroll as nat == min_nat(
                old(self).overview_scroll as nat,
                max_scroll_of(overview),
            ),
    {
        let none = overview.is_none();
        self.selected_overview = overview;
        if none {
            self.overview_scroll = 0;
        } else {
            self.clamp_scroll();
        }
    }

    /// Replaces the snapshot with a new status report, its line counts and,
    /// per entry, the current line count of untracked files; the selection
    /// keeps its position, moved up to the last row where the list shrank.
    pub fn refresh_status(&mut self, report: StatusReport, deltas: &Vec<FileDelta>, untracked_lines: &Vec<usize>)
        requires
            untracked_lines@.len() == report.files@.len(),
        ensures
            final(self).branch == report.branch.branch,
            final(self).ahead == report.branch.ahead,
            final(self).behind == report.branch.behind,
            final(self).files == report.files,
            rows_sorted(report.files@, final(self).tree_items@),
            rows_valid(report.files@, deltas@, untracked_lines@, final(self).tree_items@),
            rows_cover(report.files@, final(self).tree_items@),
            final(self).tree_items@.len() == 0 ==> final(self).selected == 0,
            final(self).tree_items@.len() > 0 ==> final(self).selected == if old(self).selected
                < final(self).tree_items@.len() {
                old(self).selected
            } else {
                (final(self).tree_items@.len() - 1) as usize
            },
            final(self).selected_overview == old(self).selected_overview,
    {
        let items = build_tree_items(&report.files, deltas, untracked_lines);
        let BranchInfo { branch, ahead, behind } = report.branch;
        self.branch = branch;
        self.ahead = ahead;
        self.behind = behind;
        self.files = report.files;
        self.tree_items = items;
        if self.tree_items.len() == 0 {
            self.selected = 0;
        } else if self.selected >= self.tree_items.len() {
            self.selected = self.tree_items.len() - 1;
        }
    }
}

/// The change to the index that toggling a row's stage makes.
#[derive(Clone, Copy, Debug, PartialEq, Eq, Structural)]
pub enum StageChange {
    /// `git restore --staged -- <path>`
    Unstage,
    /// `git add -- <path>`
    Stage,
}

/// A key press, as the dashboard distinguishes them.
#[derive(Clone, Copy, Debug, PartialEq, Eq, Structural)]
pub enum Key {
    Char(char),
    Left,
    Right,
    Up,
    Down,
    Enter,
    Esc,
    Backspace,
    Other,
}

/// What the caller does after a key press: the work the state itself
/// cannot do.
#[derive(Clone, Debug)]
pub enum KeyAction {
    Nothing,
    Quit,
    /// Rebuild the overview of the (new) selection.
    RefreshOverview,
    /// Reload the status report.
    Refresh,
    /// Stage the selected row's path, or unstage it where it is staged, then reload.
    ToggleStage,
    /// Commit with this message, then reload.
    Commit(String),
    /// Push, setting the upstream where there is none, then reload.
    Push,
}

impl App {
    /// Handles a key in normal mode.
    pub fn handle_normal_key(&mut self, key: Key) -> (r: KeyAction)
        requires
            old(self).mode == Mode::Normal,
        ensures
            key == Key::Char('q') ==> r is Quit && *final(self) == *old(self),
            (key == Key::Left || key == Key::Char('h')) ==> r is Nothing && final(self).active_pane
                == ActivePane::Files,
            (key == Key::Right || key == Key::Char('l')) ==> r is Nothing && final(self).active_pane
                == ActivePane::Overview,
            (key == Key::Down || key == Key::Char('j')) && old(self).active_pane == ActivePane::Files
                ==> r is RefreshOverview && final(self).overview_scroll == 0 && (old(self).tree_items@.len() > 0
                ==> final(self).selected as int == (old(self).selected as int + 1) % old(self).tree_items@.len() as int),
            (key == Key::Up || key == Key::Char('k')) && old(self).active_pane == ActivePane::Files
                ==> r is RefreshOverview && final(self).overview_scroll == 0,
            (key == Key::Down || key == Key::Char('j')) && old(self).active_pane == ActivePane::Overview
                ==> r is Nothing && final(self).overview_scroll == if old(self).overview_scroll < u16::MAX {
                (old(self).overview_scroll + 1) as u16
            } else {
                u16::MAX
            },
            (key == Key::Up || key == Key::Char('k')) && old(self).active_pane == ActivePane::Overview
                ==> r is Nothing && final(self).overview_scroll == if old(self).overview_scroll > 0 {
                (old(self).overview_scroll - 1) as u16
            } else {
                0
            },
            key == Key::Char('r') ==> r is Refresh,
            (key == Key::Enter || key == Key::Char(' ')) ==> r is ToggleStage,
            key == Key::Char('c') ==> r is Nothing && final(self).mode == Mode::CommitInput
                && final(self).commit_input@.len() == 0,
            key == Key::Char('p') ==> r is Push,
    {
        match key {
            Key::Char('q') => KeyAction::Quit,
            Key::Left | Key::Char('h') => {
                self.focus_left();
                KeyAction::Nothing
            },
            Key::Right | Key::Char('l') => {
                self.focus_right();
                KeyAction::Nothing
            },
            Key::Down | Key::Char('j') => {
                if self.active_pane == ActivePane::Files {
                    self.select_next();
                    self.overview_scroll = 0;
                    KeyAction::RefreshOverview
                } else {
                    self.overview_scroll = self.overview_scroll.saturating_add(1);
                    KeyAction::Nothing
                }
            },
            Key::Up | Key::Char('k') => {
                if self.active_pane == ActivePane::Files {
                    self.select_prev();
                    self.overview_scroll = 0;
                    KeyAction::RefreshOverview
                } else {
                    self.overview_scroll = self.overview_scroll.saturating_sub(1);
                    KeyAction::Nothing
                }
            },
            Key::Char('r') => KeyAction::Refresh,
            Key::Enter | Key::Char(' ') => KeyAction::ToggleStage,
            Key::Char('c') => {
                self.mode = Mode::CommitInput;
                self.commit_input = String::new();
                self.status_line = String::from_str("Commit mode: type a message and press Enter");
                KeyAction::Nothing
            },
            Key::Char('p') => KeyAction::Push,
            _ => KeyAction::Nothing,
        }
    }

    /// Handles a key while a commit message is typed.
    pub fn handle_commit_key(&mut self, key: Key) -> (r: KeyAction)
        requires
            old(self).mode == Mode::CommitInput,
        ensures
            key == Key::Esc ==> r is Nothing && final(self).mode == Mode::Normal,
            key == Key::Enter ==> final(self).mode == Mode::Normal && final(self).commit_input@.len() == 0
                && (trim(old(self).commit_input@).len() == 0 ==> r is Nothing)
                && (trim(old(self).commit_input@).len() > 0 ==> (r matches KeyAction::Commit(m) && m@
                == trim(old(self).commit_input@))),
            key == Key::Backspace ==> r is Nothing && final(self).commit_input@ == (if old(
                self,
            ).commit_input@.len() > 0 {
                old(self).commit_input@.drop_last()
            } else {
                old(self).commit_input@
            }),
            forall|c: char| key == Key::Char(c) ==> r is Nothing && final(self).commit_input@ == old(
                self,
            ).commit_input@.push(c),
    {
        match key {
            Key::Esc => {
                self.mode = Mode::Normal;
                self.status_line = String::from_str("Commit cancelled");
                KeyAction::Nothing
            },
            Key::Enter => {
                let cs = to_chars(self.commit_input.as_str());
                let message = trim_chars(&cs);
                let r = if message.len() == 0 {
                    self.status_line = String::from_str("Commit message is empty");
                    KeyAction::Nothing
                } else {
                    KeyAction::Commit(string_of(message.as_slice()))
                };
                self.mode = Mode::Normal;
                self.commit_input = String::new();
                r
            },
            Key::Backspace => {
                let cs = to_chars(self.commit_input.as_str());
                let n = cs.len();
                if n > 0 {
                    let kept = crate::text::copy_range(&cs, 0, n - 1);
                    self.commit_input = string_of(kept.as_slice());
                }
                KeyAction::Nothing
            },
            Key::Char(c) => {
                crate::text::push_char(&mut self.commit_input, c);
                KeyAction::Nothing
            },
            _ => KeyAction::Nothing,
        }
    }
}

} // verus!
