//! The overview shown for the selected row: for a file, its diff summary
//! (or, untracked, its content); for a folder, the files below it combined.
use vstd::prelude::*;
use crate::diff::{
    row_view,
    lists_set, sorted_from_set, preview_bounded, rows_view, strs, summarize_diff, summary_of_scan,
    diff_scan, truncate_chars, truncated, DiffPreviewKind, DiffPreviewLine, DiffSummary,
    PREVIEW_MAX_CHARS, };
use crate::names::{distinct, extend_names, insert_name, name_set};
use crate::status::FileEntry;
use crate::symbols::{extension_chars, extension_of, symbol_for_ext, symbol_for_ext_chars};
use crate::text::{has_prefix, line_count, push_str, lines_of, push_char, split_lines, starts_with, string_of, to_chars, views};
use crate::tree::sat_add;
use crate::status::{entries_view, entry_view};
use crate::tree::TreeItem;

verus! {

/// Rows an untracked file's preview holds.
pub const UNTRACKED_PREVIEW_ROWS: usize = 24;

/// Characters kept of an untracked line, after its `+`.
pub const UNTRACKED_PREVIEW_CHARS: usize = 95;

/// Rows a folder's preview holds.
pub const FOLDER_PREVIEW_ROWS: usize = 24;

/// Rows of each file that a folder's preview takes.
pub const FOLDER_ROWS_PER_FILE: usize = 6;

/// The words of a state label, in order.
pub open spec fn state_words(staged: bool, unstaged: bool, untracked: bool) -> Seq<Seq<char>> {
    (if staged {
        seq!["staged"@]
    } else {
        Seq::empty()
    }) + (if unstaged {
        seq!["unstaged"@]
    } else {
        Seq::empty()
    }) + (if untracked {
        seq!["new"@]
    } else {
        Seq::empty()
    })
}

/// `words` joined by `, `.
pub open spec fn join_words(words: Seq<Seq<char>>) -> Seq<char>
    decreases words.len(),
{
    if words.len() == 0 {
        Seq::empty()
    } else if words.len() == 1 {
        words[0]
    } else {
        join_words(words.drop_last()) + ", "@ + words.last()
    }
}

/// `staged`, `unstaged` and `new`, those that hold, joined by `, `; or
/// `clean` where none does.
pub open spec fn state_label(staged: bool, unstaged: bool, untracked: bool) -> Seq<char> {
    let w = state_words(staged, unstaged, untracked);
    if w.len() == 0 {
        "clean"@
    } else {
        join_words(w)
    }
}

/// The state label of an entry's flags.
pub fn build_state_label(file: &FileEntry) -> (r: String)
    ensures
        r@ == state_label(file.staged, file.unstaged, file.untracked),
{
    let ghost w = state_words(file.staged, file.unstaged, file.untracked);
    let mut out = String::new();
    let mut n: usize = 0;
    let ghost parts: Seq<Seq<char>> = Seq::empty();
    if file.staged {
        push_str(&mut out, "staged");
        n += 1;
        proof {
            parts = parts.push("staged"@);
        }
    }
    if file.unstaged {
        if n > 0 {
            push_str(&mut out, ", ");
        }
        push_str(&mut out, "unstaged");
        proof {
            if n > 0 {
                assert(join_words(parts.push("unstaged"@)) == join_words(parts) + ", "@ + "unstaged"@) by {
                    assert(parts.push("unstaged"@).drop_last() =~= parts);
                }
            }
            parts = parts.push("unstaged"@);
        }
        n += 1;
    }
    if file.untracked {
        if n > 0 {
            push_str(&mut out, ", ");
        }
        push_str(&mut out, "new");
        proof {
            if n > 0 {
                assert(join_words(parts.push("new"@)) == join_words(parts) + ", "@ + "new"@) by {
                    assert(parts.push("new"@).drop_last() =~= parts);
                }
            }
            parts = parts.push("new"@);
        }
        n += 1;
    }
    assert(parts =~= w);
    if n == 0 {
        return String::from_str("clean");
    }
    out
}

/// The symbols that the lines define, by the heuristic for `ext`.
pub open spec fn content_symbols(lines: Seq<Seq<char>>, ext: Seq<char>) -> Set<Seq<char>>
    decreases lines.len(),
{
    if lines.len() == 0 {
        Set::empty()
    } else {
        let prior = content_symbols(lines.drop_last(), ext);
        match symbol_for_ext(lines.last(), ext) {
            Some(n) => prior.insert(n),
            None => prior,
        }
    }
}

/// The preview of an untracked file: its first lines, each as an added row.
pub open spec fn untracked_preview(lines: Seq<Seq<char>>) -> Seq<(DiffPreviewKind, Seq<char>)> {
    let n = if lines.len() < UNTRACKED_PREVIEW_ROWS {
        lines.len() as int
    } else {
        UNTRACKED_PREVIEW_ROWS as int
    };
    Seq::new(
        n as nat,
        |i: int| (DiffPreviewKind::Added, seq!['+'] + truncated(lines[i], UNTRACKED_PREVIEW_CHARS as nat)),
    )
}

/// The preview of an untracked file whose current text is `content`.
pub fn preview_for_untracked(content: &str) -> (r: Vec<DiffPreviewLine>)
    ensures
        rows_view(r@) == untracked_preview(lines_of(content@)),
        preview_bounded(rows_view(r@)),
{
    let text = to_chars(content);
    let ls = split_lines(&text);
    let ghost lines = views(ls@);
    let mut preview: Vec<DiffPreviewLine> = Vec::new();
    let mut i: usize = 0;
    while i < ls.len() && i < UNTRACKED_PREVIEW_ROWS
        invariant
            i <= ls@.len(),
            i <= UNTRACKED_PREVIEW_ROWS,
            lines == views(ls@),
            preview@.len() == i,
            forall|t: int| 0 <= t < preview@.len() ==> row_view(#[trigger] preview@[t]) == (DiffPreviewKind::Added, seq!['+'] + truncated(lines[t], UNTRACKED_PREVIEW_CHARS as nat)),
        decreases ls@.len() - i,
    {
        let mut t = String::new();
        push_char(&mut t, '+');
        let body = truncate_chars(&ls[i], UNTRACKED_PREVIEW_CHARS);
        push_str(&mut t, body.as_str());
        assert(t@ =~= seq!['+'] + truncated(lines[i as int], UNTRACKED_PREVIEW_CHARS as nat));
        preview.push(DiffPreviewLine { kind: DiffPreviewKind::Added, text: t });
        i += 1;
    }
    assert(rows_view(preview@) =~= untracked_preview(lines));
    proof {
        let rv = rows_view(preview@);
        assert forall|t: int| 0 <= t < rv.len() implies (#[trigger] rv[t]).1.len() <= PREVIEW_MAX_CHARS + 3 by {
            assert(rv[t] == row_view(preview@[t]));
        }
    }
    preview
}

/// The symbols that the lines of `content` define, for the file at
/// `file_path`, in character order.
pub fn collect_methods_from_content(content: &str, file_path: &str) -> (r: Vec<String>)
    ensures
        lists_set(r@, content_symbols(lines_of(content@), extension_of(file_path@))),
{
    let text = to_chars(content);
    let ls = split_lines(&text);
    let path = to_chars(file_path);
    let ext = extension_chars(&path);
    let ghost lines = views(ls@);
    let mut names: Vec<Vec<char>> = Vec::new();
    let mut i: usize = 0;
    assert(lines.subrange(0, 0) =~= Seq::<Seq<char>>::empty());
    assert(name_set(names@) =~= Set::<Seq<char>>::empty());
    while i < ls.len()
        invariant
            i <= ls@.len(),
            lines == views(ls@),
            ext@ == extension_of(file_path@),
            distinct(names@),
            name_set(names@) == content_symbols(lines.subrange(0, i as int), ext@),
        decreases ls@.len() - i,
    {
        assert(lines.subrange(0, i + 1).drop_last() =~= lines.subrange(0, i as int));
        assert(lines.subrange(0, i + 1).last() == ls@[i as int]@);
        match symbol_for_ext_chars(&ls[i], &ext) {
            Some(n) => insert_name(&mut names, n),
            None => {},
        }
        i += 1;
    }
    assert(lines.subrange(0, ls@.len() as int) =~= lines);
    sorted_from_set(&names)
}

/// The summary of an untracked file at `file_path` whose current text is
/// `content`: every line added, the symbols of every line added, nothing
/// removed, modified or deleted.
pub fn summarize_untracked(content: &str, file_path: &str) -> (r: DiffSummary)
    ensures
        r.added_lines == lines_of(content@).len(),
        r.removed_lines == 0,
        lists_set(r.methods_added@, content_symbols(lines_of(content@), extension_of(file_path@))),
        r.methods_modified@.len() == 0,
        r.methods_deleted@.len() == 0,
        rows_view(r.diff_preview@) == untracked_preview(lines_of(content@)),
        preview_bounded(rows_view(r.diff_preview@)),
{
    DiffSummary {
        added_lines: line_count(content),
        removed_lines: 0,
        methods_added: collect_methods_from_content(content, file_path),
        methods_modified: Vec::new(),
        methods_deleted: Vec::new(),
        diff_preview: preview_for_untracked(content),
    }
}

/// What the overview panel shows for one row.
#[derive(Clone, Debug)]
pub struct FileOverview {
    pub file: String,
    pub state: String,
    pub added_lines: usize,
    pub removed_lines: usize,
    pub methods_added: Vec<String>,
    pub methods_modified: Vec<String>,
    pub methods_deleted: Vec<String>,
    pub traditional_diff: Vec<DiffPreviewLine>,
    pub use_traditional_overview: bool,
}

/// The summary part of an overview.
pub open spec fn summary_part(o: FileOverview) -> DiffSummary {
    DiffSummary {
        added_lines: o.added_lines,
        removed_lines: o.removed_lines,
        methods_added: o.methods_added,
        methods_modified: o.methods_modified,
        methods_deleted: o.methods_deleted,
        diff_preview: o.traditional_diff,
    }
}

/// The raw preview is shown exactly when no symbol was found.
pub open spec fn fallback_flag(o: FileOverview) -> bool {
    o.use_traditional_overview == (o.methods_added@.len() == 0 && o.methods_modified@.len() == 0
        && o.methods_deleted@.len() == 0)
}

fn overview_of(file: String, state: String, s: DiffSummary) -> (r: FileOverview)
    ensures
        r.file == file,
        r.state == state,
        summary_part(r) == s,
        fallback_flag(r),
{
    let use_traditional_overview = s.methods_added.len() == 0 && s.methods_modified.len() == 0
        && s.methods_deleted.len() == 0;
    FileOverview {
        file,
        state,
        added_lines: s.added_lines,
        removed_lines: s.removed_lines,
        methods_added: s.methods_added,
        methods_modified: s.methods_modified,
        methods_deleted: s.methods_deleted,
        traditional_diff: s.diff_preview,
        use_traditional_overview,
    }
}

/// The overview of one file. `text` is the file's current content where it
/// is untracked (none where it could not be read, which counts as empty),
/// and its diff against the last commit otherwise (none where there is no
/// diff to show, which leaves every count zero).
pub fn build_file_overview(file: &FileEntry, text: Option<&str>) -> (r: FileOverview)
    ensures
        r.file@ == file.path@,
        r.state@ == state_label(file.staged, file.unstaged, file.untracked),
        fallback_flag(r),
        file.untracked ==> ({
            let content = match text {
                Some(t) => t@,
                None => Seq::empty(),
            };
            let s = summary_part(r);
            &&& s.added_lines == lines_of(content).len()
            &&& s.removed_lines == 0
            &&& lists_set(s.methods_added@, content_symbols(lines_of(content), extension_of(file.path@)))
            &&& s.methods_modified@.len() == 0
            &&& s.methods_deleted@.len() == 0
            &&& rows_view(s.diff_preview@) == untracked_preview(lines_of(content))
        }),
        !file.untracked && text is Some ==> summary_of_scan(
            summary_part(r),
            diff_scan(text->0@, file.path@),
        ),
        !file.untracked && text is None ==> r.added_lines == 0 && r.removed_lines == 0
            && r.methods_added@.len() == 0 && r.methods_modified@.len() == 0
            && r.methods_deleted@.len() == 0 && r.traditional_diff@.len() == 0,
        preview_bounded(rows_view(r.traditional_diff@)),
{
    let state = build_state_label(file);
    let path = string_of(to_chars(file.path.as_str()).as_slice());
    let summary = if file.untracked {
        let content = match text {
            Some(t) => t,
            None => "",
        };
        proof {
            reveal_strlit("");
        }
        summarize_untracked(content, file.path.as_str())
    } else {
        match text {
            Some(d) => summarize_diff(d, file.path.as_str()),
            None => {
                let s = DiffSummary {
                    added_lines: 0,
                    removed_lines: 0,
                    methods_added: Vec::new(),
                    methods_modified: Vec::new(),
                    methods_deleted: Vec::new(),
                    diff_preview: Vec::new(),
                };
                assert(rows_view(s.diff_preview@) =~= Seq::<(DiffPreviewKind, Seq<char>)>::empty());
                s
            },
        }
    };
    overview_of(path, state, summary)
}

/// `path` is `folder` or lies below it.
pub open spec fn in_folder(folder: Seq<char>, path: Seq<char>) -> bool {
    path == folder || starts_with(path, folder + seq!['/'])
}

/// The entries of `files` that lie in `folder`, in order.
pub open spec fn members_of(files: Seq<FileEntry>, folder: Seq<char>) -> Seq<FileEntry>
    decreases files.len(),
{
    if files.len() == 0 {
        Seq::empty()
    } else {
        let prior = members_of(files.drop_last(), folder);
        if in_folder(folder, files.last().path@) {
            prior.push(files.last())
        } else {
            prior
        }
    }
}

/// The entries of `files` whose overviews make up the overview of the
/// folder at `folder_path`.
pub fn folder_members(folder_path: &str, files: &Vec<FileEntry>) -> (r: Vec<FileEntry>)
    ensures
        entries_view(r@) == entries_view(members_of(files@, folder_path@)),
{
    let f = to_chars(folder_path);
    let mut prefix = to_chars(folder_path);
    prefix.push('/');
    let mut out: Vec<FileEntry> = Vec::new();
    let mut i: usize = 0;
    assert(files@.subrange(0, 0) =~= Seq::<FileEntry>::empty());
    assert(entries_view(out@) =~= entries_view(members_of(files@.subrange(0, 0), folder_path@)));
    while i < files.len()
        invariant
            i <= files@.len(),
            f@ == folder_path@,
            prefix@ == folder_path@ + seq!['/'],
            entries_view(out@) == entries_view(members_of(files@.subrange(0, i as int), folder_path@)),
        decreases files@.len() - i,
    {
        assert(files@.subrange(0, i + 1).drop_last() =~= files@.subrange(0, i as int));
        let p = to_chars(files[i].path.as_str());
        let inside = crate::names::same_chars(&p, &f) || has_prefix(&p, &prefix);
        let ghost before = entries_view(out@);
        if inside {
            let e = FileEntry {
                path: string_of(p.as_slice()),
                staged: files[i].staged,
                unstaged: files[i].unstaged,
                untracked: files[i].untracked,
            };
            out.push(e);
            assert(entries_view(out@) =~= before.push(entry_view(files@[i as int])));
        }
        i += 1;
        assert(entries_view(members_of(files@.subrange(0, i as int), folder_path@)) =~= (if inside {
            before.push(entry_view(files@[i - 1]))
        } else {
            before
        }));
    }
    assert(files@.subrange(0, files@.len() as int) =~= files@);
    out
}

/// One of the three symbol sets of `m`: 0 added, 1 modified, 2 deleted.
pub open spec fn member_names(m: FileOverview, which: int) -> Set<Seq<char>> {
    strs(
        if which == 0 {
            m.methods_added@
        } else if which == 1 {
            m.methods_modified@
        } else {
            m.methods_deleted@
        },
    ).to_set()
}

/// The union of one of the symbol sets over `ms`.
pub open spec fn union_names(ms: Seq<FileOverview>, which: int) -> Set<Seq<char>>
    decreases ms.len(),
{
    if ms.len() == 0 {
        Set::empty()
    } else {
        union_names(ms.drop_last(), which).union(member_names(ms.last(), which))
    }
}

/// The added (`removed` false) or removed line counts of `ms`, summed,
/// saturating at `usize::MAX`.
pub open spec fn total_lines(ms: Seq<FileOverview>, removed: bool) -> usize
    decreases ms.len(),
{
    if ms.len() == 0 {
        0
    } else {
        sat_add(
            total_lines(ms.drop_last(), removed),
            if removed {
                ms.last().removed_lines
            } else {
                ms.last().added_lines
            },
        )
    }
}

/// The marker row that opens a file's part of a folder preview.
pub open spec fn marker_text(file: Seq<char>) -> Seq<char> {
    truncated("file: "@ + file, PREVIEW_MAX_CHARS as nat)
}

/// How many of a file's `avail` rows follow its marker when the preview
/// holds `len` rows after it.
pub open spec fn rows_taken(avail: int, len: int) -> int {
    let room = FOLDER_PREVIEW_ROWS - len;
    let a = if avail < FOLDER_ROWS_PER_FILE {
        avail
    } else {
        FOLDER_ROWS_PER_FILE as int
    };
    if room < 0 {
        0
    } else if a < room {
        a
    } else {
        room
    }
}

/// The preview of a folder: per file, while there is room, a marker row
/// and the first rows of the file's own preview.
pub open spec fn folder_preview(ms: Seq<FileOverview>) -> Seq<(DiffPreviewKind, Seq<char>)>
    decreases ms.len(),
{
    if ms.len() == 0 {
        Seq::empty()
    } else {
        let prior = folder_preview(ms.drop_last());
        let m = ms.last();
        if prior.len() < FOLDER_PREVIEW_ROWS {
            let opened = prior.push((DiffPreviewKind::Meta, marker_text(m.file@)));
            let own = rows_view(m.traditional_diff@);
            opened + own.subrange(0, rows_taken(own.len() as int, opened.len() as int))
        } else {
            prior
        }
    }
}

fn strings_to_names(v: &Vec<String>) -> (r: Vec<Vec<char>>)
    ensures
        views(r@) == strs(v@),
{
    let mut out: Vec<Vec<char>> = Vec::new();
    let mut i: usize = 0;
    while i < v.len()
        invariant
            i <= v@.len(),
            views(out@) == strs(v@).subrange(0, i as int),
        decreases v@.len() - i,
    {
        let ghost before = views(out@);
        let c = to_chars(v[i].as_str());
        out.push(c);
        assert(views(out@) =~= before.push(v@[i as int]@));
        i += 1;
        assert(views(out@) =~= strs(v@).subrange(0, i as int));
    }
    assert(strs(v@).subrange(0, v@.len() as int) =~= strs(v@));
    out
}

fn add_member_names(acc: &mut Vec<Vec<char>>, v: &Vec<String>)
    requires
        distinct(old(acc)@),
    ensures
        distinct(final(acc)@),
        name_set(final(acc)@) == name_set(old(acc)@).union(strs(v@).to_set()),
{
    let names = strings_to_names(v);
    extend_names(acc, &names);
}

fn copy_row(r: &DiffPreviewLine) -> (c: DiffPreviewLine)
    ensures
        row_view(c) == row_view(*r),
{
    DiffPreviewLine { kind: r.kind, text: r.text.clone() }
}

/// The overview of a folder from the overviews of the files in it:
/// line counts summed, symbol sets united, and a preview of a marker row
/// and the first rows of each file while there is room.
pub fn build_folder_overview(folder: &TreeItem, members: &Vec<FileOverview>) -> (r: FileOverview)
    ensures
        r.file@ == folder.path@ + seq!['/'],
        r.state@ == state_label(folder.staged, folder.unstaged, folder.untracked),
        r.added_lines == total_lines(members@, false),
        r.removed_lines == total_lines(members@, true),
        lists_set(r.methods_added@, union_names(members@, 0)),
        lists_set(r.methods_modified@, union_names(members@, 1)),
        lists_set(r.methods_deleted@, union_names(members@, 2)),
        rows_view(r.traditional_diff@) == folder_preview(members@),
        r.traditional_diff@.len() <= FOLDER_PREVIEW_ROWS,
        (forall|k: int| 0 <= k < members@.len() ==> preview_bounded(rows_view(#[trigger] members@[k].traditional_diff@)))
            ==> preview_bounded(rows_view(r.traditional_diff@)),
        fallback_flag(r),
{
    let mut added: usize = 0;
    let mut removed: usize = 0;
    let mut m_added: Vec<Vec<char>> = Vec::new();
    let mut m_modified: Vec<Vec<char>> = Vec::new();
    let mut m_deleted: Vec<Vec<char>> = Vec::new();
    let mut preview: Vec<DiffPreviewLine> = Vec::new();
    let ghost ms = members@;
    let marker = to_chars("file: ");
    assert(ms.subrange(0, 0) =~= Seq::<FileOverview>::empty());
    assert(name_set(m_added@) =~= Set::<Seq<char>>::empty());
    assert(rows_view(preview@) =~= Seq::<(DiffPreviewKind, Seq<char>)>::empty());
    let mut i: usize = 0;
    while i < members.len()
        invariant
            i <= ms.len(),
            ms == members@,
            marker@ == "file: "@,
            added == total_lines(ms.subrange(0, i as int), false),
            removed == total_lines(ms.subrange(0, i as int), true),
            distinct(m_added@),
            distinct(m_modified@),
            distinct(m_deleted@),
            name_set(m_added@) == union_names(ms.subrange(0, i as int), 0),
            name_set(m_modified@) == union_names(ms.subrange(0, i as int), 1),
            name_set(m_deleted@) == union_names(ms.subrange(0, i as int), 2),
            rows_view(preview@) == folder_preview(ms.subrange(0, i as int)),
            preview@.len() <= FOLDER_PREVIEW_ROWS,
        decreases ms.len() - i,
    {
        assert(ms.subrange(0, i + 1).drop_last() =~= ms.subrange(0, i as int));
        assert(ms.subrange(0, i + 1).last() == ms[i as int]);
        let m = &members[i];
        added = added.saturating_add(m.added_lines);
        removed = removed.saturating_add(m.removed_lines);
        add_member_names(&mut m_added, &m.methods_added);
        add_member_names(&mut m_modified, &m.methods_modified);
        add_member_names(&mut m_deleted, &m.methods_deleted);
        if preview.len() < FOLDER_PREVIEW_ROWS {
            let mut text_chars = copy_marker(&marker);
            let fc = to_chars(m.file.as_str());
            let mut t: usize = 0;
            let ghost start = text_chars@;
            while t < fc.len()
                invariant
                    t <= fc@.len(),
                    text_chars@ == start + fc@.subrange(0, t as int),
                decreases fc@.len() - t,
            {
                text_chars.push(fc[t]);
                t += 1;
                assert(text_chars@ =~= start + fc@.subrange(0, t as int));
            }
            assert(fc@.subrange(0, fc@.len() as int) =~= fc@);
            let text = truncate_chars(&text_chars, PREVIEW_MAX_CHARS);
            let ghost before = rows_view(preview@);
            let row = DiffPreviewLine { kind: DiffPreviewKind::Meta, text };
            preview.push(row);
            assert(rows_view(preview@) =~= before.push(row_view(row)));
            let ghost opened = rows_view(preview@);
            let ghost own = rows_view(m.traditional_diff@);
            let mut k: usize = 0;
            while k < m.traditional_diff.len() && k < FOLDER_ROWS_PER_FILE
                invariant
                    k <= own.len(),
                    own == rows_view(m.traditional_diff@),
                    opened.len() <= FOLDER_PREVIEW_ROWS,
                    k <= rows_taken(own.len() as int, opened.len() as int),
                    rows_view(preview@) == opened + own.subrange(0, k as int),
                    preview@.len() <= FOLDER_PREVIEW_ROWS,
                ensures
                    rows_view(preview@) == opened + own.subrange(0, k as int),
                    preview@.len() <= FOLDER_PREVIEW_ROWS,
                    k == rows_taken(own.len() as int, opened.len() as int),
                decreases own.len() - k,
            {
                if preview.len() >= FOLDER_PREVIEW_ROWS {
                    assert(rows_view(preview@).len() == preview@.len());
                    assert((opened + own.subrange(0, k as int)).len() == opened.len() + k);
                    break;
                }
                let ghost b2 = rows_view(preview@);
                let c = copy_row(&m.traditional_diff[k]);
                preview.push(c);
                assert(rows_view(preview@) =~= b2.push(own[k as int]));
                k += 1;
                assert(rows_view(preview@) =~= opened + own.subrange(0, k as int));
            }
        }
        i += 1;
    }
    assert(ms.subrange(0, ms.len() as int) =~= ms);
    proof {
        if forall|k: int| 0 <= k < ms.len() ==> preview_bounded(rows_view(#[trigger] ms[k].traditional_diff@)) {
            lemma_folder_preview_bounded(ms);
        }
    }
    let mut file = string_of(to_chars(folder.path.as_str()).as_slice());
    push_char(&mut file, '/');
    let state = build_state_label(&FileEntry {
        path: String::new(),
        staged: folder.staged,
        unstaged: folder.unstaged,
        untracked: folder.untracked,
    });
    let s = DiffSummary {
        added_lines: added,
        removed_lines: removed,
        methods_added: sorted_from_set(&m_added),
        methods_modified: sorted_from_set(&m_modified),
        methods_deleted: sorted_from_set(&m_deleted),
        diff_preview: preview,
    };
    overview_of(file, state, s)
}

/// A folder preview built from bounded file previews is bounded.
pub proof fn lemma_folder_preview_bounded(ms: Seq<FileOverview>)
    requires
        forall|k: int| 0 <= k < ms.len() ==> preview_bounded(rows_view(#[trigger] ms[k].traditional_diff@)),
    ensures
        preview_bounded(folder_preview(ms)),
    decreases ms.len(),
{
    if ms.len() > 0 {
        let init = ms.drop_last();
        assert forall|k: int| 0 <= k < init.len() implies preview_bounded(rows_view(#[trigger] init[k].traditional_diff@)) by {
            assert(init[k] == ms[k]);
        }
        lemma_folder_preview_bounded(init);
        let prior = folder_preview(init);
        let m = ms.last();
        assert(preview_bounded(rows_view(m.traditional_diff@)));
        if prior.len() < FOLDER_PREVIEW_ROWS {
            let opened = prior.push((DiffPreviewKind::Meta, marker_text(m.file@)));
            let own = rows_view(m.traditional_diff@);
            let n = rows_taken(own.len() as int, opened.len() as int);
            let r = opened + own.subrange(0, n);
            assert forall|i: int| 0 <= i < r.len() implies (#[trigger] r[i]).1.len() <= PREVIEW_MAX_CHARS + 3 by {
                if i < prior.len() {
                    assert(r[i] == prior[i]);
                } else if i == prior.len() {
                    assert(r[i] == opened[i]);
                } else {
                    assert(r[i] == own[i - opened.len()]);
                }
            }
        }
    }
}

fn copy_marker(m: &Vec<char>) -> (r: Vec<char>)
    ensures
        r@ == m@,
{
    let r = crate::text::copy_range(m, 0, m.len());
    assert(m@.subrange(0, m@.len() as int) =~= m@);
    r
}

} // verus!
