//! Summary of one file's zero-context unified diff: line counts, the
//! symbols added, modified and deleted, and a bounded preview.
use vstd::prelude::*;
use crate::text::{
    copy_range, find_chars, find_seq, has_prefix, lines_of, push_char, skip_view, split_lines,
    starts_with, string_of, to_chars, trim, trim_chars, views,
};
use crate::symbols::{extension_chars, extension_of, opt_view, symbol_for_ext, symbol_for_ext_chars};
use crate::names::{distinct, extend_names, insert_name, name_set, names_sorted, select_names, sorted_names};

verus! {

/// Most rows a preview holds.
pub const PREVIEW_MAX_ROWS: usize = 28;

/// Most characters kept of a preview row's text before `...` is appended.
pub const PREVIEW_MAX_CHARS: usize = 96;

#[derive(Clone, Copy, Debug, PartialEq, Eq, Structural)]
pub enum DiffPreviewKind {
    Added,
    Removed,
    Meta,
    Context,
}

#[derive(Clone, Debug)]
pub struct DiffPreviewLine {
    pub kind: DiffPreviewKind,
    pub text: String,
}

/// `s` cut to its first `n` characters followed by `...`, where it is longer.
pub open spec fn truncated(s: Seq<char>, n: nat) -> Seq<char> {
    if s.len() > n {
        s.subrange(0, n as int) + seq!['.', '.', '.']
    } else {
        s
    }
}

/// A preview row as the contracts see it.
pub open spec fn row_view(r: DiffPreviewLine) -> (DiffPreviewKind, Seq<char>) {
    (r.kind, r.text@)
}

pub open spec fn rows_view(rs: Seq<DiffPreviewLine>) -> Seq<(DiffPreviewKind, Seq<char>)> {
    rs.map_values(|r: DiffPreviewLine| row_view(r))
}

/// `rows` with one more row for `raw`, unless it is full.
pub open spec fn preview_push(
    rows: Seq<(DiffPreviewKind, Seq<char>)>,
    kind: DiffPreviewKind,
    raw: Seq<char>,
) -> Seq<(DiffPreviewKind, Seq<char>)> {
    if rows.len() >= PREVIEW_MAX_ROWS {
        rows
    } else {
        rows.push((kind, truncated(raw, PREVIEW_MAX_CHARS as nat)))
    }
}

/// Every row fits the preview's bounds.
pub open spec fn preview_bounded(rows: Seq<(DiffPreviewKind, Seq<char>)>) -> bool {
    &&& rows.len() <= PREVIEW_MAX_ROWS
    &&& forall|i: int| 0 <= i < rows.len() ==> (#[trigger] rows[i]).1.len() <= PREVIEW_MAX_CHARS + 3
}

/// The text between the second and the third `@@` of a hunk header
/// (or its end), trimmed, where that is not empty.
pub open spec fn hunk_context(line: Seq<char>) -> Option<Seq<char>> {
    match find_seq(line, "@@"@) {
        None => None,
        Some(i1) => {
            let r1 = skip_view(line, i1 + 2);
            match find_seq(r1, "@@"@) {
                None => None,
                Some(i2) => {
                    let r2 = skip_view(r1, i2 + 2);
                    let piece = match find_seq(r2, "@@"@) {
                        Some(i3) => r2.subrange(0, i3),
                        None => r2,
                    };
                    if trim(piece).len() == 0 {
                        None
                    } else {
                        Some(trim(piece))
                    }
                },
            }
        },
    }
}

/// The state carried from line to line while a diff is read.
pub struct DiffScan {
    pub added: nat,
    pub removed: nat,
    pub touched: Set<Seq<char>>,
    pub added_candidates: Set<Seq<char>>,
    pub removed_candidates: Set<Seq<char>>,
    pub hunk: Option<Seq<char>>,
    pub preview: Seq<(DiffPreviewKind, Seq<char>)>,
}

pub open spec fn scan_start() -> DiffScan {
    DiffScan {
        added: 0,
        removed: 0,
        touched: Set::empty(),
        added_candidates: Set::empty(),
        removed_candidates: Set::empty(),
        hunk: None,
        preview: Seq::empty(),
    }
}

pub open spec fn insert_opt(s: Set<Seq<char>>, x: Option<Seq<char>>) -> Set<Seq<char>> {
    match x {
        Some(v) => s.insert(v),
        None => s,
    }
}

pub open spec fn is_file_header(line: Seq<char>) -> bool {
    starts_with(line, "+++"@) || starts_with(line, "---"@) || starts_with(line, "diff --git"@)
        || starts_with(line, "index "@)
}

/// One line of the diff read in state `st`, for a file with extension `ext`.
pub open spec fn scan_line(st: DiffScan, line: Seq<char>, ext: Seq<char>) -> DiffScan {
    if starts_with(line, "@@"@) {
        DiffScan {
            hunk: match hunk_context(line) {
                Some(h) => symbol_for_ext(h, ext),
                None => None,
            },
            preview: preview_push(st.preview, DiffPreviewKind::Meta, line),
            ..st
        }
    } else if is_file_header(line) {
        DiffScan { preview: preview_push(st.preview, DiffPreviewKind::Meta, line), ..st }
    } else if line.len() > 0 && line[0] == '+' {
        DiffScan {
            added: st.added + 1,
            touched: insert_opt(st.touched, st.hunk),
            added_candidates: insert_opt(st.added_candidates, symbol_for_ext(line.drop_first(), ext)),
            preview: preview_push(st.preview, DiffPreviewKind::Added, line),
            ..st
        }
    } else if line.len() > 0 && line[0] == '-' {
        DiffScan {
            removed: st.removed + 1,
            touched: insert_opt(st.touched, st.hunk),
            removed_candidates: insert_opt(
                st.removed_candidates,
                symbol_for_ext(line.drop_first(), ext),
            ),
            preview: preview_push(st.preview, DiffPreviewKind::Removed, line),
            ..st
        }
    } else {
        DiffScan { preview: preview_push(st.preview, DiffPreviewKind::Context, line), ..st }
    }
}

/// The state after reading `lines` in order.
pub open spec fn scan(lines: Seq<Seq<char>>, ext: Seq<char>) -> DiffScan
    decreases lines.len(),
{
    if lines.len() == 0 {
        scan_start()
    } else {
        scan_line(scan(lines.drop_last(), ext), lines.last(), ext)
    }
}

/// Symbols whose definition line was added and none removed.
pub open spec fn methods_added_of(st: DiffScan) -> Set<Seq<char>> {
    st.added_candidates.difference(st.removed_candidates)
}

/// Symbols whose definition line was removed and none added.
pub open spec fn methods_deleted_of(st: DiffScan) -> Set<Seq<char>> {
    st.removed_candidates.difference(st.added_candidates)
}

/// Symbols touched by a hunk, or defined on both an added and a removed
/// line, that are neither added nor deleted.
pub open spec fn methods_modified_of(st: DiffScan) -> Set<Seq<char>> {
    st.touched.union(st.added_candidates.intersect(st.removed_candidates)).difference(
        methods_added_of(st).union(methods_deleted_of(st)),
    )
}

/// The reading of `diff` for the file at `path`.
pub open spec fn diff_scan(diff: Seq<char>, path: Seq<char>) -> DiffScan {
    scan(lines_of(diff), extension_of(path))
}

pub fn truncate_chars(cs: &Vec<char>, max_chars: usize) -> (r: String)
    ensures
        r@ == truncated(cs@, max_chars as nat),
{
    let mut out = String::new();
    let mut i: usize = 0;
    while i < cs.len()
        invariant
            i <= cs@.len(),
            i <= max_chars,
            out@ == cs@.subrange(0, i as int),
        decreases cs@.len() - i,
    {
        if i >= max_chars {
            push_char(&mut out, '.');
            push_char(&mut out, '.');
            push_char(&mut out, '.');
            assert(out@ =~= cs@.subrange(0, max_chars as int) + seq!['.', '.', '.']);
            return out;
        }
        push_char(&mut out, cs[i]);
        i += 1;
        assert(out@ =~= cs@.subrange(0, i as int));
    }
    assert(out@ =~= cs@);
    out
}

/// `text` cut to `max_chars` characters followed by `...`, where it is longer.
pub fn truncate_text(text: &str, max_chars: usize) -> (r: String)
    ensures
        r@ == truncated(text@, max_chars as nat),
        r@.len() <= max_chars + 3,
{
    let cs = to_chars(text);
    truncate_chars(&cs, max_chars)
}

/// Appends a row for `raw` unless the preview is full.
pub fn push_preview_line(lines: &mut Vec<DiffPreviewLine>, kind: DiffPreviewKind, raw: &Vec<char>)
    ensures
        rows_view(final(lines)@) == preview_push(rows_view(old(lines)@), kind, raw@),
{
    if lines.len() >= PREVIEW_MAX_ROWS {
        return;
    }
    let text = truncate_chars(raw, PREVIEW_MAX_CHARS);
    let ghost before = rows_view(lines@);
    let row = DiffPreviewLine { kind, text };
    lines.push(row);
    assert(rows_view(lines@) =~= before.push(row_view(row)));
}

pub fn hunk_context_chars(line: &Vec<char>) -> (r: Option<Vec<char>>)
    ensures
        opt_view(r) == hunk_context(line@),
{
    let marker = to_chars("@@");
    proof {
        reveal_strlit("@@");
    }
    let i1 = match find_chars(line, &marker) {
        Some(i) => i,
        None => return None,
    };
    let r1 = copy_range(line, i1 + marker.len(), line.len());
    let i2 = match find_chars(&r1, &marker) {
        Some(i) => i,
        None => return None,
    };
    let r2 = copy_range(&r1, i2 + marker.len(), r1.len());
    let piece = match find_chars(&r2, &marker) {
        Some(i3) => copy_range(&r2, 0, i3),
        None => r2,
    };
    let tail = trim_chars(&piece);
    if tail.len() == 0 {
        None
    } else {
        Some(tail)
    }
}

/// The trimmed text after the second `@@` of a hunk header, where there is any.
pub fn parse_hunk_header(line: &str) -> (r: Option<String>)
    ensures
        r matches Some(h) ==> hunk_context(line@) == Some(h@),
        r is None ==> hunk_context(line@) is None,
{
    let cs = to_chars(line);
    match hunk_context_chars(&cs) {
        Some(h) => Some(string_of(h.as_slice())),
        None => None,
    }
}

/// What a diff says of one file.
#[derive(Clone, Debug)]
pub struct DiffSummary {
    pub added_lines: usize,
    pub removed_lines: usize,
    pub methods_added: Vec<String>,
    pub methods_modified: Vec<String>,
    pub methods_deleted: Vec<String>,
    pub diff_preview: Vec<DiffPreviewLine>,
}

/// The character sequences of `v`.
pub open spec fn strs(v: Seq<String>) -> Seq<Seq<char>> {
    v.map_values(|x: String| x@)
}

/// `v` holds each name of `s` once, and nothing else, in character order.
pub open spec fn lists_set(v: Seq<String>, s: Set<Seq<char>>) -> bool {
    strs(v).to_set() == s && strs(v).no_duplicates() && names_sorted(strs(v))
}

/// `r` reports the reading `st` of a diff.
pub open spec fn summary_of_scan(r: DiffSummary, st: DiffScan) -> bool {
    &&& r.added_lines == st.added
    &&& r.removed_lines == st.removed
    &&& lists_set(r.methods_added@, methods_added_of(st))
    &&& lists_set(r.methods_modified@, methods_modified_of(st))
    &&& lists_set(r.methods_deleted@, methods_deleted_of(st))
    &&& rows_view(r.diff_preview@) == st.preview
}

/// The three reconciled sets are pairwise disjoint, whatever was read.
pub proof fn lemma_reconciled_sets_disjoint(st: DiffScan)
    ensures
        methods_added_of(st).disjoint(methods_modified_of(st)),
        methods_added_of(st).disjoint(methods_deleted_of(st)),
        methods_modified_of(st).disjoint(methods_deleted_of(st)),
{
}

/// Every preview that `preview_push` builds from an empty one stays bounded.
pub proof fn lemma_preview_push_bounded(
    rows: Seq<(DiffPreviewKind, Seq<char>)>,
    kind: DiffPreviewKind,
    raw: Seq<char>,
)
    requires
        preview_bounded(rows),
    ensures
        preview_bounded(preview_push(rows, kind, raw)),
{
    let r = preview_push(rows, kind, raw);
    assert forall|i: int| 0 <= i < r.len() implies (#[trigger] r[i]).1.len() <= PREVIEW_MAX_CHARS
        + 3 by {
        if i < rows.len() {
            assert(r[i] == rows[i]);
        }
    }
}

pub proof fn lemma_scan_preview_bounded(lines: Seq<Seq<char>>, ext: Seq<char>)
    ensures
        preview_bounded(scan(lines, ext).preview),
    decreases lines.len(),
{
    if lines.len() > 0 {
        let st = scan(lines.drop_last(), ext);
        lemma_scan_preview_bounded(lines.drop_last(), ext);
        let line = lines.last();
        let kind = if starts_with(line, "@@"@) || is_file_header(line) {
            DiffPreviewKind::Meta
        } else if line.len() > 0 && line[0] == '+' {
            DiffPreviewKind::Added
        } else if line.len() > 0 && line[0] == '-' {
            DiffPreviewKind::Removed
        } else {
            DiffPreviewKind::Context
        };
        lemma_preview_push_bounded(st.preview, kind, line);
    }
}

/// The names of `v` as strings, in the same order.
pub fn names_to_strings(v: &Vec<Vec<char>>) -> (r: Vec<String>)
    ensures
        strs(r@) == views(v@),
{
    let mut out: Vec<String> = Vec::new();
    let mut i: usize = 0;
    while i < v.len()
        invariant
            i <= v@.len(),
            strs(out@) == views(v@).subrange(0, i as int),
        decreases v@.len() - i,
    {
        let ghost before = strs(out@);
        let sv = string_of(v[i].as_slice());
        assert(sv@ == views(v@)[i as int]);
        out.push(sv);
        assert(strs(out@) =~= before.push(sv@));
        i += 1;
        assert(strs(out@) =~= views(v@).subrange(0, i as int));
    }
    assert(views(v@).subrange(0, v@.len() as int) =~= views(v@));
    out
}

/// The names of `v` as strings, in character order, each once.
pub fn sorted_from_set(v: &Vec<Vec<char>>) -> (r: Vec<String>)
    ensures
        lists_set(r@, name_set(v@)),
{
    let sorted = sorted_names(v);
    names_to_strings(&sorted)
}

fn insert_opt_name(v: &mut Vec<Vec<char>>, x: Option<Vec<char>>)
    requires
        distinct(old(v)@),
    ensures
        distinct(final(v)@),
        name_set(final(v)@) == insert_opt(name_set(old(v)@), opt_view(x)),
{
    if let Some(n) = x {
        insert_name(v, n);
    }
}

/// Reads `diff`, the zero-context unified diff of the file at `file_path`,
/// line by line, and reconciles the symbols it saw.
pub fn summarize_diff(diff: &str, file_path: &str) -> (r: DiffSummary)
    ensures
        summary_of_scan(r, diff_scan(diff@, file_path@)),
        preview_bounded(rows_view(r.diff_preview@)),
        strs(r.methods_added@).to_set().disjoint(strs(r.methods_modified@).to_set()),
        strs(r.methods_added@).to_set().disjoint(strs(r.methods_deleted@).to_set()),
        strs(r.methods_modified@).to_set().disjoint(strs(r.methods_deleted@).to_set()),
{
    let text = to_chars(diff);
    let ls = split_lines(&text);
    let path = to_chars(file_path);
    let ext = extension_chars(&path);
    let hunk_mark = to_chars("@@");
    let plus3 = to_chars("+++");
    let minus3 = to_chars("---");
    let diff_git = to_chars("diff --git");
    let index_mark = to_chars("index ");

    let mut added: usize = 0;
    let mut removed: usize = 0;
    let mut touched: Vec<Vec<char>> = Vec::new();
    let mut add_cands: Vec<Vec<char>> = Vec::new();
    let mut rem_cands: Vec<Vec<char>> = Vec::new();
    let mut hunk: Option<Vec<char>> = None;
    let mut preview: Vec<DiffPreviewLine> = Vec::new();

    let ghost lines = views(ls@);
    proof {
        assert(name_set(touched@) =~= Set::<Seq<char>>::empty());
        assert(rows_view(preview@) =~= Seq::<(DiffPreviewKind, Seq<char>)>::empty());
        assert(lines.subrange(0, 0) =~= Seq::<Seq<char>>::empty());
    }
    let mut i: usize = 0;
    while i < ls.len()
        invariant
            i <= ls@.len(),
            lines == views(ls@),
            ext@ == extension_of(path@),
            path@ == file_path@,
            hunk_mark@ == "@@"@,
            plus3@ == "+++"@,
            minus3@ == "---"@,
            diff_git@ == "diff --git"@,
            index_mark@ == "index "@,
            added + removed <= i,
            distinct(touched@),
            distinct(add_cands@),
            distinct(rem_cands@),
            ({
                let st = scan(lines.subrange(0, i as int), ext@);
                &&& added == st.added
                &&& removed == st.removed
                &&& name_set(touched@) == st.touched
                &&& name_set(add_cands@) == st.added_candidates
                &&& name_set(rem_cands@) == st.removed_candidates
                &&& opt_view(hunk) == st.hunk
                &&& rows_view(preview@) == st.preview
            }),
        decreases ls@.len() - i,
    {
        let line = &ls[i];
        proof {
            assert(lines.subrange(0, i + 1).drop_last() =~= lines.subrange(0, i as int));
            assert(lines.subrange(0, i + 1).last() == line@);
        }
        if has_prefix(line, &hunk_mark) {
            hunk = match hunk_context_chars(line) {
                Some(h) => symbol_for_ext_chars(&h, &ext),
                None => None,
            };
            push_preview_line(&mut preview, DiffPreviewKind::Meta, line);
        } else if has_prefix(line, &plus3) || has_prefix(line, &minus3) || has_prefix(
            line,
            &diff_git,
        ) || has_prefix(line, &index_mark) {
            push_preview_line(&mut preview, DiffPreviewKind::Meta, line);
        } else if line.len() > 0 && (line[0] == '+' || line[0] == '-') {
            let rest = copy_range(line, 1, line.len());
            assert(rest@ =~= line@.drop_first());
            let cand = symbol_for_ext_chars(&rest, &ext);
            let h = match &hunk {
                Some(v) => Some(copy_range(v, 0, v.len())),
                None => None,
            };
            proof {
                if hunk is Some {
                    let v = hunk->0;
                    assert(v@.subrange(0, v@.len() as int) =~= v@);
                }
            }
            insert_opt_name(&mut touched, h);
            if line[0] == '+' {
                added += 1;
                insert_opt_name(&mut add_cands, cand);
                push_preview_line(&mut preview, DiffPreviewKind::Added, line);
            } else {
                removed += 1;
                insert_opt_name(&mut rem_cands, cand);
                push_preview_line(&mut preview, DiffPreviewKind::Removed, line);
            }
        } else {
            push_preview_line(&mut preview, DiffPreviewKind::Context, line);
        }
        i += 1;
    }
    proof {
        assert(lines.subrange(0, ls@.len() as int) =~= lines);
        lemma_scan_preview_bounded(lines, ext@);
        lemma_reconciled_sets_disjoint(scan(lines, ext@));
    }
    let m_added = select_names(&add_cands, &rem_cands, false);
    let m_deleted = select_names(&rem_cands, &add_cands, false);
    let overlap = select_names(&add_cands, &rem_cands, true);
    let mut touched_all = touched;
    extend_names(&mut touched_all, &overlap);
    let mut either = select_names(&add_cands, &rem_cands, false);
    extend_names(&mut either, &m_deleted);
    let m_modified = select_names(&touched_all, &either, false);
    DiffSummary {
        added_lines: added,
        removed_lines: removed,
        methods_added: sorted_from_set(&m_added),
        methods_modified: sorted_from_set(&m_modified),
        methods_deleted: sorted_from_set(&m_deleted),
        diff_preview: preview,
    }
}

} // verus!
