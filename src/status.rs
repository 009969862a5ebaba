//! The porcelain status report: branch, divergence from upstream, and one
//! entry per changed path.
use vstd::prelude::*;
use crate::text::{
    copy_range, find_char, find_char_from, find_chars, find_seq, has_prefix, lines_of,
    parse_usize_or_zero, skip_view, split_at_char, split_chars, split_lines, starts_with,
    string_of, to_chars, trim, trim_chars, usize_or_zero, views,
};

verus! {

/// One changed path and its status flags.
#[derive(Clone, Debug)]
pub struct FileEntry {
    pub path: String,
    pub staged: bool,
    pub unstaged: bool,
    pub untracked: bool,
}

/// The branch named on the first line of a report and its divergence.
#[derive(Clone, Debug)]
pub struct BranchInfo {
    pub branch: String,
    pub ahead: usize,
    pub behind: usize,
}

/// A whole status report.
#[derive(Clone, Debug)]
pub struct StatusReport {
    pub branch: BranchInfo,
    pub files: Vec<FileEntry>,
}

/// An entry as the contracts see it: path, staged, unstaged, untracked.
pub open spec fn entry_view(e: FileEntry) -> (Seq<char>, bool, bool, bool) {
    (e.path@, e.staged, e.unstaged, e.untracked)
}

pub open spec fn entries_view(v: Seq<FileEntry>) -> Seq<(Seq<char>, bool, bool, bool)> {
    v.map_values(|e: FileEntry| entry_view(e))
}

/// A status line is long enough to hold two status characters, a space
/// and a path.
pub open spec fn is_status_line(l: Seq<char>) -> bool {
    l.len() >= 4
}

/// The entry that status line `l` gives: `staged` when the first status
/// character is neither blank nor `?`, `unstaged` when the second is not
/// blank, `untracked` when both are `?`.
pub open spec fn entry_of_line(l: Seq<char>) -> (Seq<char>, bool, bool, bool) {
    (trim(skip_view(l, 3)), l[0] != ' ' && l[0] != '?', l[1] != ' ', l[0] == '?' && l[1] == '?')
}

/// The entries of the status lines among `lines`, in order.
pub open spec fn status_entries(lines: Seq<Seq<char>>) -> Seq<(Seq<char>, bool, bool, bool)>
    decreases lines.len(),
{
    if lines.len() == 0 {
        Seq::empty()
    } else {
        let prior = status_entries(lines.drop_last());
        if is_status_line(lines.last()) {
            prior.push(entry_of_line(lines.last()))
        } else {
            prior
        }
    }
}

/// Divergence counts read from the comma-separated tokens of `[ahead N, behind M]`;
/// a later token wins over an earlier one.
pub open spec fn token_counts(tokens: Seq<Seq<char>>) -> (nat, nat)
    decreases tokens.len(),
{
    if tokens.len() == 0 {
        (0, 0)
    } else {
        let prior = token_counts(tokens.drop_last());
        let t = trim(tokens.last());
        let a = if starts_with(t, "ahead "@) {
            usize_or_zero(skip_view(t, "ahead "@.len() as int))
        } else {
            prior.0
        };
        let b = if starts_with(t, "behind "@) {
            usize_or_zero(skip_view(t, "behind "@.len() as int))
        } else {
            prior.1
        };
        (a, b)
    }
}

/// Divergence read from the first `[...]` of `rest`, or none.
pub open spec fn divergence(rest: Seq<char>) -> (nat, nat) {
    match find_char_from(rest, '[', 0) {
        None => (0, 0),
        Some(s) => {
            let after = skip_view(rest, s + 1);
            match find_char_from(after, ']', 0) {
                None => (0, 0),
                Some(e) => token_counts(split_at_char(after.subrange(0, e), ',')),
            }
        },
    }
}

/// The head line without its `## ` marker.
pub open spec fn head_body(line: Seq<char>) -> Seq<char> {
    if starts_with(line, "## "@) {
        skip_view(line, "## "@.len() as int)
    } else {
        line
    }
}

/// Branch name, commits ahead and behind, as the head line `name...upstream [ahead N, behind M]`
/// gives them.
pub open spec fn branch_of(line: Seq<char>) -> (Seq<char>, nat, nat) {
    let body = head_body(line);
    match find_seq(body, "..."@) {
        None => (trim(body), 0, 0),
        Some(k) => {
            let d = divergence(skip_view(body, k + "..."@.len()));
            (trim(body.subrange(0, k)), d.0, d.1)
        },
    }
}

pub open spec fn branch_view(b: BranchInfo) -> (Seq<char>, nat, nat) {
    (b.branch@, b.ahead as nat, b.behind as nat)
}

/// The entries are the status lines among `lines`, each read by
/// `entry_of_line`: as many entries as well-formed lines, and each entry's
/// flags given by that line's two status characters.
pub proof fn lemma_status_entries_follow_lines(lines: Seq<Seq<char>>)
    ensures
        status_entries(lines) == lines.filter(|l: Seq<char>| is_status_line(l)).map_values(
            |l: Seq<char>| entry_of_line(l),
        ),
        status_entries(lines).len() == lines.filter(|l: Seq<char>| is_status_line(l)).len(),
    decreases lines.len(),
{
    reveal(Seq::filter);
    if lines.len() > 0 {
        lemma_status_entries_follow_lines(lines.drop_last());
    }
    assert(status_entries(lines) =~= lines.filter(|l: Seq<char>| is_status_line(l)).map_values(
        |l: Seq<char>| entry_of_line(l),
    ));
}

fn token_counts_chars(tokens: &Vec<Vec<char>>) -> (r: (usize, usize))
    ensures
        (r.0 as nat, r.1 as nat) == token_counts(views(tokens@)),
{
    let ahead_mark = to_chars("ahead ");
    let behind_mark = to_chars("behind ");
    let mut ahead: usize = 0;
    let mut behind: usize = 0;
    let ghost ts = views(tokens@);
    assert(ts.subrange(0, 0) =~= Seq::<Seq<char>>::empty());
    let mut i: usize = 0;
    while i < tokens.len()
        invariant
            i <= tokens@.len(),
            ts == views(tokens@),
            ahead_mark@ == "ahead "@,
            behind_mark@ == "behind "@,
            (ahead as nat, behind as nat) == token_counts(ts.subrange(0, i as int)),
        decreases tokens@.len() - i,
    {
        assert(ts.subrange(0, i + 1).drop_last() =~= ts.subrange(0, i as int));
        assert(ts.subrange(0, i + 1).last() == tokens@[i as int]@);
        let t = trim_chars(&tokens[i]);
        if has_prefix(&t, &ahead_mark) {
            let v = copy_range(&t, ahead_mark.len(), t.len());
            ahead = parse_usize_or_zero(&v);
        }
        if has_prefix(&t, &behind_mark) {
            let v = copy_range(&t, behind_mark.len(), t.len());
            behind = parse_usize_or_zero(&v);
        }
        i += 1;
    }
    assert(ts.subrange(0, tokens@.len() as int) =~= ts);
    (ahead, behind)
}

fn divergence_chars(rest: &Vec<char>) -> (r: (usize, usize))
    ensures
        (r.0 as nat, r.1 as nat) == divergence(rest@),
{
    match find_char(rest, '[', 0) {
        None => (0, 0),
        Some(s) => {
            let after = copy_range(rest, s + 1, rest.len());
            match find_char(&after, ']', 0) {
                None => (0, 0),
                Some(e) => {
                    let info = copy_range(&after, 0, e);
                    let tokens = split_chars(&info, ',');
                    token_counts_chars(&tokens)
                },
            }
        },
    }
}

/// Branch name and divergence from the head line of a status report.
pub fn parse_branch_line(line: &str) -> (r: BranchInfo)
    ensures
        branch_view(r) == branch_of(line@),
{
    let l = to_chars(line);
    let head = to_chars("## ");
    let body = if has_prefix(&l, &head) {
        copy_range(&l, head.len(), l.len())
    } else {
        l
    };
    let dots = to_chars("...");
    match find_chars(&body, &dots) {
        None => {
            let name = trim_chars(&body);
            BranchInfo { branch: string_of(name.as_slice()), ahead: 0, behind: 0 }
        },
        Some(k) => {
            let left = copy_range(&body, 0, k);
            let name = trim_chars(&left);
            let rest = copy_range(&body, k + dots.len(), body.len());
            let (ahead, behind) = divergence_chars(&rest);
            BranchInfo { branch: string_of(name.as_slice()), ahead, behind }
        },
    }
}

fn entry_of_chars(l: &Vec<char>) -> (r: FileEntry)
    requires
        is_status_line(l@),
    ensures
        entry_view(r) == entry_of_line(l@),
{
    let x = l[0];
    let y = l[1];
    let rest = copy_range(l, 3, l.len());
    let path = trim_chars(&rest);
    FileEntry {
        path: string_of(path.as_slice()),
        staged: x != ' ' && x != '?',
        unstaged: y != ' ',
        untracked: x == '?' && y == '?',
    }
}

/// The entry of one status line, or none where the line is too short.
pub fn parse_status_line(line: &str) -> (r: Option<FileEntry>)
    ensures
        is_status_line(line@) ==> (r matches Some(e) && entry_view(e) == entry_of_line(line@)),
        !is_status_line(line@) ==> r is None,
{
    let l = to_chars(line);
    if l.len() < 4 {
        None
    } else {
        Some(entry_of_chars(&l))
    }
}

/// The branch that a report with no head line names.
pub open spec fn unknown_branch() -> (Seq<char>, nat, nat) {
    ("unknown"@, 0, 0)
}

/// Reads a whole status report: the first line names the branch, every
/// later status line gives one entry, shorter lines are skipped.
pub fn parse_status(output: &str) -> (r: StatusReport)
    ensures
        lines_of(output@).len() == 0 ==> branch_view(r.branch) == unknown_branch() && r.files@.len()
            == 0,
        lines_of(output@).len() > 0 ==> branch_view(r.branch) == branch_of(lines_of(output@)[0])
            && entries_view(r.files@) == status_entries(lines_of(output@).drop_first()),
{
    let text = to_chars(output);
    let ls = split_lines(&text);
    let ghost lines = views(ls@);
    let branch = if ls.len() > 0 {
        let head = string_of(ls[0].as_slice());
        parse_branch_line(head.as_str())
    } else {
        BranchInfo { branch: string_of(to_chars("unknown").as_slice()), ahead: 0, behind: 0 }
    };
    let mut files: Vec<FileEntry> = Vec::new();
    if ls.len() == 0 {
        return StatusReport { branch, files };
    }
    let ghost body = lines.drop_first();
    assert(body.subrange(0, 0) =~= Seq::<Seq<char>>::empty());
    assert(entries_view(files@) =~= Seq::<(Seq<char>, bool, bool, bool)>::empty());
    let mut i: usize = 1;
    while i < ls.len()
        invariant
            1 <= i <= ls@.len(),
            lines == views(ls@),
            body == lines.drop_first(),
            entries_view(files@) == status_entries(body.subrange(0, i - 1)),
        decreases ls@.len() - i,
    {
        assert(body.subrange(0, i as int).drop_last() =~= body.subrange(0, i - 1));
        assert(body.subrange(0, i as int).last() == ls@[i as int]@);
        if ls[i].len() >= 4 {
            let e = entry_of_chars(&ls[i]);
            let ghost before = entries_view(files@);
            files.push(e);
            assert(entries_view(files@) =~= before.push(entry_view(e)));
        }
        i += 1;
    }
    assert(body.subrange(0, ls@.len() - 1) =~= body);
    StatusReport { branch, files }
}

} // verus!
