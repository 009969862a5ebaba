//! The path tree: every changed file and every folder above one, as rows in
//! depth-first order (folders before files, then by name), each with status
//! and line counts rolled up from the files below it.
use vstd::prelude::*;
use crate::order::{codes, key_less, keys_view, lemma_seq_lt_asymmetric, lemma_seq_lt_total,
    lemma_seq_lt_transitive, lemma_sorted_unique, seq_lt, };
use crate::status::FileEntry;
use crate::text::{lemma_find_char_from, copy_range, find_char, find_char_from, has_prefix, push_char, string_of, to_chars, };
use crate::names::same_chars;

verus! {

/// Lines added and removed in one file.
#[derive(Clone, Copy, Debug, PartialEq, Eq, Structural)]
pub struct PathDelta {
    pub added_lines: usize,
    pub removed_lines: usize,
}

/// The line counts of the file at `path`.
#[derive(Clone, Debug)]
pub struct FileDelta {
    pub path: String,
    pub delta: PathDelta,
}

#[derive(Clone, Copy, Debug, PartialEq, Eq, Structural)]
pub enum TreeKind {
    Folder,
    File,
}

/// One row of the flattened tree.
#[derive(Clone, Debug)]
pub struct TreeItem {
    pub path: String,
    pub label: String,
    pub kind: TreeKind,
    pub staged: bool,
    pub unstaged: bool,
    pub untracked: bool,
    pub added_lines: usize,
    pub removed_lines: usize,
}

/// `folder` names a directory above `path`.
pub open spec fn is_ancestor(folder: Seq<char>, path: Seq<char>) -> bool {
    folder.len() < path.len() && path[folder.len() as int] == '/' && path.subrange(
        0,
        folder.len() as int,
    ) == folder
}

/// Some entry has path `n`.
pub open spec fn is_file_node(files: Seq<FileEntry>, n: Seq<char>) -> bool {
    exists|i: int| 0 <= i < files.len() && (#[trigger] files[i]).path@ == n
}

/// `n` is a directory above some entry's path.
pub open spec fn is_folder_node(files: Seq<FileEntry>, n: Seq<char>) -> bool {
    exists|i: int| 0 <= i < files.len() && is_ancestor(n, (#[trigger] files[i]).path@)
}

pub open spec fn is_node(files: Seq<FileEntry>, n: Seq<char>) -> bool {
    is_file_node(files, n) || is_folder_node(files, n)
}

/// The sort key of the segment of `n` that starts at `i`, and of all that
/// follow it: per segment the rank of the node it ends (0 for a folder,
/// 1 for a file), its characters, and -1, which is below every character.
pub open spec fn key_from(files: Seq<FileEntry>, n: Seq<char>, i: int) -> Seq<int>
    decreases n.len() - i,
{
    if i < 0 || i > n.len() {
        Seq::empty()
    } else {
        let j = match find_char_from(n, '/', i) {
            Some(j) => j,
            None => n.len() as int,
        };
        let rank: int = if is_file_node(files, n.subrange(0, j)) {
            1
        } else {
            0
        };
        let here = seq![rank] + n.subrange(i, j).map_values(|c: char| (c as u32) as int) + seq![-1int];
        if i <= j && j < n.len() {
            here + key_from(files, n, j + 1)
        } else {
            here
        }
    }
}

/// The place of node `n` in the depth-first order: rows are sorted strictly
/// by `seq_lt` on these keys, so a folder precedes its contents, and among
/// siblings folders precede files and names go in character order.
pub open spec fn node_key(files: Seq<FileEntry>, n: Seq<char>) -> Seq<int> {
    key_from(files, n, 0)
}

/// The index of the last of the first `k` entries whose path is `n`, or -1.
pub open spec fn last_index_upto(files: Seq<FileEntry>, n: Seq<char>, k: int) -> int
    decreases k,
{
    if k <= 0 || k > files.len() {
        -1
    } else if files[k - 1].path@ == n {
        k - 1
    } else {
        last_index_upto(files, n, k - 1)
    }
}

/// The index of the entry that decides the status of path `n`: the last one.
pub open spec fn last_index(files: Seq<FileEntry>, n: Seq<char>) -> int {
    last_index_upto(files, n, files.len() as int)
}

/// The line counts reported for `p`: the last report wins, none is zero.
pub open spec fn delta_lookup(deltas: Seq<FileDelta>, p: Seq<char>) -> PathDelta
    decreases deltas.len(),
{
    if deltas.len() == 0 {
        PathDelta { added_lines: 0, removed_lines: 0 }
    } else if deltas.last().path@ == p {
        deltas.last().delta
    } else {
        delta_lookup(deltas.drop_last(), p)
    }
}

pub open spec fn max_usize(a: usize, b: usize) -> usize {
    if a >= b {
        a
    } else {
        b
    }
}

/// The line counts of entry `i`; an untracked file, which no report
/// covers, counts its `lines` current lines as added.
pub open spec fn entry_delta(files: Seq<FileEntry>, deltas: Seq<FileDelta>, lines: Seq<usize>, i: int) -> PathDelta {
    let d = delta_lookup(deltas, files[i].path@);
    if files[i].untracked {
        PathDelta { added_lines: max_usize(d.added_lines, lines[i]), removed_lines: d.removed_lines }
    } else {
        d
    }
}

pub open spec fn sat_add(a: usize, b: usize) -> usize {
    if a + b > usize::MAX {
        usize::MAX
    } else {
        (a + b) as usize
    }
}

/// Merging two files' line counts into a folder's gives the same counts
/// in either order.
pub proof fn lemma_merge_delta_commutes(acc: usize, x: usize, y: usize)
    ensures
        sat_add(sat_add(acc, x), y) == sat_add(sat_add(acc, y), x),
{
}

/// Merging a file's flag into a folder's by `or` is commutative, and
/// merging it a second time changes nothing.
pub proof fn lemma_merge_status_laws(acc: bool, x: bool, y: bool)
    ensures
        ((acc || x) || y) == ((acc || y) || x),
        ((acc || x) || x) == (acc || x),
{
}

/// The line counts of the files below `n` among the first `k` entries,
/// each distinct path counted once, summed (saturating at `usize::MAX`).
pub open spec fn folder_delta_upto(
    files: Seq<FileEntry>,
    deltas: Seq<FileDelta>,
    lines: Seq<usize>,
    n: Seq<char>,
    k: int,
) -> PathDelta
    decreases k,
{
    if k <= 0 || k > files.len() {
        PathDelta { added_lines: 0, removed_lines: 0 }
    } else {
        let prior = folder_delta_upto(files, deltas, lines, n, k - 1);
        let i = k - 1;
        if is_ancestor(n, files[i].path@) && last_index(files, files[i].path@) == i {
            let d = entry_delta(files, deltas, lines, i);
            PathDelta {
                added_lines: sat_add(prior.added_lines, d.added_lines),
                removed_lines: sat_add(prior.removed_lines, d.removed_lines),
            }
        } else {
            prior
        }
    }
}

/// Number of `/` in `n`: the depth of its node.
pub open spec fn depth_of(n: Seq<char>) -> nat
    decreases n.len(),
{
    if n.len() == 0 {
        0
    } else {
        depth_of(n.drop_last()) + if n.last() == '/' {
            1nat
        } else {
            0nat
        }
    }
}

/// The last segment of `n`.
pub open spec fn last_segment(n: Seq<char>) -> Seq<char>
    decreases n.len(),
{
    if n.len() == 0 {
        n
    } else if n.last() == '/' {
        Seq::empty()
    } else {
        last_segment(n.drop_last()).push(n.last())
    }
}

/// The label of a row: two spaces per level, the name, and `/` after a folder.
pub open spec fn label_of(n: Seq<char>, folder: bool) -> Seq<char> {
    Seq::new(2 * depth_of(n), |i: int| ' ') + last_segment(n) + if folder {
        seq!['/']
    } else {
        Seq::empty()
    }
}

/// Row `r` shows node `r.path`: for a file its last entry's flags and its
/// line counts; for a folder the flags of the files below it combined by
/// `or` and their line counts summed.
pub open spec fn row_is_node(files: Seq<FileEntry>, deltas: Seq<FileDelta>, lines: Seq<usize>, r: TreeItem) -> bool {
    let n = r.path@;
    if is_file_node(files, n) {
        let i = last_index(files, n);
        let d = entry_delta(files, deltas, lines, i);
        &&& r.kind == TreeKind::File
        &&& r.label@ == label_of(n, false)
        &&& r.staged == files[i].staged
        &&& r.unstaged == files[i].unstaged
        &&& r.untracked == files[i].untracked
        &&& r.added_lines == d.added_lines
        &&& r.removed_lines == d.removed_lines
    } else {
        let d = folder_delta_upto(files, deltas, lines, n, files.len() as int);
        &&& is_folder_node(files, n)
        &&& r.kind == TreeKind::Folder
        &&& r.label@ == label_of(n, true)
        &&& r.staged == exists|i: int| 0 <= i < files.len() && is_ancestor(n, files[i].path@) && (#[trigger] files[i]).staged
        &&& r.unstaged == exists|i: int| 0 <= i < files.len() && is_ancestor(n, files[i].path@) && (#[trigger] files[i]).unstaged
        &&& r.untracked == exists|i: int| 0 <= i < files.len() && is_ancestor(n, files[i].path@) && (#[trigger] files[i]).untracked
        &&& r.added_lines == d.added_lines
        &&& r.removed_lines == d.removed_lines
    }
}

/// The rows are in strictly increasing key order.
pub open spec fn rows_sorted(files: Seq<FileEntry>, rows: Seq<TreeItem>) -> bool {
    forall|i: int, j: int|
        0 <= i < j < rows.len() ==> seq_lt(node_key(files, (#[trigger] rows[i]).path@), node_key(files, (#[trigger] rows[j]).path@))
}

/// Some row has the key of node `n`.
pub open spec fn has_row_for(files: Seq<FileEntry>, rows: Seq<TreeItem>, n: Seq<char>) -> bool {
    exists|i: int| 0 <= i < rows.len() && node_key(files, (#[trigger] rows[i]).path@) == node_key(files, n)
}

/// `m` ends a node on the path of entry `k`: at a `/` or at the end.
pub open spec fn ends_node(files: Seq<FileEntry>, k: int, m: int) -> bool {
    0 <= k < files.len() && 0 <= m <= files[k].path@.len() && (m == files[k].path@.len()
        || files[k].path@[m] == '/')
}

/// Every node of the tree has a row: each entry's path, and each folder
/// above it (the part of the path before one of its `/`).
pub open spec fn rows_cover(files: Seq<FileEntry>, rows: Seq<TreeItem>) -> bool {
    forall|k: int, m: int|
        ends_node(files, k, m) ==> #[trigger] has_row_for(files, rows, files[k].path@.subrange(0, m))
}

/// `fp` holds the characters of each entry's path.
pub open spec fn paths_match(fp: Seq<Vec<char>>, files: Seq<FileEntry>) -> bool {
    fp.len() == files.len() && forall|i: int| 0 <= i < files.len() ==> fp[i]@ == (#[trigger] files[i]).path@
}

pub fn path_chars(files: &Vec<FileEntry>) -> (r: Vec<Vec<char>>)
    ensures
        paths_match(r@, files@),
{
    let mut out: Vec<Vec<char>> = Vec::new();
    let mut i: usize = 0;
    while i < files.len()
        invariant
            i <= files@.len(),
            out@.len() == i,
            forall|j: int| 0 <= j < i ==> out@[j]@ == (#[trigger] files@[j]).path@,
        decreases files@.len() - i,
    {
        let v = to_chars(files[i].path.as_str());
        out.push(v);
        i += 1;
    }
    out
}

fn last_index_exec(files: &Vec<FileEntry>, fp: &Vec<Vec<char>>, n: &Vec<char>) -> (r: Option<usize>)
    requires
        paths_match(fp@, files@),
    ensures
        r matches Some(i) ==> i < files@.len() && last_index(files@, n@) == i,
        r is None ==> last_index(files@, n@) == -1 && !is_file_node(files@, n@),
{
    let mut k: usize = fp.len();
    while k > 0
        invariant
            k <= files@.len(),
            paths_match(fp@, files@),
            last_index_upto(files@, n@, k as int) == last_index(files@, n@),
            forall|j: int| k <= j < files@.len() ==> files@[j].path@ != n@,
        decreases k,
    {
        if same_chars(&fp[k - 1], n) {
            return Some(k - 1);
        }
        k -= 1;
    }
    None
}

fn is_ancestor_exec(folder: &Vec<char>, path: &Vec<char>) -> (r: bool)
    ensures
        r == is_ancestor(folder@, path@),
{
    folder.len() < path.len() && path[folder.len()] == '/' && has_prefix(path, folder)
}

fn delta_lookup_exec(deltas: &Vec<FileDelta>, dp: &Vec<Vec<char>>, p: &Vec<char>) -> (r: PathDelta)
    requires
        dp@.len() == deltas@.len(),
        forall|i: int| 0 <= i < deltas@.len() ==> dp@[i]@ == (#[trigger] deltas@[i]).path@,
    ensures
        r == delta_lookup(deltas@, p@),
{
    let mut k: usize = deltas.len();
    assert(deltas@.subrange(0, k as int) =~= deltas@);
    while k > 0
        invariant
            k <= deltas@.len(),
            dp@.len() == deltas@.len(),
            forall|i: int| 0 <= i < deltas@.len() ==> dp@[i]@ == (#[trigger] deltas@[i]).path@,
            delta_lookup(deltas@.subrange(0, k as int), p@) == delta_lookup(deltas@, p@),
        decreases k,
    {
        assert(deltas@.subrange(0, k as int).drop_last() =~= deltas@.subrange(0, k - 1));
        assert(deltas@.subrange(0, k as int).last() == deltas@[k - 1]);
        if same_chars(&dp[k - 1], p) {
            return deltas[k - 1].delta;
        }
        k -= 1;
    }
    PathDelta { added_lines: 0, removed_lines: 0 }
}

fn entry_delta_exec(
    files: &Vec<FileEntry>,
    deltas: &Vec<FileDelta>,
    dp: &Vec<Vec<char>>,
    fp: &Vec<Vec<char>>,
    lines: &Vec<usize>,
    i: usize,
) -> (r: PathDelta)
    requires
        i < files@.len(),
        lines@.len() == files@.len(),
        paths_match(fp@, files@),
        dp@.len() == deltas@.len(),
        forall|j: int| 0 <= j < deltas@.len() ==> dp@[j]@ == (#[trigger] deltas@[j]).path@,
    ensures
        r == entry_delta(files@, deltas@, lines@, i as int),
{
    let d = delta_lookup_exec(deltas, dp, &fp[i]);
    if files[i].untracked {
        let c = lines[i];
        PathDelta {
            added_lines: if d.added_lines >= c { d.added_lines } else { c },
            removed_lines: d.removed_lines,
        }
    } else {
        d
    }
}

fn sat_add_exec(a: usize, b: usize) -> (r: usize)
    ensures
        r == sat_add(a, b),
{
    a.saturating_add(b)
}

fn label_exec(n: &Vec<char>, folder: bool) -> (r: String)
    ensures
        r@ == label_of(n@, folder),
{
    let mut depth: usize = 0;
    let mut start: usize = 0;
    let mut i: usize = 0;
    assert(n@.subrange(0, 0) =~= Seq::<char>::empty());
    while i < n.len()
        invariant
            i <= n@.len(),
            start <= i,
            depth <= i,
            depth == depth_of(n@.subrange(0, i as int)),
            last_segment(n@.subrange(0, i as int)) == n@.subrange(start as int, i as int),
        decreases n@.len() - i,
    {
        assert(n@.subrange(0, i + 1).drop_last() =~= n@.subrange(0, i as int));
        if n[i] == '/' {
            depth += 1;
            start = i + 1;
            assert(n@.subrange(start as int, i + 1) =~= Seq::<char>::empty());
        } else {
            assert(n@.subrange(start as int, i + 1) =~= n@.subrange(start as int, i as int).push(n@[i as int]));
        }
        i += 1;
    }
    assert(n@.subrange(0, n@.len() as int) =~= n@);
    let mut out = String::new();
    let mut k: usize = 0;
    while k < depth
        invariant
            k <= depth,
            depth == depth_of(n@),
            depth <= n@.len(),
            out@ == Seq::new(2 * k as nat, |j: int| ' '),
        decreases depth - k,
    {
        push_char(&mut out, ' ');
        push_char(&mut out, ' ');
        k += 1;
        assert(out@ =~= Seq::new(2 * k as nat, |j: int| ' '));
    }
    let mut j: usize = start;
    let ghost pre = out@;
    while j < n.len()
        invariant
            start <= j <= n@.len(),
            out@ == pre + n@.subrange(start as int, j as int),
        decreases n@.len() - j,
    {
        push_char(&mut out, n[j]);
        j += 1;
        assert(out@ =~= pre + n@.subrange(start as int, j as int));
    }
    if folder {
        push_char(&mut out, '/');
    }
    assert(out@ =~= label_of(n@, folder));
    out
}

/// The flags of the files below `n`, each combined by `or`.
pub fn merge_status(files: &Vec<FileEntry>, fp: &Vec<Vec<char>>, n: &Vec<char>) -> (r: (bool, bool, bool))
    requires
        paths_match(fp@, files@),
    ensures
        r.0 == exists|i: int| 0 <= i < files@.len() && is_ancestor(n@, files@[i].path@) && (#[trigger] files@[i]).staged,
        r.1 == exists|i: int| 0 <= i < files@.len() && is_ancestor(n@, files@[i].path@) && (#[trigger] files@[i]).unstaged,
        r.2 == exists|i: int| 0 <= i < files@.len() && is_ancestor(n@, files@[i].path@) && (#[trigger] files@[i]).untracked,
{
    let mut staged = false;
    let mut unstaged = false;
    let mut untracked = false;
    let mut k: usize = 0;
    while k < files.len()
        invariant
            k <= files@.len(),
            paths_match(fp@, files@),
            staged == exists|i: int| 0 <= i < k && is_ancestor(n@, files@[i].path@) && (#[trigger] files@[i]).staged,
            unstaged == exists|i: int| 0 <= i < k && is_ancestor(n@, files@[i].path@) && (#[trigger] files@[i]).unstaged,
            untracked == exists|i: int| 0 <= i < k && is_ancestor(n@, files@[i].path@) && (#[trigger] files@[i]).untracked,
        decreases files@.len() - k,
    {
        assert(fp@[k as int]@ == files@[k as int].path@);
        if is_ancestor_exec(n, &fp[k]) {
            staged = staged || files[k].staged;
            unstaged = unstaged || files[k].unstaged;
            untracked = untracked || files[k].untracked;
        }
        k += 1;
    }
    (staged, unstaged, untracked)
}

/// The line counts of the files below `n`, each distinct path once, summed.
pub fn merge_delta(
    files: &Vec<FileEntry>,
    deltas: &Vec<FileDelta>,
    dp: &Vec<Vec<char>>,
    fp: &Vec<Vec<char>>,
    lines: &Vec<usize>,
    n: &Vec<char>,
) -> (r: PathDelta)
    requires
        lines@.len() == files@.len(),
        paths_match(fp@, files@),
        dp@.len() == deltas@.len(),
        forall|j: int| 0 <= j < deltas@.len() ==> dp@[j]@ == (#[trigger] deltas@[j]).path@,
    ensures
        r == folder_delta_upto(files@, deltas@, lines@, n@, files@.len() as int),
{
    let mut acc = PathDelta { added_lines: 0, removed_lines: 0 };
    let mut k: usize = 0;
    while k < files.len()
        invariant
            k <= files@.len(),
            lines@.len() == files@.len(),
            paths_match(fp@, files@),
            dp@.len() == deltas@.len(),
            forall|j: int| 0 <= j < deltas@.len() ==> dp@[j]@ == (#[trigger] deltas@[j]).path@,
            acc == folder_delta_upto(files@, deltas@, lines@, n@, k as int),
        decreases files@.len() - k,
    {
        assert(fp@[k as int]@ == files@[k as int].path@);
        if is_ancestor_exec(n, &fp[k]) {
            let li = last_index_exec(files, fp, &fp[k]);
            if li == Some(k) {
                let d = entry_delta_exec(files, deltas, dp, fp, lines, k);
                acc = PathDelta {
                    added_lines: sat_add_exec(acc.added_lines, d.added_lines),
                    removed_lines: sat_add_exec(acc.removed_lines, d.removed_lines),
                };
            } else {
                proof {
                    assert(is_file_node(files@, files@[k as int].path@));
                }
            }
        }
        k += 1;
    }
    acc
}

fn is_file_exec(files: &Vec<FileEntry>, fp: &Vec<Vec<char>>, n: &Vec<char>) -> (r: bool)
    requires
        paths_match(fp@, files@),
    ensures
        r == is_file_node(files@, n@),
{
    let li = last_index_exec(files, fp, n);
    proof {
        if li is Some {
            let i = li->0 as int;
            lemma_last_index_is_match(files@, n@, files@.len() as int);
            assert(files@[i].path@ == n@);
        }
    }
    li.is_some()
}

proof fn lemma_last_index_is_match(files: Seq<FileEntry>, n: Seq<char>, k: int)
    requires
        0 <= k <= files.len(),
    ensures
        last_index_upto(files, n, k) == -1 || (0 <= last_index_upto(files, n, k) < k
            && files[last_index_upto(files, n, k)].path@ == n),
    decreases k,
{
    if k > 0 {
        lemma_last_index_is_match(files, n, k - 1);
    }
}

/// The sort key of node `n`.
fn key_exec(files: &Vec<FileEntry>, fp: &Vec<Vec<char>>, n: &Vec<char>) -> (r: Vec<i64>)
    requires
        paths_match(fp@, files@),
    ensures
        keys_view(r@) == node_key(files@, n@),
{
    let mut out: Vec<i64> = Vec::new();
    let mut i: usize = 0;
    assert(keys_view(out@) =~= Seq::<int>::empty());
    loop
        invariant
            i <= n@.len(),
            paths_match(fp@, files@),
            keys_view(out@) + key_from(files@, n@, i as int) == node_key(files@, n@),
        decreases n@.len() - i,
    {
        let j = match find_char(n, '/', i) {
            Some(j) => j,
            None => n.len(),
        };
        let prefix = copy_range(n, 0, j);
        let rank: i64 = if is_file_exec(files, fp, &prefix) { 1 } else { 0 };
        let ghost before = keys_view(out@);
        out.push(rank);
        let mut t: usize = i;
        while t < j
            invariant
                i <= t <= j <= n@.len(),
                keys_view(out@) == before + seq![rank as int] + n@.subrange(i as int, t as int).map_values(|c: char| (c as u32) as int),
            decreases j - t,
        {
            let ghost prev = keys_view(out@);
            let v: i64 = n[t] as u32 as i64;
            assert(v as int == (n@[t as int] as u32) as int);
            out.push(v);
            assert(keys_view(out@) =~= prev.push(v as int));
            assert(n@.subrange(i as int, t + 1).map_values(|c: char| (c as u32) as int) =~= n@.subrange(i as int, t as int).map_values(|c: char| (c as u32) as int).push((n@[t as int] as u32) as int));
            t += 1;
            assert(keys_view(out@) =~= before + seq![rank as int] + n@.subrange(i as int, t as int).map_values(|c: char| (c as u32) as int));
        }
        let ghost mid = keys_view(out@);
        out.push(-1);
        assert(keys_view(out@) =~= mid.push(-1));
        let ghost here = seq![rank as int] + n@.subrange(i as int, j as int).map_values(|c: char| (c as u32) as int) + seq![-1int];
        assert(keys_view(out@) =~= before + here);
        if j < n.len() {
            assert(key_from(files@, n@, i as int) == here + key_from(files@, n@, j + 1));
            assert(keys_view(out@) + key_from(files@, n@, j + 1) =~= before + key_from(files@, n@, i as int));
            i = j + 1;
        } else {
            assert(key_from(files@, n@, i as int) == here);
            return out;
        }
    }
}

/// `keys` holds the key of each row.
pub open spec fn keys_match(files: Seq<FileEntry>, keys: Seq<Vec<i64>>, rows: Seq<TreeItem>) -> bool {
    keys.len() == rows.len() && forall|i: int|
        0 <= i < rows.len() ==> keys_view((#[trigger] keys[i])@) == node_key(files, rows[i].path@)
}

/// Every row shows a node of the tree.
pub open spec fn rows_valid(files: Seq<FileEntry>, deltas: Seq<FileDelta>, lines: Seq<usize>, rows: Seq<TreeItem>) -> bool {
    forall|i: int| 0 <= i < rows.len() ==> row_is_node(files, deltas, lines, #[trigger] rows[i])
}

/// Puts the row of a node in its place in the flattened tree, by key,
/// unless a row with the same key is there.
pub fn insert_path_into_tree(
    rows: &mut Vec<TreeItem>,
    keys: &mut Vec<Vec<i64>>,
    row: TreeItem,
    key: Vec<i64>,
    Ghost(files): Ghost<Seq<FileEntry>>,
    Ghost(deltas): Ghost<Seq<FileDelta>>,
    Ghost(lines): Ghost<Seq<usize>>,
)
    requires
        keys_match(files, old(keys)@, old(rows)@),
        rows_sorted(files, old(rows)@),
        rows_valid(files, deltas, lines, old(rows)@),
        row_is_node(files, deltas, lines, row),
        keys_view(key@) == node_key(files, row.path@),
    ensures
        keys_match(files, final(keys)@, final(rows)@),
        rows_sorted(files, final(rows)@),
        rows_valid(files, deltas, lines, final(rows)@),
        has_row_for(files, final(rows)@, row.path@),
        forall|n: Seq<char>| has_row_for(files, old(rows)@, n) ==> has_row_for(files, final(rows)@, n),
{
    let ghost kv = keys_view(key@);
    let mut j: usize = 0;
    while j < keys.len()
        invariant
            j <= keys@.len(),
            kv == keys_view(key@),
            keys_match(files, keys@, rows@),
            forall|t: int| 0 <= t < j ==> seq_lt(node_key(files, (#[trigger] rows@[t]).path@), kv),
        ensures
            j <= keys@.len(),
            forall|t: int| 0 <= t < j ==> seq_lt(node_key(files, (#[trigger] rows@[t]).path@), kv),
            j < keys@.len() ==> !seq_lt(keys_view(keys@[j as int]@), kv),
        decreases keys@.len() - j,
    {
        if !key_less(&keys[j], &key) {
            break;
        }
        assert(keys_view(keys@[j as int]@) == node_key(files, rows@[j as int].path@));
        j += 1;
    }
    if j < keys.len() && !key_less(&key, &keys[j]) {
        proof {
            lemma_seq_lt_total(keys_view(keys@[j as int]@), kv);
            assert(node_key(files, rows@[j as int].path@) == node_key(files, row.path@));
            assert(has_row_for(files, rows@, row.path@));
        }
        return;
    }
    let ghost old_rows = rows@;
    let ghost old_keys = keys@;
    proof {
        if j < old_keys.len() {
            assert(seq_lt(kv, node_key(files, old_rows[j as int].path@)));
        }
    }
    rows.insert(j, row);
    keys.insert(j, key);
    proof {
        assert(rows@.len() == old_rows.len() + 1);
        assert forall|t: int| 0 <= t < rows@.len() implies rows@[t] == (if t < j {
            old_rows[t]
        } else if t == j {
            row
        } else {
            old_rows[t - 1]
        }) && keys@[t] == (if t < j {
            old_keys[t]
        } else if t == j {
            key
        } else {
            old_keys[t - 1]
        }) by {}
        assert forall|a: int, b: int| 0 <= a < b < rows@.len() implies seq_lt(
            node_key(files, (#[trigger] rows@[a]).path@),
            node_key(files, (#[trigger] rows@[b]).path@),
        ) by {
            if b < j {
            } else if b == j {
            } else if a < j {
                // a < j < b: old[a] < kv < old[b - 1]
                if j < old_rows.len() {
                    if b - 1 > j {
                        lemma_seq_lt_transitive(kv, node_key(files, old_rows[j as int].path@), node_key(files, old_rows[b - 1].path@));
                    }
                    lemma_seq_lt_transitive(node_key(files, old_rows[a].path@), kv, node_key(files, old_rows[b - 1].path@));
                }
            } else if a == j {
                if b - 1 > j {
                    lemma_seq_lt_transitive(kv, node_key(files, old_rows[j as int].path@), node_key(files, old_rows[b - 1].path@));
                }
            } else {
            }
        }
        assert(has_row_for(files, rows@, row.path@)) by {
            assert(rows@[j as int] == row);
        }
        assert forall|n: Seq<char>| has_row_for(files, old_rows, n) implies has_row_for(files, rows@, n) by {
            let i = choose|i: int| 0 <= i < old_rows.len() && node_key(files, (#[trigger] old_rows[i]).path@) == node_key(files, n);
            if i < j {
                assert(rows@[i] == old_rows[i]);
            } else {
                assert(rows@[i + 1] == old_rows[i]);
            }
        }
    }
}

fn build_row(
    files: &Vec<FileEntry>,
    deltas: &Vec<FileDelta>,
    dp: &Vec<Vec<char>>,
    fp: &Vec<Vec<char>>,
    lines: &Vec<usize>,
    n: &Vec<char>,
) -> (r: TreeItem)
    requires
        is_node(files@, n@),
        lines@.len() == files@.len(),
        paths_match(fp@, files@),
        dp@.len() == deltas@.len(),
        forall|j: int| 0 <= j < deltas@.len() ==> dp@[j]@ == (#[trigger] deltas@[j]).path@,
    ensures
        r.path@ == n@,
        row_is_node(files@, deltas@, lines@, r),
{
    let path = string_of(n.as_slice());
    match last_index_exec(files, fp, n) {
        Some(i) => {
            proof {
                lemma_last_index_is_match(files@, n@, files@.len() as int);
                assert(is_file_node(files@, n@));
            }
            let d = entry_delta_exec(files, deltas, dp, fp, lines, i);
            TreeItem {
                path,
                label: label_exec(n, false),
                kind: TreeKind::File,
                staged: files[i].staged,
                unstaged: files[i].unstaged,
                untracked: files[i].untracked,
                added_lines: d.added_lines,
                removed_lines: d.removed_lines,
            }
        },
        None => {
            let (staged, unstaged, untracked) = merge_status(files, fp, n);
            let d = merge_delta(files, deltas, dp, fp, lines, n);
            TreeItem {
                path,
                label: label_exec(n, true),
                kind: TreeKind::Folder,
                staged,
                unstaged,
                untracked,
                added_lines: d.added_lines,
                removed_lines: d.removed_lines,
            }
        },
    }
}

pub fn delta_path_chars(deltas: &Vec<FileDelta>) -> (r: Vec<Vec<char>>)
    ensures
        r@.len() == deltas@.len(),
        forall|j: int| 0 <= j < deltas@.len() ==> r@[j]@ == (#[trigger] deltas@[j]).path@,
{
    let mut out: Vec<Vec<char>> = Vec::new();
    let mut i: usize = 0;
    while i < deltas.len()
        invariant
            i <= deltas@.len(),
            out@.len() == i,
            forall|j: int| 0 <= j < i ==> out@[j]@ == (#[trigger] deltas@[j]).path@,
        decreases deltas@.len() - i,
    {
        out.push(to_chars(deltas[i].path.as_str()));
        i += 1;
    }
    out
}

/// The rows of the tree over the paths of `files`: one per file and one per
/// folder above a file, in strictly increasing key order (depth first,
/// folders before files, names in character order), each showing its
/// node's status and line counts. `deltas` gives the reported line counts
/// per path; `untracked_lines[i]` is the current line count of `files[i]`
/// where that file is untracked.
pub fn build_tree_items(files: &Vec<FileEntry>, deltas: &Vec<FileDelta>, untracked_lines: &Vec<usize>) -> (r: Vec<TreeItem>)
    requires
        untracked_lines@.len() == files@.len(),
    ensures
        rows_sorted(files@, r@),
        rows_valid(files@, deltas@, untracked_lines@, r@),
        rows_cover(files@, r@),
{
    let fp = path_chars(files);
    let dp = delta_path_chars(deltas);
    let mut rows: Vec<TreeItem> = Vec::new();
    let mut keys: Vec<Vec<i64>> = Vec::new();
    let ghost fs = files@;
    let ghost ds = deltas@;
    let ghost ls = untracked_lines@;
    let mut k: usize = 0;
    while k < fp.len()
        invariant
            k <= files@.len(),
            fs == files@,
            ds == deltas@,
            ls == untracked_lines@,
            untracked_lines@.len() == files@.len(),
            paths_match(fp@, files@),
            dp@.len() == deltas@.len(),
            forall|j: int| 0 <= j < deltas@.len() ==> dp@[j]@ == (#[trigger] deltas@[j]).path@,
            keys_match(fs, keys@, rows@),
            rows_sorted(fs, rows@),
            rows_valid(fs, ds, ls, rows@),
            forall|k2: int, m: int|
                0 <= k2 < k && ends_node(fs, k2, m) ==> #[trigger] has_row_for(fs, rows@, fs[k2].path@.subrange(0, m)),
        decreases fp@.len() - k,
    {
        let pv = &fp[k];
        assert(pv@ == fs[k as int].path@);
        let mut m: usize = 0;
        loop
            invariant
                k < files@.len(),
                m <= pv@.len(),
                pv@ == fs[k as int].path@,
                fs == files@,
                ds == deltas@,
                ls == untracked_lines@,
                untracked_lines@.len() == files@.len(),
                paths_match(fp@, files@),
                dp@.len() == deltas@.len(),
                forall|j: int| 0 <= j < deltas@.len() ==> dp@[j]@ == (#[trigger] deltas@[j]).path@,
                keys_match(fs, keys@, rows@),
                rows_sorted(fs, rows@),
                rows_valid(fs, ds, ls, rows@),
                forall|k2: int, m2: int|
                    0 <= k2 < k && ends_node(fs, k2, m2) ==> #[trigger] has_row_for(fs, rows@, fs[k2].path@.subrange(0, m2)),
                forall|m2: int|
                    0 <= m2 < m && ends_node(fs, k as int, m2) ==> #[trigger] has_row_for(fs, rows@, fs[k as int].path@.subrange(0, m2)),
            ensures
                keys_match(fs, keys@, rows@),
                rows_sorted(fs, rows@),
                rows_valid(fs, ds, ls, rows@),
                forall|k2: int, m2: int|
                    0 <= k2 < k && ends_node(fs, k2, m2) ==> #[trigger] has_row_for(fs, rows@, fs[k2].path@.subrange(0, m2)),
                forall|m2: int|
                    0 <= m2 <= pv@.len() && ends_node(fs, k as int, m2) ==> #[trigger] has_row_for(fs, rows@, fs[k as int].path@.subrange(0, m2)),
            decreases pv@.len() - m,
        {
            if m == pv.len() || pv[m] == '/' {
                let node = copy_range(pv, 0, m);
                proof {
                    if m == pv@.len() {
                        assert(node@ =~= fs[k as int].path@);
                        assert(is_file_node(fs, node@));
                    } else {
                        assert(is_ancestor(node@, fs[k as int].path@));
                        assert(is_folder_node(fs, node@));
                    }
                }
                let row = build_row(files, deltas, &dp, &fp, untracked_lines, &node);
                let key = key_exec(files, &fp, &node);
                let ghost before = rows@;
                insert_path_into_tree(&mut rows, &mut keys, row, key, Ghost(fs), Ghost(ds), Ghost(ls));
                proof {
                    assert forall|k2: int, m2: int|
                        0 <= k2 < k && ends_node(fs, k2, m2) implies #[trigger] has_row_for(fs, rows@, fs[k2].path@.subrange(0, m2)) by {
                        assert(has_row_for(fs, before, fs[k2].path@.subrange(0, m2)));
                    }
                    assert forall|m2: int|
                        0 <= m2 < m + 1 && ends_node(fs, k as int, m2) implies #[trigger] has_row_for(fs, rows@, fs[k as int].path@.subrange(0, m2)) by {
                        if m2 < m {
                            assert(has_row_for(fs, before, fs[k as int].path@.subrange(0, m2)));
                        } else {
                            assert(fs[k as int].path@.subrange(0, m2) == node@);
                        }
                    }
                }
            }
            if m == pv.len() {
                break;
            }
            m += 1;
        }
        proof {
            assert forall|k2: int, m2: int|
                0 <= k2 < k + 1 && ends_node(fs, k2, m2) implies #[trigger] has_row_for(fs, rows@, fs[k2].path@.subrange(0, m2)) by {
                if k2 == k {
                    assert(m2 <= pv@.len());
                }
            }
        }
        k += 1;
    }
    rows
}

/// The keys of the rows, in order.
pub open spec fn row_keys(files: Seq<FileEntry>, rows: Seq<TreeItem>) -> Seq<Seq<int>> {
    rows.map_values(|r: TreeItem| node_key(files, r.path@))
}

/// Two lists of entries name the same set of paths.
pub open spec fn same_paths(f1: Seq<FileEntry>, f2: Seq<FileEntry>) -> bool {
    forall|p: Seq<char>| is_file_node(f1, p) <==> is_file_node(f2, p)
}

proof fn lemma_key_from_same_paths(f1: Seq<FileEntry>, f2: Seq<FileEntry>, n: Seq<char>, i: int)
    requires
        same_paths(f1, f2),
    ensures
        key_from(f1, n, i) == key_from(f2, n, i),
    decreases n.len() - i,
{
    if 0 <= i <= n.len() {
        let j = match find_char_from(n, '/', i) {
            Some(j) => j,
            None => n.len() as int,
        };
        assert(is_file_node(f1, n.subrange(0, j)) == is_file_node(f2, n.subrange(0, j)));
        if i <= j && j < n.len() {
            lemma_key_from_same_paths(f1, f2, n, j + 1);
        }
    }
}

proof fn lemma_row_keys_included(
    f1: Seq<FileEntry>,
    d1: Seq<FileDelta>,
    l1: Seq<usize>,
    rows1: Seq<TreeItem>,
    f2: Seq<FileEntry>,
    rows2: Seq<TreeItem>,
)
    requires
        same_paths(f1, f2),
        rows_valid(f1, d1, l1, rows1),
        rows_cover(f2, rows2),
    ensures
        forall|x: Seq<int>| row_keys(f1, rows1).contains(x) ==> row_keys(f2, rows2).contains(x),
{
    assert forall|x: Seq<int>| row_keys(f1, rows1).contains(x) implies row_keys(f2, rows2).contains(x) by {
        let i = choose|i: int| 0 <= i < row_keys(f1, rows1).len() && row_keys(f1, rows1)[i] == x;
        let n = rows1[i].path@;
        assert(row_is_node(f1, d1, l1, rows1[i]));
        lemma_key_from_same_paths(f1, f2, n, 0);
        let (k2, m) = if is_file_node(f1, n) {
            assert(is_file_node(f2, n));
            let k2 = choose|k: int| 0 <= k < f2.len() && (#[trigger] f2[k]).path@ == n;
            assert(f2[k2].path@.subrange(0, n.len() as int) =~= n);
            (k2, n.len() as int)
        } else {
            let k = choose|k: int| 0 <= k < f1.len() && is_ancestor(n, (#[trigger] f1[k]).path@);
            let p = f1[k].path@;
            assert(is_file_node(f1, p));
            assert(is_file_node(f2, p));
            let k2 = choose|k: int| 0 <= k < f2.len() && (#[trigger] f2[k]).path@ == p;
            (k2, n.len() as int)
        };
        assert(ends_node(f2, k2, m));
        assert(f2[k2].path@.subrange(0, m) == n);
        assert(has_row_for(f2, rows2, f2[k2].path@.subrange(0, m)));
        let j = choose|j: int| 0 <= j < rows2.len() && node_key(f2, (#[trigger] rows2[j]).path@) == node_key(f2, n);
        assert(row_keys(f2, rows2)[j] == x);
    }
}

/// The rows of the tree come in one order only, fixed by the set of paths:
/// any two row lists that meet the contract of `build_tree_items`, for two
/// entry lists naming the same paths (the same list run twice, or one
/// permuted), have the same node keys in the same order.
pub proof fn lemma_rows_order_determined(
    f1: Seq<FileEntry>,
    d1: Seq<FileDelta>,
    l1: Seq<usize>,
    rows1: Seq<TreeItem>,
    f2: Seq<FileEntry>,
    d2: Seq<FileDelta>,
    l2: Seq<usize>,
    rows2: Seq<TreeItem>,
)
    requires
        same_paths(f1, f2),
        rows_sorted(f1, rows1),
        rows_valid(f1, d1, l1, rows1),
        rows_cover(f1, rows1),
        rows_sorted(f2, rows2),
        rows_valid(f2, d2, l2, rows2),
        rows_cover(f2, rows2),
    ensures
        row_keys(f1, rows1) == row_keys(f2, rows2),
{
    lemma_row_keys_included(f1, d1, l1, rows1, f2, rows2);
    lemma_row_keys_included(f2, d2, l2, rows2, f1, rows1);
    let a = row_keys(f1, rows1);
    let b = row_keys(f2, rows2);
    assert forall|i: int, j: int| 0 <= i < j < a.len() implies seq_lt(#[trigger] a[i], #[trigger] a[j]) by {
        assert(seq_lt(node_key(f1, rows1[i].path@), node_key(f1, rows1[j].path@)));
    }
    assert forall|i: int, j: int| 0 <= i < j < b.len() implies seq_lt(#[trigger] b[i], #[trigger] b[j]) by {
        assert(seq_lt(node_key(f2, rows2[i].path@), node_key(f2, rows2[j].path@)));
    }
    lemma_sorted_unique(a, b);
}

pub open spec fn rank_of(files: Seq<FileEntry>, n: Seq<char>) -> int {
    if is_file_node(files, n) {
        1
    } else {
        0
    }
}

/// The part of the key of `n` for its segments from `i` up to the `/` at `q`.
pub open spec fn key_upto(files: Seq<FileEntry>, n: Seq<char>, i: int, q: int) -> Seq<int>
    decreases q - i,
{
    if i < 0 || i > q || q >= n.len() {
        Seq::empty()
    } else {
        let j = match find_char_from(n, '/', i) {
            Some(j) => j,
            None => n.len() as int,
        };
        let here = seq![rank_of(files, n.subrange(0, j))] + codes(n.subrange(i, j)) + seq![-1int];
        if i <= j && j < q {
            here + key_upto(files, n, j + 1, q)
        } else {
            here
        }
    }
}

/// Where `a` and `b` agree up to a `/` at `q`, their keys from a segment
/// start `i` before it share the part up to `q`.
proof fn lemma_key_common(files: Seq<FileEntry>, a: Seq<char>, b: Seq<char>, i: int, q: int)
    requires
        0 <= i <= q,
        q < a.len(),
        q < b.len(),
        a.subrange(0, q + 1) == b.subrange(0, q + 1),
        a[q] == '/',
    ensures
        key_from(files, a, i) == key_upto(files, a, i, q) + key_from(files, a, q + 1),
        key_from(files, b, i) == key_upto(files, b, i, q) + key_from(files, b, q + 1),
        key_upto(files, a, i, q) == key_upto(files, b, i, q),
    decreases q - i,
{
    assert forall|k: int| 0 <= k <= q implies a[k] == b[k] by {
        assert(a.subrange(0, q + 1)[k] == b.subrange(0, q + 1)[k]);
        assert(a.subrange(0, q + 1)[k] == a[k]);
        assert(b.subrange(0, q + 1)[k] == b[k]);
    }
    lemma_find_char_from(a, '/', i);
    lemma_find_char_from(b, '/', i);
    let ja = find_char_from(a, '/', i);
    let jb = find_char_from(b, '/', i);
    assert(ja is Some);
    let j = ja->0;
    assert(j <= q);
    assert(b[j] == '/');
    assert(jb is Some);
    assert(jb->0 == j) by {
        if jb->0 < j {
            assert(a[jb->0] == b[jb->0]);
        }
        if jb->0 > j {
        }
    }
    assert(a.subrange(0, j) =~= b.subrange(0, j));
    assert(a.subrange(i, j) =~= b.subrange(i, j));
    if j < q {
        lemma_key_common(files, a, b, j + 1, q);
        let here = seq![rank_of(files, a.subrange(0, j))] + codes(a.subrange(i, j)) + seq![-1int];
        assert(key_from(files, a, i) == here + key_from(files, a, j + 1));
        assert(key_from(files, a, i) =~= key_upto(files, a, i, q) + key_from(files, a, q + 1));
        assert(key_from(files, b, i) =~= key_upto(files, b, i, q) + key_from(files, b, q + 1));
    }
}

/// The key of a last segment, which holds no `/`.
proof fn lemma_key_last_segment(files: Seq<FileEntry>, n: Seq<char>, s: int)
    requires
        0 <= s <= n.len(),
        forall|k: int| s <= k < n.len() ==> n[k] != '/',
    ensures
        key_from(files, n, s) == seq![rank_of(files, n)] + codes(n.subrange(s, n.len() as int)) + seq![-1int],
{
    lemma_find_char_from(n, '/', s);
    assert(n.subrange(0, n.len() as int) =~= n);
}

proof fn lemma_seq_lt_common_prefix(h: Seq<int>, a: Seq<int>, b: Seq<int>)
    ensures
        seq_lt(h + a, h + b) <==> seq_lt(a, b),
{
    let x = h + a;
    let y = h + b;
    if seq_lt(a, b) {
        let k = choose|k: int|
            0 <= k <= a.len() && k <= b.len() && a.subrange(0, k) == b.subrange(0, k) && ((k == a.len()
                && k < b.len()) || (k < a.len() && k < b.len() && a[k] < b[k]));
        let hk = h.len() + k;
        assert(x.subrange(0, hk) =~= h + a.subrange(0, k));
        assert(y.subrange(0, hk) =~= h + b.subrange(0, k));
        assert(seq_lt(x, y));
    }
    if seq_lt(x, y) {
        let k = choose|k: int|
            0 <= k <= x.len() && k <= y.len() && x.subrange(0, k) == y.subrange(0, k) && ((k == x.len()
                && k < y.len()) || (k < x.len() && k < y.len() && x[k] < y[k]));
        if k < h.len() {
            assert(x[k] == y[k]);
            assert(false);
        }
        let k2 = k - h.len();
        assert forall|t: int| 0 <= t < k2 implies a[t] == b[t] by {
            assert(x.subrange(0, k)[h.len() + t] == y.subrange(0, k)[h.len() + t]);
        }
        assert(a.subrange(0, k2) =~= b.subrange(0, k2));
        assert(seq_lt(a, b));
    }
}

proof fn lemma_seq_lt_segment(r1: int, x: Seq<int>, r2: int, y: Seq<int>)
    requires
        forall|t: int| 0 <= t < x.len() ==> x[t] >= 0,
        forall|t: int| 0 <= t < y.len() ==> y[t] >= 0,
    ensures
        seq_lt(seq![r1] + x + seq![-1int], seq![r2] + y + seq![-1int]) <==> (r1 < r2 || (r1 == r2
            && seq_lt(x, y))),
{
    let a = seq![r1] + x + seq![-1int];
    let b = seq![r2] + y + seq![-1int];
    if r1 != r2 {
        assert(a.subrange(0, 0) =~= b.subrange(0, 0));
        if r1 < r2 {
            assert(seq_lt(a, b));
        } else {
            assert(seq_lt(b, a));
            crate::order::lemma_seq_lt_asymmetric(b, a);
        }
    } else {
        lemma_seq_lt_common_prefix(seq![r1], x + seq![-1int], y + seq![-1int]);
        assert(a =~= seq![r1] + (x + seq![-1int]));
        assert(b =~= seq![r2] + (y + seq![-1int]));
        lemma_seq_lt_terminated(x, y);
    }
}

proof fn lemma_seq_lt_terminated(x: Seq<int>, y: Seq<int>)
    requires
        forall|t: int| 0 <= t < x.len() ==> x[t] >= 0,
        forall|t: int| 0 <= t < y.len() ==> y[t] >= 0,
    ensures
        seq_lt(x + seq![-1int], y + seq![-1int]) <==> seq_lt(x, y),
{
    let a = x + seq![-1int];
    let b = y + seq![-1int];
    if seq_lt(x, y) {
        let k = choose|k: int|
            0 <= k <= x.len() && k <= y.len() && x.subrange(0, k) == y.subrange(0, k) && ((k == x.len()
                && k < y.len()) || (k < x.len() && k < y.len() && x[k] < y[k]));
        assert(a.subrange(0, k) =~= x.subrange(0, k));
        assert(b.subrange(0, k) =~= y.subrange(0, k));
        assert(seq_lt(a, b));
    }
    if seq_lt(a, b) {
        let k = choose|k: int|
            0 <= k <= a.len() && k <= b.len() && a.subrange(0, k) == b.subrange(0, k) && ((k == a.len()
                && k < b.len()) || (k < a.len() && k < b.len() && a[k] < b[k]));
        let k2 = if k > x.len() { x.len() as int } else { k };
        assert forall|t: int| 0 <= t < k2 && t < y.len() implies x[t] == y[t] by {
            assert(a.subrange(0, k)[t] == b.subrange(0, k)[t]);
        }
        if k == a.len() {
            // then a is a proper prefix of b: x + [-1] prefix of y + [-1]
            assert(a.subrange(0, k)[x.len() as int] == b.subrange(0, k)[x.len() as int]);
            assert(b[x.len() as int] == -1);
            if x.len() < y.len() {
                assert(y[x.len() as int] >= 0);
            }
            assert(false);
        }
        if k <= x.len() && k <= y.len() {
            assert(x.subrange(0, k) =~= y.subrange(0, k));
            if k == x.len() && k == y.len() {
                assert(a[k] == -1 && b[k] == -1);
            } else if k == x.len() {
                assert(seq_lt(x, y));
            } else if k == y.len() {
                assert(b[k] == -1);
                assert(a[k] == x[k]);
            } else {
                assert(seq_lt(x, y));
            }
        } else if k > y.len() {
            assert(a.subrange(0, k)[y.len() as int] == b.subrange(0, k)[y.len() as int]);
            if y.len() < x.len() {
                assert(x[y.len() as int] >= 0);
            }
        } else {
            assert(a.subrange(0, k)[x.len() as int] == b.subrange(0, k)[x.len() as int]);
            if x.len() < y.len() {
                assert(y[x.len() as int] >= 0);
            }
        }
    }
}

/// `a` and `b` are siblings: they agree before `s`, which starts their
/// last segments (the start of the path, or just after a `/`).
pub open spec fn siblings(a: Seq<char>, b: Seq<char>, s: int) -> bool {
    &&& 0 <= s <= a.len()
    &&& s <= b.len()
    &&& a.subrange(0, s) == b.subrange(0, s)
    &&& (s == 0 || a[s - 1] == '/')
    &&& forall|k: int| s <= k < a.len() ==> a[k] != '/'
    &&& forall|k: int| s <= k < b.len() ==> b[k] != '/'
}

/// Between siblings the key order puts a folder before a file, and two
/// of the same kind in the character order of their names.
pub proof fn lemma_sibling_order(files: Seq<FileEntry>, a: Seq<char>, b: Seq<char>, s: int)
    requires
        siblings(a, b, s),
    ensures
        seq_lt(node_key(files, a), node_key(files, b)) <==> (rank_of(files, a) < rank_of(files, b) || (
        rank_of(files, a) == rank_of(files, b) && seq_lt(
            codes(a.subrange(s, a.len() as int)),
            codes(b.subrange(s, b.len() as int)),
        ))),
{
    lemma_key_last_segment(files, a, s);
    lemma_key_last_segment(files, b, s);
    let x = codes(a.subrange(s, a.len() as int));
    let y = codes(b.subrange(s, b.len() as int));
    lemma_seq_lt_segment(rank_of(files, a), x, rank_of(files, b), y);
    if s > 0 {
        assert(a.subrange(0, s) == b.subrange(0, s));
        assert(b[s - 1] == '/') by {
            assert(a.subrange(0, s)[s - 1] == b.subrange(0, s)[s - 1]);
        }
        lemma_key_common(files, a, b, 0, s - 1);
        lemma_seq_lt_common_prefix(key_upto(files, a, 0, s - 1), key_from(files, a, s), key_from(files, b, s));
    }
}

/// In the rows of the tree, of two siblings the earlier is a folder or
/// the later a file, and two siblings of one kind go in name order.
pub proof fn lemma_sibling_rows(
    files: Seq<FileEntry>,
    deltas: Seq<FileDelta>,
    lines: Seq<usize>,
    rows: Seq<TreeItem>,
    i: int,
    j: int,
    s: int,
)
    requires
        rows_sorted(files, rows),
        rows_valid(files, deltas, lines, rows),
        0 <= i < j < rows.len(),
        siblings(rows[i].path@, rows[j].path@, s),
    ensures
        rows[i].kind == TreeKind::File ==> rows[j].kind == TreeKind::File,
        rows[i].kind == rows[j].kind ==> seq_lt(
            codes(rows[i].path@.subrange(s, rows[i].path@.len() as int)),
            codes(rows[j].path@.subrange(s, rows[j].path@.len() as int)),
        ),
{
    assert(row_is_node(files, deltas, lines, rows[i]));
    assert(row_is_node(files, deltas, lines, rows[j]));
    assert(seq_lt(node_key(files, rows[i].path@), node_key(files, rows[j].path@)));
    lemma_sibling_order(files, rows[i].path@, rows[j].path@, s);
}

/// Keys of segments starting at `i` in paths that agree before `i` are
/// equal only where the paths are.
proof fn lemma_key_from_injective(files: Seq<FileEntry>, a: Seq<char>, b: Seq<char>, i: int)
    requires
        0 <= i <= a.len(),
        i <= b.len(),
        a.subrange(0, i) == b.subrange(0, i),
        key_from(files, a, i) == key_from(files, b, i),
    ensures
        a == b,
    decreases a.len() - i,
{
    lemma_find_char_from(a, '/', i);
    lemma_find_char_from(b, '/', i);
    let ja = match find_char_from(a, '/', i) {
        Some(j) => j,
        None => a.len() as int,
    };
    let jb = match find_char_from(b, '/', i) {
        Some(j) => j,
        None => b.len() as int,
    };
    let ka = key_from(files, a, i);
    let kb = key_from(files, b, i);
    let ca = codes(a.subrange(i, ja));
    let cb = codes(b.subrange(i, jb));
    let ra: int = if is_file_node(files, a.subrange(0, ja)) { 1 } else { 0 };
    let rb: int = if is_file_node(files, b.subrange(0, jb)) { 1 } else { 0 };
    let ha = seq![ra] + ca + seq![-1int];
    let hb = seq![rb] + cb + seq![-1int];
    assert(ka.subrange(0, ha.len() as int) == ha);
    assert(kb.subrange(0, hb.len() as int) == hb);
    // the first -1 after the rank closes the segment, in both keys
    assert(ja - i == jb - i) by {
        if ja < jb {
            let t = ja - i;
            assert(ka[t + 1] == -1);
            assert(kb[t + 1] == cb[t]);
            assert(cb[t] >= 0);
        } else if jb < ja {
            let t = jb - i;
            assert(kb[t + 1] == -1);
            assert(ka[t + 1] == ca[t]);
            assert(ca[t] >= 0);
        }
    }
    assert forall|t: int| i <= t < ja implies a[t] == b[t] by {
        assert(ka[t - i + 1] == kb[t - i + 1]);
        assert(ca[t - i] == cb[t - i]);
        assert((a[t] as u32) == (b[t] as u32));
        vstd::utf8::char_u32_cast(a[t], a[t] as u32);
        vstd::utf8::char_u32_cast(b[t], b[t] as u32);
    }
    assert(a.subrange(0, ja) =~= b.subrange(0, ja)) by {
        assert forall|t: int| 0 <= t < ja implies a.subrange(0, ja)[t] == b.subrange(0, ja)[t] by {
            if t < i {
                assert(a.subrange(0, i)[t] == b.subrange(0, i)[t]);
            }
        }
    }
    if ja < a.len() {
        assert(key_from(files, a, ja + 1).len() > 0);
        if jb == b.len() {
            assert(ka.len() > ha.len());
            assert(kb.len() == hb.len());
        }
        assert(a[ja] == '/' && b[ja] == '/');
        assert(a.subrange(0, ja + 1) =~= b.subrange(0, ja + 1));
        assert(key_from(files, a, i) == ha + key_from(files, a, ja + 1));
        assert(key_from(files, b, i) == hb + key_from(files, b, ja + 1));
        assert(key_from(files, a, ja + 1) =~= ka.subrange(ha.len() as int, ka.len() as int));
        assert(key_from(files, b, ja + 1) =~= kb.subrange(hb.len() as int, kb.len() as int));
        lemma_key_from_injective(files, a, b, ja + 1);
    } else {
        if jb < b.len() {
            assert(key_from(files, b, jb + 1).len() > 0);
            assert(kb == hb + key_from(files, b, jb + 1));
            assert(kb.len() > hb.len());
            assert(ka.len() == ha.len());
        }
        assert(a =~= a.subrange(0, ja));
        assert(b =~= b.subrange(0, jb));
    }
}

/// A row as the contracts see it.
pub open spec fn item_view(r: TreeItem) -> (Seq<char>, Seq<char>, TreeKind, bool, bool, bool, usize, usize) {
    (r.path@, r.label@, r.kind, r.staged, r.unstaged, r.untracked, r.added_lines, r.removed_lines)
}

/// Building the tree twice from the same input gives the same rows: the
/// same nodes in the same order, each with the same label, kind, status
/// and line counts. Folder status and counts are fixed by the entries, so
/// repeating the build never adds to them.
pub proof fn lemma_rows_determined(
    files: Seq<FileEntry>,
    deltas: Seq<FileDelta>,
    lines: Seq<usize>,
    rows1: Seq<TreeItem>,
    rows2: Seq<TreeItem>,
)
    requires
        rows_sorted(files, rows1),
        rows_valid(files, deltas, lines, rows1),
        rows_cover(files, rows1),
        rows_sorted(files, rows2),
        rows_valid(files, deltas, lines, rows2),
        rows_cover(files, rows2),
    ensures
        rows1.map_values(|r: TreeItem| item_view(r)) == rows2.map_values(|r: TreeItem| item_view(r)),
{
    lemma_rows_order_determined(files, deltas, lines, rows1, files, deltas, lines, rows2);
    assert(rows1.len() == row_keys(files, rows1).len());
    assert(rows2.len() == row_keys(files, rows2).len());
    assert forall|i: int| 0 <= i < rows1.len() implies item_view(rows1[i]) == item_view(rows2[i]) by {
        assert(row_keys(files, rows1)[i] == row_keys(files, rows2)[i]);
        assert(row_keys(files, rows1)[i] == node_key(files, rows1[i].path@));
        assert(row_keys(files, rows2)[i] == node_key(files, rows2[i].path@));
        let a = rows1[i].path@;
        let b = rows2[i].path@;
        assert(a.subrange(0, 0) =~= b.subrange(0, 0));
        lemma_key_from_injective(files, a, b, 0);
        assert(row_is_node(files, deltas, lines, rows1[i]));
        assert(row_is_node(files, deltas, lines, rows2[i]));
    }
    assert(rows1.map_values(|r: TreeItem| item_view(r)) =~= rows2.map_values(|r: TreeItem| item_view(r)));
}

} // verus!
