//! The numeric per-file line report: `added<TAB>removed<TAB>path` per line.
use vstd::prelude::*;
use crate::text::{
    lines_of, parse_usize_or_zero, split_at_char, split_chars, split_lines, string_of, to_chars,
    trim, trim_chars, usize_or_zero, views,
};
use crate::tree::{FileDelta, PathDelta};

verus! {

/// Piece `i` of `pieces`, or nothing where there are fewer.
pub open spec fn piece(pieces: Seq<Seq<char>>, i: int) -> Seq<char> {
    if 0 <= i < pieces.len() {
        pieces[i]
    } else {
        Seq::empty()
    }
}

/// The path of a report line: its third tab-separated field, trimmed.
pub open spec fn report_path(line: Seq<char>) -> Seq<char> {
    trim(piece(split_at_char(line, '\t'), 2))
}

/// The counts of a report line; a field that is not a number counts 0.
pub open spec fn report_counts(line: Seq<char>) -> (nat, nat) {
    let p = split_at_char(line, '\t');
    (usize_or_zero(piece(p, 0)), usize_or_zero(piece(p, 1)))
}

pub open spec fn delta_view(d: FileDelta) -> (Seq<char>, nat, nat) {
    (d.path@, d.delta.added_lines as nat, d.delta.removed_lines as nat)
}

pub open spec fn deltas_view(v: Seq<FileDelta>) -> Seq<(Seq<char>, nat, nat)> {
    v.map_values(|d: FileDelta| delta_view(d))
}

/// The entries of the report lines among `lines` that name a path, in order.
pub open spec fn report_entries(lines: Seq<Seq<char>>) -> Seq<(Seq<char>, nat, nat)>
    decreases lines.len(),
{
    if lines.len() == 0 {
        Seq::empty()
    } else {
        let prior = report_entries(lines.drop_last());
        let l = lines.last();
        if report_path(l).len() == 0 {
            prior
        } else {
            prior.push((report_path(l), report_counts(l).0, report_counts(l).1))
        }
    }
}

fn piece_exec(pieces: &Vec<Vec<char>>, i: usize) -> (r: Vec<char>)
    ensures
        r@ == piece(views(pieces@), i as int),
{
    if i < pieces.len() {
        let mut out: Vec<char> = Vec::new();
        let src = &pieces[i];
        let mut k: usize = 0;
        while k < src.len()
            invariant
                k <= src@.len(),
                out@ == src@.subrange(0, k as int),
            decreases src@.len() - k,
        {
            out.push(src[k]);
            k += 1;
            assert(out@ =~= src@.subrange(0, k as int));
        }
        assert(src@.subrange(0, src@.len() as int) =~= src@);
        out
    } else {
        Vec::new()
    }
}

/// The line counts per path that `numstat` reports, in report order;
/// lines without a path are skipped. A path that no line names counts
/// zero lines wherever the result is looked up.
pub fn collect_file_deltas(numstat: &str) -> (r: Vec<FileDelta>)
    ensures
        deltas_view(r@) == report_entries(lines_of(numstat@)),
{
    let text = to_chars(numstat);
    let ls = split_lines(&text);
    let ghost lines = views(ls@);
    let mut out: Vec<FileDelta> = Vec::new();
    let mut i: usize = 0;
    assert(lines.subrange(0, 0) =~= Seq::<Seq<char>>::empty());
    assert(deltas_view(out@) =~= Seq::<(Seq<char>, nat, nat)>::empty());
    while i < ls.len()
        invariant
            i <= ls@.len(),
            lines == views(ls@),
            deltas_view(out@) == report_entries(lines.subrange(0, i as int)),
        decreases ls@.len() - i,
    {
        assert(lines.subrange(0, i + 1).drop_last() =~= lines.subrange(0, i as int));
        assert(lines.subrange(0, i + 1).last() == ls@[i as int]@);
        let pieces = split_chars(&ls[i], '\t');
        let third = piece_exec(&pieces, 2);
        let path = trim_chars(&third);
        if path.len() > 0 {
            let a = parse_usize_or_zero(&piece_exec(&pieces, 0));
            let b = parse_usize_or_zero(&piece_exec(&pieces, 1));
            let d = FileDelta {
                path: string_of(path.as_slice()),
                delta: PathDelta { added_lines: a, removed_lines: b },
            };
            let ghost before = deltas_view(out@);
            out.push(d);
            assert(deltas_view(out@) =~= before.push(delta_view(d)));
        }
        i += 1;
    }
    assert(lines.subrange(0, ls@.len() as int) =~= lines);
    out
}

} // verus!
