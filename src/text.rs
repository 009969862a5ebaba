//! Character-level helpers shared by the parsers: conversion between `str`
//! and `Vec<char>`, and the line model of a text.
use vstd::prelude::*;
use vstd::std_specs::iter::IteratorSpec;

verus! {

/// The characters of `s`, in order.
pub fn to_chars(s: &str) -> (r: Vec<char>)
    ensures
        r@ == s@,
{
    let mut out: Vec<char> = Vec::new();
    for c in it: s.chars()
        invariant
            out@ == it.seq().subrange(0, it.index() as int),
            it.seq() == s@,
    {
        out.push(c);
    }
    out
}

/// Relies on String::push: appends one character at the end.
#[verifier::external_body]
pub(crate) fn push_char(s: &mut String, c: char)
    ensures
        final(s)@ == old(s)@.push(c),
{
    s.push(c);
}

/// Appends the characters of `s`.
pub fn push_str(out: &mut String, s: &str)
    ensures
        final(out)@ == old(out)@ + s@,
{
    let cs = to_chars(s);
    let ghost start = out@;
    let mut i: usize = 0;
    while i < cs.len()
        invariant
            i <= cs@.len(),
            cs@ == s@,
            out@ == start + cs@.subrange(0, i as int),
        decreases cs@.len() - i,
    {
        push_char(out, cs[i]);
        i += 1;
        assert(out@ =~= start + cs@.subrange(0, i as int));
    }
    assert(cs@.subrange(0, cs@.len() as int) =~= cs@);
}

/// A `String` holding exactly the characters of `cs`.
pub fn string_of(cs: &[char]) -> (r: String)
    ensures
        r@ == cs@,
{
    let mut out = String::new();
    let mut i: usize = 0;
    while i < cs.len()
        invariant
            i <= cs@.len(),
            out@ == cs@.subrange(0, i as int),
        decreases cs@.len() - i,
    {
        push_char(&mut out, cs[i]);
        i += 1;
        assert(out@ =~= cs@.subrange(0, i as int));
    }
    out
}

/// Characters that `char::is_whitespace` accepts (Unicode White_Space).
pub open spec fn is_ws(c: char) -> bool {
    ('\t' <= c && c <= '\r') || c == ' ' || c == '\u{85}' || c == '\u{A0}' || c == '\u{1680}'
        || ('\u{2000}' <= c && c <= '\u{200A}') || c == '\u{2028}' || c == '\u{2029}'
        || c == '\u{202F}' || c == '\u{205F}' || c == '\u{3000}'
}

pub fn is_whitespace(c: char) -> (r: bool)
    ensures
        r == is_ws(c),
{
    ('\t' <= c && c <= '\r') || c == ' ' || c == '\u{85}' || c == '\u{A0}' || c == '\u{1680}'
        || ('\u{2000}' <= c && c <= '\u{200A}') || c == '\u{2028}' || c == '\u{2029}'
        || c == '\u{202F}' || c == '\u{205F}' || c == '\u{3000}'
}

/// `s` without its leading whitespace.
pub open spec fn trim_start(s: Seq<char>) -> Seq<char>
    decreases s.len(),
{
    if s.len() > 0 && is_ws(s[0]) {
        trim_start(s.drop_first())
    } else {
        s
    }
}

/// `s` without its trailing whitespace.
pub open spec fn trim_end(s: Seq<char>) -> Seq<char>
    decreases s.len(),
{
    if s.len() > 0 && is_ws(s.last()) {
        trim_end(s.drop_last())
    } else {
        s
    }
}

/// `s` without whitespace at either end.
pub open spec fn trim(s: Seq<char>) -> Seq<char> {
    trim_end(trim_start(s))
}

/// `s` without every trailing occurrence of `c`.
pub open spec fn trim_end_char(s: Seq<char>, c: char) -> Seq<char>
    decreases s.len(),
{
    if s.len() > 0 && s.last() == c {
        trim_end_char(s.drop_last(), c)
    } else {
        s
    }
}

/// The index of the first `c` in `s` at or after `from`, if any.
pub open spec fn find_char_from(s: Seq<char>, c: char, from: int) -> Option<int>
    decreases s.len() - from,
{
    if from < 0 || from >= s.len() {
        None
    } else if s[from] == c {
        Some(from)
    } else {
        find_char_from(s, c, from + 1)
    }
}

/// The part of `s` before its first `c`, or all of `s` where it holds none.
pub open spec fn before_char(s: Seq<char>, c: char) -> Seq<char> {
    match find_char_from(s, c, 0) {
        Some(i) => s.subrange(0, i),
        None => s,
    }
}

/// `s` begins with `p`.
pub open spec fn starts_with(s: Seq<char>, p: Seq<char>) -> bool {
    p.len() <= s.len() && s.subrange(0, p.len() as int) == p
}

/// `p` occurs in `s` starting at index `i`.
pub open spec fn occurs_at(s: Seq<char>, p: Seq<char>, i: int) -> bool {
    0 <= i && i + p.len() <= s.len() && s.subrange(i, i + p.len()) == p
}

/// The first index at or after `from` at which `p` occurs in `s`, if any.
pub open spec fn find_seq_from(s: Seq<char>, p: Seq<char>, from: int) -> Option<int>
    decreases s.len() + 1 - from,
{
    if from < 0 || from > s.len() {
        None
    } else if occurs_at(s, p, from) {
        Some(from)
    } else {
        find_seq_from(s, p, from + 1)
    }
}

/// The first index at which `p` occurs in `s`, if any.
pub open spec fn find_seq(s: Seq<char>, p: Seq<char>) -> Option<int> {
    find_seq_from(s, p, 0)
}

/// `s` with its first `n` characters removed.
pub open spec fn skip_view(s: Seq<char>, n: int) -> Seq<char> {
    s.subrange(n, s.len() as int)
}

/// A copy of `cs[lo..hi]`.
pub fn copy_range(cs: &Vec<char>, lo: usize, hi: usize) -> (r: Vec<char>)
    requires
        lo <= hi <= cs@.len(),
    ensures
        r@ == cs@.subrange(lo as int, hi as int),
{
    let mut out: Vec<char> = Vec::new();
    let mut i: usize = lo;
    while i < hi
        invariant
            lo <= i <= hi <= cs@.len(),
            out@ == cs@.subrange(lo as int, i as int),
        decreases hi - i,
    {
        out.push(cs[i]);
        i += 1;
        assert(out@ =~= cs@.subrange(lo as int, i as int));
    }
    out
}

pub fn trim_start_chars(cs: &Vec<char>) -> (r: Vec<char>)
    ensures
        r@ == trim_start(cs@),
{
    let mut i: usize = 0;
    assert(cs@.subrange(0, cs@.len() as int) =~= cs@);
    while i < cs.len() && is_whitespace(cs[i])
        invariant
            i <= cs@.len(),
            trim_start(cs@.subrange(i as int, cs@.len() as int)) == trim_start(cs@),
        decreases cs@.len() - i,
    {
        assert(cs@.subrange(i as int, cs@.len() as int).drop_first() =~= cs@.subrange(
            i + 1,
            cs@.len() as int,
        ));
        i += 1;
    }
    assert(cs@.subrange(0, cs@.len() as int) =~= cs@);
    copy_range(cs, i, cs.len())
}

pub fn trim_end_chars(cs: &Vec<char>) -> (r: Vec<char>)
    ensures
        r@ == trim_end(cs@),
{
    let mut j: usize = cs.len();
    assert(cs@.subrange(0, cs@.len() as int) =~= cs@);
    while j > 0 && is_whitespace(cs[j - 1])
        invariant
            j <= cs@.len(),
            trim_end(cs@.subrange(0, j as int)) == trim_end(cs@),
        decreases j,
    {
        assert(cs@.subrange(0, j as int).drop_last() =~= cs@.subrange(0, j - 1));
        j -= 1;
    }
    assert(cs@.subrange(0, cs@.len() as int) =~= cs@);
    copy_range(cs, 0, j)
}

pub fn trim_chars(cs: &Vec<char>) -> (r: Vec<char>)
    ensures
        r@ == trim(cs@),
{
    let a = trim_start_chars(cs);
    trim_end_chars(&a)
}

pub fn trim_end_char_chars(cs: &Vec<char>, c: char) -> (r: Vec<char>)
    ensures
        r@ == trim_end_char(cs@, c),
{
    let mut j: usize = cs.len();
    assert(cs@.subrange(0, cs@.len() as int) =~= cs@);
    while j > 0 && cs[j - 1] == c
        invariant
            j <= cs@.len(),
            trim_end_char(cs@.subrange(0, j as int), c) == trim_end_char(cs@, c),
        decreases j,
    {
        assert(cs@.subrange(0, j as int).drop_last() =~= cs@.subrange(0, j - 1));
        j -= 1;
    }
    assert(cs@.subrange(0, cs@.len() as int) =~= cs@);
    copy_range(cs, 0, j)
}

pub fn find_char(cs: &Vec<char>, c: char, from: usize) -> (r: Option<usize>)
    requires
        from <= cs@.len(),
    ensures
        r matches Some(i) ==> find_char_from(cs@, c, from as int) == Some(i as int) && from <= i
            < cs.len() && cs@[i as int] == c,
        r is None ==> find_char_from(cs@, c, from as int) is None,
{
    let mut i: usize = from;
    while i < cs.len()
        invariant
            from <= i <= cs@.len(),
            find_char_from(cs@, c, i as int) == find_char_from(cs@, c, from as int),
        decreases cs@.len() - i,
    {
        if cs[i] == c {
            return Some(i);
        }
        i += 1;
    }
    None
}

pub fn before_char_chars(cs: &Vec<char>, c: char) -> (r: Vec<char>)
    ensures
        r@ == before_char(cs@, c),
{
    match find_char(cs, c, 0) {
        Some(i) => copy_range(cs, 0, i),
        None => copy_range(cs, 0, cs.len()),
    }
}

/// `p` occurs in `s` at `i`, tested in place.
pub fn matches_at(s: &Vec<char>, p: &Vec<char>, i: usize) -> (r: bool)
    ensures
        r == occurs_at(s@, p@, i as int),
{
    if i > s.len() || p.len() > s.len() - i {
        return false;
    }
    let mut k: usize = 0;
    while k < p.len()
        invariant
            i + p@.len() <= s@.len(),
            i <= s@.len(),
            k <= p@.len(),
            forall|t: int| 0 <= t < k ==> s@[i + t] == p@[t],
        decreases p@.len() - k,
    {
        assert(i + k < s.len());
        if s[i + k] != p[k] {
            assert(s@.subrange(i as int, i + p@.len())[k as int] != p@[k as int]);
            return false;
        }
        k += 1;
    }
    assert(s@.subrange(i as int, i + p@.len()) =~= p@);
    true
}

pub fn has_prefix(s: &Vec<char>, p: &Vec<char>) -> (r: bool)
    ensures
        r == starts_with(s@, p@),
{
    matches_at(s, p, 0)
}

/// The first occurrence of `p` in `s`.
pub fn find_chars(s: &Vec<char>, p: &Vec<char>) -> (r: Option<usize>)
    ensures
        r matches Some(i) ==> find_seq(s@, p@) == Some(i as int) && i + p.len() <= s.len(),
        r is None ==> find_seq(s@, p@) is None,
{
    let mut i: usize = 0;
    loop
        invariant
            i <= s@.len(),
            find_seq_from(s@, p@, i as int) == find_seq(s@, p@),
        decreases s@.len() - i,
    {
        if matches_at(s, p, i) {
            return Some(i);
        }
        if i == s.len() {
            assert(find_seq_from(s@, p@, i + 1) is None);
            assert(find_seq_from(s@, p@, i as int) is None);
            return None;
        }
        i += 1;
    }
}

/// `line` without one carriage return at its end.
pub open spec fn strip_cr(line: Seq<char>) -> Seq<char> {
    if line.len() > 0 && line.last() == '\r' {
        line.drop_last()
    } else {
        line
    }
}

/// Splitting of `s[i..]` into lines, given the part `cur` of the current
/// line read so far and the lines `acc` completed before it.
pub open spec fn lines_from(s: Seq<char>, i: int, cur: Seq<char>, acc: Seq<Seq<char>>) -> Seq<
    Seq<char>,
>
    decreases s.len() - i,
{
    if i < 0 || i >= s.len() {
        if cur.len() > 0 {
            acc.push(cur)
        } else {
            acc
        }
    } else if s[i] == '\n' {
        lines_from(s, i + 1, Seq::empty(), acc.push(strip_cr(cur)))
    } else {
        lines_from(s, i + 1, cur.push(s[i]), acc)
    }
}

/// The lines of `s`: split at each `\n`, a `\r` just before it dropped, and
/// no empty line after a final `\n`.
pub open spec fn lines_of(s: Seq<char>) -> Seq<Seq<char>> {
    lines_from(s, 0, Seq::empty(), Seq::empty())
}

/// The character sequences held by `v`.
pub open spec fn views(v: Seq<Vec<char>>) -> Seq<Seq<char>> {
    v.map_values(|x: Vec<char>| x@)
}

pub fn strip_cr_chars(line: Vec<char>) -> (r: Vec<char>)
    ensures
        r@ == strip_cr(line@),
{
    let ghost orig = line@;
    let mut line = line;
    if line.len() > 0 && line[line.len() - 1] == '\r' {
        line.pop();
        assert(line@ =~= strip_cr(orig));
    }
    line
}

/// The lines of `cs`, as `lines_of` gives them.
pub fn split_lines(cs: &Vec<char>) -> (r: Vec<Vec<char>>)
    ensures
        views(r@) == lines_of(cs@),
{
    let mut acc: Vec<Vec<char>> = Vec::new();
    let mut cur: Vec<char> = Vec::new();
    let mut i: usize = 0;
    assert(cur@ =~= Seq::<char>::empty());
    assert(views(acc@) =~= Seq::<Seq<char>>::empty());
    while i < cs.len()
        invariant
            i <= cs@.len(),
            lines_from(cs@, i as int, cur@, views(acc@)) == lines_of(cs@),
        decreases cs@.len() - i,
    {
        if cs[i] == '\n' {
            let line = strip_cr_chars(cur);
            let ghost before = views(acc@);
            acc.push(line);
            assert(views(acc@) =~= before.push(line@));
            cur = Vec::new();
            assert(cur@ =~= Seq::<char>::empty());
        } else {
            cur.push(cs[i]);
        }
        i += 1;
    }
    if cur.len() > 0 {
        let ghost before = views(acc@);
        let ghost c = cur@;
        acc.push(cur);
        assert(views(acc@) =~= before.push(c));
    }
    acc
}

/// Splitting of `s[i..]` at each `c`, given the current piece `cur` and the
/// pieces `acc` completed before it; the last piece is kept even if empty.
pub open spec fn pieces_from(s: Seq<char>, c: char, i: int, cur: Seq<char>, acc: Seq<Seq<char>>) -> Seq<
    Seq<char>,
>
    decreases s.len() - i,
{
    if i < 0 || i >= s.len() {
        acc.push(cur)
    } else if s[i] == c {
        pieces_from(s, c, i + 1, Seq::empty(), acc.push(cur))
    } else {
        pieces_from(s, c, i + 1, cur.push(s[i]), acc)
    }
}

/// The pieces of `s` between occurrences of `c`, as `str::split` gives them.
pub open spec fn split_at_char(s: Seq<char>, c: char) -> Seq<Seq<char>> {
    pieces_from(s, c, 0, Seq::empty(), Seq::empty())
}

pub fn split_chars(cs: &Vec<char>, c: char) -> (r: Vec<Vec<char>>)
    ensures
        views(r@) == split_at_char(cs@, c),
{
    let mut acc: Vec<Vec<char>> = Vec::new();
    let mut cur: Vec<char> = Vec::new();
    let mut i: usize = 0;
    assert(cur@ =~= Seq::<char>::empty());
    assert(views(acc@) =~= Seq::<Seq<char>>::empty());
    while i < cs.len()
        invariant
            i <= cs@.len(),
            pieces_from(cs@, c, i as int, cur@, views(acc@)) == split_at_char(cs@, c),
        decreases cs@.len() - i,
    {
        if cs[i] == c {
            let ghost before = views(acc@);
            let ghost cv = cur@;
            acc.push(cur);
            assert(views(acc@) =~= before.push(cv));
            cur = Vec::new();
            assert(cur@ =~= Seq::<char>::empty());
        } else {
            cur.push(cs[i]);
        }
        i += 1;
    }
    let ghost before = views(acc@);
    let ghost cv = cur@;
    acc.push(cur);
    assert(views(acc@) =~= before.push(cv));
    acc
}

pub open spec fn is_digit(c: char) -> bool {
    '0' <= c && c <= '9'
}

/// The number that the decimal digits `s` write.
pub open spec fn digits_value(s: Seq<char>) -> nat
    decreases s.len(),
{
    if s.len() == 0 {
        0
    } else {
        digits_value(s.drop_last()) * 10 + (s.last() as nat - '0' as nat) as nat
    }
}

pub open spec fn all_digits(s: Seq<char>) -> bool {
    forall|i: int| 0 <= i < s.len() ==> is_digit(#[trigger] s[i])
}

/// `s` without one leading `+`.
pub open spec fn unsigned_digits(s: Seq<char>) -> Seq<char> {
    if s.len() > 0 && s[0] == '+' {
        s.drop_first()
    } else {
        s
    }
}

/// What `str::parse::<usize>` accepts: an optional `+`, then at least one
/// decimal digit, for a value that fits in `usize`.
pub open spec fn parse_usize(s: Seq<char>) -> Option<nat> {
    let d = unsigned_digits(s);
    if d.len() > 0 && all_digits(d) && digits_value(d) <= usize::MAX {
        Some(digits_value(d))
    } else {
        None
    }
}

/// The value of `s` as `parse_usize` reads it, or 0 where it reads none.
pub open spec fn usize_or_zero(s: Seq<char>) -> nat {
    match parse_usize(s) {
        Some(v) => v,
        None => 0,
    }
}

pub fn parse_usize_or_zero(s: &Vec<char>) -> (r: usize)
    ensures
        r == usize_or_zero(s@),
{
    let mut start: usize = 0;
    if s.len() > 0 && s[0] == '+' {
        start = 1;
    }
    let d = copy_range(s, start, s.len());
    assert(d@ =~= unsigned_digits(s@));
    if d.len() == 0 {
        return 0;
    }
    let mut v: usize = 0;
    let mut i: usize = 0;
    while i < d.len()
        invariant
            i <= d@.len(),
            d@.len() > 0,
            d@ == unsigned_digits(s@),
            all_digits(d@.subrange(0, i as int)),
            v == digits_value(d@.subrange(0, i as int)),
        decreases d@.len() - i,
    {
        let c = d[i];
        assert(d@.subrange(0, i + 1).drop_last() =~= d@.subrange(0, i as int));
        if !('0' <= c && c <= '9') {
            assert(!all_digits(d@)) by {
                assert(!is_digit(d@[i as int]));
            }
            assert(parse_usize(s@) is None);
            return 0;
        }
        let digit = (c as u32 - '0' as u32) as usize;
        if v > (usize::MAX - digit) / 10 {
            assert(d@.subrange(0, i + 1).last() == c);
            assert(digits_value(d@.subrange(0, i + 1)) == v * 10 + digit);
            assert(digits_value(d@.subrange(0, i + 1)) > usize::MAX) by (nonlinear_arith)
                requires
                    v > (usize::MAX - digit) / 10,
                    digits_value(d@.subrange(0, i + 1)) == v * 10 + digit,
                    digit <= 9,
            ;
            proof {
                if all_digits(d@) {
                    lemma_digits_grow(d@, (i + 1) as int);
                    assert(d@.subrange(0, d@.len() as int) =~= d@);
                }
            }
            return 0;
        }
        assert(v * 10 + digit <= usize::MAX) by (nonlinear_arith)
            requires
                v <= (usize::MAX - digit) / 10,
                digit <= 9,
        ;
        v = v * 10 + digit;
        i += 1;
    }
    assert(d@.subrange(0, d@.len() as int) =~= d@);
    v
}

/// Once a prefix of the digits exceeds a bound, the whole number does.
pub proof fn lemma_digits_grow(d: Seq<char>, n: int)
    requires
        0 <= n <= d.len(),
        all_digits(d),
    ensures
        digits_value(d.subrange(0, n)) <= digits_value(d.subrange(0, d.len() as int)),
    decreases d.len() - n,
{
    if n < d.len() {
        lemma_digits_grow(d, n + 1);
        assert(d.subrange(0, n + 1).drop_last() =~= d.subrange(0, n));
        assert(is_digit(d[n]));
    } else {
        assert(d.subrange(0, n) =~= d);
    }
}

/// The number of lines of `text`.
pub fn line_count(text: &str) -> (r: usize)
    ensures
        r == lines_of(text@).len(),
{
    let cs = to_chars(text);
    let ls = split_lines(&cs);
    ls.len()
}

/// What `find_char_from` finds: the first `c` at or after `from`.
pub proof fn lemma_find_char_from(s: Seq<char>, c: char, from: int)
    requires
        0 <= from,
    ensures
        find_char_from(s, c, from) matches Some(j) ==> from <= j < s.len() && s[j] == c && forall|k: int| from <= k < j ==> s[k] != c,
        find_char_from(s, c, from) is None ==> forall|k: int| from <= k < s.len() ==> s[k] != c,
    decreases s.len() - from,
{
    if from < s.len() && s[from] != c {
        lemma_find_char_from(s, c, from + 1);
    }
}

} // verus!
