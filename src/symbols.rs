//! Recognition of function and method definitions in single source lines,
//! chosen by file extension.
use vstd::prelude::*;
use crate::text::{
    skip_view,
    before_char, before_char_chars, find_char_from, find_chars, find_seq, has_prefix, to_chars,
    string_of, starts_with, trim, trim_chars, trim_end_char, trim_end_char_chars, trim_start,
    trim_start_chars, copy_range, find_char,
};

verus! {

pub open spec fn is_ident_start(c: char) -> bool {
    c == '_' || ('a' <= c && c <= 'z') || ('A' <= c && c <= 'Z')
}

pub open spec fn is_ident_char(c: char) -> bool {
    is_ident_start(c) || ('0' <= c && c <= '9')
}

/// Non-empty, a letter or `_` first, then only letters, digits and `_`.
pub open spec fn is_identifier(v: Seq<char>) -> bool {
    &&& v.len() > 0
    &&& is_ident_start(v[0])
    &&& forall|i: int| 1 <= i < v.len() ==> is_ident_char(#[trigger] v[i])
}

/// The text before the first `(`, trimmed, with trailing `{` removed and
/// trimmed again, if that is an identifier.
pub open spec fn identifier_before_paren(text: Seq<char>) -> Option<Seq<char>> {
    let name = trim(trim_end_char(trim(before_char(text, '(')), '{'));
    if is_identifier(name) {
        Some(name)
    } else {
        None
    }
}

/// Heuristic for Python: `def name(` or `async def name(`.
pub open spec fn python_symbol(s: Seq<char>) -> Option<Seq<char>> {
    if starts_with(s, "def "@) {
        identifier_before_paren(skip_view(s, "def "@.len() as int))
    } else if starts_with(s, "async def "@) {
        identifier_before_paren(skip_view(s, "async def "@.len() as int))
    } else {
        None
    }
}

/// Heuristic for Rust: the name after the first ` fn `, or after a leading `fn `.
pub open spec fn rust_symbol(s: Seq<char>) -> Option<Seq<char>> {
    match find_seq(s, " fn "@) {
        Some(i) => identifier_before_paren(skip_view(s, i + " fn "@.len())),
        None => if starts_with(s, "fn "@) {
            identifier_before_paren(skip_view(s, "fn "@.len() as int))
        } else {
            None
        },
    }
}

/// Heuristic for JavaScript and TypeScript: `function name(`,
/// `async function name(`, or `const name = ... => ...`.
pub open spec fn js_symbol(s: Seq<char>) -> Option<Seq<char>> {
    if starts_with(s, "function "@) {
        identifier_before_paren(skip_view(s, "function "@.len() as int))
    } else if starts_with(s, "async function "@) {
        identifier_before_paren(skip_view(s, "async function "@.len() as int))
    } else if starts_with(s, "const "@) && find_seq(skip_view(s, "const "@.len() as int), "=>"@) is Some {
        let ident = trim(before_char(skip_view(s, "const "@.len() as int), '='));
        if is_identifier(ident) {
            Some(ident)
        } else {
            None
        }
    } else {
        None
    }
}

/// What follows a Go receiver clause `(...)`: the text between the first
/// and the second `)`, without leading whitespace.
pub open spec fn after_receiver(rest: Seq<char>) -> Seq<char> {
    match find_char_from(rest, ')', 0) {
        Some(j) => trim_start(before_char(skip_view(rest, j + 1), ')')),
        None => Seq::empty(),
    }
}

/// Heuristic for Go: `func name(` or `func (recv) name(`.
pub open spec fn go_symbol(s: Seq<char>) -> Option<Seq<char>> {
    if starts_with(s, "func "@) {
        let rest = skip_view(s, "func "@.len() as int);
        if rest.len() > 0 && rest[0] == '(' {
            identifier_before_paren(after_receiver(rest))
        } else {
            identifier_before_paren(rest)
        }
    } else {
        None
    }
}

/// Fallback heuristic: `function name(` or `def name(`.
pub open spec fn general_symbol(s: Seq<char>) -> Option<Seq<char>> {
    if starts_with(s, "function "@) {
        identifier_before_paren(skip_view(s, "function "@.len() as int))
    } else if starts_with(s, "def "@) {
        identifier_before_paren(skip_view(s, "def "@.len() as int))
    } else {
        None
    }
}

/// The text after the last `.` of `path`, or all of it where it holds none.
pub open spec fn extension_of(path: Seq<char>) -> Seq<char>
    decreases path.len(),
{
    if path.len() == 0 {
        path
    } else if path.last() == '.' {
        Seq::empty()
    } else {
        extension_of(path.drop_last()).push(path.last())
    }
}

pub open spec fn is_js_extension(e: Seq<char>) -> bool {
    e == "js"@ || e == "jsx"@ || e == "ts"@ || e == "tsx"@ || e == "mjs"@ || e == "cjs"@
}

/// The symbol defined on `line` of a file with extension `ext`, if the
/// heuristic for that extension recognises one.
pub open spec fn symbol_for_ext(line: Seq<char>, ext: Seq<char>) -> Option<Seq<char>> {
    let s = trim_start(line);
    if ext == "py"@ {
        python_symbol(s)
    } else if ext == "rs"@ {
        rust_symbol(s)
    } else if is_js_extension(ext) {
        js_symbol(s)
    } else if ext == "go"@ {
        go_symbol(s)
    } else {
        general_symbol(s)
    }
}

/// The symbol defined on `line` of the file at `path`.
pub open spec fn symbol_of(line: Seq<char>, path: Seq<char>) -> Option<Seq<char>> {
    symbol_for_ext(line, extension_of(path))
}

pub fn is_identifier_like_chars(v: &Vec<char>) -> (r: bool)
    ensures
        r == is_identifier(v@),
{
    if v.len() == 0 {
        return false;
    }
    let first = v[0];
    if !(first == '_' || ('a' <= first && first <= 'z') || ('A' <= first && first <= 'Z')) {
        return false;
    }
    let mut i: usize = 1;
    while i < v.len()
        invariant
            1 <= i <= v@.len(),
            forall|k: int| 1 <= k < i ==> is_ident_char(#[trigger] v@[k]),
        decreases v@.len() - i,
    {
        let c = v[i];
        if !(c == '_' || ('a' <= c && c <= 'z') || ('A' <= c && c <= 'Z') || ('0' <= c && c
            <= '9')) {
            return false;
        }
        i += 1;
    }
    true
}

/// Whether `value` is accepted as a symbol name.
pub fn is_identifier_like(value: &str) -> (r: bool)
    ensures
        r == is_identifier(value@),
{
    let v = to_chars(value);
    is_identifier_like_chars(&v)
}

pub fn identifier_before_paren_chars(text: &Vec<char>) -> (r: Option<Vec<char>>)
    ensures
        r matches Some(n) ==> identifier_before_paren(text@) == Some(n@),
        r is None ==> identifier_before_paren(text@) is None,
{
    let head = before_char_chars(text, '(');
    let t1 = trim_chars(&head);
    let t2 = trim_end_char_chars(&t1, '{');
    let name = trim_chars(&t2);
    if is_identifier_like_chars(&name) {
        Some(name)
    } else {
        None
    }
}

/// The identifier before the first `(` of `text`, as `identifier_before_paren` says.
pub fn extract_identifier_until_paren(text: &str) -> (r: Option<String>)
    ensures
        r matches Some(n) ==> identifier_before_paren(text@) == Some(n@),
        r is None ==> identifier_before_paren(text@) is None,
{
    let v = to_chars(text);
    match identifier_before_paren_chars(&v) {
        Some(n) => Some(string_of(n.as_slice())),
        None => None,
    }
}

pub open spec fn opt_view(r: Option<Vec<char>>) -> Option<Seq<char>> {
    match r {
        Some(v) => Some(v@),
        None => None,
    }
}

/// `s` without the prefix `p`, where `s` begins with it.
fn strip_prefix_chars(s: &Vec<char>, p: &str) -> (r: Option<Vec<char>>)
    ensures
        starts_with(s@, p@) ==> opt_view(r) == Some(skip_view(s@, p@.len() as int)),
        !starts_with(s@, p@) ==> r is None,
{
    let pv = to_chars(p);
    if has_prefix(s, &pv) {
        Some(copy_range(s, pv.len(), s.len()))
    } else {
        None
    }
}

/// The Python heuristic on a line without leading whitespace.
pub fn extract_python_method(s: &Vec<char>) -> (r: Option<Vec<char>>)
    ensures
        opt_view(r) == python_symbol(s@),
{
    if let Some(rest) = strip_prefix_chars(s, "def ") {
        return identifier_before_paren_chars(&rest);
    }
    if let Some(rest) = strip_prefix_chars(s, "async def ") {
        return identifier_before_paren_chars(&rest);
    }
    None
}

/// The Rust heuristic on a line without leading whitespace.
pub fn extract_rust_method(s: &Vec<char>) -> (r: Option<Vec<char>>)
    ensures
        opt_view(r) == rust_symbol(s@),
{
    let pat = to_chars(" fn ");
    if let Some(idx) = find_chars(s, &pat) {
        let rest = copy_range(s, idx + pat.len(), s.len());
        return identifier_before_paren_chars(&rest);
    }
    if let Some(rest) = strip_prefix_chars(s, "fn ") {
        return identifier_before_paren_chars(&rest);
    }
    None
}

/// The JavaScript heuristic on a line without leading whitespace.
pub fn extract_js_method(s: &Vec<char>) -> (r: Option<Vec<char>>)
    ensures
        opt_view(r) == js_symbol(s@),
{
    if let Some(rest) = strip_prefix_chars(s, "function ") {
        return identifier_before_paren_chars(&rest);
    }
    if let Some(rest) = strip_prefix_chars(s, "async function ") {
        return identifier_before_paren_chars(&rest);
    }
    if let Some(rest) = strip_prefix_chars(s, "const ") {
        let arrow = to_chars("=>");
        if find_chars(&rest, &arrow).is_some() {
            let left = before_char_chars(&rest, '=');
            let ident = trim_chars(&left);
            if is_identifier_like_chars(&ident) {
                return Some(ident);
            }
        }
    }
    None
}

fn after_receiver_chars(rest: &Vec<char>) -> (r: Vec<char>)
    ensures
        r@ == after_receiver(rest@),
{
    match find_char(rest, ')', 0) {
        Some(j) => {
            let tail = copy_range(rest, j + 1, rest.len());
            let piece = before_char_chars(&tail, ')');
            trim_start_chars(&piece)
        },
        None => Vec::new(),
    }
}

/// The Go heuristic on a line without leading whitespace.
pub fn extract_go_method(s: &Vec<char>) -> (r: Option<Vec<char>>)
    ensures
        opt_view(r) == go_symbol(s@),
{
    if let Some(rest) = strip_prefix_chars(s, "func ") {
        if rest.len() > 0 && rest[0] == '(' {
            let after = after_receiver_chars(&rest);
            return identifier_before_paren_chars(&after);
        }
        return identifier_before_paren_chars(&rest);
    }
    None
}

/// The fallback heuristic on a line without leading whitespace.
pub fn extract_general_method(s: &Vec<char>) -> (r: Option<Vec<char>>)
    ensures
        opt_view(r) == general_symbol(s@),
{
    if let Some(rest) = strip_prefix_chars(s, "function ") {
        return identifier_before_paren_chars(&rest);
    }
    if let Some(rest) = strip_prefix_chars(s, "def ") {
        return identifier_before_paren_chars(&rest);
    }
    None
}

/// `a` holds exactly the characters of `b`.
fn equals_str(a: &Vec<char>, b: &str) -> (r: bool)
    ensures
        r == (a@ == b@),
{
    let bv = to_chars(b);
    let r = a.len() == bv.len() && has_prefix(a, &bv);
    proof {
        assert(a@.subrange(0, a@.len() as int) =~= a@);
        if a@.len() == bv@.len() && starts_with(a@, bv@) {
            assert(a@ =~= a@.subrange(0, bv@.len() as int));
        }
    }
    r
}

pub fn extension_chars(path: &Vec<char>) -> (r: Vec<char>)
    ensures
        r@ == extension_of(path@),
{
    let mut j: usize = path.len();
    while j > 0 && path[j - 1] != '.'
        invariant
            j <= path@.len(),
            forall|k: int| j <= k < path@.len() ==> path@[k] != '.',
        decreases j,
    {
        j -= 1;
    }
    proof {
        lemma_extension_of(path@, j as int);
    }
    copy_range(path, j, path.len())
}

proof fn lemma_extension_of(path: Seq<char>, j: int)
    requires
        0 <= j <= path.len(),
        j == 0 || path[j - 1] == '.',
        forall|k: int| j <= k < path.len() ==> path[k] != '.',
    ensures
        extension_of(path) == path.subrange(j, path.len() as int),
    decreases path.len(),
{
    if path.len() == j {
        if j > 0 {
            assert(path.last() == '.');
        }
    } else {
        lemma_extension_of(path.drop_last(), j);
        assert(path.subrange(j, path.len() as int) =~= path.drop_last().subrange(
            j,
            path.len() - 1,
        ).push(path.last()));
    }
}

/// The extension of `path`: what follows its last `.`, or the whole path
/// where it holds none.
pub fn file_extension(path: &str) -> (r: String)
    ensures
        r@ == extension_of(path@),
{
    let p = to_chars(path);
    let e = extension_chars(&p);
    string_of(e.as_slice())
}

pub fn symbol_for_ext_chars(line: &Vec<char>, ext: &Vec<char>) -> (r: Option<Vec<char>>)
    ensures
        opt_view(r) == symbol_for_ext(line@, ext@),
{
    let s = trim_start_chars(line);
    if equals_str(ext, "py") {
        extract_python_method(&s)
    } else if equals_str(ext, "rs") {
        extract_rust_method(&s)
    } else if equals_str(ext, "js") || equals_str(ext, "jsx") || equals_str(ext, "ts")
        || equals_str(ext, "tsx") || equals_str(ext, "mjs") || equals_str(ext, "cjs") {
        extract_js_method(&s)
    } else if equals_str(ext, "go") {
        extract_go_method(&s)
    } else {
        extract_general_method(&s)
    }
}

/// The symbol that `line` defines, by the heuristic for the extension of
/// `file_path`.
pub fn extract_method_name(line: &str, file_path: &str) -> (r: Option<String>)
    ensures
        r matches Some(n) ==> symbol_of(line@, file_path@) == Some(n@),
        r is None ==> symbol_of(line@, file_path@) is None,
{
    let l = to_chars(line);
    let p = to_chars(file_path);
    let ext = extension_chars(&p);
    match symbol_for_ext_chars(&l, &ext) {
        Some(n) => Some(string_of(n.as_slice())),
        None => None,
    }
}

} // verus!
