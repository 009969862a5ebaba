//! What the dashboard makes of the output of the version-control commands
//! it runs: the message it shows, and whether a push needs an upstream.
use vstd::prelude::*;
use crate::text::{
    push_str,
    find_chars, find_seq, lines_of, split_lines, string_of, to_chars, trim, trim_chars,
    views,
};

verus! {

/// `s` holds `p` somewhere.
pub open spec fn contains(s: Seq<char>, p: Seq<char>) -> bool {
    find_seq(s, p) is Some
}

fn has_text(s: &Vec<char>, p: &str) -> (r: bool)
    ensures
        r == contains(s@, p@),
{
    let pv = to_chars(p);
    find_chars(s, &pv).is_some()
}

/// The status-line message for a command `git <command>` that ended with
/// `success` and printed `stdout` and `stderr`.
pub open spec fn git_message_of(success: bool, stdout: Seq<char>, stderr: Seq<char>, command: Seq<char>) -> Seq<char> {
    let out = trim(stdout);
    let err = trim(stderr);
    if success {
        if out.len() == 0 {
            "✓ git "@ + command
        } else {
            out
        }
    } else if err.len() > 0 {
        err
    } else {
        "git "@ + command + " failed"@
    }
}

pub fn git_message(success: bool, stdout: &str, stderr: &str, command: &str) -> (r: String)
    ensures
        r@ == git_message_of(success, stdout@, stderr@, command@),
{
    let out = trim_chars(&to_chars(stdout));
    let err = trim_chars(&to_chars(stderr));
    if success {
        if out.len() == 0 {
            let mut m = String::new();
            push_str(&mut m, "✓ git ");
            push_str(&mut m, command);
            m
        } else {
            string_of(out.as_slice())
        }
    } else if err.len() > 0 {
        string_of(err.as_slice())
    } else {
        let mut m = String::new();
        push_str(&mut m, "git ");
        push_str(&mut m, command);
        push_str(&mut m, " failed");
        m
    }
}

/// A failed push asks for an upstream branch to be set.
pub open spec fn needs_upstream_of(error_text: Seq<char>) -> bool {
    contains(error_text, "has no upstream branch"@) || contains(error_text, "--set-upstream"@)
        || contains(error_text, "set upstream"@)
}

pub fn needs_upstream(error_text: &str) -> (r: bool)
    ensures
        r == needs_upstream_of(error_text@),
{
    let t = to_chars(error_text);
    has_text(&t, "has no upstream branch") || has_text(&t, "--set-upstream") || has_text(
        &t,
        "set upstream",
    )
}

/// What follows a first `git push`.
#[derive(Clone, Debug)]
pub enum PushStep {
    /// Show this message; nothing more to run.
    Done(String),
    /// Push again with `-u <remote> HEAD`.
    SetUpstream,
}

/// The text a failed push reports: its error output, or else its output.
pub open spec fn push_error_text(stdout: Seq<char>, stderr: Seq<char>) -> Seq<char> {
    if trim(stderr).len() > 0 {
        trim(stderr)
    } else {
        trim(stdout)
    }
}

/// The step after a first push that ended with `success`.
pub fn first_push_step(success: bool, stdout: &str, stderr: &str) -> (r: PushStep)
    ensures
        success ==> (r matches PushStep::Done(m) && m@ == (if trim(stdout@).len() == 0 {
            "✓ git push"@
        } else {
            trim(stdout@)
        })),
        !success && needs_upstream_of(push_error_text(stdout@, stderr@)) ==> r is SetUpstream,
        !success && !needs_upstream_of(push_error_text(stdout@, stderr@)) ==> (r matches PushStep::Done(m)
            && m@ == (if push_error_text(stdout@, stderr@).len() == 0 {
            "git push failed"@
        } else {
            push_error_text(stdout@, stderr@)
        })),
{
    let out = trim_chars(&to_chars(stdout));
    let err = trim_chars(&to_chars(stderr));
    if success {
        if out.len() == 0 {
            return PushStep::Done(String::from_str("✓ git push"));
        }
        return PushStep::Done(string_of(out.as_slice()));
    }
    let error_text = if err.len() > 0 {
        err
    } else {
        out
    };
    let s = string_of(error_text.as_slice());
    if needs_upstream(s.as_str()) {
        PushStep::SetUpstream
    } else if error_text.len() == 0 {
        PushStep::Done(String::from_str("git push failed"))
    } else {
        PushStep::Done(s)
    }
}

/// The message after the second push, `git push -u <remote> HEAD`.
pub open spec fn second_push_message_of(remote: Seq<char>, success: bool, stdout: Seq<char>, stderr: Seq<char>) -> Seq<char> {
    let out = trim(stdout);
    let err = trim(stderr);
    if success {
        if out.len() == 0 {
            "✓ git push -u "@ + remote + " HEAD"@
        } else {
            "Set upstream to "@ + remote + " and pushed\n"@ + out
        }
    } else if err.len() > 0 {
        err
    } else if out.len() > 0 {
        out
    } else {
        "git push -u "@ + remote + " HEAD failed"@
    }
}

pub fn second_push_message(remote: &str, success: bool, stdout: &str, stderr: &str) -> (r: String)
    ensures
        r@ == second_push_message_of(remote@, success, stdout@, stderr@),
{
    let out = trim_chars(&to_chars(stdout));
    let err = trim_chars(&to_chars(stderr));
    let mut m = String::new();
    if success {
        if out.len() == 0 {
            push_str(&mut m, "✓ git push -u ");
            push_str(&mut m, remote);
            push_str(&mut m, " HEAD");
        } else {
            push_str(&mut m, "Set upstream to ");
            push_str(&mut m, remote);
            push_str(&mut m, " and pushed\n");
            let o = string_of(out.as_slice());
            push_str(&mut m, o.as_str());
        }
        m
    } else if err.len() > 0 {
        string_of(err.as_slice())
    } else if out.len() > 0 {
        string_of(out.as_slice())
    } else {
        push_str(&mut m, "git push -u ");
        push_str(&mut m, remote);
        push_str(&mut m, " HEAD failed");
        m
    }
}

/// The names listed one per line, trimmed, empty lines left out.
pub open spec fn remote_names(lines: Seq<Seq<char>>) -> Seq<Seq<char>>
    decreases lines.len(),
{
    if lines.len() == 0 {
        Seq::empty()
    } else {
        let prior = remote_names(lines.drop_last());
        if trim(lines.last()).len() == 0 {
            prior
        } else {
            prior.push(trim(lines.last()))
        }
    }
}

/// The remote to push to: `origin` where it is listed, else the first
/// listed, else `origin`.
pub open spec fn preferred_remote_of(remotes: Seq<char>) -> Seq<char> {
    let names = remote_names(lines_of(remotes));
    if names.contains("origin"@) {
        "origin"@
    } else if names.len() > 0 {
        names[0]
    } else {
        "origin"@
    }
}

/// The remote to push to, from the output of `git remote`.
pub fn preferred_remote(remotes: &str) -> (r: String)
    ensures
        r@ == preferred_remote_of(remotes@),
{
    let text = to_chars(remotes);
    let ls = split_lines(&text);
    let ghost lines = views(ls@);
    let origin = to_chars("origin");
    let mut names: Vec<Vec<char>> = Vec::new();
    let mut i: usize = 0;
    assert(lines.subrange(0, 0) =~= Seq::<Seq<char>>::empty());
    assert(views(names@) =~= Seq::<Seq<char>>::empty());
    while i < ls.len()
        invariant
            i <= ls@.len(),
            lines == views(ls@),
            views(names@) == remote_names(lines.subrange(0, i as int)),
        decreases ls@.len() - i,
    {
        assert(lines.subrange(0, i + 1).drop_last() =~= lines.subrange(0, i as int));
        assert(lines.subrange(0, i + 1).last() == ls@[i as int]@);
        let t = trim_chars(&ls[i]);
        if t.len() > 0 {
            let ghost before = views(names@);
            let ghost tv = t@;
            names.push(t);
            assert(views(names@) =~= before.push(tv));
        }
        i += 1;
    }
    assert(lines.subrange(0, ls@.len() as int) =~= lines);
    let found = crate::names::contains_name(&names, &origin);
    if found {
        String::from_str("origin")
    } else if names.len() > 0 {
        assert(views(names@)[0] == names@[0]@);
        string_of(names[0].as_slice())
    } else {
        String::from_str("origin")
    }
}

} // verus!
