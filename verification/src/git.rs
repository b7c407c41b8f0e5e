//! What is asked of git and what its answers mean; running git is the
//! caller's part.
use vstd::prelude::*;

use crate::text::{chars_of, push_str, string_from_chars, strings_view, trim, trim_exec};

verus! {

/// The branch named by the output of `git branch --show-current`: the
/// output without surrounding white space.
pub fn current_branch(git_output: &str) -> (res: String)
    ensures
        res@ == trim(git_output@),
{
    let text = chars_of(git_output);
    let trimmed = trim_exec(&text);
    string_from_chars(&trimmed)
}

/// The characters of an optional string slice.
pub open spec fn opt_str_chars(o: Option<&str>) -> Option<Seq<char>> {
    match o {
        Some(s) => Some(s@),
        None => None,
    }
}

/// `prefix` followed by the value, when there is one.
pub open spec fn optional_arg(prefix: Seq<char>, value: Option<Seq<char>>) -> Seq<Seq<char>> {
    match value {
        Some(v) => seq![prefix + v],
        None => Seq::empty(),
    }
}

/// The arguments of the `git log` call that lists commits with their line
/// counts: fixed options, the header format that `parse_git_log` reads, the
/// time bounds when given, and the branch or revision last when given.
/// The header ends with the commit's parents (`%P`), so that leaving merges
/// out leaves out every commit with two or more parents, whatever its
/// subject.
pub open spec fn git_log_args(
    branch: Option<Seq<char>>,
    since: Option<Seq<char>>,
    until: Option<Seq<char>>,
) -> Seq<Seq<char>> {
    seq![
        "log"@,
        "--numstat"@,
        "--date=short"@,
        "--pretty=format:COMMIT\x1f%H\x1f%an\x1f%ae\x1f%ad\x1f%s\x1f%P"@,
    ] + optional_arg("--since="@, since) + optional_arg("--until="@, until) + match branch {
        Some(b) => seq![b],
        None => Seq::empty(),
    }
}

fn push_optional_arg(args: &mut Vec<String>, prefix: &str, value: Option<&str>)
    ensures
        strings_view(final(args)@) == strings_view(old(args)@) + optional_arg(
            prefix@,
            opt_str_chars(value),
        ),
{
    let ghost before = strings_view(args@);
    match value {
        Some(v) => {
            let mut arg = prefix.to_owned();
            push_str(&mut arg, v);
            args.push(arg);
            assert(strings_view(args@) =~= before + optional_arg(prefix@, opt_str_chars(value)));
        },
        None => {
            assert(strings_view(args@) =~= before + optional_arg(prefix@, opt_str_chars(value)));
        },
    }
}

/// The arguments of the `git log --numstat` call for a branch and time
/// bounds.
pub fn git_log_numstat(branch: Option<&str>, since: Option<&str>, until: Option<&str>) -> (res:
    Vec<String>)
    ensures
        strings_view(res@) == git_log_args(
            opt_str_chars(branch),
            opt_str_chars(since),
            opt_str_chars(until),
        ),
{
    let mut args: Vec<String> = Vec::new();
    args.push("log".to_owned());
    args.push("--numstat".to_owned());
    args.push("--date=short".to_owned());
    args.push("--pretty=format:COMMIT\x1f%H\x1f%an\x1f%ae\x1f%ad\x1f%s\x1f%P".to_owned());
    let ghost fixed = strings_view(args@);
    assert(fixed =~= seq![
        "log"@,
        "--numstat"@,
        "--date=short"@,
        "--pretty=format:COMMIT\x1f%H\x1f%an\x1f%ae\x1f%ad\x1f%s\x1f%P"@,
    ]);
    push_optional_arg(&mut args, "--since=", since);
    push_optional_arg(&mut args, "--until=", until);
    let ghost before = strings_view(args@);
    match branch {
        Some(b) => {
            args.push(b.to_owned());
            assert(strings_view(args@) =~= before + seq![b@]);
        },
        None => {
            assert(strings_view(args@) =~= before + Seq::<Seq<char>>::empty());
        },
    }
    args
}

/// 1 when `o` holds a value, else 0.
pub open spec fn given<T>(o: Option<T>) -> int {
    if o is Some {
        1
    } else {
        0
    }
}

/// What the `git log` arguments hold, whatever else is given: the four fixed
/// options first; then `--since=` with the start when one is given; then
/// `--until=` with the end when one is given; then the branch, last, when
/// one is given; and nothing else.
pub proof fn lemma_git_log_args_hold_the_selection(
    branch: Option<Seq<char>>,
    since: Option<Seq<char>>,
    until: Option<Seq<char>>,
)
    ensures
        git_log_args(branch, since, until).len() == 4 + given(since) + given(until) + given(branch),
        git_log_args(branch, since, until)[0] == "log"@,
        git_log_args(branch, since, until)[1] == "--numstat"@,
        git_log_args(branch, since, until)[2] == "--date=short"@,
        git_log_args(branch, since, until)[3]
            == "--pretty=format:COMMIT\x1f%H\x1f%an\x1f%ae\x1f%ad\x1f%s\x1f%P"@,
        since matches Some(s) ==> git_log_args(branch, since, until)[4] == "--since="@ + s,
        until matches Some(u) ==> git_log_args(branch, since, until)[4 + given(since)] == "--until="@
            + u,
        branch matches Some(b) ==> git_log_args(branch, since, until).last() == b,
{
}

} // verus!
