//! `git diff` command lines, and what its output means.

use vstd::prelude::*;

use crate::args::{string_views, DiffConfig};
use crate::text::is_ws;

verus! {

#[derive(Debug, Clone, PartialEq, Eq)]
pub enum GitError {
    DiffFailed(String),
    EmptyDiff,
    GitUnavailable(String),
    InvalidTargets,
}

/// The arguments of `git` for a diff: `diff`, `--staged` if asked, then
/// nothing, `-- <path>` for one target, or both targets for two.
pub open spec fn spec_diff_args(staged: bool, targets: Seq<Seq<char>>) -> Option<Seq<Seq<char>>> {
    let base = if staged { seq!["diff"@, "--staged"@] } else { seq!["diff"@] };
    if targets.len() == 0 {
        Some(base)
    } else if targets.len() == 1 {
        Some(base + seq!["--"@, targets[0]])
    } else if targets.len() == 2 {
        Some(base + targets)
    } else {
        None
    }
}

pub fn diff_args(config: &DiffConfig) -> (r: Result<Vec<String>, GitError>)
    ensures
        match r {
            Ok(args) => spec_diff_args(config.staged, string_views(config.targets@)) == Some(string_views(args@)),
            Err(e) => e is InvalidTargets && spec_diff_args(config.staged, string_views(config.targets@)) is None,
        },
{
    let mut args: Vec<String> = Vec::new();
    args.push("diff".to_owned());
    if config.staged {
        args.push("--staged".to_owned());
    }
    let ghost base = string_views(args@);
    assert(base =~= if config.staged { seq!["diff"@, "--staged"@] } else { seq!["diff"@] });
    let n = config.targets.len();
    if n == 0 {
    } else if n == 1 {
        args.push("--".to_owned());
        args.push(config.targets[0].clone());
        assert(string_views(args@) =~= base + seq!["--"@, config.targets@[0]@]);
    } else if n == 2 {
        args.push(config.targets[0].clone());
        args.push(config.targets[1].clone());
        assert(string_views(args@) =~= base + string_views(config.targets@));
    } else {
        return Err(GitError::InvalidTargets);
    }
    Ok(args)
}

/// The `git` arguments for a diff: refused exactly when there are more than
/// two targets; otherwise `diff` first, `--staged` second exactly when asked
/// for (whatever the number of targets), and after them `--` and the path
/// for one target, or the targets themselves, in order, for none or two.
pub proof fn law_diff_args_shape(staged: bool, targets: Seq<Seq<char>>)
    ensures
        spec_diff_args(staged, targets) is None <==> targets.len() > 2,
        spec_diff_args(staged, targets) matches Some(v) ==> {
            let s: int = if staged { 2 } else { 1 };
            &&& v[0] == "diff"@
            &&& staged ==> v[1] == "--staged"@
            &&& v.len() == s + (if targets.len() == 1 { 2 } else { targets.len() as int })
            &&& v.subrange(s, v.len() as int) == (if targets.len() == 1 { seq!["--"@, targets[0]] } else { targets })
        },
{
    if let Some(v) = spec_diff_args(staged, targets) {
        let base = if staged { seq!["diff"@, "--staged"@] } else { seq!["diff"@] };
        let tail = if targets.len() == 1 { seq!["--"@, targets[0]] } else { targets };
        if targets.len() == 0 {
            assert(v =~= base + tail);
        }
        assert(v == base + tail);
        assert(v.subrange(base.len() as int, v.len() as int) =~= tail);
    }
}

/// `s` without the whitespace at either end (`str::trim`).
pub open spec fn trimmed(s: Seq<char>) -> Seq<char> {
    s.subrange(trim_start_len(s, 0), trim_end_len(s, s.len() as int, trim_start_len(s, 0)))
}

pub open spec fn trim_start_len(s: Seq<char>, i: int) -> int
    decreases s.len() - i,
{
    if i < 0 || i >= s.len() {
        s.len() as int
    } else if is_ws(s[i]) {
        trim_start_len(s, i + 1)
    } else {
        i
    }
}

pub open spec fn trim_end_len(s: Seq<char>, k: int, lo: int) -> int
    decreases k - lo,
{
    if k <= lo || k > s.len() {
        if k > s.len() { s.len() as int } else { k }
    } else if is_ws(s[k - 1]) {
        trim_end_len(s, k - 1, lo)
    } else {
        k
    }
}

pub proof fn lemma_trim_bounds(s: Seq<char>, i: int, k: int, lo: int)
    requires
        0 <= i <= s.len(),
        0 <= lo <= k <= s.len(),
    ensures
        i <= trim_start_len(s, i) <= s.len(),
        lo <= trim_end_len(s, k, lo) <= k,
    decreases s.len() - i + k - lo,
{
    if i < s.len() && is_ws(s[i]) {
        lemma_trim_bounds(s, i + 1, k, lo);
    } else if k > lo && is_ws(s[k - 1]) {
        lemma_trim_bounds(s, i, k - 1, lo);
    }
}

/// The characters of `s` with the whitespace at both ends removed.
pub fn trim(s: &str) -> (r: String)
    ensures
        r@ == trimmed(s@),
{
    let c = crate::text::to_chars(s);
    let len = c.len();
    proof { lemma_trim_bounds(c@, 0, len as int, 0); }
    let mut i: usize = 0;
    while i < len && crate::text::is_whitespace(c[i])
        invariant
            i <= len,
            len == c@.len(),
            trim_start_len(c@, 0) == trim_start_len(c@, i as int),
        decreases len - i,
    {
        i = i + 1;
    }
    proof { lemma_trim_bounds(c@, i as int, len as int, i as int); }
    let mut k: usize = len;
    while k > i && crate::text::is_whitespace(c[k - 1])
        invariant
            i <= k <= len,
            len == c@.len(),
            trim_end_len(c@, len as int, i as int) == trim_end_len(c@, k as int, i as int),
        decreases k,
    {
        k = k - 1;
    }
    crate::text::collect_range(c.as_slice(), i, k)
}

/// What a finished `git diff` means: a failure is reported with git's
/// (trimmed) error output, no output means there are no differences,
/// anything else is the diff.
pub fn interpret_diff_output(success: bool, stdout: String, stderr: &str) -> (r: Result<String, GitError>)
    ensures
        !success ==> (r matches Err(GitError::DiffFailed(m)) && m@ == trimmed(stderr@)),
        success && stdout@.len() == 0 ==> (r matches Err(e) && e is EmptyDiff),
        success && stdout@.len() > 0 ==> (r matches Ok(d) && d@ == stdout@),
{
    if !success {
        return Err(GitError::DiffFailed(trim(stderr)));
    }
    if stdout.as_str().is_empty() {
        return Err(GitError::EmptyDiff);
    }
    Ok(stdout)
}

/// The message shown for a git error.
pub open spec fn git_error_message(e: GitError) -> Seq<char> {
    match e {
        GitError::DiffFailed(m) => "git diff failed: "@ + m@,
        GitError::EmptyDiff => "no git differences"@,
        GitError::GitUnavailable(m) => "could not execute git: "@ + m@,
        GitError::InvalidTargets => "git diff accepts zero, one, or two targets"@,
    }
}

impl GitError {
    pub fn message(&self) -> (m: String)
        ensures
            m@ == git_error_message(*self),
    {
        match self {
            GitError::DiffFailed(msg) => {
                let mut m = "git diff failed: ".to_owned();
                m.append(msg.as_str());
                m
            },
            GitError::EmptyDiff => "no git differences".to_owned(),
            GitError::GitUnavailable(msg) => {
                let mut m = "could not execute git: ".to_owned();
                m.append(msg.as_str());
                m
            },
            GitError::InvalidTargets => "git diff accepts zero, one, or two targets".to_owned(),
        }
    }
}

} // verus!
