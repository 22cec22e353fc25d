use scat::args::DiffConfig;
use scat::git::{diff_args, interpret_diff_output, trim, GitError};

#[test]
fn builds_default_diff_args() {
    let args = diff_args(&DiffConfig {
        staged: false,
        targets: Vec::new(),
    })
    .unwrap();
    assert_eq!(args, ["diff"]);
}

#[test]
fn builds_staged_diff_args() {
    let args = diff_args(&DiffConfig {
        staged: true,
        targets: Vec::new(),
    })
    .unwrap();
    assert_eq!(args, ["diff", "--staged"]);
}

#[test]
fn builds_path_limited_diff_args() {
    let args = diff_args(&DiffConfig {
        staged: false,
        targets: vec!["src/main.rs".to_string()],
    })
    .unwrap();
    assert_eq!(args, ["diff", "--", "src/main.rs"]);
}

#[test]
fn builds_ref_range_diff_args() {
    let args = diff_args(&DiffConfig {
        staged: false,
        targets: vec!["HEAD~1".to_string(), "HEAD".to_string()],
    })
    .unwrap();
    assert_eq!(args, ["diff", "HEAD~1", "HEAD"]);
}

#[test]
fn staged_with_two_targets() {
    let args = diff_args(&DiffConfig {
        staged: true,
        targets: vec!["a".to_string(), "b".to_string()],
    })
    .unwrap();
    assert_eq!(args, ["diff", "--staged", "a", "b"]);
}

#[test]
fn refuses_three_targets() {
    let err = diff_args(&DiffConfig {
        staged: false,
        targets: vec!["a".to_string(), "b".to_string(), "c".to_string()],
    })
    .unwrap_err();
    assert_eq!(err, GitError::InvalidTargets);
    assert_eq!(err.message(), "git diff accepts zero, one, or two targets");
}

#[test]
fn interprets_git_output() {
    assert_eq!(
        interpret_diff_output(false, String::new(), "  fatal: bad revision\n"),
        Err(GitError::DiffFailed("fatal: bad revision".to_string()))
    );
    assert_eq!(
        interpret_diff_output(true, String::new(), ""),
        Err(GitError::EmptyDiff)
    );
    assert_eq!(
        interpret_diff_output(true, "+x\n".to_string(), "warning"),
        Ok("+x\n".to_string())
    );
}

#[test]
fn trims_both_ends() {
    assert_eq!(trim(" \t a b \n"), "a b");
    assert_eq!(trim("   "), "");
    assert_eq!(trim(""), "");
}

#[test]
fn git_error_messages() {
    assert_eq!(
        GitError::DiffFailed("boom".to_string()).message(),
        "git diff failed: boom"
    );
    assert_eq!(GitError::EmptyDiff.message(), "no git differences");
    assert_eq!(
        GitError::GitUnavailable("not found".to_string()).message(),
        "could not execute git: not found"
    );
}
