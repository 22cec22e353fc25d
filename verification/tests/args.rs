use scat::args::{help_text, ArgsError, ColorMode, Config, DiffConfig, Mode};
use scat::language::Language;

#[test]
fn parses_path_and_defaults_to_line_numbers() {
    let config = Config::parse(&["src/main.rs"]).unwrap();
    assert_eq!(
        config.mode,
        Mode::View {
            path: Some("src/main.rs".to_string())
        }
    );
    assert!(config.line_numbers);
    assert_eq!(config.color, ColorMode::Auto);
    assert_eq!(config.language, None);
    assert!(!config.pager);
}

#[test]
fn parses_no_line_numbers() {
    let config = Config::parse(&["--no-line-numbers", "-"]).unwrap();
    assert_eq!(
        config.mode,
        Mode::View {
            path: Some("-".to_string())
        }
    );
    assert!(!config.line_numbers);
}

#[test]
fn parses_forced_language() {
    let config = Config::parse(&["--language", "typescript", "-"]).unwrap();
    assert_eq!(config.language, Some(Language::TypeScript));
}

#[test]
fn parses_plain_output() {
    let config = Config::parse(&["--plain", "src/main.rs"]).unwrap();
    assert_eq!(config.color, ColorMode::Never);
}

#[test]
fn parses_forced_color() {
    let config = Config::parse(&["--color", "src/main.rs"]).unwrap();
    assert_eq!(config.color, ColorMode::Always);
}

#[test]
fn parses_pager() {
    let config = Config::parse(&["--pager", "src/main.rs"]).unwrap();
    assert!(config.pager);
}

#[test]
fn parses_diff_mode() {
    let config = Config::parse(&["--diff"]).unwrap();
    assert_eq!(
        config.mode,
        Mode::Diff(DiffConfig {
            staged: false,
            targets: Vec::new()
        })
    );
}

#[test]
fn parses_staged_diff_mode() {
    let config = Config::parse(&["--diff", "--staged"]).unwrap();
    assert_eq!(
        config.mode,
        Mode::Diff(DiffConfig {
            staged: true,
            targets: Vec::new()
        })
    );
}

#[test]
fn parses_diff_path_target() {
    let config = Config::parse(&["--diff", "src/main.rs"]).unwrap();
    assert_eq!(
        config.mode,
        Mode::Diff(DiffConfig {
            staged: false,
            targets: vec!["src/main.rs".to_string()]
        })
    );
}

#[test]
fn parses_diff_ref_targets() {
    let config = Config::parse(&["--diff", "HEAD~1", "HEAD"]).unwrap();
    assert_eq!(
        config.mode,
        Mode::Diff(DiffConfig {
            staged: false,
            targets: vec!["HEAD~1".to_string(), "HEAD".to_string()]
        })
    );
}

#[test]
fn rejects_staged_without_diff() {
    let err = Config::parse(&["--staged"]).unwrap_err();
    assert_eq!(err, ArgsError::StagedRequiresDiff);
}

#[test]
fn rejects_too_many_diff_targets() {
    let err = Config::parse(&["--diff", "a", "b", "c"]).unwrap_err();
    assert_eq!(err, ArgsError::TooManyDiffTargets);
}

#[test]
fn rejects_missing_language_value() {
    let err = Config::parse(&["--language"]).unwrap_err();
    assert_eq!(err, ArgsError::MissingValue("--language"));
}

#[test]
fn rejects_invalid_language() {
    let err = Config::parse(&["--language", "ruby"]).unwrap_err();
    assert_eq!(err, ArgsError::InvalidLanguage("ruby".to_string()));
}

#[test]
fn rejects_unknown_flags() {
    let err = Config::parse(&["--theme"]).unwrap_err();
    assert_eq!(err, ArgsError::UnknownFlag("--theme".to_string()));
}

#[test]
fn rejects_second_input_path() {
    let err = Config::parse(&["a.rs", "b.rs"]).unwrap_err();
    assert_eq!(err, ArgsError::TooManyInputs);
    let err = Config::parse(&["-", "-"]).unwrap_err();
    assert_eq!(err, ArgsError::TooManyInputs);
}

#[test]
fn no_arguments_read_stdin_with_defaults() {
    let config = Config::parse(&[]).unwrap();
    assert_eq!(config.mode, Mode::View { path: None });
    assert!(config.line_numbers);
    assert!(!config.help);
}

#[test]
fn later_flags_override_earlier_ones() {
    let config = Config::parse(&["--color", "--plain", "--no-line-numbers", "-n", "x"]).unwrap();
    assert_eq!(config.color, ColorMode::Never);
    assert!(config.line_numbers);
}

#[test]
fn short_flags_and_help() {
    let config = Config::parse(&["-h", "-l", "md"]).unwrap();
    assert!(config.help);
    assert_eq!(config.language, Some(Language::Markdown));
}

#[test]
fn dash_is_a_target_in_diff_mode() {
    let config = Config::parse(&["--diff", "-"]).unwrap();
    assert_eq!(
        config.mode,
        Mode::Diff(DiffConfig {
            staged: false,
            targets: vec!["-".to_string()]
        })
    );
}

#[test]
fn path_before_diff_is_dropped() {
    let config = Config::parse(&["a.rs", "--diff", "b.rs"]).unwrap();
    assert_eq!(
        config.mode,
        Mode::Diff(DiffConfig {
            staged: false,
            targets: vec!["b.rs".to_string()]
        })
    );
}

#[test]
fn error_messages() {
    assert_eq!(
        ArgsError::InvalidLanguage("ruby".to_string()).message(),
        "unsupported language 'ruby'"
    );
    assert_eq!(
        ArgsError::MissingValue("--language").message(),
        "missing value for '--language'"
    );
    assert_eq!(
        ArgsError::StagedRequiresDiff.message(),
        "--staged can only be used with --diff"
    );
    assert_eq!(
        ArgsError::TooManyDiffTargets.message(),
        "--diff accepts at most two targets"
    );
    assert_eq!(
        ArgsError::TooManyInputs.message(),
        "too many input paths; pass a single file or '-'"
    );
    assert_eq!(
        ArgsError::UnknownFlag("--theme".to_string()).message(),
        "unknown flag '--theme'"
    );
}

#[test]
fn help_lists_the_options() {
    let text = help_text();
    assert!(text.starts_with("Usage: scat"));
    assert!(text.contains("--no-line-numbers"));
}

#[test]
fn second_path_wins_over_staged_check() {
    let err = Config::parse(&["a.rs", "--staged", "b.rs"]).unwrap_err();
    assert_eq!(err, ArgsError::TooManyInputs);
    let err = Config::parse(&["a.rs", "--pager", "--staged"]).unwrap_err();
    assert_eq!(err, ArgsError::StagedRequiresDiff);
}

#[test]
fn single_path_among_flags_is_the_input() {
    let config = Config::parse(&["--pager", "-", "--no-color"]).unwrap();
    assert_eq!(config.mode, Mode::View { path: Some("-".to_string()) });
    assert!(config.pager);
    assert_eq!(config.color, ColorMode::Never);
}

#[test]
fn diff_collects_plain_arguments_and_staged() {
    let config = Config::parse(&["--diff", "a", "--staged", "b"]).unwrap();
    assert_eq!(
        config.mode,
        Mode::Diff(DiffConfig {
            staged: true,
            targets: vec!["a".to_string(), "b".to_string()]
        })
    );
    let err = Config::parse(&["--diff", "--staged", "a", "-", "b"]).unwrap_err();
    assert_eq!(err, ArgsError::TooManyDiffTargets);
}

#[test]
fn flags_only_last_of_each_group_wins() {
    let config = Config::parse(&["-n", "--no-line-numbers", "--plain", "--color", "--help"]).unwrap();
    assert_eq!(config.mode, Mode::View { path: None });
    assert!(!config.line_numbers);
    assert_eq!(config.color, ColorMode::Always);
    assert!(config.help);
    assert!(!config.pager);
    assert_eq!(config.language, None);
    let config = Config::parse(&["--pager"]).unwrap();
    assert_eq!(config.color, ColorMode::Auto);
    assert!(config.line_numbers);
    assert!(config.pager);
}
