use scat::args::ColorMode;
use scat::dispatch::{detect_language, pager_command, should_page_view, should_use_color};
use scat::input::{source_from, InputError, Source};
use scat::language::Language;

#[test]
fn color_auto_depends_on_terminal() {
    assert!(should_use_color(ColorMode::Auto, true, false));
    assert!(!should_use_color(ColorMode::Auto, false, false));
}

#[test]
fn color_modes_can_force_or_disable_color() {
    assert!(should_use_color(ColorMode::Always, false, false));
    assert!(!should_use_color(ColorMode::Never, true, false));
}

#[test]
fn no_color_overrides_color_modes() {
    assert!(!should_use_color(ColorMode::Always, true, true));
    assert!(!should_use_color(ColorMode::Auto, true, true));
}

#[test]
fn files_page_by_default_on_terminal() {
    let source = Source {
        path: Some("src/main.rs".to_string()),
        content: "fn main() {}\n".to_string(),
    };

    assert!(should_page_view(&source, false, false, true));
}

#[test]
fn full_disables_default_file_pager() {
    let source = Source {
        path: Some("src/main.rs".to_string()),
        content: "fn main() {}\n".to_string(),
    };

    assert!(!should_page_view(&source, false, true, true));
}

#[test]
fn stdin_and_redirected_output_do_not_page_by_default() {
    let stdin_source = Source {
        path: None,
        content: "fn main() {}\n".to_string(),
    };
    let file_source = Source {
        path: Some("src/main.rs".to_string()),
        content: "fn main() {}\n".to_string(),
    };

    assert!(!should_page_view(&stdin_source, false, false, true));
    assert!(!should_page_view(&file_source, false, false, false));
}

#[test]
fn explicit_pager_still_pages_without_full() {
    let source = Source {
        path: None,
        content: "fn main() {}\n".to_string(),
    };

    assert!(should_page_view(&source, true, false, false));
}

#[test]
fn full_overrides_explicit_pager() {
    let source = Source {
        path: Some("src/main.rs".to_string()),
        content: "fn main() {}\n".to_string(),
    };

    assert!(!should_page_view(&source, true, true, true));
}

#[test]
fn detects_language_by_extension_then_content() {
    let rust = Source { path: Some("src/main.rs".to_string()), content: "x".to_string() };
    assert_eq!(detect_language(&rust), Language::Rust);
    let unknown = Source { path: Some("notes.txt".to_string()), content: "{".to_string() };
    assert_eq!(detect_language(&unknown), Language::PlainText);
    let stdin_json = Source { path: None, content: "  [1, 2]".to_string() };
    assert_eq!(detect_language(&stdin_json), Language::Json);
    let stdin_text = Source { path: None, content: "hello".to_string() };
    assert_eq!(detect_language(&stdin_text), Language::PlainText);
}

#[test]
fn splits_the_pager_command() {
    let (program, args) = pager_command("less -R");
    assert_eq!(program, "less");
    assert_eq!(args, vec!["-R".to_string()]);
    let (program, args) = pager_command("  most\t-s  -w ");
    assert_eq!(program, "most");
    assert_eq!(args, vec!["-s".to_string(), "-w".to_string()]);
    let (program, args) = pager_command("   ");
    assert_eq!(program, "less");
    assert!(args.is_empty());
}

#[test]
fn empty_input_is_refused() {
    let err = source_from(Some("a.txt".to_string()), String::new()).unwrap_err();
    assert_eq!(err, InputError::EmptyInput);
    assert_eq!(err.message(), "input is empty");
    let source = source_from(None, "x".to_string()).unwrap();
    assert_eq!(source.content, "x");
    assert_eq!(source.path, None);
}

#[test]
fn input_error_messages() {
    assert_eq!(
        InputError::InvalidPath("dir".to_string()).message(),
        "'dir' is not a regular file"
    );
    assert_eq!(
        InputError::ReadFailed { path: "a".to_string(), source: "denied".to_string() }.message(),
        "could not read 'a': denied"
    );
    assert_eq!(
        InputError::StdinReadFailed("closed".to_string()).message(),
        "could not read stdin: closed"
    );
}

#[test]
fn forced_language_wins_over_detection() {
    let source = Source { path: Some("a.rs".to_string()), content: "x".to_string() };
    assert_eq!(scat::dispatch::view_language(Some(Language::Go), &source), Language::Go);
    assert_eq!(scat::dispatch::view_language(None, &source), Language::Rust);
}

#[test]
fn dash_and_no_path_read_stdin() {
    assert!(scat::dispatch::reads_stdin(None));
    assert!(scat::dispatch::reads_stdin(Some("-")));
    assert!(!scat::dispatch::reads_stdin(Some("a.rs")));
    assert!(!scat::dispatch::reads_stdin(Some("--")));
}

#[test]
fn dash_compares_as_a_path() {
    for p in ["-/", "-//", "-/.", "-/./", "-//./."] {
        assert!(scat::dispatch::reads_stdin(Some(p)), "{}", p);
        assert_eq!(std::path::Path::new(p), std::path::Path::new("-"));
    }
    for p in ["./-", "-.", "-/..", "/-", "-/a", ""] {
        assert!(!scat::dispatch::reads_stdin(Some(p)), "{}", p);
        assert_ne!(std::path::Path::new(p), std::path::Path::new("-"));
    }
}

#[test]
fn pager_defaults_to_less() {
    assert_eq!(scat::dispatch::pager_or_default(None), "less -R");
    assert_eq!(scat::dispatch::pager_or_default(Some("most".to_string())), "most");
}
