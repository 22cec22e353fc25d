use scat::language::Language;

#[test]
fn names_select_languages() {
    assert_eq!(Language::from_name("typescript"), Some(Language::TypeScript));
    assert_eq!(Language::from_name("ts"), Some(Language::TypeScript));
    assert_eq!(Language::from_name("rust"), Some(Language::Rust));
    assert_eq!(Language::from_name("mdx"), Some(Language::Mdx));
    assert_eq!(Language::from_name("json"), Some(Language::Json));
    assert_eq!(Language::from_name("ruby"), None);
    assert_eq!(Language::from_name("Rust"), None);
}

#[test]
fn extensions_select_languages() {
    assert_eq!(Language::from_path("src/main.rs"), Some(Language::Rust));
    assert_eq!(Language::from_path("a/b/App.tsx"), Some(Language::Tsx));
    assert_eq!(Language::from_path("README.md"), Some(Language::Markdown));
    assert_eq!(Language::from_path("x.tar.json"), Some(Language::Json));
    assert_eq!(Language::from_path("Makefile"), None);
    assert_eq!(Language::from_path(".rs"), None);
    assert_eq!(Language::from_path("dir.go/"), Some(Language::Go));
    assert_eq!(Language::from_path("notes.txt"), None);
}

#[test]
fn content_starting_with_brackets_is_json() {
    assert_eq!(Language::infer_from_content("{\"a\": 1}"), Language::Json);
    assert_eq!(Language::infer_from_content("\n  [1]"), Language::Json);
    assert_eq!(Language::infer_from_content("hello"), Language::PlainText);
    assert_eq!(Language::infer_from_content(""), Language::PlainText);
}

#[test]
fn keywords_are_per_language() {
    assert!(Language::Rust.has_keyword("fn"));
    assert!(!Language::Rust.has_keyword("function"));
    assert!(Language::Tsx.has_keyword("import"));
    assert!(Language::Tsx.has_keyword("from"));
    assert!(Language::Go.has_keyword("func"));
    assert!(!Language::PlainText.has_keyword("fn"));
    assert!(Language::Rust.keywords().contains(&"fn"));
}
