use scat::ansi;
use scat::language::Language;
use scat::simple::{highlight_document, highlight_line};

#[test]
fn highlight_highlights_keywords() {
    let highlighted = highlight_line("fn main() {}", Language::Rust);
    assert!(highlighted.contains(&format!("{}fn{}", ansi::MAGENTA, ansi::RESET)));
}

#[test]
fn highlight_highlights_strings() {
    let highlighted = highlight_line("const x = \"hello\";", Language::JavaScript);
    assert!(highlighted.contains(&format!("{}\"hello\"{}", ansi::GREEN, ansi::RESET)));
}

#[test]
fn highlight_highlights_json_keys_differently_from_values() {
    let highlighted = highlight_line("\"name\": \"mybat\"", Language::Json);
    assert!(highlighted.contains(&format!("{}\"name\"{}", ansi::BLUE, ansi::RESET)));
    assert!(highlighted.contains(&format!("{}\"mybat\"{}", ansi::GREEN, ansi::RESET)));
}

#[test]
fn highlight_highlights_multiline_block_comments() {
    let highlighted =
        highlight_document("/* hello\nstill comment */\nfn main() {}\n", Language::Rust);
    assert!(highlighted.contains(&format!(
        "{}still comment */{}",
        ansi::BRIGHT_BLACK,
        ansi::RESET
    )));
    assert!(highlighted.contains(&format!("{}fn{}", ansi::MAGENTA, ansi::RESET)));
}

#[test]
fn highlight_highlights_jsx_tags_and_props() {
    let highlighted = highlight_line("<Button title=\"Save\" />", Language::Tsx);
    assert!(highlighted.contains(&format!("{}Button{}", ansi::MAGENTA, ansi::RESET)));
    assert!(highlighted.contains(&format!("{}title{}", ansi::BLUE, ansi::RESET)));
}

#[test]
fn highlight_highlights_markdown_headings() {
    let highlighted = highlight_line("# Title", Language::Markdown);
    assert!(highlighted.contains(&format!("{}#{}", ansi::MAGENTA, ansi::RESET)));
    assert!(highlighted.contains(&format!("{} Title{}", ansi::BLUE, ansi::RESET)));
}

#[test]
fn highlight_highlights_markdown_inline_code_and_links() {
    let highlighted = highlight_line(
        "Use `mybat` from [docs](https://example.com)",
        Language::Markdown,
    );
    assert!(highlighted.contains(&format!("{}`mybat`{}", ansi::GREEN, ansi::RESET)));
    assert!(highlighted.contains(&format!("{}docs{}", ansi::BLUE, ansi::RESET)));
    assert!(highlighted.contains(&format!(
        "{}https://example.com{}",
        ansi::GREEN,
        ansi::RESET
    )));
}

#[test]
fn highlight_highlights_markdown_fenced_code_blocks() {
    let highlighted = highlight_document("```rust\nfn main() {}\n```\n", Language::Markdown);
    assert!(highlighted.contains(&format!("{}```rust{}", ansi::BRIGHT_BLACK, ansi::RESET)));
    assert!(highlighted.contains(&format!("{}fn main() {{}}{}", ansi::GREEN, ansi::RESET)));
}

#[test]
fn highlight_highlights_mdx_jsx_tags() {
    let highlighted = highlight_line("<Meta title=\"Button\" />", Language::Mdx);
    assert!(highlighted.contains(&format!("{}Meta{}", ansi::MAGENTA, ansi::RESET)));
    assert!(highlighted.contains(&format!("{}title{}", ansi::BLUE, ansi::RESET)));
    assert!(highlighted.contains(&format!("{}\"Button\"{}", ansi::GREEN, ansi::RESET)));
}

#[test]
fn highlight_highlights_mdx_imports_as_tsx() {
    let highlighted =
        highlight_line("import { Meta } from '@storybook/blocks';", Language::Mdx);
    assert!(highlighted.contains(&format!("{}import{}", ansi::MAGENTA, ansi::RESET)));
    assert!(highlighted.contains(&format!("{}from{}", ansi::MAGENTA, ansi::RESET)));
    assert!(highlighted.contains(&format!(
        "{}'@storybook/blocks'{}",
        ansi::GREEN,
        ansi::RESET
    )));
}

#[test]
fn highlight_highlights_inline_mdx_components_in_markdown() {
    let highlighted = highlight_line("Render <Button size=\"small\" /> here.", Language::Mdx);
    assert!(highlighted.contains(&format!("{}Button{}", ansi::MAGENTA, ansi::RESET)));
    assert!(highlighted.contains(&format!("{}size{}", ansi::BLUE, ansi::RESET)));
}

#[test]
fn highlight_leaves_plain_text_unchanged() {
    assert_eq!(
        highlight_line("hello 123", Language::PlainText),
        "hello 123"
    );
}

#[test]
fn simple_highlighting_strips_to_the_line() {
    let lines = ["fn main() { /* c */ }", "# Title", "[a](b) `x`", "{\"k\": 2}"];
    let languages = [Language::Rust, Language::Markdown, Language::Mdx, Language::Json, Language::PlainText];
    for language in languages {
        for line in lines {
            let out = highlight_line(line, language);
            let mut stripped = String::new();
            let mut in_code = false;
            for c in out.chars() {
                if c == '\x1b' {
                    in_code = true;
                } else if in_code {
                    if c == 'm' {
                        in_code = false;
                    }
                } else {
                    stripped.push(c);
                }
            }
            assert_eq!(stripped, line);
        }
    }
}
