use scat::ansi::{self, paint};
use scat::highlight::generic::GenericHighlighter;
use scat::highlight::{create_highlighter, highlight_document, highlight_line, SyntaxHighlighter};
use scat::language::Language;

fn strip_ansi(s: &str) -> String {
    let mut out = String::new();
    let mut chars = s.chars().peekable();
    while let Some(c) = chars.next() {
        if c == '\x1b' {
            for d in chars.by_ref() {
                if d == 'm' {
                    break;
                }
            }
        } else {
            out.push(c);
        }
    }
    out
}

#[test]
fn paint_wraps_in_color_and_reset() {
    assert_eq!(paint("x", ansi::GREEN), "\x1b[32mx\x1b[0m");
    assert_eq!(paint("", ansi::BLUE), "\x1b[34m\x1b[0m");
}

#[test]
fn rust_line_exact_output() {
    let out = highlight_line("let x = 42; // hi", Language::Rust);
    let expected = format!(
        "{}let{} x {}={} {}42{}{};{} {}// hi{}",
        ansi::MAGENTA, ansi::RESET,
        ansi::CYAN, ansi::RESET,
        ansi::YELLOW, ansi::RESET,
        ansi::CYAN, ansi::RESET,
        ansi::BRIGHT_BLACK, ansi::RESET
    );
    assert_eq!(out, expected);
}

#[test]
fn escaped_quotes_stay_in_the_string() {
    let out = highlight_line(r#"x = "a\"b" + y"#, Language::JavaScript);
    assert!(out.contains(&format!("{}\"a\\\"b\"{}", ansi::GREEN, ansi::RESET)));
}

#[test]
fn json_highlighter_has_no_comments_or_keywords() {
    let out = highlight_line("// true", Language::Json);
    assert!(!out.contains(ansi::BRIGHT_BLACK));
    assert!(!out.contains(ansi::MAGENTA));
    assert_eq!(strip_ansi(&out), "// true");
}

#[test]
fn jsx_tag_exact_output() {
    let out = highlight_line("<a href=\"x\">", Language::Jsx);
    let expected = format!(
        "{}<{}{}a{} {}href{}{}={}{}\"x\"{}{}>{}",
        ansi::CYAN, ansi::RESET,
        ansi::MAGENTA, ansi::RESET,
        ansi::BLUE, ansi::RESET,
        ansi::CYAN, ansi::RESET,
        ansi::GREEN, ansi::RESET,
        ansi::CYAN, ansi::RESET
    );
    assert_eq!(out, expected);
}

#[test]
fn markdown_link_exact_output() {
    let out = highlight_line("[a](b)", Language::Markdown);
    let expected = format!(
        "{}[{}{}a{}{}]({}{}b{}{}){}",
        ansi::CYAN, ansi::RESET,
        ansi::BLUE, ansi::RESET,
        ansi::CYAN, ansi::RESET,
        ansi::GREEN, ansi::RESET,
        ansi::CYAN, ansi::RESET
    );
    assert_eq!(out, expected);
}

#[test]
fn markdown_lists_quotes_and_emphasis() {
    let out = highlight_line("  - *item*", Language::Markdown);
    assert!(out.starts_with(&format!("  {}-{}", ansi::CYAN, ansi::RESET)));
    assert!(out.contains(&format!("{}*{}item", ansi::MAGENTA, ansi::RESET)));
    let out = highlight_line("12. step", Language::Markdown);
    assert!(out.starts_with(&format!("{}12.{}", ansi::CYAN, ansi::RESET)));
    let out = highlight_line("> quote", Language::Markdown);
    assert!(out.starts_with(&format!("{}>{}", ansi::BRIGHT_BLACK, ansi::RESET)));
    let out = highlight_line("####### seven", Language::Markdown);
    assert!(!out.contains(ansi::BLUE));
}

#[test]
fn unclosed_inline_code_runs_to_the_end() {
    let out = highlight_line("a `b c", Language::Markdown);
    assert_eq!(out, format!("a {}`b c{}", ansi::GREEN, ansi::RESET));
}

#[test]
fn mdx_tag_lines_inside_fences_are_still_tsx() {
    let doc = highlight_document("```\n<Box />\n```\n", Language::Mdx);
    assert!(doc.contains(&format!("{}Box{}", ansi::MAGENTA, ansi::RESET)));
    let doc = scat::simple::highlight_document("```\n<Box />\n```\n", Language::Mdx);
    assert!(doc.contains(&format!("{}<Box />{}", ansi::GREEN, ansi::RESET)));
}

#[test]
fn fences_toggle_between_lines() {
    let doc = highlight_document("~~~\nx\n~~~\n# T\n", Language::Markdown);
    assert!(doc.contains(&format!("{}x{}", ansi::GREEN, ansi::RESET)));
    assert!(doc.contains(&format!("{}#{}", ansi::MAGENTA, ansi::RESET)));
}

#[test]
fn highlight_token_steps_through_a_line() {
    let mut h = GenericHighlighter::new(Language::Rust);
    let (tok, next) = h.highlight_token("fn x", 0).unwrap();
    assert_eq!(tok, format!("{}fn{}", ansi::MAGENTA, ansi::RESET));
    assert_eq!(next, 2);
    let (tok, next) = h.highlight_token("fn x", 2).unwrap();
    assert_eq!(tok, " ");
    assert_eq!(next, 3);
    assert!(h.highlight_token("fn x", 4).is_none());
    let (_, next) = h.highlight_token("a /* b", 2).unwrap();
    assert_eq!(next, 6);
    assert!(h.in_block_comment);
}

#[test]
fn highlighting_keeps_the_text() {
    let samples = [
        "fn main() { let s = \"x\"; /* c */ }",
        "<Button onClick={() => go('a')} />",
        "  - [link](http://x) `code` *em*",
        "{\"k\": [1, 2.5, null]}",
        "# Title",
        "import { A } from 'b';",
    ];
    let languages = [
        Language::PlainText,
        Language::Json,
        Language::Rust,
        Language::Tsx,
        Language::Markdown,
        Language::Mdx,
    ];
    for language in languages {
        for line in samples {
            let mut h = create_highlighter(language);
            assert_eq!(strip_ansi(&h.highlight_line(line)), line);
            assert_eq!(strip_ansi(&scat::simple::highlight_line(line, language)), line);
        }
    }
}

#[test]
fn created_highlighter_matches_the_language_highlighter() {
    let lines = ["/* open", "still */ fn x() {}", "let y = 1;"];
    let mut created = create_highlighter(Language::Rust);
    let mut own = GenericHighlighter::new(Language::Rust);
    for line in lines {
        let a = created.highlight_line(line);
        let b = own.highlight_line(line);
        assert_eq!(a, b);
        assert_eq!(strip_ansi(&a), line);
    }
}
