use scat::ansi;
use scat::language::Language;
use scat::render::render;

#[test]
fn renders_line_numbers() {
    let rendered = render("one\ntwo\n", Language::PlainText, true, true);
    assert!(rendered.contains("1"));
    assert!(rendered.contains("2"));
}

#[test]
fn can_hide_line_numbers() {
    let rendered = render("one\n", Language::PlainText, false, true);
    assert_eq!(rendered, "one\n");
}

#[test]
fn render_can_disable_color() {
    let rendered = render("fn main() {}\n", Language::Rust, false, false);
    assert_eq!(rendered, "fn main() {}\n");
}

#[test]
fn can_render_to_writer() {
    let output = render("one\n", Language::PlainText, true, false);
    assert_eq!(output, "1 | one\n");
}

#[test]
fn numbers_are_right_aligned_to_the_widest() {
    let content = "a\nb\nc\nd\ne\nf\ng\nh\ni\nj\n";
    let rendered = render(content, Language::PlainText, true, false);
    assert!(rendered.starts_with(" 1 | a\n 2 | b\n"));
    assert!(rendered.ends_with(" 9 | i\n10 | j\n"));
}

#[test]
fn colored_numbers_are_blue_and_separator_dim() {
    let rendered = render("x\n", Language::PlainText, true, true);
    assert_eq!(
        rendered,
        format!("{}1{}{} | {}x\n", ansi::BLUE, ansi::RESET, ansi::DIM, ansi::RESET)
    );
}

#[test]
fn crlf_and_missing_final_newline() {
    let rendered = render("a\r\nb", Language::PlainText, false, false);
    assert_eq!(rendered, "a\nb\n");
    assert_eq!(render("", Language::PlainText, true, false), "");
}

#[test]
fn block_comment_state_carries_across_lines() {
    let rendered = render("/* a\nb */ x\n", Language::Rust, false, true);
    assert_eq!(
        rendered,
        format!(
            "{}/* a{}\n{}b */{} x\n",
            ansi::BRIGHT_BLACK,
            ansi::RESET,
            ansi::BRIGHT_BLACK,
            ansi::RESET
        )
    );
}

#[test]
fn plain_rendering_writes_the_input_back() {
    let content = "fn main() {\n    let s = \"/* not a comment\";\n}\n";
    assert_eq!(render(content, Language::Rust, false, false), content);
    assert_eq!(render(content, Language::Markdown, false, false), content);
}

fn strip_codes(s: &str) -> String {
    let mut out = String::new();
    let mut chars = s.chars().peekable();
    while let Some(c) = chars.next() {
        if c == '\x1b' && chars.peek() == Some(&'[') {
            for d in chars.by_ref() {
                if d == 'm' {
                    break;
                }
            }
        } else {
            out.push(c);
        }
    }
    out
}

#[test]
fn coloured_render_strips_to_uncoloured() {
    let content = "fn main() {\n  /* a\n b */ let s = \"x\";\n}\n# T\n```\n{\"k\": [1, true]}\n<a b=\"c\">\n";
    let languages = [
        Language::PlainText,
        Language::Json,
        Language::Rust,
        Language::JavaScript,
        Language::Tsx,
        Language::Markdown,
        Language::Mdx,
    ];
    for language in languages {
        for line_numbers in [false, true] {
            let coloured = render(content, language, line_numbers, true);
            let uncoloured = render(content, language, line_numbers, false);
            assert_eq!(strip_codes(&coloured), uncoloured);
        }
    }
}

#[test]
fn uncoloured_render_ignores_language() {
    let content = "fn x() {}\n\"k\": 1\n";
    let expected = "1 | fn x() {}\n2 | \"k\": 1\n";
    assert_eq!(render(content, Language::Rust, true, false), expected);
    assert_eq!(render(content, Language::Json, true, false), expected);
    assert_eq!(render(content, Language::Markdown, true, false), expected);
}
