use scat::ansi;
use scat::diff_render::render;

#[test]
fn highlights_diff_headers() {
    let rendered = render(
        "diff --git a/a.rs b/a.rs\nindex abc..def 100644\n",
        false,
        true,
    );
    assert!(rendered.contains(&format!(
        "{}diff --git a/a.rs b/a.rs{}",
        ansi::BLUE,
        ansi::RESET
    )));
    assert!(rendered.contains(&format!(
        "{}index abc..def 100644{}",
        ansi::BRIGHT_BLACK,
        ansi::RESET
    )));
}

#[test]
fn highlights_hunks() {
    let rendered = render("@@ -1,2 +1,2 @@\n", false, true);
    assert!(rendered.contains(&format!("{}@@ -1,2 +1,2 @@{}", ansi::CYAN, ansi::RESET)));
}

#[test]
fn highlights_added_and_removed_lines() {
    let rendered = render("+new\n-old\n", false, true);
    assert!(rendered.contains(&format!("{}+new{}", ansi::GREEN, ansi::RESET)));
    assert!(rendered.contains(&format!("{}-old{}", ansi::MAGENTA, ansi::RESET)));
}

#[test]
fn treats_file_markers_as_headers() {
    let rendered = render("--- a/src/main.rs\n+++ b/src/main.rs\n", false, true);
    assert!(rendered.contains(&format!(
        "{}--- a/src/main.rs{}",
        ansi::MAGENTA,
        ansi::RESET
    )));
    assert!(rendered.contains(&format!("{}+++ b/src/main.rs{}", ansi::GREEN, ansi::RESET)));
}

#[test]
fn diff_render_can_disable_color() {
    let rendered = render("+new\n", false, false);
    assert_eq!(rendered, "+new\n");
}

#[test]
fn can_show_line_numbers() {
    let rendered = render("+new\n-old\n", true, false);
    assert_eq!(rendered, "1 | +new\n2 | -old\n");
}

#[test]
fn context_lines_stay_plain() {
    let rendered = render(" same\nnew file mode 100644\n", false, true);
    assert_eq!(
        rendered,
        format!(" same\n{}new file mode 100644{}\n", ansi::BRIGHT_BLACK, ansi::RESET)
    );
}

#[test]
fn coloured_diff_strips_to_uncoloured() {
    let content = "diff --git a/x b/x\nindex 1..2\n--- a/x\n+++ b/x\n@@ -1 +1 @@\n-old\n+new\n same\n";
    for line_numbers in [false, true] {
        let coloured = render(content, line_numbers, true);
        let mut stripped = String::new();
        let mut in_code = false;
        for c in coloured.chars() {
            if c == '\x1b' {
                in_code = true;
            } else if in_code {
                if c == 'm' {
                    in_code = false;
                }
            } else {
                stripped.push(c);
            }
        }
        assert_eq!(stripped, render(content, line_numbers, false));
    }
}
