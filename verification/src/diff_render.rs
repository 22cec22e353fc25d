//! Colouring of unified diff output, by the kind of each line.

use vstd::prelude::*;

use crate::ansi::{self, span_out, strip_ansi, Color, Span};
use crate::highlight::helpers::{spec_starts_with, starts_with};
use crate::render::{gutter, gutter_width, lemma_lines_without, lemma_strip_numbered_line, write_line_number};
use crate::text::{lines, spec_lines, views};

verus! {

/// The colour of a diff line: file headers blue, metadata dim, hunk headers
/// cyan, `+++` and added lines green, `---` and removed lines magenta.
pub open spec fn diff_line_color(c: Seq<char>) -> Option<Color> {
    if spec_starts_with(c, 0, "diff --git "@) {
        Some(Color::Blue)
    } else if spec_starts_with(c, 0, "index "@) || spec_starts_with(c, 0, "new file mode "@)
        || spec_starts_with(c, 0, "deleted file mode "@) {
        Some(Color::BrightBlack)
    } else if spec_starts_with(c, 0, "@@"@) {
        Some(Color::Cyan)
    } else if spec_starts_with(c, 0, "+++"@) {
        Some(Color::Green)
    } else if spec_starts_with(c, 0, "---"@) {
        Some(Color::Magenta)
    } else if c.len() > 0 && c[0] == '+' {
        Some(Color::Green)
    } else if c.len() > 0 && c[0] == '-' {
        Some(Color::Magenta)
    } else {
        None
    }
}

/// A diff line is one span: the whole line, in its colour.
pub open spec fn diff_line_span(c: Seq<char>) -> Span {
    Span { color: diff_line_color(c), text: c }
}

fn diff_color(chars: &[char]) -> (r: Option<Color>)
    ensures
        r == diff_line_color(chars@),
{
    if starts_with(chars, 0, "diff --git ") {
        return Some(Color::Blue);
    }
    if starts_with(chars, 0, "index ") || starts_with(chars, 0, "new file mode ")
        || starts_with(chars, 0, "deleted file mode ") {
        return Some(Color::BrightBlack);
    }
    if starts_with(chars, 0, "@@") {
        return Some(Color::Cyan);
    }
    if starts_with(chars, 0, "+++") {
        return Some(Color::Green);
    }
    if starts_with(chars, 0, "---") {
        return Some(Color::Magenta);
    }
    if chars.len() > 0 && chars[0] == '+' {
        return Some(Color::Green);
    }
    if chars.len() > 0 && chars[0] == '-' {
        return Some(Color::Magenta);
    }
    None
}

fn highlight_diff_line(line: &str) -> (out: String)
    ensures
        out@ == span_out(diff_line_span(line@)),
{
    let chars = crate::text::to_chars(line);
    let color = diff_color(chars.as_slice());
    let mut out = String::new();
    ansi::emit_range(&mut out, color, chars.as_slice(), 0, chars.len());
    assert(line@.subrange(0, line@.len() as int) =~= line@);
    assert(out@ =~= span_out(diff_line_span(line@)));
    out
}

/// One output line of a diff: number column (if asked), the line coloured
/// (if asked), and a newline.
pub open spec fn diff_output_line(line: Seq<char>, n: nat, width: int, line_numbers: bool, color: bool) -> Seq<char> {
    (if line_numbers { gutter(n, width, color) } else { Seq::empty() })
        + (if color { span_out(diff_line_span(line)) } else { line }) + seq!['\n']
}

pub open spec fn diff_output_lines(ls: Seq<Seq<char>>, first: nat, width: int, line_numbers: bool, color: bool) -> Seq<char>
    decreases ls.len(),
{
    if ls.len() == 0 {
        Seq::empty()
    } else {
        diff_output_line(ls[0], first + 1, width, line_numbers, color)
            + diff_output_lines(ls.drop_first(), first + 1, width, line_numbers, color)
    }
}

/// What `render` produces for the diff `content`.
pub open spec fn spec_render_diff(content: Seq<char>, line_numbers: bool, color: bool) -> Seq<char> {
    let ls = spec_lines(content);
    diff_output_lines(ls, 0, gutter_width(ls.len()), line_numbers, color)
}

fn render_diff_line(line: &str, number: usize, width: usize, line_numbers: bool, color: bool, output: &mut String)
    ensures
        final(output)@ == old(output)@ + diff_output_line(line@, number as nat, width as int, line_numbers, color),
{
    if line_numbers {
        write_line_number(number, width, color, output);
    }
    if color {
        let highlighted = highlight_diff_line(line);
        output.append(highlighted.as_str());
    } else {
        output.append(line);
    }
    crate::text::push_char(output, '\n');
    assert(final(output)@ =~= old(output)@ + diff_output_line(line@, number as nat, width as int, line_numbers, color));
}

/// Renders diff text: every line with its number if `line_numbers`,
/// coloured by its kind if `color`, and a newline.
pub fn render(content: &str, line_numbers: bool, color: bool) -> (output: String)
    ensures
        output@ == spec_render_diff(content@, line_numbers, color),
{
    let ls = lines(content);
    let ghost all = spec_lines(content@);
    let width = crate::render::number_width(ls.len());
    let mut output = String::new();
    let mut i: usize = 0;
    assert(all.skip(0) =~= all);
    while i < ls.len()
        invariant
            views(ls@) == all,
            i <= ls@.len(),
            width == gutter_width(all.len()),
            output@ + diff_output_lines(all.skip(i as int), i as nat, width as int, line_numbers, color)
                == spec_render_diff(content@, line_numbers, color),
        decreases ls@.len() - i,
    {
        assert(all[i as int] == ls@[i as int]@);
        proof {
            assert(all.skip(i as int)[0] == all[i as int]);
            assert(all.skip(i as int).drop_first() =~= all.skip(i + 1));
        }
        render_diff_line(ls[i].as_str(), i + 1, width, line_numbers, color, &mut output);
        i = i + 1;
    }
    assert(all.skip(i as int) =~= Seq::<Seq<char>>::empty());
    output
}

proof fn lemma_strip_diff_lines(ls: Seq<Seq<char>>, first: nat, width: int, line_numbers: bool)
    requires
        forall|k: int| 0 <= k < ls.len() ==> !(#[trigger] ls[k]).contains('\x1b'),
    ensures
        strip_ansi(diff_output_lines(ls, first, width, line_numbers, true)) == diff_output_lines(ls, first, width, line_numbers, false),
    decreases ls.len(),
{
    if ls.len() == 0 {
        assert(strip_ansi(Seq::<char>::empty()) =~= Seq::<char>::empty());
    } else {
        let line = ls[0];
        let n = first + 1;
        assert forall|k: int| 0 <= k < ls.drop_first().len() implies !(#[trigger] ls.drop_first()[k]).contains('\x1b') by {
            assert(ls.drop_first()[k] == ls[k + 1]);
        }
        lemma_strip_diff_lines(ls.drop_first(), n, width, line_numbers);
        let rest = diff_output_lines(ls.drop_first(), n, width, line_numbers, true);
        let span = diff_line_span(line);
        ansi::lemma_render_single(span);
        lemma_strip_numbered_line(seq![span], line, n, width, line_numbers, rest);
    }
}

/// Colour only adds escape codes: for a diff without escape characters,
/// taking them out of the coloured output gives the output without colour.
pub proof fn law_diff_strips_to_uncolored(content: Seq<char>, line_numbers: bool)
    requires
        !content.contains('\x1b'),
    ensures
        strip_ansi(spec_render_diff(content, line_numbers, true)) == spec_render_diff(content, line_numbers, false),
{
    let ls = spec_lines(content);
    lemma_lines_without(content, 0, '\x1b');
    lemma_strip_diff_lines(ls, 0, gutter_width(ls.len()), line_numbers);
}

/// Whether `c` begins with `p`.
pub open spec fn has_prefix(c: Seq<char>, p: Seq<char>) -> bool {
    p.len() <= c.len() && c.subrange(0, p.len() as int) == p
}

/// How each kind of diff line is coloured: file headers (`diff --git `)
/// blue; metadata (`index `, `new file mode `, `deleted file mode `) bright
/// black; hunk headers (`@@`) cyan; other lines starting with `+` (added
/// lines and `+++` markers) green, with `-` (removed lines and `---`
/// markers) magenta; anything else plain.  The whole line is one span,
/// after the number column and before the newline.
pub proof fn law_diff_line_colors(line: Seq<char>, n: nat, width: int, line_numbers: bool)
    ensures
        diff_output_line(line, n, width, line_numbers, true)
            == (if line_numbers { gutter(n, width, true) } else { Seq::empty() })
            + (if has_prefix(line, "diff --git "@) {
                ansi::painted(line, ansi::BLUE@)
            } else if has_prefix(line, "index "@) || has_prefix(line, "new file mode "@)
                || has_prefix(line, "deleted file mode "@) {
                ansi::painted(line, ansi::BRIGHT_BLACK@)
            } else if has_prefix(line, "@@"@) {
                ansi::painted(line, ansi::CYAN@)
            } else if line.len() > 0 && line[0] == '+' {
                ansi::painted(line, ansi::GREEN@)
            } else if line.len() > 0 && line[0] == '-' {
                ansi::painted(line, ansi::MAGENTA@)
            } else {
                line
            }) + seq!['\n'],
{
    reveal_strlit("+++");
    reveal_strlit("---");
    if spec_starts_with(line, 0, "+++"@) {
        assert(line.subrange(0, 3)[0] == line[0]);
    }
    if spec_starts_with(line, 0, "---"@) {
        assert(line.subrange(0, 3)[0] == line[0]);
    }
}

} // verus!
