//! Line numbering and output assembly for files.

use vstd::prelude::*;

use crate::ansi::{self, lemma_no_char_concat, painted, render_spans, spans_text, strip_ansi, Color, Span};
use crate::highlight::{create_highlighter, lemma_highlight_keeps_text, spec_create_highlighter, Highlighter, SyntaxHighlighter};
use crate::language::Language;
use crate::numbers::{decimal, push_right_aligned, right_aligned};
use crate::highlight::helpers::{find_char_from, lemma_find_char_bounds};
use crate::text::{lines, lines_from, spec_lines, strip_cr, views};

verus! {

/// The separator between a line number and the line.
pub open spec fn separator() -> Seq<char> {
    seq![' ', '|', ' ']
}

/// The number column of line `n`: the number right-aligned in `width`, then
/// ` | `; in colour, the number blue and the separator dim.
pub open spec fn gutter(n: nat, width: int, color: bool) -> Seq<char> {
    if color {
        painted(right_aligned(n, width), ansi::BLUE@) + painted(separator(), ansi::DIM@)
    } else {
        right_aligned(n, width) + separator()
    }
}

/// The width of the number column: the digits of the line count (at least 1).
pub open spec fn gutter_width(line_count: nat) -> int {
    decimal(if line_count > 1 { line_count } else { 1 }).len() as int
}

/// The output for `lines`, the first of which is line `first + 1`: each line
/// with its number (if asked), highlighted (in colour) or as it is, and a
/// newline.  The highlighter's state is carried from line to line.
pub open spec fn rendered_lines<H: SyntaxHighlighter>(
    h: H,
    lines: Seq<Seq<char>>,
    first: nat,
    width: int,
    line_numbers: bool,
    color: bool,
) -> Seq<char>
    decreases lines.len(),
{
    if lines.len() == 0 {
        Seq::empty()
    } else {
        let r = rendered_line(h, lines[0], first + 1, width, line_numbers, color);
        r.0 + rendered_lines(r.1, lines.drop_first(), first + 1, width, line_numbers, color)
    }
}

/// One output line for line `n` of the input, and the highlighter after it.
pub open spec fn rendered_line<H: SyntaxHighlighter>(
    h: H,
    line: Seq<char>,
    n: nat,
    width: int,
    line_numbers: bool,
    color: bool,
) -> (Seq<char>, H) {
    let r = h.spec_highlight(line);
    let body = if color { render_spans(r.0) } else { line };
    let next = if color { r.1 } else { h };
    ((if line_numbers { gutter(n, width, color) } else { Seq::empty() }) + body + seq!['\n'], next)
}

fn render_one<H: SyntaxHighlighter>(h: &mut H, line: &str, number: usize, width: usize, line_numbers: bool, color: bool, output: &mut String)
    ensures
        final(output)@ == old(output)@ + rendered_line(*old(h), line@, number as nat, width as int, line_numbers, color).0,
        *final(h) == rendered_line(*old(h), line@, number as nat, width as int, line_numbers, color).1,
{
    if line_numbers {
        write_line_number(number, width, color, output);
    }
    if color {
        let highlighted = h.highlight_line(line);
        output.append(highlighted.as_str());
    } else {
        output.append(line);
    }
    crate::text::push_char(output, '\n');
    assert(final(output)@ =~= old(output)@ + rendered_line(*old(h), line@, number as nat, width as int, line_numbers, color).0);
}

/// What `render` produces for `content`.
pub open spec fn spec_render(content: Seq<char>, language: Language, line_numbers: bool, color: bool) -> Seq<char> {
    let ls = spec_lines(content);
    rendered_lines(spec_create_highlighter(language), ls, 0, gutter_width(ls.len()), line_numbers, color)
}

/// Appends the number column of line `number`.
pub(crate) fn write_line_number(number: usize, width: usize, color: bool, out: &mut String)
    ensures
        final(out)@ == old(out)@ + gutter(number as nat, width as int, color),
{
    if color {
        out.append(ansi::BLUE);
        push_right_aligned(out, number, width);
        out.append(ansi::RESET);
        out.append(ansi::DIM);
        crate::text::push_char(out, ' ');
        crate::text::push_char(out, '|');
        crate::text::push_char(out, ' ');
        out.append(ansi::RESET);
    } else {
        push_right_aligned(out, number, width);
        crate::text::push_char(out, ' ');
        crate::text::push_char(out, '|');
        crate::text::push_char(out, ' ');
    }
    assert(final(out)@ =~= old(out)@ + gutter(number as nat, width as int, color));
}

/// The width of the number column for `line_count` lines.
pub(crate) fn number_width(line_count: usize) -> (w: usize)
    ensures
        w == gutter_width(line_count as nat),
{
    crate::numbers::decimal_len(if line_count > 1 { line_count } else { 1 })
}

/// Renders `content`: every line (as `str::lines` splits it) with its
/// number if `line_numbers`, highlighted for `language` if `color`, and a
/// newline.
pub fn render(content: &str, language: Language, line_numbers: bool, color: bool) -> (output: String)
    ensures
        output@ == spec_render(content@, language, line_numbers, color),
{
    let ls = lines(content);
    let ghost all = spec_lines(content@);
    let width = number_width(ls.len());
    let mut highlighter = create_highlighter(language);
    let mut output = String::new();
    let mut i: usize = 0;
    assert(all.skip(0) =~= all);
    while i < ls.len()
        invariant
            views(ls@) == all,
            i <= ls@.len(),
            width == gutter_width(all.len()),
            output@ + rendered_lines(highlighter, all.skip(i as int), i as nat, width as int, line_numbers, color)
                == spec_render(content@, language, line_numbers, color),
        decreases ls@.len() - i,
    {
        assert(all[i as int] == ls@[i as int]@);
        proof {
            assert(all.skip(i as int)[0] == all[i as int]);
            assert(all.skip(i as int).drop_first() =~= all.skip(i + 1));
        }
        render_one(&mut highlighter, ls[i].as_str(), i + 1, width, line_numbers, color, &mut output);
        i = i + 1;
    }
    assert(all.skip(i as int) =~= Seq::<Seq<char>>::empty());
    output
}

/// The lines of `ls`, each followed by a newline.
pub open spec fn joined(ls: Seq<Seq<char>>) -> Seq<char>
    decreases ls.len(),
{
    if ls.len() == 0 {
        Seq::empty()
    } else {
        ls[0] + seq!['\n'] + joined(ls.drop_first())
    }
}

pub proof fn lemma_plain_lines<H: SyntaxHighlighter>(h: H, ls: Seq<Seq<char>>, first: nat, width: int)
    ensures
        rendered_lines(h, ls, first, width, false, false) == joined(ls),
    decreases ls.len(),
{
    if ls.len() > 0 {
        lemma_plain_lines(h, ls.drop_first(), first + 1, width);
        assert(Seq::<char>::empty() + ls[0] + seq!['\n'] =~= ls[0] + seq!['\n']);
    }
}

/// Without numbers and colour, rendering writes each line of the input
/// followed by a newline, whatever the language.
pub proof fn law_render_plain(content: Seq<char>, language: Language)
    ensures
        spec_render(content, language, false, false) == joined(spec_lines(content)),
{
    let ls = spec_lines(content);
    lemma_plain_lines(spec_create_highlighter(language), ls, 0, gutter_width(ls.len()));
}

pub proof fn lemma_joined_lines(c: Seq<char>, i: int)
    requires
        0 <= i <= c.len(),
        c.len() > 0,
        c.last() == '\n',
        !c.contains('\r'),
    ensures
        joined(lines_from(c, i)) == c.subrange(i, c.len() as int),
    decreases c.len() - i,
{
    if i == c.len() {
        assert(c.subrange(i, i) =~= Seq::<char>::empty());
    } else {
        lemma_find_char_bounds(c, i, '\n');
        if find_char_from(c, i, '\n') is None {
            assert(c[c.len() - 1] == '\n');
        }
        let k = find_char_from(c, i, '\n').unwrap();
        lemma_joined_lines(c, k + 1);
        let piece = c.subrange(i, k);
        if piece.len() > 0 {
            assert(piece.last() == c[k - 1]);
            if c[k - 1] == '\r' {
                assert(c.contains('\r'));
            }
        }
        assert(strip_cr(piece) == piece);
        let ls = lines_from(c, i);
        assert(ls =~= seq![piece] + lines_from(c, k + 1));
        assert(ls[0] == piece);
        assert(ls.drop_first() =~= lines_from(c, k + 1));
        assert(piece + seq!['\n'] + c.subrange(k + 1, c.len() as int) =~= c.subrange(i, c.len() as int));
    }
}

/// Without numbers and colour, a text that ends with a newline and holds no
/// carriage return is written back exactly as it is.
pub proof fn law_render_plain_round_trip(content: Seq<char>, language: Language)
    requires
        content.len() > 0,
        content.last() == '\n',
        !content.contains('\r'),
    ensures
        spec_render(content, language, false, false) == content,
{
    law_render_plain(content, language);
    lemma_joined_lines(content, 0);
    assert(content.subrange(0, content.len() as int) =~= content);
}

/// The output without colour: each line with its number (if asked) and a
/// newline.
pub open spec fn plain_output(ls: Seq<Seq<char>>, first: nat, width: int, line_numbers: bool) -> Seq<char>
    decreases ls.len(),
{
    if ls.len() == 0 {
        Seq::empty()
    } else {
        (if line_numbers { right_aligned(first + 1, width) + separator() } else { Seq::empty() })
            + ls[0] + seq!['\n'] + plain_output(ls.drop_first(), first + 1, width, line_numbers)
    }
}

pub proof fn lemma_uncolored_lines<H: SyntaxHighlighter>(h: H, ls: Seq<Seq<char>>, first: nat, width: int, line_numbers: bool)
    ensures
        rendered_lines(h, ls, first, width, line_numbers, false) == plain_output(ls, first, width, line_numbers),
    decreases ls.len(),
{
    if ls.len() > 0 {
        lemma_uncolored_lines(h, ls.drop_first(), first + 1, width, line_numbers);
    }
}

/// Without colour the language plays no part: every line is written as it
/// is, after its right-aligned number and ` | ` when numbers are asked for,
/// and followed by a newline.
pub proof fn law_render_uncolored(content: Seq<char>, language: Language, line_numbers: bool)
    ensures
        spec_render(content, language, line_numbers, false)
            == plain_output(spec_lines(content), 0, gutter_width(spec_lines(content).len()), line_numbers),
{
    let ls = spec_lines(content);
    lemma_uncolored_lines(spec_create_highlighter(language), ls, 0, gutter_width(ls.len()), line_numbers);
}

proof fn lemma_decimal_no_escape(n: nat)
    ensures
        !decimal(n).contains('\x1b'),
    decreases n,
{
    if n >= 10 {
        lemma_decimal_no_escape(n / 10);
        let d = crate::numbers::digit_char(n % 10);
        assert(decimal(n) =~= decimal(n / 10) + seq![d]);
        lemma_no_char_concat(decimal(n / 10), seq![d], '\x1b');
    }
}

proof fn lemma_gutter_no_escape(n: nat, width: int)
    ensures
        !(right_aligned(n, width) + separator()).contains('\x1b'),
{
    lemma_decimal_no_escape(n);
    let sp = crate::numbers::spaces(width - decimal(n).len());
    assert(!sp.contains('\x1b')) by {
        if sp.contains('\x1b') {
            let k = choose|k: int| 0 <= k < sp.len() && sp[k] == '\x1b';
            assert(sp[k] == ' ');
        }
    }
    lemma_no_char_concat(sp, decimal(n), '\x1b');
    lemma_no_char_concat(right_aligned(n, width), separator(), '\x1b');
}

/// Every line of a text without `x` is without `x`.
pub proof fn lemma_lines_without(c: Seq<char>, i: int, x: char)
    requires
        0 <= i,
        !c.contains(x),
    ensures
        forall|k: int| 0 <= k < lines_from(c, i).len() ==> !(#[trigger] lines_from(c, i)[k]).contains(x),
    decreases c.len() - i,
{
    if i < c.len() {
        lemma_find_char_bounds(c, i, '\n');
        let ls = lines_from(c, i);
        match find_char_from(c, i, '\n') {
            Some(k) => {
                lemma_lines_without(c, k + 1, x);
                let sub = c.subrange(i, k);
                assert(!sub.contains(x)) by {
                    if sub.contains(x) {
                        let j = choose|j: int| 0 <= j < sub.len() && sub[j] == x;
                        assert(c[i + j] == x);
                    }
                }
                let piece = strip_cr(sub);
                assert(!piece.contains(x)) by {
                    if piece.contains(x) {
                        let j = choose|j: int| 0 <= j < piece.len() && piece[j] == x;
                        assert(sub[j] == x);
                    }
                }
                assert forall|j: int| 0 <= j < ls.len() implies !(#[trigger] ls[j]).contains(x) by {
                    if j > 0 {
                        assert(ls[j] == lines_from(c, k + 1)[j - 1]);
                    } else {
                        assert(ls[j] == piece);
                    }
                }
            },
            None => {
                let sub = c.subrange(i, c.len() as int);
                assert(!sub.contains(x)) by {
                    if sub.contains(x) {
                        let j = choose|j: int| 0 <= j < sub.len() && sub[j] == x;
                        assert(c[i + j] == x);
                    }
                }
                assert(ls[0] == sub);
            },
        }
    }
}

/// Taking the codes out of one coloured output line (number column, the
/// highlighted spans of `line`, newline) leaves the line without colour.
pub proof fn lemma_strip_numbered_line(spans: Seq<Span>, line: Seq<char>, n: nat, width: int, line_numbers: bool, rest: Seq<char>)
    requires
        spans_text(spans) == line,
        !line.contains('\x1b'),
    ensures
        strip_ansi((if line_numbers { gutter(n, width, true) } else { Seq::empty() }) + render_spans(spans) + seq!['\n'] + rest)
            == (if line_numbers { gutter(n, width, false) } else { Seq::empty() }) + line + seq!['\n'] + strip_ansi(rest),
{
    let g: Seq<Span> = if line_numbers {
        seq![ansi::colored(Color::Blue, right_aligned(n, width)), ansi::colored(Color::Dim, separator())]
    } else {
        Seq::empty()
    };
    let all = g + spans + seq![ansi::plain(seq!['\n'])];
    ansi::lemma_render_concat(g + spans, seq![ansi::plain(seq!['\n'])]);
    ansi::lemma_render_concat(g, spans);
    ansi::lemma_render_single(ansi::plain(seq!['\n']));
    let gt: Seq<char> = if line_numbers { gutter(n, width, false) } else { Seq::empty() };
    if line_numbers {
        ansi::lemma_render_two(g[0], g[1], Seq::empty());
        assert(g =~= seq![g[0], g[1]] + Seq::<Span>::empty());
        assert(render_spans(Seq::<Span>::empty()) =~= Seq::<char>::empty());
        assert(spans_text(Seq::<Span>::empty()) =~= Seq::<char>::empty());
        assert(render_spans(g) =~= gutter(n, width, true));
        assert(spans_text(g) =~= gt);
    } else {
        assert(render_spans(g) =~= Seq::<char>::empty());
        assert(spans_text(g) =~= gt);
    }
    lemma_gutter_no_escape(n, width);
    assert(!gt.contains('\x1b'));
    assert(!seq!['\n'].contains('\x1b'));
    lemma_no_char_concat(gt, line, '\x1b');
    lemma_no_char_concat(gt + line, seq!['\n'], '\x1b');
    assert(spans_text(all) =~= gt + line + seq!['\n']);
    ansi::lemma_strip_spans(all, rest);
    assert((if line_numbers { gutter(n, width, true) } else { Seq::empty() }) + render_spans(spans) + seq!['\n'] + rest
        =~= render_spans(all) + rest);
}

proof fn lemma_strip_rendered_lines(h: Highlighter, ls: Seq<Seq<char>>, first: nat, width: int, line_numbers: bool)
    requires
        forall|k: int| 0 <= k < ls.len() ==> !(#[trigger] ls[k]).contains('\x1b'),
    ensures
        strip_ansi(rendered_lines(h, ls, first, width, line_numbers, true)) == plain_output(ls, first, width, line_numbers),
    decreases ls.len(),
{
    if ls.len() == 0 {
        assert(strip_ansi(Seq::<char>::empty()) =~= Seq::<char>::empty());
    } else {
        let line = ls[0];
        let n = first + 1;
        let r = h.spec_highlight(line);
        assert forall|k: int| 0 <= k < ls.drop_first().len() implies !(#[trigger] ls.drop_first()[k]).contains('\x1b') by {
            assert(ls.drop_first()[k] == ls[k + 1]);
        }
        lemma_strip_rendered_lines(r.1, ls.drop_first(), n, width, line_numbers);
        let rest = rendered_lines(r.1, ls.drop_first(), n, width, line_numbers, true);
        lemma_highlight_keeps_text(h, line);
        lemma_strip_numbered_line(r.0, line, n, width, line_numbers, rest);
    }
}

/// Colour only adds escape codes: for a text without escape characters,
/// taking them out of the coloured output gives the output without colour,
/// line numbers included, for every language.
pub proof fn law_render_strips_to_uncolored(content: Seq<char>, language: Language, line_numbers: bool)
    requires
        !content.contains('\x1b'),
    ensures
        strip_ansi(spec_render(content, language, line_numbers, true)) == spec_render(content, language, line_numbers, false),
{
    let ls = spec_lines(content);
    lemma_lines_without(content, 0, '\x1b');
    lemma_strip_rendered_lines(spec_create_highlighter(language), ls, 0, gutter_width(ls.len()), line_numbers);
    law_render_uncolored(content, language, line_numbers);
}

} // verus!
