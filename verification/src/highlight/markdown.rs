//! The Markdown and MDX highlighters.

use vstd::prelude::*;

use crate::ansi::{self, colored, plain, render_spans, spans_text, Color, Span};
use crate::language::Language;
use crate::text::{is_digit, is_ws};

use super::generic::{code_line, emit_code_line, lemma_code_line_text};
use super::helpers::{
    find_char_from, find_single_char_after, highlight_jsx_tag, jsx_tag_spans, lemma_find_char_bounds,
    lemma_jsx_tag_text, lemma_scan_jsx_bounds, looks_like_jsx_tag, scan_jsx_tag, spec_looks_like_jsx_tag,
    spec_scan_jsx_tag, spec_starts_with, starts_with,
};
use super::SyntaxHighlighter;

verus! {

// ---------------------------------------------------------------------------
// Line shapes

/// The first non-whitespace position at or after `i`.
pub open spec fn ws_end(c: Seq<char>, i: int) -> int
    decreases c.len() - i,
{
    if i < 0 || i >= c.len() {
        c.len() as int
    } else if is_ws(c[i]) {
        ws_end(c, i + 1)
    } else {
        i
    }
}

pub proof fn lemma_ws_end_bounds(c: Seq<char>, i: int)
    requires
        0 <= i <= c.len(),
    ensures
        i <= ws_end(c, i) <= c.len(),
    decreases c.len() - i,
{
    if i < c.len() {
        lemma_ws_end_bounds(c, i + 1);
    }
}

/// The length of the line's indentation.
pub open spec fn indent_len(c: Seq<char>) -> int {
    ws_end(c, 0)
}

pub(crate) fn indent_end(chars: &[char]) -> (w: usize)
    ensures
        w == indent_len(chars@),
        w <= chars@.len(),
{
    proof { lemma_ws_end_bounds(chars@, 0); }
    let mut i: usize = 0;
    while i < chars.len() && crate::text::is_whitespace(chars[i])
        invariant
            i <= chars@.len(),
            ws_end(chars@, 0) == ws_end(chars@, i as int),
        decreases chars@.len() - i,
    {
        i = i + 1;
    }
    i
}

/// A fence (```` ``` ```` or `~~~`) starts at `w`.
pub open spec fn is_fence_at(c: Seq<char>, w: int) -> bool {
    spec_starts_with(c, w, "```"@) || spec_starts_with(c, w, "~~~"@)
}

pub(crate) fn is_markdown_fence(chars: &[char], w: usize) -> (r: bool)
    ensures
        r == is_fence_at(chars@, w as int),
{
    starts_with(chars, w, "```") || starts_with(chars, w, "~~~")
}

/// In MDX, a line whose text starts with `import `, `export ` or `<` is code.
pub open spec fn is_mdx_code_at(c: Seq<char>, w: int) -> bool {
    spec_starts_with(c, w, "import "@) || spec_starts_with(c, w, "export "@) || (0 <= w < c.len() && c[w] == '<')
}

pub(crate) fn looks_like_mdx_code_line(chars: &[char], w: usize) -> (r: bool)
    ensures
        r == is_mdx_code_at(chars@, w as int),
{
    starts_with(chars, w, "import ") || starts_with(chars, w, "export ") || (w < chars.len() && chars[w] == '<')
}

/// The end of the run of `x` that starts at `i`.
pub open spec fn run_end(c: Seq<char>, i: int, x: char) -> int
    decreases c.len() - i,
{
    if i < 0 || i >= c.len() {
        c.len() as int
    } else if c[i] == x {
        run_end(c, i + 1, x)
    } else {
        i
    }
}

/// The end of the run of ASCII digits that starts at `i`.
pub open spec fn digit_end(c: Seq<char>, i: int) -> int
    decreases c.len() - i,
{
    if i < 0 || i >= c.len() {
        c.len() as int
    } else if is_digit(c[i]) {
        digit_end(c, i + 1)
    } else {
        i
    }
}

/// A heading marker (one to six `#` and a blank) at `w`: its length.
pub open spec fn heading_marker_at(c: Seq<char>, w: int) -> Option<int> {
    let k = run_end(c, w, '#') - w;
    if 1 <= k <= 6 && w + k < c.len() && is_ws(c[w + k]) {
        Some(k)
    } else {
        None
    }
}

/// A list marker at `w` (`-`, `*` or `+` and a blank, or digits, `.` and a
/// blank): its length without the blank.
pub open spec fn list_marker_at(c: Seq<char>, w: int) -> Option<int> {
    if w + 1 < c.len() && (c[w] == '-' || c[w] == '*' || c[w] == '+') && is_ws(c[w + 1]) {
        Some(1)
    } else {
        let d = digit_end(c, w) - w;
        if d > 0 && w + d + 1 < c.len() && c[w + d] == '.' && is_ws(c[w + d + 1]) {
            Some(d + 1)
        } else {
            None
        }
    }
}

fn markdown_heading_marker_len(chars: &[char], w: usize) -> (r: Option<usize>)
    requires
        w <= chars@.len(),
    ensures
        match heading_marker_at(chars@, w as int) {
            Some(k) => r == Some(k as usize),
            None => r is None,
        },
{
    let mut i = w;
    while i < chars.len() && chars[i] == '#'
        invariant
            w <= i <= chars@.len(),
            run_end(chars@, w as int, '#') == run_end(chars@, i as int, '#'),
        decreases chars@.len() - i,
    {
        i = i + 1;
    }
    let k = i - w;
    if 1 <= k && k <= 6 && i < chars.len() && crate::text::is_whitespace(chars[i]) {
        Some(k)
    } else {
        None
    }
}

fn markdown_list_marker_len(chars: &[char], w: usize) -> (r: Option<usize>)
    requires
        w <= chars@.len(),
    ensures
        match list_marker_at(chars@, w as int) {
            Some(k) => r == Some(k as usize),
            None => r is None,
        },
{
    let len = chars.len();
    if w < len && w + 1 < len && (chars[w] == '-' || chars[w] == '*' || chars[w] == '+') && crate::text::is_whitespace(chars[w + 1]) {
        return Some(1);
    }
    let mut i = w;
    while i < len && crate::text::is_ascii_digit(chars[i])
        invariant
            w <= i <= len,
            len == chars@.len(),
            digit_end(chars@, w as int) == digit_end(chars@, i as int),
        decreases len - i,
    {
        i = i + 1;
    }
    let d = i - w;
    if d > 0 && i < len && i + 1 < len && chars[i] == '.' && crate::text::is_whitespace(chars[i + 1]) {
        Some(d + 1)
    } else {
        None
    }
}

// ---------------------------------------------------------------------------
// Links

/// Where a link `[text](target)` that opens at `start` ends.
pub open spec fn link_end(c: Seq<char>, start: int) -> Option<int> {
    match find_char_from(c, start + 1, ']') {
        Some(cb) => if cb + 1 < c.len() && c[cb + 1] == '(' {
            match find_char_from(c, cb + 2, ')') {
                Some(cp) => Some(cp + 1),
                None => None,
            }
        } else {
            None
        },
        None => None,
    }
}

/// A link: brackets cyan, its text blue, its target green.
pub open spec fn link_spans(l: Seq<char>) -> Seq<Span> {
    match find_char_from(l, 0, ']') {
        Some(cb) => seq![
            colored(Color::Cyan, seq!['[']),
            colored(Color::Blue, l.subrange(1, cb)),
            colored(Color::Cyan, seq![']', '(']),
            colored(Color::Green, l.subrange(cb + 2, l.len() - 1)),
            colored(Color::Cyan, seq![')']),
        ],
        None => Seq::empty(),
    }
}

pub proof fn lemma_find_char_first(c: Seq<char>, i: int, x: char, k: int)
    requires
        0 <= i <= k < c.len(),
        c[k] == x,
        forall|j: int| i <= j < k ==> c[j] != x,
    ensures
        find_char_from(c, i, x) == Some(k),
    decreases k - i,
{
    if i < k {
        lemma_find_char_first(c, i + 1, x, k);
    }
}

/// The shape `link_end` guarantees: `[`, text, `](`, target, `)`, with the
/// first `]` right before the `(`.
pub open spec fn is_link(l: Seq<char>) -> bool {
    &&& l.len() >= 4
    &&& l[0] == '['
    &&& l[l.len() - 1] == ')'
    &&& find_char_from(l, 0, ']') matches Some(cb) && 1 <= cb && cb + 2 <= l.len() - 1 && l[cb + 1] == '('
}

pub proof fn lemma_link_end(c: Seq<char>, start: int)
    requires
        0 <= start < c.len(),
        c[start] == '[',
    ensures
        link_end(c, start) matches Some(e) ==> start < e <= c.len() && is_link(c.subrange(start, e)),
{
    lemma_find_char_bounds(c, start + 1, ']');
    if let Some(cb) = find_char_from(c, start + 1, ']') {
        lemma_find_char_bounds(c, cb + 2, ')');
        if let Some(e) = link_end(c, start) {
            let l = c.subrange(start, e);
            lemma_find_char_first(l, 0, ']', cb - start);
        }
    }
}

pub proof fn lemma_link_text(l: Seq<char>)
    requires
        is_link(l),
    ensures
        spans_text(link_spans(l)) == l,
{
    let cb = find_char_from(l, 0, ']').unwrap();
    lemma_find_char_bounds(l, 0, ']');
    let spans = link_spans(l);
    assert(spans =~= seq![spans[0]] + seq![spans[1]] + seq![spans[2]] + seq![spans[3]] + seq![spans[4]]);
    ansi::lemma_render_concat(seq![spans[0]] + seq![spans[1]] + seq![spans[2]] + seq![spans[3]], seq![spans[4]]);
    ansi::lemma_render_concat(seq![spans[0]] + seq![spans[1]] + seq![spans[2]], seq![spans[3]]);
    ansi::lemma_render_concat(seq![spans[0]] + seq![spans[1]], seq![spans[2]]);
    ansi::lemma_render_concat(seq![spans[0]], seq![spans[1]]);
    ansi::lemma_render_single(spans[0]);
    ansi::lemma_render_single(spans[1]);
    ansi::lemma_render_single(spans[2]);
    ansi::lemma_render_single(spans[3]);
    ansi::lemma_render_single(spans[4]);
    assert(seq!['['] + l.subrange(1, cb) + seq![']', '('] + l.subrange(cb + 2, l.len() - 1) + seq![')'] =~= l);
}

fn scan_markdown_link(chars: &[char], start: usize) -> (r: Option<usize>)
    requires
        start < chars@.len(),
    ensures
        match link_end(chars@, start as int) {
            Some(e) => r == Some(e as usize),
            None => r is None,
        },
{
    proof { lemma_find_char_bounds(chars@, start + 1, ']'); }
    let len = chars.len();
    let close_bracket = match find_single_char_after(chars, start + 1, ']') {
        Some(k) => k,
        None => return None,
    };
    if close_bracket + 1 >= len || chars[close_bracket + 1] != '(' {
        return None;
    }
    proof { lemma_find_char_bounds(chars@, close_bracket + 2, ')'); }
    match find_single_char_after(chars, close_bracket + 2, ')') {
        Some(close_paren) => Some(close_paren + 1),
        None => None,
    }
}

fn highlight_markdown_link(link: &str) -> (output: String)
    requires
        is_link(link@),
    ensures
        output@ == render_spans(link_spans(link@)),
{
    let chars = crate::text::to_chars(link);
    let ghost l = chars@;
    proof { lemma_find_char_bounds(l, 0, ']'); }
    let close_bracket = match find_single_char_after(chars.as_slice(), 0, ']') {
        Some(k) => k,
        None => { return String::new(); },
    };
    let len = chars.len();
    let mut output = String::new();
    ansi::emit_char(&mut output, Some(Color::Cyan), '[');
    ansi::emit_range(&mut output, Some(Color::Blue), chars.as_slice(), 1, close_bracket);
    let ghost o2 = output@;
    output.append(ansi::CYAN);
    crate::text::push_char(&mut output, ']');
    crate::text::push_char(&mut output, '(');
    output.append(ansi::RESET);
    assert(output@ =~= o2 + ansi::span_out(colored(Color::Cyan, seq![']', '('])));
    ansi::emit_range(&mut output, Some(Color::Green), chars.as_slice(), close_bracket + 2, len - 1);
    ansi::emit_char(&mut output, Some(Color::Cyan), ')');
    proof {
        let spans = link_spans(l);
        ansi::lemma_render_concat(seq![spans[0]] + seq![spans[1]] + seq![spans[2]] + seq![spans[3]], seq![spans[4]]);
        ansi::lemma_render_concat(seq![spans[0]] + seq![spans[1]] + seq![spans[2]], seq![spans[3]]);
        ansi::lemma_render_concat(seq![spans[0]] + seq![spans[1]], seq![spans[2]]);
        ansi::lemma_render_concat(seq![spans[0]], seq![spans[1]]);
        ansi::lemma_render_single(spans[0]);
        ansi::lemma_render_single(spans[1]);
        ansi::lemma_render_single(spans[2]);
        ansi::lemma_render_single(spans[3]);
        ansi::lemma_render_single(spans[4]);
        assert(spans =~= seq![spans[0]] + seq![spans[1]] + seq![spans[2]] + seq![spans[3]] + seq![spans[4]]);
    }
    output
}

// ---------------------------------------------------------------------------
// Inline markup

/// The inline token at `i`: `` `code` `` green (to the end of the line when
/// unclosed), links, tags in MDX, and `*`/`_` before a non-blank magenta.
pub open spec fn md_inline_token(is_mdx: bool, c: Seq<char>, i: int) -> (Seq<Span>, int) {
    let ch = c[i];
    if ch == '`' {
        let e = match find_char_from(c, i + 1, '`') { Some(k) => k, None => c.len() - 1 };
        (seq![colored(Color::Green, c.subrange(i, e + 1))], e + 1)
    } else if ch == '[' && link_end(c, i) is Some {
        let e = link_end(c, i).unwrap();
        (link_spans(c.subrange(i, e)), e)
    } else if is_mdx && ch == '<' && spec_looks_like_jsx_tag(c, i) {
        let e = spec_scan_jsx_tag(c, i);
        (jsx_tag_spans(c.subrange(i, e)), e)
    } else if (ch == '*' || ch == '_') && i + 1 < c.len() && !is_ws(c[i + 1]) {
        (seq![colored(Color::Magenta, seq![ch])], i + 1)
    } else {
        (seq![plain(seq![ch])], i + 1)
    }
}

pub proof fn lemma_md_inline_token(is_mdx: bool, c: Seq<char>, i: int)
    requires
        0 <= i < c.len(),
    ensures
        i < md_inline_token(is_mdx, c, i).1 <= c.len(),
        spans_text(md_inline_token(is_mdx, c, i).0) == c.subrange(i, md_inline_token(is_mdx, c, i).1),
{
    let ch = c[i];
    let t = md_inline_token(is_mdx, c, i);
    lemma_find_char_bounds(c, i + 1, '`');
    assert(c.subrange(i, i + 1) =~= seq![ch]);
    if ch == '`' {
        ansi::lemma_render_single(t.0[0]);
        assert(t.0 =~= seq![t.0[0]]);
    } else if ch == '[' && link_end(c, i) is Some {
        lemma_link_end(c, i);
        lemma_link_text(c.subrange(i, t.1));
    } else if is_mdx && ch == '<' && spec_looks_like_jsx_tag(c, i) {
        lemma_scan_jsx_bounds(c, i + 1, None, false);
        lemma_jsx_tag_text(c.subrange(i, t.1), 0);
        assert(c.subrange(i, t.1).subrange(0, t.1 - i) =~= c.subrange(i, t.1));
    } else {
        ansi::lemma_render_single(t.0[0]);
        assert(t.0 =~= seq![t.0[0]]);
    }
}

pub open spec fn md_inline_from(is_mdx: bool, c: Seq<char>, i: int) -> Seq<Span>
    decreases c.len() - i,
{
    if i < 0 || i >= c.len() {
        Seq::empty()
    } else {
        let (spans, next) = md_inline_token(is_mdx, c, i);
        proof { lemma_md_inline_token(is_mdx, c, i); }
        spans + md_inline_from(is_mdx, c, next)
    }
}

/// How inline Markdown (or MDX, with tags) is highlighted.
pub open spec fn md_inline(is_mdx: bool, c: Seq<char>) -> Seq<Span> {
    md_inline_from(is_mdx, c, 0)
}

pub proof fn lemma_md_inline_text(is_mdx: bool, c: Seq<char>, i: int)
    requires
        0 <= i <= c.len(),
    ensures
        spans_text(md_inline_from(is_mdx, c, i)) == c.subrange(i, c.len() as int),
    decreases c.len() - i,
{
    if i < c.len() {
        let (spans, next) = md_inline_token(is_mdx, c, i);
        lemma_md_inline_token(is_mdx, c, i);
        lemma_md_inline_text(is_mdx, c, next);
        ansi::lemma_render_concat(spans, md_inline_from(is_mdx, c, next));
        assert(c.subrange(i, next) + c.subrange(next, c.len() as int) =~= c.subrange(i, c.len() as int));
    } else {
        assert(spans_text(Seq::<Span>::empty()) =~= Seq::<char>::empty());
    }
}

/// Appends the highlighted inline markup of `chars`.
fn highlight_markdown_inline(chars: &[char], is_mdx: bool, output: &mut String)
    ensures
        final(output)@ == old(output)@ + render_spans(md_inline(is_mdx, chars@)),
{
    let ghost c = chars@;
    let ghost start = output@;
    let ghost mut acc: Seq<Span> = Seq::empty();
    let len = chars.len();
    let mut index: usize = 0;
    assert(acc + md_inline_from(is_mdx, c, 0) =~= md_inline(is_mdx, c));
    assert(render_spans(acc) =~= Seq::<char>::empty());
    while index < len
        invariant
            c == chars@,
            len == c.len(),
            index <= len,
            output@ == start + render_spans(acc),
            acc + md_inline_from(is_mdx, c, index as int) == md_inline(is_mdx, c),
        decreases len - index,
    {
        let ghost t = md_inline_token(is_mdx, c, index as int);
        proof {
            lemma_md_inline_token(is_mdx, c, index as int);
            ansi::lemma_render_concat(acc, t.0);
            assert(acc + md_inline_from(is_mdx, c, index as int) =~= (acc + t.0) + md_inline_from(is_mdx, c, t.1));
            lemma_find_char_bounds(c, index + 1, '`');
        }
        let ch = chars[index];
        let mut handled = false;
        if ch == '`' {
            let end = match find_single_char_after(chars, index + 1, '`') {
                Some(k) => k,
                None => len - 1,
            };
            ansi::emit_range(output, Some(Color::Green), chars, index, end + 1);
            proof { ansi::lemma_render_single(t.0[0]); assert(t.0 =~= seq![t.0[0]]); }
            index = end + 1;
            handled = true;
        }
        if !handled && ch == '[' {
            match scan_markdown_link(chars, index) {
                Some(end) => {
                    proof { lemma_link_end(c, index as int); }
                    let link = crate::text::collect_range(chars, index, end);
                    let highlighted = highlight_markdown_link(link.as_str());
                    output.append(highlighted.as_str());
                    index = end;
                    handled = true;
                },
                None => {},
            }
        }
        if !handled && is_mdx && ch == '<' && looks_like_jsx_tag(chars, index) {
            let end = scan_jsx_tag(chars, index);
            let tag = crate::text::collect_range(chars, index, end);
            let highlighted = highlight_jsx_tag(tag.as_str());
            output.append(highlighted.as_str());
            index = end;
            handled = true;
        }
        if !handled && (ch == '*' || ch == '_') && index + 1 < len && !crate::text::is_whitespace(chars[index + 1]) {
            ansi::emit_char(output, Some(Color::Magenta), ch);
            proof { ansi::lemma_render_single(t.0[0]); assert(t.0 =~= seq![t.0[0]]); }
            index = index + 1;
            handled = true;
        }
        if !handled {
            ansi::emit_char(output, None, ch);
            proof { ansi::lemma_render_single(t.0[0]); assert(t.0 =~= seq![t.0[0]]); }
            index = index + 1;
        }
        proof { acc = acc + t.0; }
    }
    assert(acc + Seq::<Span>::empty() =~= acc);
}

// ---------------------------------------------------------------------------
// Lines

/// A line that starts with a marker of length `k` after its indentation `w`:
/// the marker in `color`, the rest inline markup.
pub open spec fn prefixed_spans(is_mdx: bool, c: Seq<char>, w: int, k: int, color: Color) -> Seq<Span> {
    seq![plain(c.subrange(0, w)), colored(color, c.subrange(w, w + k))]
        + md_inline(is_mdx, c.subrange(w + k, c.len() as int))
}

/// A line outside code fences: headings (marker magenta, title blue), quotes,
/// list items, or inline markup.
pub open spec fn md_text_line(is_mdx: bool, c: Seq<char>) -> Seq<Span> {
    let w = indent_len(c);
    match heading_marker_at(c, w) {
        Some(k) => seq![
            plain(c.subrange(0, w)),
            colored(Color::Magenta, c.subrange(w, w + k)),
            colored(Color::Blue, c.subrange(w + k, c.len() as int)),
        ],
        None => if w < c.len() && c[w] == '>' {
            prefixed_spans(is_mdx, c, w, 1, Color::BrightBlack)
        } else {
            match list_marker_at(c, w) {
                Some(k) => prefixed_spans(is_mdx, c, w, k, Color::Cyan),
                None => md_inline(is_mdx, c),
            }
        },
    }
}

/// A line of Markdown given whether a code fence is open: a fence line is
/// dim and opens or closes the fence, a line inside a fence is green.
pub open spec fn md_line(is_mdx: bool, in_fence: bool, c: Seq<char>) -> (Seq<Span>, bool) {
    if is_fence_at(c, indent_len(c)) {
        (seq![colored(Color::BrightBlack, c)], !in_fence)
    } else if in_fence {
        (seq![colored(Color::Green, c)], in_fence)
    } else {
        (md_text_line(is_mdx, c), in_fence)
    }
}

pub proof fn lemma_heading_bounds(c: Seq<char>, w: int)
    requires
        0 <= w <= c.len(),
    ensures
        heading_marker_at(c, w) matches Some(k) ==> 1 <= k && w + k < c.len(),
{
}

pub proof fn lemma_list_bounds(c: Seq<char>, w: int)
    requires
        0 <= w <= c.len(),
    ensures
        list_marker_at(c, w) matches Some(k) ==> 1 <= k && w + k < c.len(),
{
}

pub proof fn lemma_prefixed_text(is_mdx: bool, c: Seq<char>, w: int, k: int, color: Color)
    requires
        0 <= w <= w + k <= c.len(),
    ensures
        spans_text(prefixed_spans(is_mdx, c, w, k, color)) == c,
{
    let rest = c.subrange(w + k, c.len() as int);
    lemma_md_inline_text(is_mdx, rest, 0);
    assert(rest.subrange(0, rest.len() as int) =~= rest);
    ansi::lemma_render_two(plain(c.subrange(0, w)), colored(color, c.subrange(w, w + k)), md_inline(is_mdx, rest));
    assert(c.subrange(0, w) + c.subrange(w, w + k) + rest =~= c);
}

/// Highlighting Markdown leaves the line's text as it is.
pub proof fn lemma_md_text_line_text(is_mdx: bool, c: Seq<char>)
    ensures
        spans_text(md_text_line(is_mdx, c)) == c,
{
    let w = indent_len(c);
    lemma_ws_end_bounds(c, 0);
    lemma_heading_bounds(c, w);
    lemma_list_bounds(c, w);
    if let Some(k) = heading_marker_at(c, w) {
        ansi::lemma_render_three(
            plain(c.subrange(0, w)),
            colored(Color::Magenta, c.subrange(w, w + k)),
            colored(Color::Blue, c.subrange(w + k, c.len() as int)),
        );
        assert(c.subrange(0, w) + c.subrange(w, w + k) + c.subrange(w + k, c.len() as int) =~= c);
    } else if w < c.len() && c[w] == '>' {
        lemma_prefixed_text(is_mdx, c, w, 1, Color::BrightBlack);
    } else if let Some(k) = list_marker_at(c, w) {
        lemma_prefixed_text(is_mdx, c, w, k, Color::Cyan);
    } else {
        lemma_md_inline_text(is_mdx, c, 0);
        assert(c.subrange(0, c.len() as int) =~= c);
    }
}

pub proof fn lemma_md_line_text(is_mdx: bool, in_fence: bool, c: Seq<char>)
    ensures
        spans_text(md_line(is_mdx, in_fence, c).0) == c,
{
    lemma_md_text_line_text(is_mdx, c);
    ansi::lemma_render_single(colored(Color::BrightBlack, c));
    ansi::lemma_render_single(colored(Color::Green, c));
}

/// Appends a line with a marker: indentation, marker in `color`, the rest
/// as inline markup.
fn highlight_markdown_prefixed_line(chars: &[char], w: usize, k: usize, color: Color, is_mdx: bool, output: &mut String)
    requires
        w + k <= chars@.len(),
    ensures
        final(output)@ == old(output)@ + render_spans(prefixed_spans(is_mdx, chars@, w as int, k as int, color)),
{
    let len = chars.len();
    ansi::emit_range(output, None, chars, 0, w);
    ansi::emit_range(output, Some(color), chars, w, w + k);
    let rest = crate::text::collect_range(chars, w + k, len);
    let rest_chars = crate::text::to_chars(rest.as_str());
    highlight_markdown_inline(rest_chars.as_slice(), is_mdx, output);
    proof {
        ansi::lemma_render_two(
            plain(chars@.subrange(0, w as int)),
            colored(color, chars@.subrange(w as int, w + k)),
            md_inline(is_mdx, chars@.subrange(w + k, len as int)),
        );
    }
}

/// Appends a heading: indentation, marker magenta, title blue.
fn highlight_markdown_heading(chars: &[char], w: usize, k: usize, output: &mut String)
    requires
        w + k <= chars@.len(),
    ensures
        final(output)@ == old(output)@ + render_spans(seq![
            plain(chars@.subrange(0, w as int)),
            colored(Color::Magenta, chars@.subrange(w as int, w + k)),
            colored(Color::Blue, chars@.subrange(w + k, chars@.len() as int)),
        ]),
{
    let len = chars.len();
    ansi::emit_range(output, None, chars, 0, w);
    ansi::emit_range(output, Some(Color::Magenta), chars, w, w + k);
    ansi::emit_range(output, Some(Color::Blue), chars, w + k, len);
    proof {
        ansi::lemma_render_three(
            plain(chars@.subrange(0, w as int)),
            colored(Color::Magenta, chars@.subrange(w as int, w + k)),
            colored(Color::Blue, chars@.subrange(w + k, chars@.len() as int)),
        );
    }
}

/// Appends the highlighted `chars` as a line outside code fences.
pub(crate) fn emit_md_text_line(is_mdx: bool, chars: &[char], output: &mut String)
    ensures
        final(output)@ == old(output)@ + render_spans(md_text_line(is_mdx, chars@)),
{
    let len = chars.len();
    let w = indent_end(chars);
    match markdown_heading_marker_len(chars, w) {
        Some(k) => {
            proof { lemma_heading_bounds(chars@, w as int); }
            highlight_markdown_heading(chars, w, k, output);
            return;
        },
        None => {},
    }
    if w < len && chars[w] == '>' {
        highlight_markdown_prefixed_line(chars, w, 1, Color::BrightBlack, is_mdx, output);
        return;
    }
    match markdown_list_marker_len(chars, w) {
        Some(k) => {
            proof { lemma_list_bounds(chars@, w as int); }
            highlight_markdown_prefixed_line(chars, w, k, Color::Cyan, is_mdx, output);
        },
        None => {
            highlight_markdown_inline(chars, is_mdx, output);
        },
    }
}

/// Appends the highlighted Markdown line `chars`; returns whether a code
/// fence is open after it.
fn emit_md_line(is_mdx: bool, in_fence: bool, chars: &[char], output: &mut String) -> (r: bool)
    ensures
        r == md_line(is_mdx, in_fence, chars@).1,
        final(output)@ == old(output)@ + render_spans(md_line(is_mdx, in_fence, chars@).0),
{
    let w = indent_end(chars);
    let len = chars.len();
    if is_markdown_fence(chars, w) {
        ansi::emit_range(output, Some(Color::BrightBlack), chars, 0, len);
        proof {
            ansi::lemma_render_single(colored(Color::BrightBlack, chars@));
            assert(chars@.subrange(0, len as int) =~= chars@);
        }
        return !in_fence;
    }
    if in_fence {
        ansi::emit_range(output, Some(Color::Green), chars, 0, len);
        proof {
            ansi::lemma_render_single(colored(Color::Green, chars@));
            assert(chars@.subrange(0, len as int) =~= chars@);
        }
        return in_fence;
    }
    emit_md_text_line(is_mdx, chars, output);
    in_fence
}

/// A fence line opens a code block when none is open and closes the open
/// one; any other line leaves the state as it is.
pub proof fn law_fence_toggles(is_mdx: bool, in_fence: bool, c: Seq<char>)
    ensures
        is_fence_at(c, indent_len(c)) ==> md_line(is_mdx, in_fence, c).1 == !in_fence,
        !is_fence_at(c, indent_len(c)) ==> md_line(is_mdx, in_fence, c).1 == in_fence,
        in_fence && !is_fence_at(c, indent_len(c)) ==> md_line(is_mdx, in_fence, c).0 == seq![colored(Color::Green, c)],
{
}

pub struct MarkdownHighlighter {
    pub in_code_fence: bool,
}

impl MarkdownHighlighter {
    pub fn new() -> (h: Self)
        ensures
            !h.in_code_fence,
    {
        Self { in_code_fence: false }
    }
}

impl SyntaxHighlighter for MarkdownHighlighter {
    open spec fn spec_highlight(&self, line: Seq<char>) -> (Seq<Span>, Self) {
        let r = md_line(false, self.in_code_fence, line);
        (r.0, MarkdownHighlighter { in_code_fence: r.1 })
    }

    fn highlight_line(&mut self, line: &str) -> (output: String) {
        let chars = crate::text::to_chars(line);
        let mut output = String::new();
        let fence = emit_md_line(false, self.in_code_fence, chars.as_slice(), &mut output);
        self.in_code_fence = fence;
        assert(output@ =~= render_spans(md_line(false, old(self).in_code_fence, line@).0));
        output
    }
}

pub struct MdxHighlighter {
    pub in_code_fence: bool,
}

impl MdxHighlighter {
    pub fn new() -> (h: Self)
        ensures
            !h.in_code_fence,
    {
        Self { in_code_fence: false }
    }
}

/// A line of MDX: an `import`/`export` line or one that starts with a tag is
/// TSX (with a fresh highlighter), anything else Markdown with inline tags.
pub open spec fn mdx_line(in_fence: bool, c: Seq<char>) -> (Seq<Span>, bool) {
    if is_mdx_code_at(c, indent_len(c)) {
        (code_line(false, true, Language::Tsx, false, c).0, in_fence)
    } else {
        md_line(true, in_fence, c)
    }
}

impl SyntaxHighlighter for MdxHighlighter {
    open spec fn spec_highlight(&self, line: Seq<char>) -> (Seq<Span>, Self) {
        let r = mdx_line(self.in_code_fence, line);
        (r.0, MdxHighlighter { in_code_fence: r.1 })
    }

    fn highlight_line(&mut self, line: &str) -> (output: String) {
        let chars = crate::text::to_chars(line);
        let mut output = String::new();
        let w = indent_end(chars.as_slice());
        if looks_like_mdx_code_line(chars.as_slice(), w) {
            let _ = emit_code_line(false, true, Language::Tsx, false, chars.as_slice(), &mut output);
            assert(output@ =~= render_spans(mdx_line(old(self).in_code_fence, line@).0));
            return output;
        }
        let fence = emit_md_line(true, self.in_code_fence, chars.as_slice(), &mut output);
        self.in_code_fence = fence;
        assert(output@ =~= render_spans(mdx_line(old(self).in_code_fence, line@).0));
        output
    }
}

pub proof fn lemma_mdx_line_text(in_fence: bool, c: Seq<char>)
    ensures
        spans_text(mdx_line(in_fence, c).0) == c,
{
    lemma_md_line_text(true, in_fence, c);
    lemma_code_line_text(false, true, Language::Tsx, false, c, 0);
    assert(c.subrange(0, c.len() as int) =~= c);
}

proof fn lemma_ws_run(c: Seq<char>, i: int, n: int)
    requires
        0 <= i <= n < c.len(),
        forall|m: int| i <= m < n ==> is_ws(#[trigger] c[m]),
        !is_ws(c[n]),
    ensures
        ws_end(c, i) == n,
    decreases n - i,
{
    if i < n {
        lemma_ws_run(c, i + 1, n);
    }
}

proof fn lemma_hash_run(c: Seq<char>, i: int, n: int)
    requires
        0 <= i <= n < c.len(),
        forall|m: int| i <= m < n ==> #[trigger] c[m] == '#',
        c[n] != '#',
    ensures
        run_end(c, i, '#') == n,
    decreases n - i,
{
    if i < n {
        lemma_hash_run(c, i + 1, n);
    }
}

/// Outside a code fence, a line made of indentation, one to six `#`, a
/// blank and a title is a heading, in Markdown and in MDX: the indentation
/// is written as it is, the `#`s magenta, and the rest of the line (the
/// blank included) blue.
pub proof fn law_heading(indent: Seq<char>, k: int, b: char, title: Seq<char>)
    requires
        1 <= k <= 6,
        is_ws(b),
        forall|m: int| 0 <= m < indent.len() ==> is_ws(#[trigger] indent[m]),
    ensures
        render_spans(MarkdownHighlighter { in_code_fence: false }.spec_highlight(
            indent + Seq::new(k as nat, |_m: int| '#') + seq![b] + title,
        ).0) == indent + ansi::painted(Seq::new(k as nat, |_m: int| '#'), ansi::MAGENTA@)
            + ansi::painted(seq![b] + title, ansi::BLUE@),
        render_spans(MdxHighlighter { in_code_fence: false }.spec_highlight(
            indent + Seq::new(k as nat, |_m: int| '#') + seq![b] + title,
        ).0) == indent + ansi::painted(Seq::new(k as nat, |_m: int| '#'), ansi::MAGENTA@)
            + ansi::painted(seq![b] + title, ansi::BLUE@),
{
    reveal_strlit("```");
    reveal_strlit("~~~");
    reveal_strlit("import ");
    reveal_strlit("export ");
    let hashes = Seq::new(k as nat, |_m: int| '#');
    let c = indent + hashes + seq![b] + title;
    let w = indent.len() as int;
    assert(c[w] == '#');
    assert(!is_ws('#'));
    assert forall|m: int| 0 <= m < w implies is_ws(#[trigger] c[m]) by {
        assert(c[m] == indent[m]);
    }
    lemma_ws_run(c, 0, w);
    assert(indent_len(c) == w);
    assert forall|m: int| w <= m < w + k implies #[trigger] c[m] == '#' by {
        assert(c[m] == hashes[m - w]);
    }
    assert(c[w + k] == b);
    assert(b != '#');
    lemma_hash_run(c, w, w + k);
    assert(heading_marker_at(c, w) == Some(k));
    assert(!is_fence_at(c, w)) by {
        if spec_starts_with(c, w, "```"@) {
            assert(c.subrange(w, w + 3)[0] == c[w]);
        }
        if spec_starts_with(c, w, "~~~"@) {
            assert(c.subrange(w, w + 3)[0] == c[w]);
        }
    }
    assert(!is_mdx_code_at(c, w)) by {
        if spec_starts_with(c, w, "import "@) {
            assert(c.subrange(w, w + 7)[0] == c[w]);
        }
        if spec_starts_with(c, w, "export "@) {
            assert(c.subrange(w, w + 7)[0] == c[w]);
        }
    }
    assert(c.subrange(0, w) =~= indent);
    assert(c.subrange(w, w + k) =~= hashes);
    assert(c.subrange(w + k, c.len() as int) =~= seq![b] + title);
    ansi::lemma_render_three(plain(indent), colored(Color::Magenta, hashes), colored(Color::Blue, seq![b] + title));
    assert(md_line(false, false, c).0 == seq![plain(indent), colored(Color::Magenta, hashes), colored(Color::Blue, seq![b] + title)]);
    assert(md_line(true, false, c).0 == seq![plain(indent), colored(Color::Magenta, hashes), colored(Color::Blue, seq![b] + title)]);
}

} // verus!
