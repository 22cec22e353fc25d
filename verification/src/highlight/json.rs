//! The JSON highlighter: keys blue, string values green, numbers yellow.

use vstd::prelude::*;

use crate::ansi::{self, colored, plain, render_spans, spans_text, Color, Span};
use crate::text::{is_digit, is_ws};

use super::helpers::{
    lemma_number_end_bounds, lemma_scan_closed, lemma_scan_string_bounds, next_non_ws_from, next_non_ws_is, number_end,
    scan_number, scan_string, spec_scan_string,
};
use super::SyntaxHighlighter;

verus! {

/// The punctuation the JSON highlighter paints cyan.
pub open spec fn is_json_punct(ch: char) -> bool {
    ||| ch == '{' || ch == '}' || ch == '[' || ch == ']' || ch == '(' || ch == ')'
    ||| ch == ',' || ch == ':' || ch == '=' || ch == '+' || ch == '-' || ch == '*'
    ||| ch == '/' || ch == '!'
}

/// The JSON token at `i`: a quoted string is a key (blue) when the next
/// non-blank character is `:`, a value (green) otherwise.
pub open spec fn json_token(c: Seq<char>, i: int) -> (Seq<Span>, int) {
    let ch = c[i];
    if ch == '"' || ch == '\'' || ch == '`' {
        let e = spec_scan_string(c, i, ch);
        let color = if next_non_ws_from(c, e, ':') { Color::Blue } else { Color::Green };
        (seq![colored(color, c.subrange(i, e))], e)
    } else if is_digit(ch) {
        let e = number_end(c, i + 1);
        (seq![colored(Color::Yellow, c.subrange(i, e))], e)
    } else if is_json_punct(ch) {
        (seq![colored(Color::Cyan, seq![ch])], i + 1)
    } else {
        (seq![plain(seq![ch])], i + 1)
    }
}

pub proof fn lemma_json_token(c: Seq<char>, i: int)
    requires
        0 <= i < c.len(),
    ensures
        i < json_token(c, i).1 <= c.len(),
        json_token(c, i).0.len() == 1,
        spans_text(json_token(c, i).0) == c.subrange(i, json_token(c, i).1),
{
    lemma_scan_string_bounds(c, i + 1, false, c[i]);
    lemma_number_end_bounds(c, i + 1);
    ansi::lemma_render_single(json_token(c, i).0[0]);
    assert(json_token(c, i).0 =~= seq![json_token(c, i).0[0]]);
    assert(c.subrange(i, i + 1) =~= seq![c[i]]);
}

pub open spec fn json_line_from(c: Seq<char>, i: int) -> Seq<Span>
    decreases c.len() - i,
{
    if i < 0 || i >= c.len() {
        Seq::empty()
    } else {
        let (spans, next) = json_token(c, i);
        proof { lemma_json_token(c, i); }
        spans + json_line_from(c, next)
    }
}

/// How a line of JSON is highlighted.
pub open spec fn json_line(c: Seq<char>) -> Seq<Span> {
    json_line_from(c, 0)
}

/// Highlighting JSON leaves its text as it is.
pub proof fn lemma_json_line_text(c: Seq<char>, i: int)
    requires
        0 <= i <= c.len(),
    ensures
        spans_text(json_line_from(c, i)) == c.subrange(i, c.len() as int),
    decreases c.len() - i,
{
    if i < c.len() {
        let (spans, next) = json_token(c, i);
        lemma_json_token(c, i);
        lemma_json_line_text(c, next);
        ansi::lemma_render_concat(spans, json_line_from(c, next));
        assert(c.subrange(i, next) + c.subrange(next, c.len() as int) =~= c.subrange(i, c.len() as int));
    } else {
        assert(spans_text(Seq::<Span>::empty()) =~= Seq::<char>::empty());
    }
}

proof fn lemma_next_non_ws(c: Seq<char>, i: int, x: char)
    requires
        0 <= i,
        !is_ws(x),
    ensures
        next_non_ws_from(c, i, x) <==> exists|k: int| i <= k < c.len() && c[k] == x
            && forall|j: int| i <= j < k ==> is_ws(#[trigger] c[j]),
    decreases c.len() - i,
{
    if i < c.len() {
        lemma_next_non_ws(c, i + 1, x);
        if !is_ws(c[i]) {
            if exists|k: int| i <= k < c.len() && c[k] == x && forall|j: int| i <= j < k ==> is_ws(#[trigger] c[j]) {
                let k = choose|k: int| i <= k < c.len() && c[k] == x && forall|j: int| i <= j < k ==> is_ws(#[trigger] c[j]);
                if k > i {
                    assert(is_ws(c[i]));
                }
            }
            if c[i] == x {
                assert(forall|j: int| i <= j < i ==> is_ws(#[trigger] c[j]));
            }
        } else {
            if exists|k: int| i <= k < c.len() && c[k] == x && forall|j: int| i <= j < k ==> is_ws(#[trigger] c[j]) {
                let k = choose|k: int| i <= k < c.len() && c[k] == x && forall|j: int| i <= j < k ==> is_ws(#[trigger] c[j]);
                assert(k != i);
                assert(forall|j: int| i + 1 <= j < k ==> is_ws(#[trigger] c[j]));
            }
            if exists|k: int| i + 1 <= k < c.len() && c[k] == x && forall|j: int| i + 1 <= j < k ==> is_ws(#[trigger] c[j]) {
                let k = choose|k: int| i + 1 <= k < c.len() && c[k] == x && forall|j: int| i + 1 <= j < k ==> is_ws(#[trigger] c[j]);
                assert(forall|j: int| i <= j < k ==> is_ws(#[trigger] c[j]));
            }
        }
    }
}

/// A JSON string is one span from its opening to its closing quote: blue
/// (a key) exactly when the first non-blank character after it is `:`,
/// green (a value) otherwise, whatever follows it.
pub proof fn law_json_key_or_value(c: Seq<char>, i: int, end: int)
    requires
        0 <= i < end < c.len(),
        c[i] == '"',
        c[end] == '"',
        forall|m: int| i < m < end ==> c[m] != '"' && c[m] != '\\',
    ensures
        json_line_from(c, i)[0] == colored(
            if exists|k: int| end < k < c.len() && c[k] == ':' && forall|j: int| end < j < k ==> is_ws(#[trigger] c[j]) {
                Color::Blue
            } else {
                Color::Green
            },
            c.subrange(i, end + 1),
        ),
{
    lemma_scan_closed(c, i + 1, end, '"');
    lemma_json_token(c, i);
    lemma_next_non_ws(c, end + 1, ':');
    assert(json_line_from(c, i) == json_token(c, i).0 + json_line_from(c, json_token(c, i).1));
}

fn is_json_punctuation(ch: char) -> (r: bool)
    ensures
        r == is_json_punct(ch),
{
    ch == '{' || ch == '}' || ch == '[' || ch == ']' || ch == '(' || ch == ')'
    || ch == ',' || ch == ':' || ch == '=' || ch == '+' || ch == '-' || ch == '*'
    || ch == '/' || ch == '!'
}

pub struct JsonHighlighter;

impl SyntaxHighlighter for JsonHighlighter {
    open spec fn spec_highlight(&self, line: Seq<char>) -> (Seq<Span>, Self) {
        (json_line(line), JsonHighlighter)
    }

    fn highlight_line(&mut self, line: &str) -> (output: String) {
        let chars = crate::text::to_chars(line);
        let ghost c = chars@;
        let mut output = String::new();
        let ghost mut acc: Seq<Span> = Seq::empty();
        let len = chars.len();
        let mut index: usize = 0;
        assert(acc + json_line_from(c, 0) =~= json_line(c));
        assert(render_spans(acc) =~= Seq::<char>::empty());
        while index < len
            invariant
                c == chars@,
                len == c.len(),
                index <= len,
                output@ == render_spans(acc),
                acc + json_line_from(c, index as int) == json_line(c),
            decreases len - index,
        {
            let ghost t = json_token(c, index as int);
            proof {
                lemma_json_token(c, index as int);
                ansi::lemma_render_concat(acc, t.0);
                ansi::lemma_render_single(t.0[0]);
                assert(t.0 =~= seq![t.0[0]]);
                assert(acc + json_line_from(c, index as int) =~= (acc + t.0) + json_line_from(c, t.1));
            }
            let ch = chars[index];
            if ch == '"' || ch == '\'' || ch == '`' {
                let end = scan_string(chars.as_slice(), index, ch);
                let color = if next_non_ws_is(chars.as_slice(), end, ':') { Color::Blue } else { Color::Green };
                ansi::emit_range(&mut output, Some(color), chars.as_slice(), index, end);
                index = end;
            } else if crate::text::is_ascii_digit(ch) {
                let end = scan_number(chars.as_slice(), index + 1);
                ansi::emit_range(&mut output, Some(Color::Yellow), chars.as_slice(), index, end);
                index = end;
            } else if is_json_punctuation(ch) {
                ansi::emit_char(&mut output, Some(Color::Cyan), ch);
                index = index + 1;
            } else {
                ansi::emit_char(&mut output, None, ch);
                index = index + 1;
            }
            proof { acc = acc + t.0; }
        }
        assert(acc + Seq::<Span>::empty() =~= acc);
        output
    }
}

} // verus!
