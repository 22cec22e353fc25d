use vstd::prelude::*;

use crate::ansi::{self, colored, plain, render_spans, spans_text, Color, Span};
use crate::text::{is_alpha, is_digit, is_ws};

verus! {

// ---------------------------------------------------------------------------
// Character classes

pub open spec fn is_ident_start_char(c: char) -> bool {
    c == '_' || is_alpha(c)
}

pub open spec fn is_ident_continue_char(c: char) -> bool {
    c == '_' || is_alpha(c) || is_digit(c)
}

pub(crate) fn is_ident_start(ch: char) -> (r: bool)
    ensures
        r == is_ident_start_char(ch),
{
    ch == '_' || crate::text::is_ascii_alphabetic(ch)
}

pub(crate) fn is_ident_continue(ch: char) -> (r: bool)
    ensures
        r == is_ident_continue_char(ch),
{
    ch == '_' || crate::text::is_ascii_alphabetic(ch) || crate::text::is_ascii_digit(ch)
}

/// `text` painted in `color`, or as it is when `color` is empty.
pub(crate) fn paint_maybe(text: &str, color: &str) -> (out: String)
    ensures
        out@ == if color@.len() == 0 { text@ } else { ansi::painted(text@, color@) },
{
    if color.is_empty() {
        text.to_owned()
    } else {
        ansi::paint(text, color)
    }
}

// ---------------------------------------------------------------------------
// Matching a needle

/// `needle` occurs in `c` at position `i`.
pub open spec fn spec_starts_with(c: Seq<char>, i: int, needle: Seq<char>) -> bool {
    &&& 0 <= i
    &&& i + needle.len() <= c.len()
    &&& c.subrange(i, i + needle.len()) == needle
}

pub(crate) fn starts_with(chars: &[char], index: usize, needle: &str) -> (r: bool)
    ensures
        r == spec_starts_with(chars@, index as int, needle@),
{
    let n = needle.unicode_len();
    let len = chars.len();
    if index > len || n > chars.len() - index {
        return false;
    }
    let mut k: usize = 0;
    while k < n
        invariant
            n == needle@.len(),
            len == chars@.len(),
            index + n <= chars@.len(),
            k <= n,
            forall|j: int| 0 <= j < k ==> chars@[index + j] == needle@[j],
        decreases n - k,
    {
        if chars[index + k] != needle.get_char(k) {
            assert(chars@.subrange(index as int, index + n)[k as int] != needle@[k as int]);
            return false;
        }
        k = k + 1;
    }
    assert(chars@.subrange(index as int, index + n) =~= needle@);
    true
}

/// The end of the first occurrence of `needle` starting at or after `i`.
pub open spec fn find_after_from(c: Seq<char>, i: int, needle: Seq<char>) -> Option<int>
    decreases c.len() - i,
{
    if i < 0 || i >= c.len() {
        None
    } else if spec_starts_with(c, i, needle) {
        Some(i + needle.len())
    } else {
        find_after_from(c, i + 1, needle)
    }
}

pub proof fn lemma_find_after_bounds(c: Seq<char>, i: int, needle: Seq<char>)
    requires
        0 <= i,
    ensures
        find_after_from(c, i, needle) matches Some(e) ==> i + needle.len() <= e <= c.len(),
    decreases c.len() - i,
{
    if i < c.len() && !spec_starts_with(c, i, needle) {
        lemma_find_after_bounds(c, i + 1, needle);
    }
}

pub(crate) fn find_after(chars: &[char], start: usize, needle: &str) -> (r: Option<usize>)
    ensures
        r == (match find_after_from(chars@, start as int, needle@) {
            Some(e) => Some(e as usize),
            None => None::<usize>,
        }),
        r matches Some(e) ==> start + needle@.len() <= e <= chars@.len(),
{
    proof { lemma_find_after_bounds(chars@, start as int, needle@); }
    let mut i = start;
    while i < chars.len()
        invariant
            start <= i,
            find_after_from(chars@, start as int, needle@) == find_after_from(chars@, i as int, needle@),
        decreases chars@.len() - i,
    {
        if starts_with(chars, i, needle) {
            return Some(i + needle.unicode_len());
        }
        i = i + 1;
    }
    None
}

// ---------------------------------------------------------------------------
// Quoted strings and tags

/// Where a quoted string that is open at `i` ends: just after the first
/// unescaped `quote`, or at the end of the line.
pub open spec fn scan_string_from(c: Seq<char>, i: int, escaped: bool, quote: char) -> int
    decreases c.len() - i,
{
    if i < 0 || i >= c.len() {
        c.len() as int
    } else if escaped {
        scan_string_from(c, i + 1, false, quote)
    } else if c[i] == '\\' {
        scan_string_from(c, i + 1, true, quote)
    } else if c[i] == quote {
        i + 1
    } else {
        scan_string_from(c, i + 1, false, quote)
    }
}

/// The end of the string literal that opens at `start`.
pub open spec fn spec_scan_string(c: Seq<char>, start: int, quote: char) -> int {
    scan_string_from(c, start + 1, false, quote)
}

pub proof fn lemma_scan_string_bounds(c: Seq<char>, i: int, escaped: bool, quote: char)
    requires
        0 <= i <= c.len(),
    ensures
        i <= scan_string_from(c, i, escaped, quote) <= c.len(),
        i < c.len() ==> i < scan_string_from(c, i, escaped, quote),
    decreases c.len() - i,
{
    if i < c.len() {
        lemma_scan_string_bounds(c, i + 1, false, quote);
        lemma_scan_string_bounds(c, i + 1, true, quote);
    }
}

/// A string whose characters up to `end` are neither the quote nor a
/// backslash ends just after `end`, where the quote stands.
pub proof fn lemma_scan_closed(c: Seq<char>, j: int, end: int, q: char)
    requires
        q != '\\',
        1 <= j <= end < c.len(),
        c[end] == q,
        forall|m: int| j <= m < end ==> c[m] != q && c[m] != '\\',
    ensures
        scan_string_from(c, j, false, q) == end + 1,
    decreases end - j,
{
    if j < end {
        lemma_scan_closed(c, j + 1, end, q);
    }
}

/// A string that is never closed runs to the end of the line.
pub proof fn lemma_scan_unclosed(c: Seq<char>, j: int, q: char)
    requires
        1 <= j <= c.len(),
        forall|m: int| j <= m < c.len() ==> c[m] != q && c[m] != '\\',
    ensures
        scan_string_from(c, j, false, q) == c.len(),
    decreases c.len() - j,
{
    if j < c.len() {
        lemma_scan_unclosed(c, j + 1, q);
    }
}

pub(crate) fn scan_string(chars: &[char], start: usize, quote: char) -> (end: usize)
    requires
        start < chars@.len(),
    ensures
        end == spec_scan_string(chars@, start as int, quote),
        start < end <= chars@.len(),
{
    proof { lemma_scan_string_bounds(chars@, start + 1, false, quote); }
    let _len = chars.len();
    let mut index = start + 1;
    let mut escaped = false;
    while index < chars.len()
        invariant
            start < index <= chars@.len(),
            spec_scan_string(chars@, start as int, quote) == scan_string_from(chars@, index as int, escaped, quote),
        decreases chars@.len() - index,
    {
        let ch = chars[index];
        if escaped {
            escaped = false;
        } else if ch == '\\' {
            escaped = true;
        } else if ch == quote {
            return index + 1;
        }
        index = index + 1;
    }
    chars.len()
}

/// Where a JSX tag that is open at `i` ends: just after the first `>` that is
/// not inside a quoted attribute value, or at the end of the line.
pub open spec fn scan_jsx_from(c: Seq<char>, i: int, quote: Option<char>, escaped: bool) -> int
    decreases c.len() - i,
{
    if i < 0 || i >= c.len() {
        c.len() as int
    } else {
        match quote {
            Some(q) => if escaped {
                scan_jsx_from(c, i + 1, Some(q), false)
            } else if c[i] == '\\' {
                scan_jsx_from(c, i + 1, Some(q), true)
            } else if c[i] == q {
                scan_jsx_from(c, i + 1, None, escaped)
            } else {
                scan_jsx_from(c, i + 1, Some(q), escaped)
            },
            None => if c[i] == '"' || c[i] == '\'' {
                scan_jsx_from(c, i + 1, Some(c[i]), escaped)
            } else if c[i] == '>' {
                i + 1
            } else {
                scan_jsx_from(c, i + 1, None, escaped)
            },
        }
    }
}

pub open spec fn spec_scan_jsx_tag(c: Seq<char>, start: int) -> int {
    scan_jsx_from(c, start + 1, None, false)
}

pub proof fn lemma_scan_jsx_bounds(c: Seq<char>, i: int, quote: Option<char>, escaped: bool)
    requires
        0 <= i <= c.len(),
    ensures
        i <= scan_jsx_from(c, i, quote, escaped) <= c.len(),
        i < c.len() ==> i < scan_jsx_from(c, i, quote, escaped),
    decreases c.len() - i,
{
    if i < c.len() {
        lemma_scan_jsx_bounds(c, i + 1, quote, escaped);
        lemma_scan_jsx_bounds(c, i + 1, quote, false);
        lemma_scan_jsx_bounds(c, i + 1, quote, true);
        lemma_scan_jsx_bounds(c, i + 1, None, escaped);
        lemma_scan_jsx_bounds(c, i + 1, Some(c[i]), escaped);
    }
}

pub(crate) fn scan_jsx_tag(chars: &[char], start: usize) -> (end: usize)
    requires
        start < chars@.len(),
    ensures
        end == spec_scan_jsx_tag(chars@, start as int),
        start < end <= chars@.len(),
{
    proof { lemma_scan_jsx_bounds(chars@, start + 1, None, false); }
    let _len = chars.len();
    let mut index = start + 1;
    let mut quote: Option<char> = None;
    let mut escaped = false;
    while index < chars.len()
        invariant
            start < index <= chars@.len(),
            spec_scan_jsx_tag(chars@, start as int) == scan_jsx_from(chars@, index as int, quote, escaped),
        decreases chars@.len() - index,
    {
        let ch = chars[index];
        match quote {
            Some(active_quote) => {
                if escaped {
                    escaped = false;
                } else if ch == '\\' {
                    escaped = true;
                } else if ch == active_quote {
                    quote = None;
                }
            },
            None => {
                if ch == '"' || ch == '\'' {
                    quote = Some(ch);
                } else if ch == '>' {
                    return index + 1;
                }
            },
        }
        index = index + 1;
    }
    chars.len()
}

/// A `<` at `i` opens a tag: it is followed by `/` or an ASCII letter.
pub open spec fn spec_looks_like_jsx_tag(c: Seq<char>, i: int) -> bool {
    &&& i + 1 < c.len()
    &&& (c[i + 1] == '/' || is_alpha(c[i + 1]))
}

pub(crate) fn looks_like_jsx_tag(chars: &[char], index: usize) -> (r: bool)
    requires
        index < chars@.len(),
    ensures
        r == spec_looks_like_jsx_tag(chars@, index as int),
{
    let len = chars.len();
    if index + 1 < len {
        let ch = chars[index + 1];
        ch == '/' || crate::text::is_ascii_alphabetic(ch)
    } else {
        false
    }
}

// ---------------------------------------------------------------------------
// Looking around for non-blank characters

/// The first non-whitespace character at or after `i` is `e`.
pub open spec fn next_non_ws_from(c: Seq<char>, i: int, e: char) -> bool
    decreases c.len() - i,
{
    if i < 0 || i >= c.len() {
        false
    } else if !is_ws(c[i]) {
        c[i] == e
    } else {
        next_non_ws_from(c, i + 1, e)
    }
}

pub(crate) fn next_non_ws_is(chars: &[char], start: usize, expected: char) -> (r: bool)
    ensures
        r == next_non_ws_from(chars@, start as int, expected),
{
    let mut i = start;
    while i < chars.len()
        invariant
            start <= i,
            next_non_ws_from(chars@, start as int, expected) == next_non_ws_from(chars@, i as int, expected),
        decreases chars@.len() - i,
    {
        if !crate::text::is_whitespace(chars[i]) {
            return chars[i] == expected;
        }
        i = i + 1;
    }
    false
}

/// The last non-whitespace character among the first `k` is `e`.
pub open spec fn prev_non_ws_from(c: Seq<char>, k: int, e: char) -> bool
    decreases k,
{
    if k <= 0 || k > c.len() {
        false
    } else if !is_ws(c[k - 1]) {
        c[k - 1] == e
    } else {
        prev_non_ws_from(c, k - 1, e)
    }
}

/// The last non-whitespace character before `start` is `e`.
pub open spec fn spec_previous_non_ws_is(c: Seq<char>, start: int, e: char) -> bool {
    prev_non_ws_from(c, if start <= c.len() { start } else { c.len() as int }, e)
}

pub(crate) fn previous_non_ws_is(chars: &[char], start: usize, expected: char) -> (r: bool)
    ensures
        r == spec_previous_non_ws_is(chars@, start as int, expected),
{
    let mut k = if start <= chars.len() { start } else { chars.len() };
    while k > 0
        invariant
            k <= chars@.len(),
            spec_previous_non_ws_is(chars@, start as int, expected) == prev_non_ws_from(chars@, k as int, expected),
        decreases k,
    {
        if !crate::text::is_whitespace(chars[k - 1]) {
            return chars[k - 1] == expected;
        }
        k = k - 1;
    }
    false
}

// ---------------------------------------------------------------------------
// Searching for one character

/// The first position at or after `i` that holds `needle`.
pub open spec fn find_char_from(c: Seq<char>, i: int, needle: char) -> Option<int>
    decreases c.len() - i,
{
    if i < 0 || i >= c.len() {
        None
    } else if c[i] == needle {
        Some(i)
    } else {
        find_char_from(c, i + 1, needle)
    }
}

pub proof fn lemma_find_char_bounds(c: Seq<char>, i: int, needle: char)
    requires
        0 <= i,
    ensures
        find_char_from(c, i, needle) matches Some(k) ==> i <= k < c.len() && c[k] == needle
            && forall|j: int| i <= j < k ==> c[j] != needle,
        find_char_from(c, i, needle) is None ==> forall|j: int| i <= j < c.len() ==> c[j] != needle,
    decreases c.len() - i,
{
    if i < c.len() && c[i] != needle {
        lemma_find_char_bounds(c, i + 1, needle);
    }
}

pub(crate) fn find_single_char_after(chars: &[char], start: usize, needle: char) -> (r: Option<usize>)
    ensures
        r == (match find_char_from(chars@, start as int, needle) {
            Some(k) => Some(k as usize),
            None => None::<usize>,
        }),
{
    proof { lemma_find_char_bounds(chars@, start as int, needle); }
    let mut i = start;
    while i < chars.len()
        invariant
            start <= i,
            find_char_from(chars@, start as int, needle) == find_char_from(chars@, i as int, needle),
        decreases chars@.len() - i,
    {
        if chars[i] == needle {
            return Some(i);
        }
        i = i + 1;
    }
    None
}

// ---------------------------------------------------------------------------
// Runs of characters

/// The end of the run of identifier characters that starts at `i`.
pub open spec fn ident_end(c: Seq<char>, i: int) -> int
    decreases c.len() - i,
{
    if i < 0 || i >= c.len() {
        c.len() as int
    } else if is_ident_continue_char(c[i]) {
        ident_end(c, i + 1)
    } else {
        i
    }
}

pub proof fn lemma_ident_end_bounds(c: Seq<char>, i: int)
    requires
        0 <= i <= c.len(),
    ensures
        i <= ident_end(c, i) <= c.len(),
    decreases c.len() - i,
{
    if i < c.len() {
        lemma_ident_end_bounds(c, i + 1);
    }
}

pub(crate) fn scan_ident(chars: &[char], start: usize) -> (end: usize)
    requires
        start <= chars@.len(),
    ensures
        end == ident_end(chars@, start as int),
        start <= end <= chars@.len(),
{
    proof { lemma_ident_end_bounds(chars@, start as int); }
    let mut i = start;
    while i < chars.len() && is_ident_continue(chars[i])
        invariant
            start <= i <= chars@.len(),
            ident_end(chars@, start as int) == ident_end(chars@, i as int),
        decreases chars@.len() - i,
    {
        i = i + 1;
    }
    i
}

pub open spec fn is_number_char(c: char) -> bool {
    is_digit(c) || c == '.'
}

/// The end of the run of digits and dots that starts at `i`.
pub open spec fn number_end(c: Seq<char>, i: int) -> int
    decreases c.len() - i,
{
    if i < 0 || i >= c.len() {
        c.len() as int
    } else if is_number_char(c[i]) {
        number_end(c, i + 1)
    } else {
        i
    }
}

pub proof fn lemma_number_end_bounds(c: Seq<char>, i: int)
    requires
        0 <= i <= c.len(),
    ensures
        i <= number_end(c, i) <= c.len(),
    decreases c.len() - i,
{
    if i < c.len() {
        lemma_number_end_bounds(c, i + 1);
    }
}

pub(crate) fn scan_number(chars: &[char], start: usize) -> (end: usize)
    requires
        start <= chars@.len(),
    ensures
        end == number_end(chars@, start as int),
        start <= end <= chars@.len(),
{
    proof { lemma_number_end_bounds(chars@, start as int); }
    let mut i = start;
    while i < chars.len() && (crate::text::is_ascii_digit(chars[i]) || chars[i] == '.')
        invariant
            start <= i <= chars@.len(),
            number_end(chars@, start as int) == number_end(chars@, i as int),
        decreases chars@.len() - i,
    {
        i = i + 1;
    }
    i
}

// ---------------------------------------------------------------------------
// JSX tags

pub open spec fn is_tag_punct(ch: char) -> bool {
    ch == '<' || ch == '>' || ch == '/' || ch == '=' || ch == '{' || ch == '}'
}

/// One token of a tag `t` at `k`: its spans and where the next token starts.
/// Punctuation is cyan, quoted values green, the element name (an
/// identifier after `<` or `/`) magenta and other identifiers blue.
pub open spec fn jsx_tag_token(t: Seq<char>, k: int) -> (Seq<Span>, int) {
    let ch = t[k];
    if is_tag_punct(ch) {
        (seq![colored(Color::Cyan, seq![ch])], k + 1)
    } else if ch == '"' || ch == '\'' {
        let e = spec_scan_string(t, k, ch);
        (seq![colored(Color::Green, t.subrange(k, e))], e)
    } else if is_ident_start_char(ch) {
        let e = ident_end(t, k + 1);
        let color = if spec_previous_non_ws_is(t, k, '<') || spec_previous_non_ws_is(t, k, '/') {
            Color::Magenta
        } else {
            Color::Blue
        };
        (seq![colored(color, t.subrange(k, e))], e)
    } else {
        (seq![plain(seq![ch])], k + 1)
    }
}

pub proof fn lemma_jsx_tag_token(t: Seq<char>, k: int)
    requires
        0 <= k < t.len(),
    ensures
        k < jsx_tag_token(t, k).1 <= t.len(),
        spans_text(jsx_tag_token(t, k).0) == t.subrange(k, jsx_tag_token(t, k).1),
{
    let ch = t[k];
    lemma_scan_string_bounds(t, k + 1, false, ch);
    lemma_ident_end_bounds(t, k + 1);
    ansi::lemma_render_single(jsx_tag_token(t, k).0[0]);
    assert(jsx_tag_token(t, k).0 =~= seq![jsx_tag_token(t, k).0[0]]);
    assert(t.subrange(k, k + 1) =~= seq![ch]);
}

/// The spans of the tag `t` from position `k` on.
pub open spec fn jsx_tag_spans_from(t: Seq<char>, k: int) -> Seq<Span>
    decreases t.len() - k,
{
    if k < 0 || k >= t.len() {
        Seq::empty()
    } else {
        let (spans, next) = jsx_tag_token(t, k);
        proof { lemma_jsx_tag_token(t, k); }
        spans + jsx_tag_spans_from(t, next)
    }
}

/// How a JSX tag (`<Name attr="value" />`) is highlighted.
pub open spec fn jsx_tag_spans(t: Seq<char>) -> Seq<Span> {
    jsx_tag_spans_from(t, 0)
}

pub proof fn lemma_jsx_tag_text(t: Seq<char>, k: int)
    requires
        0 <= k <= t.len(),
    ensures
        spans_text(jsx_tag_spans_from(t, k)) == t.subrange(k, t.len() as int),
    decreases t.len() - k,
{
    if k < t.len() {
        let (spans, next) = jsx_tag_token(t, k);
        lemma_jsx_tag_token(t, k);
        lemma_jsx_tag_text(t, next);
        ansi::lemma_render_concat(spans, jsx_tag_spans_from(t, next));
        assert(t.subrange(k, next) + t.subrange(next, t.len() as int) =~= t.subrange(k, t.len() as int));
    } else {
        assert(spans_text(Seq::<Span>::empty()) =~= Seq::<char>::empty());
    }
}

pub(crate) fn highlight_jsx_tag(tag: &str) -> (out: String)
    ensures
        out@ == render_spans(jsx_tag_spans(tag@)),
{
    let chars = crate::text::to_chars(tag);
    let ghost t = chars@;
    let mut out = String::new();
    let ghost mut acc: Seq<Span> = Seq::empty();
    let mut index: usize = 0;
    let len = chars.len();
    assert(acc + jsx_tag_spans_from(t, 0) =~= jsx_tag_spans(t));
    while index < len
        invariant
            t == chars@,
            len == t.len(),
            index <= len,
            out@ == render_spans(acc),
            acc + jsx_tag_spans_from(t, index as int) == jsx_tag_spans(t),
        decreases len - index,
    {
        let ghost tok = jsx_tag_token(t, index as int);
        proof {
            lemma_jsx_tag_token(t, index as int);
            ansi::lemma_render_concat(acc, tok.0);
            ansi::lemma_render_single(tok.0[0]);
            assert(acc + jsx_tag_spans_from(t, index as int) =~= (acc + tok.0) + jsx_tag_spans_from(t, tok.1));
        }
        let ch = chars[index];
        if ch == '<' || ch == '>' || ch == '/' || ch == '=' || ch == '{' || ch == '}' {
            ansi::emit_char(&mut out, Some(Color::Cyan), ch);
            index = index + 1;
        } else if ch == '"' || ch == '\'' {
            let end = scan_string(&chars, index, ch);
            ansi::emit_range(&mut out, Some(Color::Green), &chars, index, end);
            index = end;
        } else if is_ident_start(ch) {
            let start = index;
            let end = scan_ident(&chars, index + 1);
            let color = if previous_non_ws_is(&chars, start, '<') || previous_non_ws_is(&chars, start, '/') {
                Color::Magenta
            } else {
                Color::Blue
            };
            ansi::emit_range(&mut out, Some(color), &chars, start, end);
            index = end;
        } else {
            ansi::emit_char(&mut out, None, ch);
            index = index + 1;
        }
        proof {
            acc = acc + tok.0;
            assert(tok.0 =~= seq![tok.0[0]]);
        }
    }
    assert(jsx_tag_spans_from(t, index as int) =~= Seq::<Span>::empty());
    assert(acc + Seq::<Span>::empty() =~= acc);
    out
}

} // verus!
