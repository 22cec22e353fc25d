//! The highlighter for C-like languages: comments, strings, numbers,
//! keywords, punctuation and (for JSX and TSX) tags.

use vstd::prelude::*;

use crate::ansi::{self, colored, plain, render_spans, spans_text, Color, Span};
use crate::language::Language;
use crate::text::is_digit;

use super::helpers::{
    find_after, find_after_from, highlight_jsx_tag, ident_end, is_ident_start, is_ident_start_char,
    jsx_tag_spans, lemma_find_after_bounds, lemma_ident_end_bounds, lemma_jsx_tag_text,
    lemma_number_end_bounds, lemma_scan_jsx_bounds, lemma_scan_string_bounds, looks_like_jsx_tag,
    next_non_ws_from, next_non_ws_is, number_end, paint_maybe, scan_ident, scan_jsx_tag, scan_number, scan_string, lemma_scan_closed, lemma_scan_unclosed,
    spec_looks_like_jsx_tag, spec_scan_jsx_tag, spec_scan_string, spec_starts_with, starts_with,
};
use super::SyntaxHighlighter;

verus! {

/// The punctuation that the code highlighter paints cyan.
pub open spec fn is_code_punct(ch: char) -> bool {
    ||| ch == '{' || ch == '}' || ch == '[' || ch == ']' || ch == '(' || ch == ')'
    ||| ch == '<' || ch == '>' || ch == ':' || ch == ';' || ch == ',' || ch == '.'
    ||| ch == '=' || ch == '+' || ch == '-' || ch == '*' || ch == '/' || ch == '!'
    ||| ch == '&' || ch == '|' || ch == '?'
}

pub(crate) fn is_code_punctuation(ch: char) -> (r: bool)
    ensures
        r == is_code_punct(ch),
{
    ch == '{' || ch == '}' || ch == '[' || ch == ']' || ch == '(' || ch == ')'
    || ch == '<' || ch == '>' || ch == ':' || ch == ';' || ch == ',' || ch == '.'
    || ch == '=' || ch == '+' || ch == '-' || ch == '*' || ch == '/' || ch == '!'
    || ch == '&' || ch == '|' || ch == '?'
}

pub open spec fn is_jsx_language(language: Language) -> bool {
    language == Language::Jsx || language == Language::Tsx
}

pub(crate) fn is_jsx(language: Language) -> (r: bool)
    ensures
        r == is_jsx_language(language),
{
    language == Language::Jsx || language == Language::Tsx
}

/// One token of highlighted code: its spans, where the next one starts, and
/// whether a block comment is open after it.
pub struct Token {
    pub spans: Seq<Span>,
    pub next: int,
    pub in_comment: bool,
}

/// The token of line `c` at `i` (`i < c.len()`), given whether a block
/// comment is open.  With `json_keys`, a JSON string that a `:` follows is a
/// key and blue.
pub open spec fn code_token(json_keys: bool, language: Language, in_comment: bool, c: Seq<char>, i: int) -> Token {
    if in_comment {
        let e = find_after_from(c, i, "*/"@);
        let end = match e { Some(x) => x, None => c.len() as int };
        Token { spans: seq![colored(Color::BrightBlack, c.subrange(i, end))], next: end, in_comment: e is None }
    } else if spec_starts_with(c, i, "//"@) {
        Token { spans: seq![colored(Color::BrightBlack, c.subrange(i, c.len() as int))], next: c.len() as int, in_comment: false }
    } else if spec_starts_with(c, i, "/*"@) {
        let e = find_after_from(c, i + 2, "*/"@);
        let end = match e { Some(x) => x, None => c.len() as int };
        Token { spans: seq![colored(Color::BrightBlack, c.subrange(i, end))], next: end, in_comment: e is None }
    } else {
        let ch = c[i];
        if ch == '"' || ch == '\'' || ch == '`' {
            let e = spec_scan_string(c, i, ch);
            let color = if json_keys && language == Language::Json && next_non_ws_from(c, e, ':') {
                Color::Blue
            } else {
                Color::Green
            };
            Token { spans: seq![colored(color, c.subrange(i, e))], next: e, in_comment: false }
        } else if is_jsx_language(language) && ch == '<' && spec_looks_like_jsx_tag(c, i) {
            let e = spec_scan_jsx_tag(c, i);
            Token { spans: jsx_tag_spans(c.subrange(i, e)), next: e, in_comment: false }
        } else if is_digit(ch) {
            let e = number_end(c, i + 1);
            Token { spans: seq![colored(Color::Yellow, c.subrange(i, e))], next: e, in_comment: false }
        } else if is_ident_start_char(ch) {
            let e = ident_end(c, i + 1);
            let word = c.subrange(i, e);
            let span = if language.is_keyword(word) { colored(Color::Magenta, word) } else { plain(word) };
            Token { spans: seq![span], next: e, in_comment: false }
        } else if is_code_punct(ch) {
            Token { spans: seq![colored(Color::Cyan, seq![ch])], next: i + 1, in_comment: false }
        } else {
            Token { spans: seq![plain(seq![ch])], next: i + 1, in_comment: false }
        }
    }
}

pub proof fn lemma_code_token(json_keys: bool, language: Language, in_comment: bool, c: Seq<char>, i: int)
    requires
        0 <= i < c.len(),
    ensures
        i < code_token(json_keys, language, in_comment, c, i).next <= c.len(),
        spans_text(code_token(json_keys, language, in_comment, c, i).spans)
            == c.subrange(i, code_token(json_keys, language, in_comment, c, i).next),
{
    reveal_strlit("*/");
    reveal_strlit("//");
    reveal_strlit("/*");
    let t = code_token(json_keys, language, in_comment, c, i);
    let ch = c[i];
    lemma_find_after_bounds(c, i, "*/"@);
    lemma_find_after_bounds(c, i + 2, "*/"@);
    lemma_scan_string_bounds(c, i + 1, false, ch);
    lemma_scan_jsx_bounds(c, i + 1, None, false);
    lemma_number_end_bounds(c, i + 1);
    lemma_ident_end_bounds(c, i + 1);
    assert(c.subrange(i, i + 1) =~= seq![ch]);
    if !in_comment && !spec_starts_with(c, i, "//"@) && !spec_starts_with(c, i, "/*"@)
        && !(ch == '"' || ch == '\'' || ch == '`') && is_jsx_language(language) && ch == '<'
        && spec_looks_like_jsx_tag(c, i) {
        let e = spec_scan_jsx_tag(c, i);
        lemma_jsx_tag_text(c.subrange(i, e), 0);
        assert(c.subrange(i, e).subrange(0, e - i) =~= c.subrange(i, e));
    } else {
        ansi::lemma_render_single(t.spans[0]);
        assert(t.spans =~= seq![t.spans[0]]);
    }
}

/// Appends the output of the token at `index` and returns where the next
/// token starts and whether a block comment is open after it.
pub(crate) fn emit_code_token(
    json_keys: bool,
    language: Language,
    in_comment: bool,
    chars: &[char],
    index: usize,
    out: &mut String,
) -> (r: (usize, bool))
    requires
        index < chars@.len(),
    ensures
        r.0 == code_token(json_keys, language, in_comment, chars@, index as int).next,
        r.1 == code_token(json_keys, language, in_comment, chars@, index as int).in_comment,
        final(out)@ == old(out)@ + render_spans(code_token(json_keys, language, in_comment, chars@, index as int).spans),
{
    let ghost c = chars@;
    let ghost t = code_token(json_keys, language, in_comment, c, index as int);
    proof {
        lemma_code_token(json_keys, language, in_comment, c, index as int);
        reveal_strlit("*/");
    }
    let len = chars.len();
    if in_comment {
        let comment_end = find_after(chars, index, "*/");
        let end = match comment_end { Some(e) => e, None => len };
        ansi::emit_range(out, Some(Color::BrightBlack), chars, index, end);
        proof { ansi::lemma_render_single(t.spans[0]); }
        return (end, comment_end.is_none());
    }
    if starts_with(chars, index, "//") {
        ansi::emit_range(out, Some(Color::BrightBlack), chars, index, len);
        proof { ansi::lemma_render_single(t.spans[0]); }
        return (len, false);
    }
    if starts_with(chars, index, "/*") {
        proof { reveal_strlit("/*"); }
        let comment_end = find_after(chars, index + 2, "*/");
        let end = match comment_end { Some(e) => e, None => len };
        ansi::emit_range(out, Some(Color::BrightBlack), chars, index, end);
        proof { ansi::lemma_render_single(t.spans[0]); }
        return (end, comment_end.is_none());
    }
    let ch = chars[index];
    if ch == '"' || ch == '\'' || ch == '`' {
        let end = scan_string(chars, index, ch);
        let color = if json_keys && language == Language::Json && next_non_ws_is(chars, end, ':') {
            Color::Blue
        } else {
            Color::Green
        };
        ansi::emit_range(out, Some(color), chars, index, end);
        proof { ansi::lemma_render_single(t.spans[0]); }
        return (end, false);
    }
    if is_jsx(language) && ch == '<' && looks_like_jsx_tag(chars, index) {
        let end = scan_jsx_tag(chars, index);
        let tag = crate::text::collect_range(chars, index, end);
        let highlighted = highlight_jsx_tag(tag.as_str());
        out.append(highlighted.as_str());
        return (end, false);
    }
    if crate::text::is_ascii_digit(ch) {
        let end = scan_number(chars, index + 1);
        ansi::emit_range(out, Some(Color::Yellow), chars, index, end);
        proof { ansi::lemma_render_single(t.spans[0]); }
        return (end, false);
    }
    if is_ident_start(ch) {
        let end = scan_ident(chars, index + 1);
        let word = crate::text::collect_range(chars, index, end);
        let color = if language.has_keyword(word.as_str()) { ansi::MAGENTA } else { "" };
        proof {
            reveal_strlit("\x1b[35m");
            reveal_strlit("");
            ansi::lemma_render_single(t.spans[0]);
        }
        let highlighted = paint_maybe(word.as_str(), color);
        out.append(highlighted.as_str());
        return (end, false);
    }
    if is_code_punctuation(ch) {
        ansi::emit_char(out, Some(Color::Cyan), ch);
        proof { ansi::lemma_render_single(t.spans[0]); }
        return (index + 1, false);
    }
    ansi::emit_char(out, None, ch);
    proof { ansi::lemma_render_single(t.spans[0]); }
    (index + 1, false)
}

/// One step of a line: with `tags_first`, a tag that opens outside a block
/// comment is taken before anything else; otherwise the token at `i`.
pub open spec fn code_step(json_keys: bool, tags_first: bool, language: Language, in_comment: bool, c: Seq<char>, i: int) -> Token {
    if tags_first && !in_comment && c[i] == '<' && spec_looks_like_jsx_tag(c, i) {
        let e = spec_scan_jsx_tag(c, i);
        Token { spans: jsx_tag_spans(c.subrange(i, e)), next: e, in_comment }
    } else {
        code_token(json_keys, language, in_comment, c, i)
    }
}

pub proof fn lemma_code_step(json_keys: bool, tags_first: bool, language: Language, in_comment: bool, c: Seq<char>, i: int)
    requires
        0 <= i < c.len(),
    ensures
        i < code_step(json_keys, tags_first, language, in_comment, c, i).next <= c.len(),
        spans_text(code_step(json_keys, tags_first, language, in_comment, c, i).spans)
            == c.subrange(i, code_step(json_keys, tags_first, language, in_comment, c, i).next),
{
    lemma_code_token(json_keys, language, in_comment, c, i);
    if tags_first && !in_comment && c[i] == '<' && spec_looks_like_jsx_tag(c, i) {
        let e = spec_scan_jsx_tag(c, i);
        lemma_scan_jsx_bounds(c, i + 1, None, false);
        lemma_jsx_tag_text(c.subrange(i, e), 0);
        assert(c.subrange(i, e).subrange(0, e - i) =~= c.subrange(i, e));
    }
}

/// The spans of line `c` from `i` on, and whether a block comment is open
/// at its end.
pub open spec fn code_line_from(json_keys: bool, tags_first: bool, language: Language, in_comment: bool, c: Seq<char>, i: int) -> (Seq<Span>, bool)
    decreases c.len() - i,
{
    if i < 0 || i >= c.len() {
        (Seq::empty(), in_comment)
    } else {
        let t = code_step(json_keys, tags_first, language, in_comment, c, i);
        proof { lemma_code_step(json_keys, tags_first, language, in_comment, c, i); }
        let rest = code_line_from(json_keys, tags_first, language, t.in_comment, c, t.next);
        (t.spans + rest.0, rest.1)
    }
}

/// How a line of code is highlighted, starting inside a block comment or not.
pub open spec fn code_line(json_keys: bool, tags_first: bool, language: Language, in_comment: bool, c: Seq<char>) -> (Seq<Span>, bool) {
    code_line_from(json_keys, tags_first, language, in_comment, c, 0)
}

/// Highlighting code leaves its text as it is: the spans cover the line.
pub proof fn lemma_code_line_text(json_keys: bool, tags_first: bool, language: Language, in_comment: bool, c: Seq<char>, i: int)
    requires
        0 <= i <= c.len(),
    ensures
        spans_text(code_line_from(json_keys, tags_first, language, in_comment, c, i).0) == c.subrange(i, c.len() as int),
    decreases c.len() - i,
{
    if i < c.len() {
        let t = code_step(json_keys, tags_first, language, in_comment, c, i);
        lemma_code_step(json_keys, tags_first, language, in_comment, c, i);
        lemma_code_line_text(json_keys, tags_first, language, t.in_comment, c, t.next);
        ansi::lemma_render_concat(t.spans, code_line_from(json_keys, tags_first, language, t.in_comment, c, t.next).0);
        assert(c.subrange(i, t.next) + c.subrange(t.next, c.len() as int) =~= c.subrange(i, c.len() as int));
    } else {
        assert(spans_text(Seq::<Span>::empty()) =~= Seq::<char>::empty());
    }
}

/// Outside a comment, the token of a line that opens with a quote is one
/// green span up to where the string ends.
#[verifier::rlimit(40)]
proof fn lemma_string_first(json_keys: bool, tags_first: bool, language: Language, c: Seq<char>)
    requires
        !(json_keys && language == Language::Json),
        c.len() > 0,
        c[0] == '"' || c[0] == '\'' || c[0] == '`',
    ensures
        code_line(json_keys, tags_first, language, false, c).0[0]
            == colored(Color::Green, c.subrange(0, spec_scan_string(c, 0, c[0]))),
        spec_scan_string(c, 0, c[0]) == c.len() ==> code_line(json_keys, tags_first, language, false, c).0
            == seq![colored(Color::Green, c)],
{
    reveal_strlit("//");
    reveal_strlit("/*");
    assert(!spec_starts_with(c, 0, "//"@)) by {
        if spec_starts_with(c, 0, "//"@) {
            assert(c.subrange(0, 2)[0] == c[0]);
        }
    }
    assert(!spec_starts_with(c, 0, "/*"@)) by {
        if spec_starts_with(c, 0, "/*"@) {
            assert(c.subrange(0, 2)[0] == c[0]);
        }
    }
    let e = spec_scan_string(c, 0, c[0]);
    lemma_scan_string_bounds(c, 1, false, c[0]);
    let t = code_step(json_keys, tags_first, language, false, c, 0);
    assert(t.spans == seq![colored(Color::Green, c.subrange(0, e))]);
    assert(t.next == e);
    let r = code_line_from(json_keys, tags_first, language, t.in_comment, c, t.next);
    assert(code_line(json_keys, tags_first, language, false, c).0 == t.spans + r.0);
    if e == c.len() {
        assert(r.0 =~= Seq::<Span>::empty());
        assert(c.subrange(0, e) =~= c);
        assert(t.spans + r.0 =~= t.spans);
    }
}

/// Outside a block comment, a line that opens with a quote (`"`, `'` or a
/// backtick) starts with one green string span running to the matching
/// closing quote, or to the end of the line when it is not closed; in
/// every language but JSON with keys (whose keys are blue).
pub proof fn law_code_string_token(json_keys: bool, tags_first: bool, language: Language, q: char, body: Seq<char>, rest: Seq<char>)
    requires
        !(json_keys && language == Language::Json),
        q == '"' || q == '\'' || q == '`',
        forall|m: int| 0 <= m < body.len() ==> body[m] != q && body[m] != '\\',
    ensures
        code_line(json_keys, tags_first, language, false, seq![q] + body + seq![q] + rest).0[0]
            == colored(Color::Green, seq![q] + body + seq![q]),
        code_line(json_keys, tags_first, language, false, seq![q] + body).0 == seq![colored(Color::Green, seq![q] + body)],
{
    let n: int = body.len() as int;
    let s = seq![q] + body + seq![q];
    let c = s + rest;
    assert(c[0] == q);
    assert forall|m: int| 1 <= m < n + 1 implies c[m] != q && c[m] != '\\' by {
        assert(c[m] == body[m - 1]);
    }
    assert(c[n + 1] == q);
    lemma_scan_closed(c, 1, n + 1, q);
    lemma_string_first(json_keys, tags_first, language, c);
    assert(c.subrange(0, n + 2) =~= s);

    let d = seq![q] + body;
    assert(d[0] == q);
    assert forall|m: int| 1 <= m < d.len() implies d[m] != q && d[m] != '\\' by {
        assert(d[m] == body[m - 1]);
    }
    lemma_scan_unclosed(d, 1, q);
    lemma_string_first(json_keys, tags_first, language, d);
}

proof fn lemma_no_close(c: Seq<char>, i: int)
    requires
        0 <= i,
        forall|m: int| i <= m && m + 1 < c.len() ==> !(c[m] == '*' && #[trigger] c[m + 1] == '/'),
    ensures
        find_after_from(c, i, "*/"@) is None,
    decreases c.len() - i,
{
    reveal_strlit("*/");
    if i < c.len() {
        if spec_starts_with(c, i, "*/"@) {
            assert(c.subrange(i, i + 2)[0] == c[i]);
            assert(c.subrange(i, i + 2)[1] == c[i + 1]);
        }
        lemma_no_close(c, i + 1);
    }
}

/// Outside a block comment, a line that starts with `//` is one dim span
/// from end to end, and no comment is left open.
pub proof fn law_line_comment(json_keys: bool, tags_first: bool, language: Language, rest: Seq<char>)
    ensures
        code_line(json_keys, tags_first, language, false, seq!['/', '/'] + rest)
            == (seq![colored(Color::BrightBlack, seq!['/', '/'] + rest)], false),
{
    reveal_strlit("//");
    let c = seq!['/', '/'] + rest;
    assert(c.subrange(0, 2) =~= "//"@);
    assert(spec_starts_with(c, 0, "//"@));
    lemma_code_step(json_keys, tags_first, language, false, c, 0);
    assert(c.subrange(0, c.len() as int) =~= c);
    let t = code_step(json_keys, tags_first, language, false, c, 0);
    assert(t.next == c.len());
    let r = code_line_from(json_keys, tags_first, language, t.in_comment, c, t.next);
    assert(r.0 =~= Seq::<Span>::empty());
    assert(r.1 == t.in_comment);
    assert(code_line(json_keys, tags_first, language, false, c) == (t.spans + r.0, r.1));
    assert(t.spans + r.0 =~= t.spans);
}

/// Outside a block comment, a line that starts with `/*` and holds no `*/`
/// after it is one dim span from end to end, and leaves the comment open.
pub proof fn law_block_comment_opens(json_keys: bool, tags_first: bool, language: Language, rest: Seq<char>)
    requires
        forall|m: int| 0 <= m && m + 1 < rest.len() ==> !(rest[m] == '*' && #[trigger] rest[m + 1] == '/'),
    ensures
        code_line(json_keys, tags_first, language, false, seq!['/', '*'] + rest)
            == (seq![colored(Color::BrightBlack, seq!['/', '*'] + rest)], true),
{
    reveal_strlit("//");
    reveal_strlit("/*");
    let c = seq!['/', '*'] + rest;
    assert(c.subrange(0, 2) =~= "/*"@);
    assert(spec_starts_with(c, 0, "/*"@));
    assert(!spec_starts_with(c, 0, "//"@)) by {
        assert(c.subrange(0, 2)[1] == '*');
    }
    assert forall|m: int| 2 <= m && m + 1 < c.len() implies !(c[m] == '*' && #[trigger] c[m + 1] == '/') by {
        let j = m - 2;
        assert(c[m] == rest[j]);
        assert(c[m + 1] == rest[j + 1]);
    }
    lemma_no_close(c, 2);
    lemma_code_step(json_keys, tags_first, language, false, c, 0);
    assert(c.subrange(0, c.len() as int) =~= c);
    let t = code_step(json_keys, tags_first, language, false, c, 0);
    assert(t.next == c.len());
    let r = code_line_from(json_keys, tags_first, language, t.in_comment, c, t.next);
    assert(r.0 =~= Seq::<Span>::empty());
    assert(r.1 == t.in_comment);
    assert(code_line(json_keys, tags_first, language, false, c) == (t.spans + r.0, r.1));
    assert(t.spans + r.0 =~= t.spans);
}

/// Inside a block comment, a line without `*/` is dim from end to end and
/// the comment stays open.
pub proof fn law_block_comment_continues(json_keys: bool, tags_first: bool, language: Language, c: Seq<char>)
    requires
        c.len() > 0,
        find_after_from(c, 0, "*/"@) is None,
    ensures
        code_line(json_keys, tags_first, language, true, c) == (seq![colored(Color::BrightBlack, c)], true),
{
    let t = code_step(json_keys, tags_first, language, true, c, 0);
    assert(t.next == c.len());
    assert(c.subrange(0, c.len() as int) =~= c);
    assert(code_line_from(json_keys, tags_first, language, true, c, c.len() as int).0 =~= Seq::<Span>::empty());
    assert(t.spans + Seq::<Span>::empty() =~= t.spans);
}

/// Appends the output of the step at `index`.
pub(crate) fn emit_code_step(
    json_keys: bool,
    tags_first: bool,
    language: Language,
    in_comment: bool,
    chars: &[char],
    index: usize,
    out: &mut String,
) -> (r: (usize, bool))
    requires
        index < chars@.len(),
    ensures
        r.0 == code_step(json_keys, tags_first, language, in_comment, chars@, index as int).next,
        r.1 == code_step(json_keys, tags_first, language, in_comment, chars@, index as int).in_comment,
        final(out)@ == old(out)@ + render_spans(code_step(json_keys, tags_first, language, in_comment, chars@, index as int).spans),
{
    if tags_first && !in_comment && chars[index] == '<' && looks_like_jsx_tag(chars, index) {
        let end = scan_jsx_tag(chars, index);
        let tag = crate::text::collect_range(chars, index, end);
        let highlighted = highlight_jsx_tag(tag.as_str());
        out.append(highlighted.as_str());
        return (end, in_comment);
    }
    emit_code_token(json_keys, language, in_comment, chars, index, out)
}

/// Highlights the whole of `chars`, appending to `out`; returns whether a
/// block comment is open at the end.
pub(crate) fn emit_code_line(
    json_keys: bool,
    tags_first: bool,
    language: Language,
    in_comment: bool,
    chars: &[char],
    out: &mut String,
) -> (r: bool)
    ensures
        r == code_line(json_keys, tags_first, language, in_comment, chars@).1,
        final(out)@ == old(out)@ + render_spans(code_line(json_keys, tags_first, language, in_comment, chars@).0),
{
    let ghost c = chars@;
    let ghost start = out@;
    let ghost mut acc: Seq<Span> = Seq::empty();
    let len = chars.len();
    let mut index: usize = 0;
    let mut state = in_comment;
    assert(acc + code_line_from(json_keys, tags_first, language, state, c, 0).0
        =~= code_line(json_keys, tags_first, language, in_comment, c).0);
    assert(render_spans(acc) =~= Seq::<char>::empty());
    while index < len
        invariant
            c == chars@,
            len == c.len(),
            index <= len,
            out@ == start + render_spans(acc),
            acc + code_line_from(json_keys, tags_first, language, state, c, index as int).0
                == code_line(json_keys, tags_first, language, in_comment, c).0,
            code_line_from(json_keys, tags_first, language, state, c, index as int).1
                == code_line(json_keys, tags_first, language, in_comment, c).1,
        decreases len - index,
    {
        let ghost t = code_step(json_keys, tags_first, language, state, c, index as int);
        proof {
            lemma_code_step(json_keys, tags_first, language, state, c, index as int);
            ansi::lemma_render_concat(acc, t.spans);
            assert(acc + code_line_from(json_keys, tags_first, language, state, c, index as int).0
                =~= (acc + t.spans) + code_line_from(json_keys, tags_first, language, t.in_comment, c, t.next).0);
        }
        let (next, st) = emit_code_step(json_keys, tags_first, language, state, chars, index, out);
        proof { acc = acc + t.spans; }
        index = next;
        state = st;
    }
    assert(acc + Seq::<Span>::empty() =~= acc);
    state
}

pub struct GenericHighlighter {
    pub language: Language,
    pub in_block_comment: bool,
}

impl GenericHighlighter {
    pub fn new(language: Language) -> (h: Self)
        ensures
            h.language == language,
            !h.in_block_comment,
    {
        Self { language, in_block_comment: false }
    }

    /// The highlighted token of `line` at character `index`, with the index
    /// of the next token; `None` past the end of the line.
    pub fn highlight_token(&mut self, line: &str, index: usize) -> (r: Option<(String, usize)>)
        ensures
            index >= line@.len() ==> r is None && *final(self) == *old(self),
            index < line@.len() ==> {
                let t = code_token(false, old(self).language, old(self).in_block_comment, line@, index as int);
                &&& r matches Some((s, next)) && s@ == render_spans(t.spans) && next == t.next
                &&& final(self).language == old(self).language
                &&& final(self).in_block_comment == t.in_comment
            },
    {
        let chars = crate::text::to_chars(line);
        if index >= chars.len() {
            return None;
        }
        let mut out = String::new();
        let (next, state) = emit_code_token(false, self.language, self.in_block_comment, chars.as_slice(), index, &mut out);
        self.in_block_comment = state;
        assert(out@ =~= render_spans(code_token(false, old(self).language, old(self).in_block_comment, line@, index as int).spans));
        Some((out, next))
    }
}

impl SyntaxHighlighter for GenericHighlighter {
    open spec fn spec_highlight(&self, line: Seq<char>) -> (Seq<Span>, Self) {
        let r = code_line(false, false, self.language, self.in_block_comment, line);
        (r.0, GenericHighlighter { language: self.language, in_block_comment: r.1 })
    }

    fn highlight_line(&mut self, line: &str) -> (out: String) {
        let chars = crate::text::to_chars(line);
        let mut out = String::new();
        let state = emit_code_line(false, false, self.language, self.in_block_comment, chars.as_slice(), &mut out);
        self.in_block_comment = state;
        assert(out@ =~= render_spans(code_line(false, false, old(self).language, old(self).in_block_comment, line@).0));
        out
    }
}

} // verus!
