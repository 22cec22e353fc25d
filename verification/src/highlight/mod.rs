//! Syntax highlighting, one line at a time.

pub mod generic;
pub mod helpers;
pub mod json;
pub mod jsx;
pub mod markdown;
pub mod plain_text;

use vstd::prelude::*;

use crate::ansi::{lemma_strip_spans, render_spans, spans_text, strip_ansi, Span};
use crate::language::Language;
use crate::text::{lines, spec_lines, views};

use self::generic::{lemma_code_line_text, GenericHighlighter};
use self::json::{lemma_json_line_text, JsonHighlighter};
use self::jsx::JsxHighlighter;
use self::markdown::{lemma_md_line_text, lemma_mdx_line_text, MarkdownHighlighter, MdxHighlighter};
use self::plain_text::PlainTextHighlighter;

verus! {

/// A highlighter reads a file line by line and may carry state from one line
/// to the next (an open block comment, an open code fence).
pub trait SyntaxHighlighter: Sized {
    /// The spans a line is highlighted as, and the highlighter after it.
    spec fn spec_highlight(&self, line: Seq<char>) -> (Seq<Span>, Self);

    fn highlight_line(&mut self, line: &str) -> (out: String)
        ensures
            out@ == render_spans(old(self).spec_highlight(line@).0),
            *final(self) == old(self).spec_highlight(line@).1;
}

/// The highlighter of each language.
pub enum Highlighter {
    PlainText(PlainTextHighlighter),
    Json(JsonHighlighter),
    Generic(GenericHighlighter),
    Jsx(JsxHighlighter),
    Markdown(MarkdownHighlighter),
    Mdx(MdxHighlighter),
}

impl SyntaxHighlighter for Highlighter {
    open spec fn spec_highlight(&self, line: Seq<char>) -> (Seq<Span>, Self) {
        match self {
            Highlighter::PlainText(h) => { let r = h.spec_highlight(line); (r.0, Highlighter::PlainText(r.1)) },
            Highlighter::Json(h) => { let r = h.spec_highlight(line); (r.0, Highlighter::Json(r.1)) },
            Highlighter::Generic(h) => { let r = h.spec_highlight(line); (r.0, Highlighter::Generic(r.1)) },
            Highlighter::Jsx(h) => { let r = h.spec_highlight(line); (r.0, Highlighter::Jsx(r.1)) },
            Highlighter::Markdown(h) => { let r = h.spec_highlight(line); (r.0, Highlighter::Markdown(r.1)) },
            Highlighter::Mdx(h) => { let r = h.spec_highlight(line); (r.0, Highlighter::Mdx(r.1)) },
        }
    }

    fn highlight_line(&mut self, line: &str) -> (out: String) {
        match self {
            Highlighter::PlainText(h) => h.highlight_line(line),
            Highlighter::Json(h) => h.highlight_line(line),
            Highlighter::Generic(h) => h.highlight_line(line),
            Highlighter::Jsx(h) => h.highlight_line(line),
            Highlighter::Markdown(h) => h.highlight_line(line),
            Highlighter::Mdx(h) => h.highlight_line(line),
        }
    }
}

/// The fresh highlighter for `language`.
pub open spec fn spec_create_highlighter(language: Language) -> Highlighter {
    match language {
        Language::PlainText => Highlighter::PlainText(PlainTextHighlighter),
        Language::Json => Highlighter::Json(JsonHighlighter),
        Language::Jsx | Language::Tsx => Highlighter::Jsx(JsxHighlighter {
            inner: GenericHighlighter { language, in_block_comment: false },
        }),
        Language::Markdown => Highlighter::Markdown(MarkdownHighlighter { in_code_fence: false }),
        Language::Mdx => Highlighter::Mdx(MdxHighlighter { in_code_fence: false }),
        _ => Highlighter::Generic(GenericHighlighter { language, in_block_comment: false }),
    }
}

pub fn create_highlighter(language: Language) -> (h: Highlighter)
    ensures
        h == spec_create_highlighter(language),
{
    match language {
        Language::PlainText => Highlighter::PlainText(PlainTextHighlighter),
        Language::Json => Highlighter::Json(JsonHighlighter),
        Language::JavaScript | Language::TypeScript | Language::Go | Language::Rust
        | Language::Swift | Language::Kotlin | Language::Java => {
            Highlighter::Generic(GenericHighlighter::new(language))
        },
        Language::Jsx | Language::Tsx => Highlighter::Jsx(JsxHighlighter::new(language)),
        Language::Markdown => Highlighter::Markdown(MarkdownHighlighter::new()),
        Language::Mdx => Highlighter::Mdx(MdxHighlighter::new()),
    }
}

/// Every highlighter, in every state, keeps the text of a line: only colour
/// codes are added around pieces of it.
pub proof fn lemma_highlight_keeps_text(h: Highlighter, line: Seq<char>)
    ensures
        spans_text(h.spec_highlight(line).0) == line,
{
    assert(line.subrange(0, line.len() as int) =~= line);
    match h {
        Highlighter::PlainText(_) => { crate::ansi::lemma_render_single(crate::ansi::plain(line)); },
        Highlighter::Json(_) => { lemma_json_line_text(line, 0); },
        Highlighter::Generic(g) => { lemma_code_line_text(false, false, g.language, g.in_block_comment, line, 0); },
        Highlighter::Jsx(j) => { lemma_code_line_text(false, true, j.inner.language, j.inner.in_block_comment, line, 0); },
        Highlighter::Markdown(m) => { lemma_md_line_text(false, m.in_code_fence, line); },
        Highlighter::Mdx(m) => { lemma_mdx_line_text(m.in_code_fence, line); },
    }
}

/// Highlighting only adds colour codes: with them taken out, the output is
/// the line itself, for every highlighter in every state (for a line that
/// holds no escape character of its own).
pub proof fn law_highlight_strips_to_line(h: Highlighter, line: Seq<char>)
    requires
        !line.contains('\x1b'),
    ensures
        strip_ansi(render_spans(h.spec_highlight(line).0)) == line,
{
    let spans = h.spec_highlight(line).0;
    lemma_highlight_keeps_text(h, line);
    lemma_strip_spans(spans, Seq::empty());
    assert(render_spans(spans) + Seq::<char>::empty() =~= render_spans(spans));
    assert(line + strip_ansi(Seq::<char>::empty()) =~= line);
}

/// Plain text is written exactly as it is.
pub proof fn law_plain_text_unchanged(line: Seq<char>)
    ensures
        render_spans(spec_create_highlighter(Language::PlainText).spec_highlight(line).0) == line,
{
    crate::ansi::lemma_render_single(crate::ansi::plain(line));
}

/// The output for `lines`, one highlighted line and a newline each, with the
/// highlighter's state carried from line to line.
pub open spec fn document_output<H: SyntaxHighlighter>(h: H, lines: Seq<Seq<char>>) -> Seq<char>
    decreases lines.len(),
{
    if lines.len() == 0 {
        Seq::empty()
    } else {
        let r = h.spec_highlight(lines[0]);
        render_spans(r.0) + seq!['\n'] + document_output(r.1, lines.drop_first())
    }
}

/// What the highlighter inside `h` writes for `lines` on its own.
pub open spec fn inner_output(h: Highlighter, lines: Seq<Seq<char>>) -> Seq<char> {
    match h {
        Highlighter::PlainText(p) => document_output(p, lines),
        Highlighter::Json(j) => document_output(j, lines),
        Highlighter::Generic(g) => document_output(g, lines),
        Highlighter::Jsx(j) => document_output(j, lines),
        Highlighter::Markdown(m) => document_output(m, lines),
        Highlighter::Mdx(m) => document_output(m, lines),
    }
}

proof fn lemma_inner_output(h: Highlighter, lines: Seq<Seq<char>>)
    ensures
        document_output(h, lines) == inner_output(h, lines),
    decreases lines.len(),
{
    if lines.len() > 0 {
        lemma_inner_output(h.spec_highlight(lines[0]).1, lines.drop_first());
    }
}

/// The highlighter made for a language writes, for any lines, what that
/// language's own highlighter writes from its fresh state: the plain-text
/// one for `PlainText`, the JSON one for `Json`, the JSX-aware code one for
/// `Jsx` and `Tsx`, the Markdown and MDX ones for theirs, and the code one
/// for every other language.
pub proof fn law_create_highlighter_delegates(language: Language, lines: Seq<Seq<char>>)
    ensures
        document_output(spec_create_highlighter(language), lines) == match language {
            Language::PlainText => document_output(PlainTextHighlighter, lines),
            Language::Json => document_output(JsonHighlighter, lines),
            Language::Jsx | Language::Tsx => document_output(
                (JsxHighlighter { inner: (GenericHighlighter { language, in_block_comment: false }) }),
                lines,
            ),
            Language::Markdown => document_output((MarkdownHighlighter { in_code_fence: false }), lines),
            Language::Mdx => document_output((MdxHighlighter { in_code_fence: false }), lines),
            _ => document_output((GenericHighlighter { language, in_block_comment: false }), lines),
        },
{
    lemma_inner_output(spec_create_highlighter(language), lines);
}

/// Highlights every line of `content`, each followed by a newline.
pub(crate) fn highlight_lines<H: SyntaxHighlighter>(h: &mut H, content: &str) -> (output: String)
    ensures
        output@ == document_output(*old(h), spec_lines(content@)),
{
    let ls = lines(content);
    let ghost all = spec_lines(content@);
    let mut output = String::new();
    let mut i: usize = 0;
    assert(all.skip(0) =~= all);
    while i < ls.len()
        invariant
            views(ls@) == all,
            i <= ls@.len(),
            output@ + document_output(*h, all.skip(i as int)) == document_output(*old(h), all),
        decreases ls@.len() - i,
    {
        let ghost before = *h;
        assert(all[i as int] == ls@[i as int]@);
        let highlighted = h.highlight_line(ls[i].as_str());
        output.append(highlighted.as_str());
        crate::text::push_char(&mut output, '\n');
        proof {
            assert(all.skip(i as int)[0] == all[i as int]);
            assert(all.skip(i as int).drop_first() =~= all.skip(i + 1));
        }
        i = i + 1;
    }
    assert(all.skip(i as int) =~= Seq::<Seq<char>>::empty());
    output
}

/// Highlights one line with a fresh highlighter for `language`.
pub fn highlight_line(line: &str, language: Language) -> (out: String)
    ensures
        out@ == render_spans(spec_create_highlighter(language).spec_highlight(line@).0),
{
    let mut highlighter = create_highlighter(language);
    highlighter.highlight_line(line)
}

/// Highlights every line of `content`, each followed by a newline.
pub fn highlight_document(content: &str, language: Language) -> (output: String)
    ensures
        output@ == document_output(spec_create_highlighter(language), spec_lines(content@)),
{
    let mut highlighter = create_highlighter(language);
    highlight_lines(&mut highlighter, content)
}

} // verus!
