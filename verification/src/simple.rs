//! A single highlighter that handles every language itself, keeping both
//! kinds of state (block comments and Markdown code fences).

use vstd::prelude::*;

use crate::ansi::{self, colored, plain, render_spans, spans_text, Color, Span};
use crate::highlight::generic::{code_line, emit_code_line, lemma_code_line_text};
use crate::highlight::markdown::{
    emit_md_text_line, indent_end, indent_len, is_fence_at, is_markdown_fence, is_mdx_code_at,
    lemma_md_text_line_text, looks_like_mdx_code_line, md_text_line,
};
use crate::highlight::{document_output, highlight_lines};
use crate::language::Language;
use crate::text::spec_lines;

pub use crate::highlight::SyntaxHighlighter;

verus! {

pub struct SimpleHighlighter {
    pub language: Language,
    pub in_block_comment: bool,
    pub in_markdown_code_fence: bool,
}

impl SimpleHighlighter {
    pub fn new(language: Language) -> (h: Self)
        ensures
            h == (SimpleHighlighter { language, in_block_comment: false, in_markdown_code_fence: false }),
    {
        Self { language, in_block_comment: false, in_markdown_code_fence: false }
    }
}

pub open spec fn is_markdown_language(language: Language) -> bool {
    language == Language::Markdown || language == Language::Mdx
}

fn is_markdown(language: Language) -> (r: bool)
    ensures
        r == is_markdown_language(language),
{
    language == Language::Markdown || language == Language::Mdx
}

/// A Markdown line: fences first, then (in MDX) code lines as TSX, then
/// headings, quotes, lists and inline markup.
pub open spec fn simple_md_line(is_mdx: bool, in_fence: bool, c: Seq<char>) -> (Seq<Span>, bool) {
    let w = indent_len(c);
    if is_fence_at(c, w) {
        (seq![colored(Color::BrightBlack, c)], !in_fence)
    } else if in_fence {
        (seq![colored(Color::Green, c)], in_fence)
    } else if is_mdx && is_mdx_code_at(c, w) {
        (code_line(true, false, Language::Tsx, false, c).0, in_fence)
    } else {
        (md_text_line(is_mdx, c), in_fence)
    }
}

impl SyntaxHighlighter for SimpleHighlighter {
    open spec fn spec_highlight(&self, line: Seq<char>) -> (Seq<Span>, Self) {
        if self.language == Language::PlainText {
            (seq![plain(line)], *self)
        } else if is_markdown_language(self.language) {
            let r = simple_md_line(self.language == Language::Mdx, self.in_markdown_code_fence, line);
            (r.0, SimpleHighlighter { in_markdown_code_fence: r.1, ..*self })
        } else {
            let r = code_line(true, false, self.language, self.in_block_comment, line);
            (r.0, SimpleHighlighter { in_block_comment: r.1, ..*self })
        }
    }

    fn highlight_line(&mut self, line: &str) -> (out: String) {
        highlight_line_with_state(line, self)
    }
}

fn highlight_line_with_state(line: &str, state: &mut SimpleHighlighter) -> (output: String)
    ensures
        output@ == render_spans(old(state).spec_highlight(line@).0),
        *final(state) == old(state).spec_highlight(line@).1,
{
    let language = state.language;
    if language == Language::PlainText {
        proof { ansi::lemma_render_single(plain(line@)); }
        return line.to_owned();
    }
    if is_markdown(language) {
        return highlight_markdown_line(line, state);
    }
    let chars = crate::text::to_chars(line);
    let mut output = String::new();
    let in_comment = emit_code_line(true, false, language, state.in_block_comment, chars.as_slice(), &mut output);
    state.in_block_comment = in_comment;
    assert(output@ =~= render_spans(old(state).spec_highlight(line@).0));
    output
}

fn highlight_markdown_line(line: &str, state: &mut SimpleHighlighter) -> (output: String)
    requires
        is_markdown_language(old(state).language),
    ensures
        output@ == render_spans(old(state).spec_highlight(line@).0),
        *final(state) == old(state).spec_highlight(line@).1,
{
    let chars = crate::text::to_chars(line);
    let is_mdx = state.language == Language::Mdx;
    let w = indent_end(chars.as_slice());
    let len = chars.len();
    let mut output = String::new();
    if is_markdown_fence(chars.as_slice(), w) {
        state.in_markdown_code_fence = !state.in_markdown_code_fence;
        ansi::emit_range(&mut output, Some(Color::BrightBlack), chars.as_slice(), 0, len);
        proof {
            ansi::lemma_render_single(colored(Color::BrightBlack, line@));
            assert(line@.subrange(0, len as int) =~= line@);
        }
        return output;
    }
    if state.in_markdown_code_fence {
        ansi::emit_range(&mut output, Some(Color::Green), chars.as_slice(), 0, len);
        proof {
            ansi::lemma_render_single(colored(Color::Green, line@));
            assert(line@.subrange(0, len as int) =~= line@);
        }
        return output;
    }
    if is_mdx && looks_like_mdx_code_line(chars.as_slice(), w) {
        return highlight_line_as_language(line, Language::Tsx);
    }
    emit_md_text_line(is_mdx, chars.as_slice(), &mut output);
    assert(output@ =~= render_spans(old(state).spec_highlight(line@).0));
    output
}

fn highlight_line_as_language(line: &str, language: Language) -> (output: String)
    requires
        !is_markdown_language(language),
        language != Language::PlainText,
    ensures
        output@ == render_spans(code_line(true, false, language, false, line@).0),
{
    let chars = crate::text::to_chars(line);
    let mut output = String::new();
    let _ = emit_code_line(true, false, language, false, chars.as_slice(), &mut output);
    assert(output@ =~= render_spans(code_line(true, false, language, false, line@).0));
    output
}

/// The simple highlighter keeps the text of every line, in every state.
pub proof fn lemma_simple_keeps_text(h: SimpleHighlighter, line: Seq<char>)
    ensures
        spans_text(h.spec_highlight(line).0) == line,
{
    assert(line.subrange(0, line.len() as int) =~= line);
    ansi::lemma_render_single(plain(line));
    ansi::lemma_render_single(colored(Color::BrightBlack, line));
    ansi::lemma_render_single(colored(Color::Green, line));
    lemma_code_line_text(true, false, h.language, h.in_block_comment, line, 0);
    lemma_code_line_text(true, false, Language::Tsx, false, line, 0);
    lemma_md_text_line_text(h.language == Language::Mdx, line);
}

/// The simple highlighter only adds colour codes: with them taken out, the
/// output is the line itself, in every state and for every language (for a
/// line that holds no escape character of its own).
pub proof fn law_simple_strips_to_line(h: SimpleHighlighter, line: Seq<char>)
    requires
        !line.contains('\x1b'),
    ensures
        ansi::strip_ansi(render_spans(h.spec_highlight(line).0)) == line,
{
    let spans = h.spec_highlight(line).0;
    lemma_simple_keeps_text(h, line);
    ansi::lemma_strip_spans(spans, Seq::empty());
    assert(render_spans(spans) + Seq::<char>::empty() =~= render_spans(spans));
    assert(line + ansi::strip_ansi(Seq::<char>::empty()) =~= line);
}

/// Highlights one line with a fresh highlighter for `language`.
pub fn highlight_line(line: &str, language: Language) -> (out: String)
    ensures
        out@ == render_spans(SimpleHighlighter::spec_new(language).spec_highlight(line@).0),
{
    let mut highlighter = SimpleHighlighter::new(language);
    highlighter.highlight_line(line)
}

/// Highlights every line of `content`, each followed by a newline.
pub fn highlight_document(content: &str, language: Language) -> (output: String)
    ensures
        output@ == document_output(SimpleHighlighter::spec_new(language), spec_lines(content@)),
{
    let mut highlighter = SimpleHighlighter::new(language);
    highlight_lines(&mut highlighter, content)
}

impl SimpleHighlighter {
    pub open spec fn spec_new(language: Language) -> SimpleHighlighter {
        SimpleHighlighter { language, in_block_comment: false, in_markdown_code_fence: false }
    }
}

} // verus!
