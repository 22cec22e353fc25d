//! The JSX/TSX highlighter: code, with tags taken first.

use vstd::prelude::*;

use crate::ansi::{render_spans, Span};
use crate::language::Language;

use super::generic::{code_line, emit_code_line, GenericHighlighter};
use super::SyntaxHighlighter;

verus! {

pub struct JsxHighlighter {
    pub inner: GenericHighlighter,
}

impl JsxHighlighter {
    pub fn new(language: Language) -> (h: Self)
        ensures
            h.inner.language == language,
            !h.inner.in_block_comment,
    {
        Self { inner: GenericHighlighter::new(language) }
    }
}

impl SyntaxHighlighter for JsxHighlighter {
    open spec fn spec_highlight(&self, line: Seq<char>) -> (Seq<Span>, Self) {
        let r = code_line(false, true, self.inner.language, self.inner.in_block_comment, line);
        (r.0, JsxHighlighter { inner: GenericHighlighter { language: self.inner.language, in_block_comment: r.1 } })
    }

    fn highlight_line(&mut self, line: &str) -> (output: String) {
        let chars = crate::text::to_chars(line);
        let mut output = String::new();
        let state = emit_code_line(false, true, self.inner.language, self.inner.in_block_comment, chars.as_slice(), &mut output);
        self.inner.in_block_comment = state;
        assert(output@ =~= render_spans(code_line(false, true, old(self).inner.language, old(self).inner.in_block_comment, line@).0));
        output
    }
}

} // verus!
