//! Plain text is written as it is.

use vstd::prelude::*;

use crate::ansi::{self, plain, Span};

use super::SyntaxHighlighter;

verus! {

pub struct PlainTextHighlighter;

impl SyntaxHighlighter for PlainTextHighlighter {
    open spec fn spec_highlight(&self, line: Seq<char>) -> (Seq<Span>, Self) {
        (seq![plain(line)], PlainTextHighlighter)
    }

    fn highlight_line(&mut self, line: &str) -> (out: String) {
        proof { ansi::lemma_render_single(plain(line@)); }
        line.to_owned()
    }
}

} // verus!
