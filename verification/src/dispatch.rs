//! The decisions the viewer takes before it writes anything: colour,
//! paging, the language of the input, and the pager's command line.

use vstd::prelude::*;

use crate::args::{string_views, ColorMode};
use crate::input::Source;
use crate::language::Language;
use crate::text::is_ws;

verus! {

/// Colour is used when forced, or by default on a terminal; `NO_COLOR`
/// turns it off in every case.
pub open spec fn spec_should_use_color(mode: ColorMode, stdout_is_terminal: bool, no_color: bool) -> bool {
    match mode {
        ColorMode::Always => !no_color,
        ColorMode::Auto => stdout_is_terminal && !no_color,
        ColorMode::Never => false,
    }
}

/// `NO_COLOR` turns colour off whatever the mode and the terminal.
pub proof fn law_no_color_wins(mode: ColorMode, stdout_is_terminal: bool)
    ensures
        !spec_should_use_color(mode, stdout_is_terminal, true),
{
}

pub fn should_use_color(mode: ColorMode, stdout_is_terminal: bool, no_color: bool) -> (r: bool)
    ensures
        r == spec_should_use_color(mode, stdout_is_terminal, no_color),
{
    match mode {
        ColorMode::Always => !no_color,
        ColorMode::Auto => stdout_is_terminal && !no_color,
        ColorMode::Never => false,
    }
}

/// A file viewed on a terminal goes to the pager, and so does anything when
/// `--pager` is given; showing everything at once (`full`) overrides both.
pub open spec fn spec_should_page_view(has_path: bool, explicit_pager: bool, full: bool, stdout_is_terminal: bool) -> bool {
    !full && (explicit_pager || (stdout_is_terminal && has_path))
}

/// Showing everything at once never pages, even with `--pager`.
pub proof fn law_full_never_pages(has_path: bool, explicit_pager: bool, stdout_is_terminal: bool)
    ensures
        !spec_should_page_view(has_path, explicit_pager, true, stdout_is_terminal),
{
}

pub fn should_page_view(source: &Source, explicit_pager: bool, full: bool, stdout_is_terminal: bool) -> (r: bool)
    ensures
        r == spec_should_page_view(source.path is Some, explicit_pager, full, stdout_is_terminal),
{
    !full && (explicit_pager || (stdout_is_terminal && source.path.is_some()))
}

/// The language of an input: by its file's extension, by its content when it
/// comes from standard input, plain text otherwise.
pub open spec fn spec_detect_language(path: Option<Seq<char>>, content: Seq<char>) -> Language {
    match path {
        Some(p) => match Language::spec_from_path(p) {
            Some(l) => l,
            None => Language::PlainText,
        },
        None => Language::spec_infer_from_content(content),
    }
}

pub fn detect_language(source: &Source) -> (r: Language)
    ensures
        r == spec_detect_language(
            match source.path { Some(p) => Some(p@), None => None },
            source.content@,
        ),
{
    match &source.path {
        Some(p) => match Language::from_path(p.as_str()) {
            Some(lang) => lang,
            None => Language::PlainText,
        },
        None => Language::infer_from_content(source.content.as_str()),
    }
}

/// The language a file is shown in: the one `--language` forced, else the
/// detected one.
pub fn view_language(forced: Option<Language>, source: &Source) -> (r: Language)
    ensures
        r == match forced {
            Some(l) => l,
            None => spec_detect_language(
                match source.path { Some(p) => Some(p@), None => None },
                source.content@,
            ),
        },
{
    match forced {
        Some(lang) => lang,
        None => detect_language(source),
    }
}

/// Whether the path `p` is the path `-`: as paths compare, by their
/// components, so `-` followed only by `/` separators and `.` components
/// (`-/`, `-//`, `-/./`), but not `./-`, `-.` or `-/..`.
pub open spec fn is_dash_path(p: Seq<char>) -> bool {
    &&& p.len() > 0
    &&& p[0] == '-'
    &&& forall|i: int| 1 <= i < p.len() ==> (#[trigger] p[i] == '/' || (p[i] == '.' && p[i - 1] == '/'
        && (i + 1 == p.len() || p[i + 1] == '/')))
}

/// Standard input is read when no path is given or the path is `-`.
pub fn reads_stdin(path: Option<&str>) -> (r: bool)
    ensures
        r == match path {
            Some(p) => is_dash_path(p@),
            None => true,
        },
{
    match path {
        Some(p) => {
            let c = crate::text::to_chars(p);
            let n = c.len();
            if n == 0 || c[0] != '-' {
                return false;
            }
            let mut i: usize = 1;
            while i < n
                invariant
                    path == Some(p),
                    c@ == p@,
                    n == c@.len(),
                    1 <= i <= n,
                    c@[0] == '-',
                    forall|j: int| 1 <= j < i ==> (#[trigger] c@[j] == '/' || (c@[j] == '.' && c@[j - 1] == '/'
                        && (j + 1 == n || c@[j + 1] == '/'))),
                decreases n - i,
            {
                let ok = c[i] == '/' || (c[i] == '.' && c[i - 1] == '/' && (i + 1 == n || c[i + 1] == '/'));
                if !ok {
                    assert(!is_dash_path(p@)) by {
                        assert(!(p@[i as int] == '/' || (p@[i as int] == '.' && p@[i - 1] == '/'
                            && (i + 1 == p@.len() || p@[i + 1] == '/'))));
                    }
                    return false;
                }
                i = i + 1;
            }
            true
        },
        None => true,
    }
}

/// The pager command: `$PAGER` when it is set, `less -R` otherwise.
pub fn pager_or_default(pager: Option<String>) -> (r: String)
    ensures
        r@ == match pager {
            Some(p) => p@,
            None => "less -R"@,
        },
{
    match pager {
        Some(p) => p,
        None => "less -R".to_owned(),
    }
}

/// The end of the run of non-blank characters that starts at `i`.
pub open spec fn word_end(c: Seq<char>, i: int) -> int
    decreases c.len() - i,
{
    if i < 0 || i >= c.len() {
        c.len() as int
    } else if is_ws(c[i]) {
        i
    } else {
        word_end(c, i + 1)
    }
}

/// The first non-blank position at or after `i`.
pub open spec fn blank_end(c: Seq<char>, i: int) -> int
    decreases c.len() - i,
{
    if i < 0 || i >= c.len() {
        c.len() as int
    } else if is_ws(c[i]) {
        blank_end(c, i + 1)
    } else {
        i
    }
}

pub proof fn lemma_word_bounds(c: Seq<char>, i: int)
    requires
        0 <= i <= c.len(),
    ensures
        i <= word_end(c, i) <= c.len(),
        i <= blank_end(c, i) <= c.len(),
        blank_end(c, i) < c.len() ==> !is_ws(c[blank_end(c, i)]),
    decreases c.len() - i,
{
    if i < c.len() {
        lemma_word_bounds(c, i + 1);
    }
}

/// The whitespace-separated words of `c` from `i` on (`str::split_whitespace`).
pub open spec fn words_from(c: Seq<char>, i: int) -> Seq<Seq<char>>
    decreases c.len() - i,
{
    if i < 0 || i >= c.len() {
        Seq::empty()
    } else {
        let s = blank_end(c, i);
        if s >= c.len() {
            Seq::empty()
        } else {
            let e = word_end(c, s);
            proof {
                lemma_word_bounds(c, i);
                lemma_word_bounds(c, s + 1);
            }
            seq![c.subrange(s, e)] + words_from(c, e)
        }
    }
}

/// The program and arguments of the pager command `pager`: its first word
/// (`less` when it has none) and the rest.
pub open spec fn spec_pager_command(pager: Seq<char>) -> (Seq<char>, Seq<Seq<char>>) {
    let w = words_from(pager, 0);
    if w.len() == 0 {
        ("less"@, Seq::empty())
    } else {
        (w[0], w.drop_first())
    }
}

pub fn pager_command(pager: &str) -> (r: (String, Vec<String>))
    ensures
        r.0@ == spec_pager_command(pager@).0,
        string_views(r.1@) == spec_pager_command(pager@).1,
{
    let c = crate::text::to_chars(pager);
    let ghost s = c@;
    let len = c.len();
    let mut words: Vec<String> = Vec::new();
    let mut i: usize = 0;
    assert(string_views(words@) + words_from(s, 0) =~= words_from(s, 0));
    while i < len
        invariant
            s == c@,
            len == s.len(),
            i <= len,
            string_views(words@) + words_from(s, i as int) == words_from(s, 0),
        decreases len - i,
    {
        proof { lemma_word_bounds(s, i as int); }
        let mut start = i;
        while start < len && crate::text::is_whitespace(c[start])
            invariant
                i <= start <= len,
                len == s.len(),
                s == c@,
                blank_end(s, i as int) == blank_end(s, start as int),
            decreases len - start,
        {
            start = start + 1;
        }
        if start >= len {
            assert(words_from(s, i as int) =~= Seq::<Seq<char>>::empty());
            i = len;
        } else {
            proof { lemma_word_bounds(s, start + 1); }
            let mut end = start + 1;
            while end < len && !crate::text::is_whitespace(c[end])
                invariant
                    start < end <= len,
                    len == s.len(),
                    s == c@,
                    word_end(s, start as int) == word_end(s, end as int),
                decreases len - end,
            {
                end = end + 1;
            }
            let word = crate::text::collect_range(c.as_slice(), start, end);
            let ghost old_w = words@;
            words.push(word);
            assert(string_views(words@) =~= string_views(old_w).push(s.subrange(start as int, end as int)));
            assert(string_views(words@) + words_from(s, end as int) =~= string_views(old_w) + words_from(s, i as int));
            i = end;
        }
    }
    assert(words_from(s, i as int) =~= Seq::<Seq<char>>::empty());
    assert(string_views(words@) =~= words_from(s, 0));
    if words.len() == 0 {
        return ("less".to_owned(), words);
    }
    let program = words.remove(0);
    assert(string_views(words@) =~= words_from(s, 0).drop_first());
    (program, words)
}

} // verus!
