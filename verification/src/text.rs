use vstd::prelude::*;

use crate::highlight::helpers::{find_char_from, find_single_char_after, lemma_find_char_bounds};

verus! {

/// Appends one character to a `String` (std's `String::push`).
#[verifier::external_body]
pub(crate) fn push_char(out: &mut String, c: char)
    ensures
        final(out)@ == old(out)@.push(c),
{
    out.push(c);
}

/// The characters of `s`, in order.
pub fn to_chars(s: &str) -> (v: Vec<char>)
    ensures
        v@ == s@,
{
    broadcast use vstd::string::group_string_axioms;
    let mut v: Vec<char> = Vec::new();
    for c in it: s.chars()
        invariant
            v@ == it.seq().take(it.index() as int),
    {
        v.push(c);
    }
    v
}

/// Unicode `White_Space`, the property that std's `char::is_whitespace` tests.
pub open spec fn is_ws(c: char) -> bool {
    ||| ('\t' <= c && c <= '\r')
    ||| c == ' '
    ||| c == '\u{85}'
    ||| c == '\u{a0}'
    ||| c == '\u{1680}'
    ||| ('\u{2000}' <= c && c <= '\u{200a}')
    ||| c == '\u{2028}'
    ||| c == '\u{2029}'
    ||| c == '\u{202f}'
    ||| c == '\u{205f}'
    ||| c == '\u{3000}'
}

/// Whether `c` is whitespace (the Unicode `White_Space` property, as std's
/// `char::is_whitespace` documents it).
pub fn is_whitespace(c: char) -> (r: bool)
    ensures
        r == is_ws(c),
{
    ('\t' <= c && c <= '\r')
    || c == ' '
    || c == '\u{85}'
    || c == '\u{a0}'
    || c == '\u{1680}'
    || ('\u{2000}' <= c && c <= '\u{200a}')
    || c == '\u{2028}'
    || c == '\u{2029}'
    || c == '\u{202f}'
    || c == '\u{205f}'
    || c == '\u{3000}'
}

pub open spec fn is_digit(c: char) -> bool {
    '0' <= c && c <= '9'
}

pub open spec fn is_alpha(c: char) -> bool {
    ('a' <= c && c <= 'z') || ('A' <= c && c <= 'Z')
}

pub fn is_ascii_digit(c: char) -> (r: bool)
    ensures
        r == is_digit(c),
{
    '0' <= c && c <= '9'
}

pub fn is_ascii_alphabetic(c: char) -> (r: bool)
    ensures
        r == is_alpha(c),
{
    ('a' <= c && c <= 'z') || ('A' <= c && c <= 'Z')
}

/// The characters `chars[start..end]` as a `String`.
pub fn collect_range(chars: &[char], start: usize, end: usize) -> (s: String)
    requires
        start <= end <= chars@.len(),
    ensures
        s@ == chars@.subrange(start as int, end as int),
{
    let mut s = String::new();
    let mut i = start;
    while i < end
        invariant
            start <= i <= end <= chars@.len(),
            s@ == chars@.subrange(start as int, i as int),
        decreases end - i,
    {
        push_char(&mut s, chars[i]);
        assert(chars@.subrange(start as int, i + 1) =~= chars@.subrange(start as int, i as int).push(chars@[i as int]));
        i = i + 1;
    }
    s
}

/// Whether two strings hold the same characters.
pub fn str_eq(a: &str, b: &str) -> (r: bool)
    ensures
        r == (a@ == b@),
{
    let x = a.to_owned();
    let y = b.to_owned();
    x == y
}

/// A line as `str::lines` gives it: without a final `\r` when a `\n` ended it.
pub open spec fn strip_cr(s: Seq<char>) -> Seq<char> {
    if s.len() > 0 && s.last() == '\r' {
        s.drop_last()
    } else {
        s
    }
}

/// The lines of `c` from position `i` on, as `str::lines` splits them: at
/// each `\n` (a `\r` before it dropped); a final `\n` ends the last line
/// rather than starting an empty one.
pub open spec fn lines_from(c: Seq<char>, i: int) -> Seq<Seq<char>>
    decreases c.len() - i,
{
    if i < 0 || i >= c.len() {
        Seq::empty()
    } else {
        match find_char_from(c, i, '\n') {
            Some(k) => {
                proof { lemma_find_char_bounds(c, i, '\n'); }
                seq![strip_cr(c.subrange(i, k))] + lines_from(c, k + 1)
            },
            None => seq![c.subrange(i, c.len() as int)],
        }
    }
}

pub open spec fn spec_lines(c: Seq<char>) -> Seq<Seq<char>> {
    lines_from(c, 0)
}

pub open spec fn views(v: Seq<String>) -> Seq<Seq<char>> {
    v.map_values(|s: String| s@)
}

/// The lines of `content` (std's `str::lines`).
pub fn lines(content: &str) -> (v: Vec<String>)
    ensures
        views(v@) == spec_lines(content@),
{
    let chars = to_chars(content);
    let ghost c = chars@;
    let len = chars.len();
    let mut v: Vec<String> = Vec::new();
    let mut i: usize = 0;
    assert(views(v@) + lines_from(c, 0) =~= spec_lines(c));
    while i < len
        invariant
            c == chars@,
            len == c.len(),
            i <= len,
            views(v@) + lines_from(c, i as int) == spec_lines(c),
        decreases len - i,
    {
        proof { lemma_find_char_bounds(c, i as int, '\n'); }
        match find_single_char_after(chars.as_slice(), i, '\n') {
            Some(k) => {
                let end = if k > i && chars[k - 1] == '\r' { k - 1 } else { k };
                let line = collect_range(chars.as_slice(), i, end);
                assert(line@ =~= strip_cr(c.subrange(i as int, k as int)));
                let ghost old_v = v@;
                v.push(line);
                assert(views(v@) =~= views(old_v) + seq![line@]);
                assert(views(v@) + lines_from(c, k + 1) =~= views(old_v) + lines_from(c, i as int));
                i = k + 1;
            },
            None => {
                let line = collect_range(chars.as_slice(), i, len);
                let ghost old_v = v@;
                v.push(line);
                assert(views(v@) =~= views(old_v) + seq![line@]);
                assert(lines_from(c, len as int) =~= Seq::<Seq<char>>::empty());
                assert(views(v@) + lines_from(c, len as int) =~= views(old_v) + lines_from(c, i as int));
                i = len;
            },
        }
    }
    assert(lines_from(c, i as int) =~= Seq::<Seq<char>>::empty());
    assert(views(v@) + Seq::<Seq<char>>::empty() =~= views(v@));
    v
}

} // verus!
