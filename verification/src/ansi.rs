use vstd::prelude::*;

verus! {

pub const RESET: &'static str = "\x1b[0m";
pub const DIM: &'static str = "\x1b[2m";
pub const BLUE: &'static str = "\x1b[34m";
pub const CYAN: &'static str = "\x1b[36m";
pub const GREEN: &'static str = "\x1b[32m";
pub const MAGENTA: &'static str = "\x1b[35m";
pub const YELLOW: &'static str = "\x1b[33m";
pub const BRIGHT_BLACK: &'static str = "\x1b[90m";

/// What `paint` produces: the colour code, the text, then the reset code.
pub open spec fn painted(text: Seq<char>, color: Seq<char>) -> Seq<char> {
    color + text + RESET@
}

/// Wraps `text` in the escape `color` and a trailing reset.
pub fn paint(text: &str, color: &str) -> (out: String)
    ensures
        out@ == painted(text@, color@),
{
    let mut out = String::new();
    out.append(color);
    out.append(text);
    out.append(RESET);
    out
}

/// The colours the highlighters use.
#[derive(Clone, Copy, Debug, PartialEq, Eq, Structural)]
pub enum Color {
    Dim,
    Blue,
    Cyan,
    Green,
    Magenta,
    Yellow,
    BrightBlack,
}

impl Color {
    /// The escape sequence of this colour.
    pub open spec fn code(self) -> Seq<char> {
        match self {
            Color::Dim => DIM@,
            Color::Blue => BLUE@,
            Color::Cyan => CYAN@,
            Color::Green => GREEN@,
            Color::Magenta => MAGENTA@,
            Color::Yellow => YELLOW@,
            Color::BrightBlack => BRIGHT_BLACK@,
        }
    }

    /// The escape sequence of this colour, as one of the constants above.
    pub fn as_str(self) -> (s: &'static str)
        ensures
            s@ == self.code(),
    {
        match self {
            Color::Dim => DIM,
            Color::Blue => BLUE,
            Color::Cyan => CYAN,
            Color::Green => GREEN,
            Color::Magenta => MAGENTA,
            Color::Yellow => YELLOW,
            Color::BrightBlack => BRIGHT_BLACK,
        }
    }
}

/// A piece of highlighted output: some text of the input, and the colour it
/// is painted in (`None`: written as it is).
pub struct Span {
    pub color: Option<Color>,
    pub text: Seq<char>,
}

pub open spec fn plain(text: Seq<char>) -> Span {
    Span { color: None, text }
}

pub open spec fn colored(color: Color, text: Seq<char>) -> Span {
    Span { color: Some(color), text }
}

/// What a span looks like on the terminal.
pub open spec fn span_out(s: Span) -> Seq<char> {
    match s.color {
        None => s.text,
        Some(c) => painted(s.text, c.code()),
    }
}

/// The output of a sequence of spans, one after the other.
pub open spec fn render_spans(spans: Seq<Span>) -> Seq<char>
    decreases spans.len(),
{
    if spans.len() == 0 {
        Seq::empty()
    } else {
        render_spans(spans.drop_last()) + span_out(spans.last())
    }
}

/// The input text that a sequence of spans covers, colours left out.
pub open spec fn spans_text(spans: Seq<Span>) -> Seq<char>
    decreases spans.len(),
{
    if spans.len() == 0 {
        Seq::empty()
    } else {
        spans_text(spans.drop_last()) + spans.last().text
    }
}

pub proof fn lemma_render_concat(a: Seq<Span>, b: Seq<Span>)
    ensures
        render_spans(a + b) == render_spans(a) + render_spans(b),
        spans_text(a + b) == spans_text(a) + spans_text(b),
    decreases b.len(),
{
    if b.len() == 0 {
        assert(a + b =~= a);
    } else {
        assert((a + b).drop_last() =~= a + b.drop_last());
        lemma_render_concat(a, b.drop_last());
    }
}

pub proof fn lemma_render_single(s: Span)
    ensures
        render_spans(seq![s]) == span_out(s),
        spans_text(seq![s]) == s.text,
{
    assert(seq![s].drop_last() =~= Seq::<Span>::empty());
    assert(render_spans(Seq::<Span>::empty()) =~= Seq::<char>::empty());
    assert(spans_text(Seq::<Span>::empty()) =~= Seq::<char>::empty());
    assert(seq![s].last() == s);
    assert(render_spans(seq![s]) =~= span_out(s));
    assert(spans_text(seq![s]) =~= s.text);
}

pub proof fn lemma_render_two(a: Span, b: Span, rest: Seq<Span>)
    ensures
        render_spans(seq![a, b] + rest) == span_out(a) + span_out(b) + render_spans(rest),
        spans_text(seq![a, b] + rest) == a.text + b.text + spans_text(rest),
{
    lemma_render_concat(seq![a, b], rest);
    lemma_render_concat(seq![a], seq![b]);
    lemma_render_single(a);
    lemma_render_single(b);
    assert(seq![a, b] =~= seq![a] + seq![b]);
}

pub proof fn lemma_render_three(a: Span, b: Span, c: Span)
    ensures
        render_spans(seq![a, b, c]) == span_out(a) + span_out(b) + span_out(c),
        spans_text(seq![a, b, c]) == a.text + b.text + c.text,
{
    lemma_render_two(a, b, seq![c]);
    lemma_render_single(c);
    assert(seq![a, b, c] =~= seq![a, b] + seq![c]);
}

/// What follows the first `m` of `s`, the end of an escape sequence
/// (nothing when there is none).
pub open spec fn after_code(s: Seq<char>) -> Seq<char>
    decreases s.len(),
{
    if s.len() == 0 {
        s
    } else if s[0] == 'm' {
        s.drop_first()
    } else {
        after_code(s.drop_first())
    }
}

pub proof fn lemma_after_code_len(s: Seq<char>)
    ensures
        after_code(s).len() <= s.len(),
    decreases s.len(),
{
    if s.len() > 0 && s[0] != 'm' {
        lemma_after_code_len(s.drop_first());
    }
}

/// `s` as a terminal shows it: every escape sequence `ESC [ ... m` taken
/// out.
pub open spec fn strip_ansi(s: Seq<char>) -> Seq<char>
    decreases s.len(),
{
    if s.len() == 0 {
        Seq::empty()
    } else if s.len() >= 2 && s[0] == '\x1b' && s[1] == '[' {
        proof {
            lemma_after_code_len(s.skip(2));
        }
        strip_ansi(after_code(s.skip(2)))
    } else {
        seq![s[0]] + strip_ansi(s.drop_first())
    }
}

pub proof fn lemma_no_char_concat(a: Seq<char>, b: Seq<char>, x: char)
    ensures
        !(a + b).contains(x) <==> (!a.contains(x) && !b.contains(x)),
{
    if (a + b).contains(x) {
        let k = choose|k: int| 0 <= k < (a + b).len() && (a + b)[k] == x;
        if k < a.len() {
            assert(a[k] == x);
        } else {
            assert(b[k - a.len()] == x);
        }
    }
    if a.contains(x) {
        let k = choose|k: int| 0 <= k < a.len() && a[k] == x;
        assert((a + b)[k] == x);
    }
    if b.contains(x) {
        let k = choose|k: int| 0 <= k < b.len() && b[k] == x;
        assert((a + b)[k + a.len()] == x);
    }
}

/// Text without escape characters passes through unchanged.
pub proof fn lemma_strip_plain(t: Seq<char>, y: Seq<char>)
    requires
        !t.contains('\x1b'),
    ensures
        strip_ansi(t + y) == t + strip_ansi(y),
    decreases t.len(),
{
    if t.len() == 0 {
        assert(t + y =~= y);
        assert(t + strip_ansi(y) =~= strip_ansi(y));
    } else {
        let s = t + y;
        assert(s[0] == t[0]);
        assert(t[0] != '\x1b') by {
            if t[0] == '\x1b' {
                assert(t.contains('\x1b'));
            }
        }
        assert(t =~= seq![t[0]] + t.drop_first());
        lemma_no_char_concat(seq![t[0]], t.drop_first(), '\x1b');
        assert(s.drop_first() =~= t.drop_first() + y);
        lemma_strip_plain(t.drop_first(), y);
        assert(seq![t[0]] + (t.drop_first() + strip_ansi(y)) =~= t + strip_ansi(y));
    }
}

proof fn lemma_after_code(d: Seq<char>, y: Seq<char>)
    requires
        !d.contains('m'),
    ensures
        after_code(d + seq!['m'] + y) == y,
    decreases d.len(),
{
    let s = d + seq!['m'] + y;
    if d.len() == 0 {
        assert(s[0] == 'm');
        assert(s.drop_first() =~= y);
    } else {
        assert(d[0] != 'm') by {
            if d[0] == 'm' {
                assert(d.contains('m'));
            }
        }
        assert(s[0] == d[0]);
        assert(!d.drop_first().contains('m')) by {
            if d.drop_first().contains('m') {
                let k = choose|k: int| 0 <= k < d.drop_first().len() && d.drop_first()[k] == 'm';
                assert(d[k + 1] == 'm');
            }
        }
        assert(s.drop_first() =~= d.drop_first() + seq!['m'] + y);
        lemma_after_code(d.drop_first(), y);
    }
}

/// An escape sequence `ESC [ d m` disappears.
proof fn lemma_strip_code(d: Seq<char>, y: Seq<char>)
    requires
        !d.contains('m'),
    ensures
        strip_ansi(seq!['\x1b', '['] + d + seq!['m'] + y) == strip_ansi(y),
{
    let s = seq!['\x1b', '['] + d + seq!['m'] + y;
    assert(s[0] == '\x1b' && s[1] == '[');
    assert(s.skip(2) =~= d + seq!['m'] + y);
    lemma_after_code(d, y);
}

/// Each colour code, and the reset code, disappears.
pub proof fn lemma_strip_codes(y: Seq<char>)
    ensures
        strip_ansi(RESET@ + y) == strip_ansi(y),
        forall|c: Color| #[trigger] strip_ansi(c.code() + y) == strip_ansi(y),
{
    reveal_strlit("\x1b[0m");
    reveal_strlit("\x1b[2m");
    reveal_strlit("\x1b[34m");
    reveal_strlit("\x1b[36m");
    reveal_strlit("\x1b[32m");
    reveal_strlit("\x1b[35m");
    reveal_strlit("\x1b[33m");
    reveal_strlit("\x1b[90m");
    assert(!seq!['0'].contains('m'));
    assert(!seq!['2'].contains('m'));
    assert(!seq!['3', '4'].contains('m'));
    assert(!seq!['3', '6'].contains('m'));
    assert(!seq!['3', '2'].contains('m'));
    assert(!seq!['3', '5'].contains('m'));
    assert(!seq!['3', '3'].contains('m'));
    assert(!seq!['9', '0'].contains('m'));
    lemma_strip_code(seq!['0'], y);
    lemma_strip_code(seq!['2'], y);
    lemma_strip_code(seq!['3', '4'], y);
    lemma_strip_code(seq!['3', '6'], y);
    lemma_strip_code(seq!['3', '2'], y);
    lemma_strip_code(seq!['3', '5'], y);
    lemma_strip_code(seq!['3', '3'], y);
    lemma_strip_code(seq!['9', '0'], y);
    assert(RESET@ + y =~= seq!['\x1b', '['] + seq!['0'] + seq!['m'] + y);
    assert(DIM@ + y =~= seq!['\x1b', '['] + seq!['2'] + seq!['m'] + y);
    assert(BLUE@ + y =~= seq!['\x1b', '['] + seq!['3', '4'] + seq!['m'] + y);
    assert(CYAN@ + y =~= seq!['\x1b', '['] + seq!['3', '6'] + seq!['m'] + y);
    assert(GREEN@ + y =~= seq!['\x1b', '['] + seq!['3', '2'] + seq!['m'] + y);
    assert(MAGENTA@ + y =~= seq!['\x1b', '['] + seq!['3', '5'] + seq!['m'] + y);
    assert(YELLOW@ + y =~= seq!['\x1b', '['] + seq!['3', '3'] + seq!['m'] + y);
    assert(BRIGHT_BLACK@ + y =~= seq!['\x1b', '['] + seq!['9', '0'] + seq!['m'] + y);
}

/// Taking the codes out of a span's output leaves its text.
pub proof fn lemma_strip_span(s: Span, y: Seq<char>)
    requires
        !s.text.contains('\x1b'),
    ensures
        strip_ansi(span_out(s) + y) == s.text + strip_ansi(y),
{
    match s.color {
        None => {
            lemma_strip_plain(s.text, y);
        },
        Some(c) => {
            assert(span_out(s) + y =~= c.code() + (s.text + (RESET@ + y)));
            lemma_strip_codes(s.text + (RESET@ + y));
            lemma_strip_plain(s.text, RESET@ + y);
            lemma_strip_codes(y);
        },
    }
}

/// Taking the codes out of the output of spans leaves their text.
pub proof fn lemma_strip_spans(spans: Seq<Span>, y: Seq<char>)
    requires
        !spans_text(spans).contains('\x1b'),
    ensures
        strip_ansi(render_spans(spans) + y) == spans_text(spans) + strip_ansi(y),
    decreases spans.len(),
{
    if spans.len() == 0 {
        assert(render_spans(spans) + y =~= y);
        assert(spans_text(spans) + strip_ansi(y) =~= strip_ansi(y));
    } else {
        let init = spans.drop_last();
        let last = spans.last();
        lemma_no_char_concat(spans_text(init), last.text, '\x1b');
        lemma_strip_span(last, y);
        lemma_strip_spans(init, span_out(last) + y);
        assert(render_spans(spans) + y =~= render_spans(init) + (span_out(last) + y));
        assert(spans_text(init) + (last.text + strip_ansi(y)) =~= spans_text(spans) + strip_ansi(y));
    }
}

/// Appends the output of one span, whose text is `chars[start..end]`.
pub(crate) fn emit_range(
    out: &mut String,
    color: Option<Color>,
    chars: &[char],
    start: usize,
    end: usize,
)
    requires
        start <= end <= chars@.len(),
    ensures
        final(out)@ == old(out)@ + span_out(Span { color, text: chars@.subrange(start as int, end as int) }),
{
    match color {
        Some(c) => out.append(c.as_str()),
        None => {},
    }
    let ghost before = out@;
    let mut i = start;
    while i < end
        invariant
            start <= i <= end <= chars@.len(),
            out@ == before + chars@.subrange(start as int, i as int),
        decreases end - i,
    {
        crate::text::push_char(out, chars[i]);
        assert(chars@.subrange(start as int, i + 1) =~= chars@.subrange(start as int, i as int).push(chars@[i as int]));
        i = i + 1;
    }
    match color {
        Some(c) => out.append(RESET),
        None => {},
    }
    assert(final(out)@ =~= old(out)@ + span_out(Span { color, text: chars@.subrange(start as int, end as int) }));
}

/// Appends the output of a one-character span.
pub(crate) fn emit_char(out: &mut String, color: Option<Color>, c: char)
    ensures
        final(out)@ == old(out)@ + span_out(Span { color, text: seq![c] }),
{
    match color {
        Some(k) => out.append(k.as_str()),
        None => {},
    }
    crate::text::push_char(out, c);
    match color {
        Some(k) => out.append(RESET),
        None => {},
    }
    assert(final(out)@ =~= old(out)@ + span_out(Span { color, text: seq![c] }));
}

} // verus!
