//! The languages the viewer knows, and how one is picked for an input.

use vstd::prelude::*;

use crate::highlight::helpers::next_non_ws_from;
use crate::text::str_eq;

verus! {

#[derive(Clone, Copy, Debug, PartialEq, Eq, Structural)]
pub enum Language {
    PlainText,
    Json,
    JavaScript,
    TypeScript,
    Jsx,
    Tsx,
    Go,
    Rust,
    Swift,
    Kotlin,
    Java,
    Markdown,
    Mdx,
}

/// The names that `--language` accepts, and the language of each.
pub open spec fn name_table() -> Seq<(&'static str, Language)> {
    seq![
        ("plain", Language::PlainText),
        ("text", Language::PlainText),
        ("json", Language::Json),
        ("js", Language::JavaScript),
        ("javascript", Language::JavaScript),
        ("ts", Language::TypeScript),
        ("typescript", Language::TypeScript),
        ("jsx", Language::Jsx),
        ("tsx", Language::Tsx),
        ("go", Language::Go),
        ("golang", Language::Go),
        ("rust", Language::Rust),
        ("rs", Language::Rust),
        ("swift", Language::Swift),
        ("kotlin", Language::Kotlin),
        ("kt", Language::Kotlin),
        ("java", Language::Java),
        ("markdown", Language::Markdown),
        ("md", Language::Markdown),
        ("mdx", Language::Mdx),
    ]
}

/// The file extensions that select a language, and the language of each.
pub open spec fn extension_table() -> Seq<(&'static str, Language)> {
    seq![
        ("json", Language::Json),
        ("js", Language::JavaScript),
        ("mjs", Language::JavaScript),
        ("cjs", Language::JavaScript),
        ("ts", Language::TypeScript),
        ("mts", Language::TypeScript),
        ("cts", Language::TypeScript),
        ("jsx", Language::Jsx),
        ("tsx", Language::Tsx),
        ("go", Language::Go),
        ("rs", Language::Rust),
        ("swift", Language::Swift),
        ("kt", Language::Kotlin),
        ("kts", Language::Kotlin),
        ("java", Language::Java),
        ("md", Language::Markdown),
        ("markdown", Language::Markdown),
        ("mdx", Language::Mdx),
    ]
}

/// The language of the first entry of `table` whose key is `key`.
pub open spec fn lookup(table: Seq<(&'static str, Language)>, key: Seq<char>) -> Option<Language>
    decreases table.len(),
{
    if table.len() == 0 {
        None
    } else if table[0].0@ == key {
        Some(table[0].1)
    } else {
        lookup(table.drop_first(), key)
    }
}

fn name_entries() -> (v: Vec<(&'static str, Language)>)
    ensures
        v@ == name_table(),
{
    let v = vec![
        ("plain", Language::PlainText),
        ("text", Language::PlainText),
        ("json", Language::Json),
        ("js", Language::JavaScript),
        ("javascript", Language::JavaScript),
        ("ts", Language::TypeScript),
        ("typescript", Language::TypeScript),
        ("jsx", Language::Jsx),
        ("tsx", Language::Tsx),
        ("go", Language::Go),
        ("golang", Language::Go),
        ("rust", Language::Rust),
        ("rs", Language::Rust),
        ("swift", Language::Swift),
        ("kotlin", Language::Kotlin),
        ("kt", Language::Kotlin),
        ("java", Language::Java),
        ("markdown", Language::Markdown),
        ("md", Language::Markdown),
        ("mdx", Language::Mdx),
    ];
    assert(v@ =~= name_table());
    v
}

fn extension_entries() -> (v: Vec<(&'static str, Language)>)
    ensures
        v@ == extension_table(),
{
    let v = vec![
        ("json", Language::Json),
        ("js", Language::JavaScript),
        ("mjs", Language::JavaScript),
        ("cjs", Language::JavaScript),
        ("ts", Language::TypeScript),
        ("mts", Language::TypeScript),
        ("cts", Language::TypeScript),
        ("jsx", Language::Jsx),
        ("tsx", Language::Tsx),
        ("go", Language::Go),
        ("rs", Language::Rust),
        ("swift", Language::Swift),
        ("kt", Language::Kotlin),
        ("kts", Language::Kotlin),
        ("java", Language::Java),
        ("md", Language::Markdown),
        ("markdown", Language::Markdown),
        ("mdx", Language::Mdx),
    ];
    assert(v@ =~= extension_table());
    v
}

fn lookup_in(table: &Vec<(&'static str, Language)>, key: &str) -> (r: Option<Language>)
    ensures
        r == lookup(table@, key@),
{
    let mut i: usize = 0;
    assert(table@.skip(0) =~= table@);
    while i < table.len()
        invariant
            i <= table@.len(),
            lookup(table@, key@) == lookup(table@.skip(i as int), key@),
        decreases table@.len() - i,
    {
        let (name, lang) = table[i];
        assert(table@.skip(i as int)[0] == table@[i as int]);
        assert(table@.skip(i as int).drop_first() =~= table@.skip(i + 1));
        if str_eq(name, key) {
            return Some(lang);
        }
        i = i + 1;
    }
    None
}

/// The index of the last `x` among the first `k` characters of `c`, or -1.
pub open spec fn last_index_before(c: Seq<char>, k: int, x: char) -> int
    decreases k,
{
    if k <= 0 || k > c.len() {
        -1
    } else if c[k - 1] == x {
        k - 1
    } else {
        last_index_before(c, k - 1, x)
    }
}

pub proof fn lemma_last_index_bounds(c: Seq<char>, k: int, x: char)
    requires
        0 <= k <= c.len(),
    ensures
        -1 <= last_index_before(c, k, x) < k,
        last_index_before(c, k, x) >= 0 ==> c[last_index_before(c, k, x)] == x,
    decreases k,
{
    if k > 0 && c[k - 1] != x {
        lemma_last_index_bounds(c, k - 1, x);
    }
}

fn last_index(c: &Vec<char>, k: usize, x: char) -> (r: Option<usize>)
    requires
        k <= c@.len(),
    ensures
        match r {
            Some(p) => p == last_index_before(c@, k as int, x),
            None => last_index_before(c@, k as int, x) == -1,
        },
{
    proof { lemma_last_index_bounds(c@, k as int, x); }
    let mut j = k;
    while j > 0
        invariant
            j <= k <= c@.len(),
            last_index_before(c@, k as int, x) == last_index_before(c@, j as int, x),
        decreases j,
    {
        if c[j - 1] == x {
            return Some(j - 1);
        }
        j = j - 1;
    }
    None
}

/// The length of `path` without its trailing slashes.
pub open spec fn trimmed_len(path: Seq<char>, k: int) -> int
    decreases k,
{
    if k <= 0 || k > path.len() {
        0
    } else if path[k - 1] == '/' {
        trimmed_len(path, k - 1)
    } else {
        k
    }
}

pub proof fn lemma_trimmed_len_bounds(path: Seq<char>, k: int)
    requires
        0 <= k <= path.len(),
    ensures
        0 <= trimmed_len(path, k) <= k,
    decreases k,
{
    if k > 0 && path[k - 1] == '/' {
        lemma_trimmed_len_bounds(path, k - 1);
    }
}

/// The last component of a `/`-separated path.
pub open spec fn file_name(path: Seq<char>) -> Seq<char> {
    let n = trimmed_len(path, path.len() as int);
    path.subrange(last_index_before(path, n, '/') + 1, n)
}

/// What follows the last `.` of the file name, unless that `.` opens the
/// name (`.bashrc`) or the name is `.` or `..`.
pub open spec fn extension(path: Seq<char>) -> Option<Seq<char>> {
    let f = file_name(path);
    let d = last_index_before(f, f.len() as int, '.');
    if d <= 0 || f == seq!['.', '.'] {
        None
    } else {
        Some(f.subrange(d + 1, f.len() as int))
    }
}

impl Language {
    /// The language that `--language <name>` selects.
    pub open spec fn spec_from_name(name: Seq<char>) -> Option<Language> {
        lookup(name_table(), name)
    }

    /// The language a file's extension selects.
    pub open spec fn spec_from_path(path: Seq<char>) -> Option<Language> {
        match extension(path) {
            Some(ext) => lookup(extension_table(), ext),
            None => None,
        }
    }

    /// Content that starts with `{` or `[` (after blanks) is JSON; anything
    /// else is plain text.
    pub open spec fn spec_infer_from_content(content: Seq<char>) -> Language {
        if next_non_ws_from(content, 0, '{') || next_non_ws_from(content, 0, '[') {
            Language::Json
        } else {
            Language::PlainText
        }
    }

    pub fn from_name(name: &str) -> (r: Option<Language>)
        ensures
            r == Language::spec_from_name(name@),
    {
        let table = name_entries();
        lookup_in(&table, name)
    }

    pub fn from_path(path: &str) -> (r: Option<Language>)
        ensures
            r == Language::spec_from_path(path@),
    {
        let c = crate::text::to_chars(path);
        let ghost p = c@;
        let mut n = c.len();
        proof { lemma_trimmed_len_bounds(p, n as int); }
        while n > 0 && c[n - 1] == '/'
            invariant
                n <= p.len(),
                p == c@,
                trimmed_len(p, p.len() as int) == trimmed_len(p, n as int),
            decreases n,
        {
            n = n - 1;
        }
        proof { lemma_trimmed_len_bounds(p, p.len() as int); lemma_last_index_bounds(p, n as int, '/'); }
        let slash = last_index(&c, n, '/');
        let start = match slash {
            Some(p) => p + 1,
            None => 0,
        };
        let ghost f = file_name(p);
        assert(f =~= p.subrange(start as int, n as int));
        let mut name: Vec<char> = Vec::new();
        let mut i = start;
        while i < n
            invariant
                start <= i <= n <= c@.len(),
                name@ == c@.subrange(start as int, i as int),
            decreases n - i,
        {
            name.push(c[i]);
            assert(c@.subrange(start as int, i + 1) =~= c@.subrange(start as int, i as int).push(c@[i as int]));
            i = i + 1;
        }
        assert(name@ == f);
        proof { lemma_last_index_bounds(f, f.len() as int, '.'); }
        let dot = last_index(&name, name.len(), '.');
        let dot = match dot {
            Some(d) if d > 0 => d,
            _ => return None,
        };
        if name.len() == 2 && name[0] == '.' && name[1] == '.' {
            assert(f =~= seq!['.', '.']);
            return None;
        }
        assert(f != seq!['.', '.']) by {
            if f =~= seq!['.', '.'] {
                assert(name@.len() == 2 && name@[0] == '.' && name@[1] == '.');
            }
        }
        let ext = crate::text::collect_range(name.as_slice(), dot + 1, name.len());
        let table = extension_entries();
        lookup_in(&table, ext.as_str())
    }

    pub fn infer_from_content(content: &str) -> (r: Language)
        ensures
            r == Language::spec_infer_from_content(content@),
    {
        let c = crate::text::to_chars(content);
        if crate::highlight::helpers::next_non_ws_is(c.as_slice(), 0, '{')
            || crate::highlight::helpers::next_non_ws_is(c.as_slice(), 0, '[')
        {
            Language::Json
        } else {
            Language::PlainText
        }
    }
}

pub const JSON_KEYWORDS: [&'static str; 3] = [
    "true",
    "false",
    "null",
];

pub const JS_KEYWORDS: [&'static str; 43] = [
    "async",
    "await",
    "break",
    "case",
    "catch",
    "class",
    "const",
    "continue",
    "debugger",
    "default",
    "delete",
    "do",
    "else",
    "export",
    "extends",
    "finally",
    "for",
    "from",
    "function",
    "if",
    "import",
    "in",
    "instanceof",
    "let",
    "new",
    "null",
    "of",
    "return",
    "static",
    "super",
    "switch",
    "this",
    "throw",
    "true",
    "false",
    "try",
    "typeof",
    "undefined",
    "var",
    "void",
    "while",
    "with",
    "yield",
];

pub const TS_KEYWORDS: [&'static str; 60] = [
    "abstract",
    "any",
    "as",
    "async",
    "await",
    "boolean",
    "break",
    "case",
    "catch",
    "class",
    "const",
    "continue",
    "declare",
    "default",
    "delete",
    "do",
    "else",
    "enum",
    "export",
    "extends",
    "false",
    "finally",
    "for",
    "from",
    "function",
    "if",
    "implements",
    "import",
    "in",
    "instanceof",
    "interface",
    "keyof",
    "let",
    "namespace",
    "never",
    "new",
    "null",
    "number",
    "of",
    "private",
    "protected",
    "public",
    "readonly",
    "return",
    "static",
    "string",
    "super",
    "switch",
    "this",
    "throw",
    "true",
    "try",
    "type",
    "typeof",
    "undefined",
    "unknown",
    "var",
    "void",
    "while",
    "yield",
];

pub const GO_KEYWORDS: [&'static str; 28] = [
    "break",
    "case",
    "chan",
    "const",
    "continue",
    "default",
    "defer",
    "else",
    "fallthrough",
    "false",
    "for",
    "func",
    "go",
    "goto",
    "if",
    "import",
    "interface",
    "map",
    "nil",
    "package",
    "range",
    "return",
    "select",
    "struct",
    "switch",
    "true",
    "type",
    "var",
];

pub const RUST_KEYWORDS: [&'static str; 37] = [
    "as",
    "async",
    "await",
    "break",
    "const",
    "continue",
    "crate",
    "dyn",
    "else",
    "enum",
    "false",
    "fn",
    "for",
    "if",
    "impl",
    "in",
    "let",
    "loop",
    "match",
    "mod",
    "move",
    "mut",
    "pub",
    "ref",
    "return",
    "self",
    "Self",
    "static",
    "struct",
    "super",
    "trait",
    "true",
    "type",
    "unsafe",
    "use",
    "where",
    "while",
];

pub const SWIFT_KEYWORDS: [&'static str; 51] = [
    "as",
    "associatedtype",
    "break",
    "case",
    "catch",
    "class",
    "continue",
    "default",
    "defer",
    "deinit",
    "do",
    "else",
    "enum",
    "extension",
    "fallthrough",
    "false",
    "for",
    "func",
    "guard",
    "if",
    "import",
    "in",
    "init",
    "inout",
    "internal",
    "is",
    "let",
    "nil",
    "open",
    "operator",
    "private",
    "protocol",
    "public",
    "repeat",
    "rethrows",
    "return",
    "self",
    "Self",
    "static",
    "struct",
    "subscript",
    "super",
    "switch",
    "throw",
    "throws",
    "true",
    "try",
    "typealias",
    "var",
    "where",
    "while",
];

pub const KOTLIN_KEYWORDS: [&'static str; 36] = [
    "as",
    "break",
    "class",
    "continue",
    "data",
    "do",
    "else",
    "false",
    "for",
    "fun",
    "if",
    "import",
    "in",
    "interface",
    "internal",
    "is",
    "null",
    "object",
    "open",
    "override",
    "package",
    "private",
    "protected",
    "public",
    "return",
    "sealed",
    "super",
    "this",
    "throw",
    "true",
    "try",
    "typealias",
    "val",
    "var",
    "when",
    "while",
];

pub const JAVA_KEYWORDS: [&'static str; 46] = [
    "abstract",
    "boolean",
    "break",
    "byte",
    "case",
    "catch",
    "char",
    "class",
    "const",
    "continue",
    "default",
    "do",
    "double",
    "else",
    "enum",
    "extends",
    "false",
    "finally",
    "float",
    "for",
    "if",
    "implements",
    "import",
    "instanceof",
    "int",
    "interface",
    "long",
    "new",
    "null",
    "package",
    "private",
    "protected",
    "public",
    "return",
    "short",
    "static",
    "super",
    "switch",
    "this",
    "throw",
    "throws",
    "true",
    "try",
    "void",
    "volatile",
    "while",
];

pub const NO_KEYWORDS: [&'static str; 0] = [];

/// Whether `word` is one of `list`.
pub open spec fn listed(list: Seq<&'static str>, word: Seq<char>) -> bool {
    exists|i: int| 0 <= i < list.len() && #[trigger] list[i]@ == word
}

fn contains_word(list: &[&'static str], word: &str) -> (r: bool)
    ensures
        r == listed(list@, word@),
{
    let mut i: usize = 0;
    while i < list.len()
        invariant
            i <= list@.len(),
            forall|j: int| 0 <= j < i ==> #[trigger] list@[j]@ != word@,
        decreases list@.len() - i,
    {
        if str_eq(list[i], word) {
            assert(list@[i as int]@ == word@);
            return true;
        }
        i = i + 1;
    }
    false
}

impl Language {
    /// The reserved words of the language, highlighted by the code highlighters.
    pub open spec fn spec_keywords(self) -> Seq<&'static str> {
        match self {
            Language::Json => JSON_KEYWORDS@,
            Language::JavaScript | Language::Jsx => JS_KEYWORDS@,
            Language::TypeScript | Language::Tsx => TS_KEYWORDS@,
            Language::Go => GO_KEYWORDS@,
            Language::Rust => RUST_KEYWORDS@,
            Language::Swift => SWIFT_KEYWORDS@,
            Language::Kotlin => KOTLIN_KEYWORDS@,
            Language::Java => JAVA_KEYWORDS@,
            _ => NO_KEYWORDS@,
        }
    }

    pub open spec fn is_keyword(self, word: Seq<char>) -> bool {
        listed(self.spec_keywords(), word)
    }

    pub fn keywords(self) -> (r: &'static [&'static str])
        ensures
            r@ == self.spec_keywords(),
    {
        match self {
            Language::Json => &JSON_KEYWORDS,
            Language::JavaScript | Language::Jsx => &JS_KEYWORDS,
            Language::TypeScript | Language::Tsx => &TS_KEYWORDS,
            Language::Go => &GO_KEYWORDS,
            Language::Rust => &RUST_KEYWORDS,
            Language::Swift => &SWIFT_KEYWORDS,
            Language::Kotlin => &KOTLIN_KEYWORDS,
            Language::Java => &JAVA_KEYWORDS,
            _ => &NO_KEYWORDS,
        }
    }

    /// Whether `word` is a reserved word of the language.
    pub fn has_keyword(self, word: &str) -> (r: bool)
        ensures
            r == self.is_keyword(word@),
    {
        contains_word(self.keywords(), word)
    }
}

} // verus!
