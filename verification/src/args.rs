//! Command-line parsing.

use vstd::prelude::*;

use crate::language::Language;
use crate::text::str_eq;

verus! {

#[derive(Debug, Clone, PartialEq, Eq)]
pub struct Config {
    pub mode: Mode,
    pub line_numbers: bool,
    pub color: ColorMode,
    pub language: Option<Language>,
    pub pager: bool,
    pub help: bool,
}

#[derive(Debug, Clone, PartialEq, Eq)]
pub enum Mode {
    View { path: Option<String> },
    Diff(DiffConfig),
}

#[derive(Debug, Clone, PartialEq, Eq)]
pub struct DiffConfig {
    pub staged: bool,
    pub targets: Vec<String>,
}

#[derive(Debug, Clone, Copy, PartialEq, Eq, Structural)]
pub enum ColorMode {
    Auto,
    Always,
    Never,
}

#[derive(Debug, Clone, PartialEq, Eq)]
pub enum ArgsError {
    InvalidLanguage(String),
    MissingValue(&'static str),
    StagedRequiresDiff,
    TooManyDiffTargets,
    TooManyInputs,
    UnknownFlag(String),
}

/// What a mode holds, with strings as character sequences.
pub enum ModeView {
    View { path: Option<Seq<char>> },
    Diff { staged: bool, targets: Seq<Seq<char>> },
}

pub struct ConfigView {
    pub mode: ModeView,
    pub line_numbers: bool,
    pub color: ColorMode,
    pub language: Option<Language>,
    pub pager: bool,
    pub help: bool,
}

pub enum ArgsErrorView {
    InvalidLanguage(Seq<char>),
    MissingValue(Seq<char>),
    StagedRequiresDiff,
    TooManyDiffTargets,
    TooManyInputs,
    UnknownFlag(Seq<char>),
}

pub open spec fn string_views(v: Seq<String>) -> Seq<Seq<char>> {
    v.map_values(|s: String| s@)
}

pub open spec fn str_views(v: Seq<&str>) -> Seq<Seq<char>> {
    v.map_values(|s: &str| s@)
}

impl View for Mode {
    type V = ModeView;

    open spec fn view(&self) -> ModeView {
        match self {
            Mode::View { path } => ModeView::View {
                path: match path { Some(p) => Some(p@), None => None },
            },
            Mode::Diff(d) => ModeView::Diff { staged: d.staged, targets: string_views(d.targets@) },
        }
    }
}

impl View for Config {
    type V = ConfigView;

    open spec fn view(&self) -> ConfigView {
        ConfigView {
            mode: self.mode@,
            line_numbers: self.line_numbers,
            color: self.color,
            language: self.language,
            pager: self.pager,
            help: self.help,
        }
    }
}

impl View for ArgsError {
    type V = ArgsErrorView;

    open spec fn view(&self) -> ArgsErrorView {
        match self {
            ArgsError::InvalidLanguage(l) => ArgsErrorView::InvalidLanguage(l@),
            ArgsError::MissingValue(f) => ArgsErrorView::MissingValue(f@),
            ArgsError::StagedRequiresDiff => ArgsErrorView::StagedRequiresDiff,
            ArgsError::TooManyDiffTargets => ArgsErrorView::TooManyDiffTargets,
            ArgsError::TooManyInputs => ArgsErrorView::TooManyInputs,
            ArgsError::UnknownFlag(f) => ArgsErrorView::UnknownFlag(f@),
        }
    }
}

pub open spec fn result_view(r: Result<Config, ArgsError>) -> Result<ConfigView, ArgsErrorView> {
    match r {
        Ok(c) => Ok(c@),
        Err(e) => Err(e@),
    }
}

/// What parsing has gathered so far.
pub struct ParseState {
    pub path: Option<Seq<char>>,
    pub line_numbers: bool,
    pub color: ColorMode,
    pub language: Option<Language>,
    pub pager: bool,
    pub help: bool,
    pub diff: bool,
    pub staged: bool,
    pub targets: Seq<Seq<char>>,
}

pub open spec fn initial_state() -> ParseState {
    ParseState {
        path: None,
        line_numbers: true,
        color: ColorMode::Auto,
        language: None,
        pager: false,
        help: false,
        diff: false,
        staged: false,
        targets: Seq::empty(),
    }
}

/// Records the input path; a second one is an error.
pub open spec fn with_path(st: ParseState, p: Seq<char>) -> Result<ParseState, ArgsErrorView> {
    if st.path is Some {
        Err(ArgsErrorView::TooManyInputs)
    } else {
        Ok(ParseState { path: Some(p), ..st })
    }
}

/// Reads the arguments from `i` on.  `-l`/`--language` takes the next
/// argument as its value; `-` is the input (stdin) in view mode and a
/// target in diff mode; any other argument that starts with `-` and is not
/// a known flag is an error; anything else is the input path, or a diff
/// target once `--diff` has been seen.
pub open spec fn parse_from(args: Seq<Seq<char>>, i: int, st: ParseState) -> Result<ParseState, ArgsErrorView>
    decreases args.len() - i,
{
    if i < 0 || i >= args.len() {
        Ok(st)
    } else {
        let a = args[i];
        if a == "-h"@ || a == "--help"@ {
            parse_from(args, i + 1, ParseState { help: true, ..st })
        } else if a == "-l"@ || a == "--language"@ {
            if i + 1 >= args.len() {
                Err(ArgsErrorView::MissingValue("--language"@))
            } else {
                match Language::spec_from_name(args[i + 1]) {
                    Some(l) => parse_from(args, i + 2, ParseState { language: Some(l), ..st }),
                    None => Err(ArgsErrorView::InvalidLanguage(args[i + 1])),
                }
            }
        } else if a == "-n"@ || a == "--line-numbers"@ {
            parse_from(args, i + 1, ParseState { line_numbers: true, ..st })
        } else if a == "--no-line-numbers"@ {
            parse_from(args, i + 1, ParseState { line_numbers: false, ..st })
        } else if a == "--color"@ {
            parse_from(args, i + 1, ParseState { color: ColorMode::Always, ..st })
        } else if a == "--plain"@ || a == "--no-color"@ {
            parse_from(args, i + 1, ParseState { color: ColorMode::Never, ..st })
        } else if a == "--pager"@ {
            parse_from(args, i + 1, ParseState { pager: true, ..st })
        } else if a == "--diff"@ {
            parse_from(args, i + 1, ParseState { diff: true, ..st })
        } else if a == "--staged"@ {
            parse_from(args, i + 1, ParseState { staged: true, ..st })
        } else if a == "-"@ && !st.diff {
            match with_path(st, a) {
                Ok(s2) => parse_from(args, i + 1, s2),
                Err(e) => Err(e),
            }
        } else if a == "-"@ {
            parse_from(args, i + 1, ParseState { targets: st.targets.push(a), ..st })
        } else if a.len() > 0 && a[0] == '-' {
            Err(ArgsErrorView::UnknownFlag(a))
        } else if st.diff {
            parse_from(args, i + 1, ParseState { targets: st.targets.push(a), ..st })
        } else {
            match with_path(st, a) {
                Ok(s2) => parse_from(args, i + 1, s2),
                Err(e) => Err(e),
            }
        }
    }
}

/// The configuration `args` describe, or why they describe none: after
/// reading them, `--staged` needs `--diff` and `--diff` takes at most two
/// targets.
pub open spec fn spec_parse(args: Seq<Seq<char>>) -> Result<ConfigView, ArgsErrorView> {
    match parse_from(args, 0, initial_state()) {
        Err(e) => Err(e),
        Ok(st) => if st.staged && !st.diff {
            Err(ArgsErrorView::StagedRequiresDiff)
        } else if st.targets.len() > 2 {
            Err(ArgsErrorView::TooManyDiffTargets)
        } else {
            Ok(ConfigView {
                mode: if st.diff {
                    ModeView::Diff { staged: st.staged, targets: st.targets }
                } else {
                    ModeView::View { path: st.path }
                },
                line_numbers: st.line_numbers,
                color: st.color,
                language: st.language,
                pager: st.pager,
                help: st.help,
            })
        },
    }
}

fn set_path(path: &mut Option<String>, value: &str) -> (r: Result<(), ArgsError>)
    ensures
        *old(path) is Some ==> (r matches Err(e) && e is TooManyInputs && opt_view(*final(path)) == opt_view(*old(path))),
        *old(path) is None ==> (r is Ok && opt_view(*final(path)) == Some(value@)),
{
    if path.is_some() {
        return Err(ArgsError::TooManyInputs);
    }
    *path = Some(value.to_owned());
    Ok(())
}

pub open spec fn opt_view(p: Option<String>) -> Option<Seq<char>> {
    match p {
        Some(s) => Some(s@),
        None => None,
    }
}

impl Config {
    /// Parses the command-line arguments (without the program name).
    pub fn parse(args: &[&str]) -> (r: Result<Config, ArgsError>)
        ensures
            result_view(r) == spec_parse(str_views(args@)),
    {
        let ghost a = str_views(args@);
        let mut path: Option<String> = None;
        let mut line_numbers = true;
        let mut color = ColorMode::Auto;
        let mut language: Option<Language> = None;
        let mut pager = false;
        let mut help = false;
        let mut diff = false;
        let mut staged = false;
        let mut targets: Vec<String> = Vec::new();
        let len = args.len();
        let mut i: usize = 0;
        assert(string_views(targets@) =~= Seq::<Seq<char>>::empty());
        while i < len
            invariant
                len == args@.len(),
                a == str_views(args@),
                i <= len,
                parse_from(a, 0, initial_state()) == parse_from(a, i as int, ParseState {
                    path: opt_view(path),
                    line_numbers,
                    color,
                    language,
                    pager,
                    help,
                    diff,
                    staged,
                    targets: string_views(targets@),
                }),
            decreases len - i,
        {
            let arg = args[i];
            assert(a[i as int] == arg@);
            if str_eq(arg, "-h") || str_eq(arg, "--help") {
                help = true;
                i = i + 1;
            } else if str_eq(arg, "-l") || str_eq(arg, "--language") {
                if i + 1 >= len {
                    return Err(ArgsError::MissingValue("--language"));
                }
                let value = args[i + 1];
                assert(a[i + 1] == value@);
                match Language::from_name(value) {
                    Some(l) => {
                        language = Some(l);
                        i = i + 2;
                    },
                    None => {
                        return Err(ArgsError::InvalidLanguage(value.to_owned()));
                    },
                }
            } else if str_eq(arg, "-n") || str_eq(arg, "--line-numbers") {
                line_numbers = true;
                i = i + 1;
            } else if str_eq(arg, "--no-line-numbers") {
                line_numbers = false;
                i = i + 1;
            } else if str_eq(arg, "--color") {
                color = ColorMode::Always;
                i = i + 1;
            } else if str_eq(arg, "--plain") || str_eq(arg, "--no-color") {
                color = ColorMode::Never;
                i = i + 1;
            } else if str_eq(arg, "--pager") {
                pager = true;
                i = i + 1;
            } else if str_eq(arg, "--diff") {
                diff = true;
                i = i + 1;
            } else if str_eq(arg, "--staged") {
                staged = true;
                i = i + 1;
            } else if str_eq(arg, "-") && !diff {
                match set_path(&mut path, arg) {
                    Ok(()) => {},
                    Err(e) => { return Err(e); },
                }
                i = i + 1;
            } else if str_eq(arg, "-") {
                let ghost old_t = targets@;
                targets.push(arg.to_owned());
                assert(string_views(targets@) =~= string_views(old_t).push(arg@));
                i = i + 1;
            } else if arg.unicode_len() > 0 && arg.get_char(0) == '-' {
                return Err(ArgsError::UnknownFlag(arg.to_owned()));
            } else if diff {
                let ghost old_t = targets@;
                targets.push(arg.to_owned());
                assert(string_views(targets@) =~= string_views(old_t).push(arg@));
                i = i + 1;
            } else {
                match set_path(&mut path, arg) {
                    Ok(()) => {},
                    Err(e) => { return Err(e); },
                }
                i = i + 1;
            }
        }
        if staged && !diff {
            return Err(ArgsError::StagedRequiresDiff);
        }
        if targets.len() > 2 {
            return Err(ArgsError::TooManyDiffTargets);
        }
        let mode = if diff {
            Mode::Diff(DiffConfig { staged, targets })
        } else {
            Mode::View { path }
        };
        Ok(Config { mode, line_numbers, color, language, pager, help })
    }
}

pub const HELP_TEXT: &'static str = "Usage: scat [OPTIONS] [FILE|-]\n       scat --diff [--staged] [PATH|REF REF]\n\nOptions:\n      --diff              Show git diff output\n      --staged            Show staged git diff output\n  -l, --language <lang>   Force language highlighting\n  -n, --line-numbers      Show line numbers (default)\n      --no-line-numbers   Hide line numbers\n      --color             Force ANSI colors\n      --plain             Disable colors and highlighting\n      --no-color          Disable colors and highlighting\n      --pager             Send output to $PAGER or less -R\n  -h, --help              Show this help\n\nSupported languages: json, js, ts, jsx, tsx, go, rust, swift, kotlin, java, markdown, mdx\nWhen FILE is omitted or '-' is used, scat reads from stdin.\nBy default, color is enabled only for terminal output. Set NO_COLOR to disable ANSI output.";

/// The usage text printed for `--help`.
pub fn help_text() -> (text: &'static str)
    ensures
        text@ == HELP_TEXT@,
{
    HELP_TEXT
}

/// The message shown to the user for an error.
pub open spec fn error_message(e: ArgsErrorView) -> Seq<char> {
    match e {
        ArgsErrorView::InvalidLanguage(l) => "unsupported language '"@ + l + "'"@,
        ArgsErrorView::MissingValue(f) => "missing value for '"@ + f + "'"@,
        ArgsErrorView::StagedRequiresDiff => "--staged can only be used with --diff"@,
        ArgsErrorView::TooManyDiffTargets => "--diff accepts at most two targets"@,
        ArgsErrorView::TooManyInputs => "too many input paths; pass a single file or '-'"@,
        ArgsErrorView::UnknownFlag(f) => "unknown flag '"@ + f + "'"@,
    }
}

impl ArgsError {
    /// The message shown to the user for this error.
    pub fn message(&self) -> (m: String)
        ensures
            m@ == error_message(self@),
    {
        match self {
            ArgsError::InvalidLanguage(l) => {
                let mut m = String::new();
                m.append("unsupported language '");
                m.append(l.as_str());
                m.append("'");
                m
            },
            ArgsError::MissingValue(f) => {
                let mut m = String::new();
                m.append("missing value for '");
                m.append(f);
                m.append("'");
                m
            },
            ArgsError::StagedRequiresDiff => "--staged can only be used with --diff".to_owned(),
            ArgsError::TooManyDiffTargets => "--diff accepts at most two targets".to_owned(),
            ArgsError::TooManyInputs => "too many input paths; pass a single file or '-'".to_owned(),
            ArgsError::UnknownFlag(f) => {
                let mut m = String::new();
                m.append("unknown flag '");
                m.append(f.as_str());
                m.append("'");
                m
            },
        }
    }
}

pub proof fn lemma_diff_stays_off(args: Seq<Seq<char>>, i: int, st: ParseState)
    requires
        !st.diff,
        !args.contains("--diff"@),
    ensures
        parse_from(args, i, st) matches Ok(end) ==> !end.diff,
    decreases args.len() - i,
{
    if 0 <= i < args.len() {
        let a = args[i];
        assert(args[i] != "--diff"@) by {
            if args[i] == "--diff"@ {
                assert(args.contains("--diff"@));
            }
        }
        if a == "-h"@ || a == "--help"@ {
            lemma_diff_stays_off(args, i + 1, ParseState { help: true, ..st });
        } else if a == "-l"@ || a == "--language"@ {
            if i + 1 < args.len() {
                if let Some(l) = Language::spec_from_name(args[i + 1]) {
                    lemma_diff_stays_off(args, i + 2, ParseState { language: Some(l), ..st });
                }
            }
        } else if a == "-n"@ || a == "--line-numbers"@ {
            lemma_diff_stays_off(args, i + 1, ParseState { line_numbers: true, ..st });
        } else if a == "--no-line-numbers"@ {
            lemma_diff_stays_off(args, i + 1, ParseState { line_numbers: false, ..st });
        } else if a == "--color"@ {
            lemma_diff_stays_off(args, i + 1, ParseState { color: ColorMode::Always, ..st });
        } else if a == "--plain"@ || a == "--no-color"@ {
            lemma_diff_stays_off(args, i + 1, ParseState { color: ColorMode::Never, ..st });
        } else if a == "--pager"@ {
            lemma_diff_stays_off(args, i + 1, ParseState { pager: true, ..st });
        } else if a == "--staged"@ {
            lemma_diff_stays_off(args, i + 1, ParseState { staged: true, ..st });
        } else if a == "-"@ || !(a.len() > 0 && a[0] == '-') {
            if let Ok(s2) = with_path(st, a) {
                lemma_diff_stays_off(args, i + 1, s2);
            }
        }
    }
}

/// Without `--diff` among the arguments, a successful parse is in view mode.
pub proof fn law_view_without_diff(args: Seq<Seq<char>>)
    requires
        !args.contains("--diff"@),
    ensures
        spec_parse(args) matches Ok(c) ==> c.mode is View,
{
    lemma_diff_stays_off(args, 0, initial_state());
}

/// A successful parse never has more than two diff targets.
pub proof fn law_at_most_two_targets(args: Seq<Seq<char>>)
    ensures
        spec_parse(args) matches Ok(c) ==> (c.mode matches ModeView::Diff { targets, .. } ==> targets.len() <= 2),
{
}


/// An argument that names an input: `-`, or anything that does not start
/// with `-`.
pub open spec fn is_path_arg(a: Seq<char>) -> bool {
    a == "-"@ || !(a.len() > 0 && a[0] == '-')
}

pub open spec fn is_line_number_flag(a: Seq<char>) -> bool {
    a == "-n"@ || a == "--line-numbers"@ || a == "--no-line-numbers"@
}

pub open spec fn is_color_flag(a: Seq<char>) -> bool {
    a == "--color"@ || a == "--plain"@ || a == "--no-color"@
}

/// The flags that take no value and leave view mode as it is.
pub open spec fn is_view_flag(a: Seq<char>) -> bool {
    a == "-h"@ || a == "--help"@ || is_line_number_flag(a) || is_color_flag(a) || a == "--pager"@
}

/// An argument that may stand in a view-mode command line without
/// `-l`/`--language`: a path, a flag without value, or `--staged`.
pub open spec fn is_view_mode_arg(a: Seq<char>) -> bool {
    is_path_arg(a) || is_view_flag(a) || a == "--staged"@
}

/// The path arguments among `args[i..]`, in order.
pub open spec fn path_args_from(args: Seq<Seq<char>>, i: int) -> Seq<Seq<char>>
    decreases args.len() - i,
{
    if i < 0 || i >= args.len() {
        Seq::empty()
    } else if is_path_arg(args[i]) {
        seq![args[i]] + path_args_from(args, i + 1)
    } else {
        path_args_from(args, i + 1)
    }
}

/// The path arguments among `args`, in order.
pub open spec fn path_args(args: Seq<Seq<char>>) -> Seq<Seq<char>> {
    path_args_from(args, 0)
}

/// Whether `x` is among `args[i..]`.
pub open spec fn occurs_from(args: Seq<Seq<char>>, i: int, x: Seq<char>) -> bool {
    exists|k: int| i <= k < args.len() && #[trigger] args[k] == x
}

/// The position of the last line-number flag in `args`, or -1.
pub open spec fn last_line_number_flag(args: Seq<Seq<char>>) -> int
    decreases args.len(),
{
    if args.len() == 0 {
        -1
    } else if is_line_number_flag(args.last()) {
        args.len() - 1
    } else {
        last_line_number_flag(args.drop_last())
    }
}

/// The position of the last colour flag in `args`, or -1.
pub open spec fn last_color_flag(args: Seq<Seq<char>>) -> int
    decreases args.len(),
{
    if args.len() == 0 {
        -1
    } else if is_color_flag(args.last()) {
        args.len() - 1
    } else {
        last_color_flag(args.drop_last())
    }
}

/// Line numbers are on unless the last line-number flag turns them off.
pub open spec fn line_numbers_chosen(args: Seq<Seq<char>>) -> bool {
    let k = last_line_number_flag(args);
    k < 0 || args[k] != "--no-line-numbers"@
}

/// The colour mode the last colour flag picks: `Auto` without one,
/// `Always` for `--color`, `Never` for `--plain` and `--no-color`.
pub open spec fn color_chosen(args: Seq<Seq<char>>) -> ColorMode {
    let k = last_color_flag(args);
    if k < 0 {
        ColorMode::Auto
    } else if args[k] == "--color"@ {
        ColorMode::Always
    } else {
        ColorMode::Never
    }
}

/// The path already recorded, as a sequence of at most one path.
spec fn path_seq(p: Option<Seq<char>>) -> Seq<Seq<char>> {
    match p {
        Some(x) => seq![x],
        None => Seq::empty(),
    }
}

proof fn lemma_last_line_number_flag(args: Seq<Seq<char>>)
    ensures
        -1 <= last_line_number_flag(args) < args.len(),
        last_line_number_flag(args) >= 0 ==> is_line_number_flag(args[last_line_number_flag(args)]),
        forall|j: int| last_line_number_flag(args) < j < args.len() ==> !is_line_number_flag(#[trigger] args[j]),
    decreases args.len(),
{
    if args.len() > 0 && !is_line_number_flag(args.last()) {
        let d = args.drop_last();
        lemma_last_line_number_flag(d);
        assert forall|j: int| last_line_number_flag(args) < j < args.len() implies !is_line_number_flag(#[trigger] args[j]) by {
            if j < args.len() - 1 {
                assert(d[j] == args[j]);
            }
        }
    }
}

proof fn lemma_last_color_flag(args: Seq<Seq<char>>)
    ensures
        -1 <= last_color_flag(args) < args.len(),
        last_color_flag(args) >= 0 ==> is_color_flag(args[last_color_flag(args)]),
        forall|j: int| last_color_flag(args) < j < args.len() ==> !is_color_flag(#[trigger] args[j]),
    decreases args.len(),
{
    if args.len() > 0 && !is_color_flag(args.last()) {
        let d = args.drop_last();
        lemma_last_color_flag(d);
        assert forall|j: int| last_color_flag(args) < j < args.len() implies !is_color_flag(#[trigger] args[j]) by {
            if j < args.len() - 1 {
                assert(d[j] == args[j]);
            }
        }
    }
}

proof fn lemma_occurs_step(args: Seq<Seq<char>>, i: int, x: Seq<char>)
    requires
        0 <= i < args.len(),
    ensures
        occurs_from(args, i, x) == (args[i] == x || occurs_from(args, i + 1, x)),
{
    if occurs_from(args, i, x) {
        let k = choose|k: int| i <= k < args.len() && #[trigger] args[k] == x;
        if k > i {
            assert(occurs_from(args, i + 1, x));
        }
    }
}

/// Enough of the spelling of each flag to tell them apart, and from paths.
proof fn lemma_flag_spelling()
    ensures
        "-"@.len() == 1 && "-"@[0] == '-',
        "-h"@.len() == 2 && "-h"@[0] == '-' && "-h"@[1] == 'h',
        "-l"@.len() == 2 && "-l"@[0] == '-' && "-l"@[1] == 'l',
        "-n"@.len() == 2 && "-n"@[0] == '-' && "-n"@[1] == 'n',
        "--help"@.len() == 6 && "--help"@[0] == '-' && "--help"@[2] == 'h',
        "--diff"@.len() == 6 && "--diff"@[0] == '-' && "--diff"@[2] == 'd',
        "--color"@.len() == 7 && "--color"@[0] == '-' && "--color"@[2] == 'c',
        "--plain"@.len() == 7 && "--plain"@[0] == '-' && "--plain"@[2] == 'p' && "--plain"@[3] == 'l',
        "--pager"@.len() == 7 && "--pager"@[0] == '-' && "--pager"@[2] == 'p' && "--pager"@[3] == 'a',
        "--staged"@.len() == 8 && "--staged"@[0] == '-',
        "--language"@.len() == 10 && "--language"@[0] == '-' && "--language"@[2] == 'l',
        "--no-color"@.len() == 10 && "--no-color"@[0] == '-' && "--no-color"@[2] == 'n',
        "--line-numbers"@.len() == 14 && "--line-numbers"@[0] == '-',
        "--no-line-numbers"@.len() == 17 && "--no-line-numbers"@[0] == '-',
{
    reveal_strlit("-");
    reveal_strlit("-h");
    reveal_strlit("-l");
    reveal_strlit("-n");
    reveal_strlit("--help");
    reveal_strlit("--diff");
    reveal_strlit("--color");
    reveal_strlit("--plain");
    reveal_strlit("--pager");
    reveal_strlit("--staged");
    reveal_strlit("--language");
    reveal_strlit("--no-color");
    reveal_strlit("--line-numbers");
    reveal_strlit("--no-line-numbers");
}

/// What parsing `args[i..]` from `st` gives when every argument there is a
/// view-mode argument and diff mode is off.
spec fn view_outcome(args: Seq<Seq<char>>, i: int, st: ParseState) -> Result<ParseState, ArgsErrorView> {
    let q = path_seq(st.path) + path_args_from(args, i);
    let kl = last_line_number_flag(args);
    let kc = last_color_flag(args);
    if q.len() >= 2 {
        Err(ArgsErrorView::TooManyInputs)
    } else {
        Ok(ParseState {
            path: if q.len() == 1 { Some(q[0]) } else { None },
            line_numbers: if kl >= i { args[kl] != "--no-line-numbers"@ } else { st.line_numbers },
            color: if kc >= i {
                if args[kc] == "--color"@ { ColorMode::Always } else { ColorMode::Never }
            } else {
                st.color
            },
            language: st.language,
            pager: st.pager || occurs_from(args, i, "--pager"@),
            help: st.help || occurs_from(args, i, "-h"@) || occurs_from(args, i, "--help"@),
            diff: false,
            staged: st.staged || occurs_from(args, i, "--staged"@),
            targets: st.targets,
        })
    }
}

#[verifier::rlimit(50)]
proof fn lemma_view_args(args: Seq<Seq<char>>, i: int, st: ParseState)
    requires
        0 <= i <= args.len(),
        !st.diff,
        forall|k: int| i <= k < args.len() ==> is_view_mode_arg(#[trigger] args[k]),
    ensures
        parse_from(args, i, st) == view_outcome(args, i, st),
    decreases args.len() - i,
{
    lemma_last_line_number_flag(args);
    lemma_last_color_flag(args);
    if i == args.len() {
        assert(path_seq(st.path) + path_args_from(args, i) =~= path_seq(st.path));
        assert(!occurs_from(args, i, "--pager"@));
        assert(!occurs_from(args, i, "-h"@));
        assert(!occurs_from(args, i, "--help"@));
        assert(!occurs_from(args, i, "--staged"@));
    } else {
        lemma_flag_spelling();
        lemma_occurs_step(args, i, "--pager"@);
        lemma_occurs_step(args, i, "-h"@);
        lemma_occurs_step(args, i, "--help"@);
        lemma_occurs_step(args, i, "--staged"@);
        let a = args[i];
        assert(is_view_mode_arg(a));
        let kl = last_line_number_flag(args);
        let kc = last_color_flag(args);
        if is_path_arg(a) {
            assert(path_args_from(args, i) == seq![a] + path_args_from(args, i + 1));
            assert(kl != i);
            assert(kc != i);
            if st.path is None {
                let s2 = ParseState { path: Some(a), ..st };
                assert(with_path(st, a) == Ok::<ParseState, ArgsErrorView>(s2));
                lemma_view_args(args, i + 1, s2);
                assert(path_seq(s2.path) + path_args_from(args, i + 1) =~= path_seq(st.path) + path_args_from(args, i));
            } else {
                assert(with_path(st, a) == Err::<ParseState, ArgsErrorView>(ArgsErrorView::TooManyInputs));
                assert((path_seq(st.path) + path_args_from(args, i)).len() >= 2);
            }
        } else {
            assert(path_args_from(args, i) == path_args_from(args, i + 1));
            if a == "-h"@ || a == "--help"@ {
                assert(kl != i && kc != i);
                lemma_view_args(args, i + 1, ParseState { help: true, ..st });
            } else if a == "-n"@ || a == "--line-numbers"@ {
                assert(kc != i);
                assert(kl >= i);
                lemma_view_args(args, i + 1, ParseState { line_numbers: true, ..st });
            } else if a == "--no-line-numbers"@ {
                assert(kc != i);
                assert(kl >= i);
                lemma_view_args(args, i + 1, ParseState { line_numbers: false, ..st });
            } else if a == "--color"@ {
                assert(kl != i);
                assert(kc >= i);
                lemma_view_args(args, i + 1, ParseState { color: ColorMode::Always, ..st });
            } else if a == "--plain"@ || a == "--no-color"@ {
                assert(kl != i);
                assert(kc >= i);
                lemma_view_args(args, i + 1, ParseState { color: ColorMode::Never, ..st });
            } else if a == "--pager"@ {
                assert(kl != i && kc != i);
                lemma_view_args(args, i + 1, ParseState { pager: true, ..st });
            } else {
                assert(a == "--staged"@);
                assert(kl != i && kc != i);
                lemma_view_args(args, i + 1, ParseState { staged: true, ..st });
            }
        }
    }
}

proof fn lemma_no_path_args(args: Seq<Seq<char>>, i: int)
    requires
        forall|k: int| i <= k < args.len() ==> !is_path_arg(#[trigger] args[k]),
    ensures
        path_args_from(args, i) == Seq::<Seq<char>>::empty(),
    decreases args.len() - i,
{
    if 0 <= i < args.len() {
        lemma_no_path_args(args, i + 1);
    }
}

proof fn lemma_diff_args(args: Seq<Seq<char>>, i: int, st: ParseState)
    requires
        0 <= i <= args.len(),
        st.diff,
        forall|k: int| i <= k < args.len() ==> (#[trigger] args[k] == "--staged"@ || is_path_arg(args[k])),
    ensures
        parse_from(args, i, st) == Ok::<ParseState, ArgsErrorView>(ParseState {
            staged: st.staged || occurs_from(args, i, "--staged"@),
            targets: st.targets + path_args_from(args, i),
            ..st
        }),
    decreases args.len() - i,
{
    if i == args.len() {
        assert(st.targets + path_args_from(args, i) =~= st.targets);
        assert(!occurs_from(args, i, "--staged"@));
    } else {
        lemma_flag_spelling();
        lemma_occurs_step(args, i, "--staged"@);
        let a = args[i];
        if a == "--staged"@ {
            assert(path_args_from(args, i) == path_args_from(args, i + 1));
            lemma_diff_args(args, i + 1, ParseState { staged: true, ..st });
        } else {
            assert(is_path_arg(a));
            assert(path_args_from(args, i) == seq![a] + path_args_from(args, i + 1));
            let s2 = ParseState { targets: st.targets.push(a), ..st };
            lemma_diff_args(args, i + 1, s2);
            assert(s2.targets + path_args_from(args, i + 1) =~= st.targets + path_args_from(args, i));
        }
    }
}

/// Without `--diff` and `-l`/`--language`, when every argument is a path,
/// `--staged` or a flag that takes no value: two or more paths are refused
/// with `TooManyInputs`; with at most one, `--staged` is refused with
/// `StagedRequiresDiff`; otherwise the result is view mode on that path, or
/// on standard input when there is none.
pub proof fn law_view_arguments(args: Seq<Seq<char>>)
    requires
        forall|k: int| 0 <= k < args.len() ==> is_view_mode_arg(#[trigger] args[k]),
    ensures
        path_args(args).len() >= 2 ==> spec_parse(args) == Err::<ConfigView, ArgsErrorView>(ArgsErrorView::TooManyInputs),
        path_args(args).len() <= 1 && args.contains("--staged"@) ==> spec_parse(args) == Err::<ConfigView, ArgsErrorView>(ArgsErrorView::StagedRequiresDiff),
        path_args(args).len() <= 1 && !args.contains("--staged"@) ==> (spec_parse(args) matches Ok(c) && c.mode == (ModeView::View {
            path: if path_args(args).len() == 1 { Some(path_args(args)[0]) } else { None },
        })),
{
    let st = initial_state();
    lemma_view_args(args, 0, st);
    assert(path_seq(st.path) + path_args(args) =~= path_args(args));
    assert(occurs_from(args, 0, "--staged"@) == args.contains("--staged"@));
}

/// With `--diff` first and after it only `--staged` and paths: the paths
/// are the diff targets, in order; more than two are refused with
/// `TooManyDiffTargets`; otherwise `staged` is set exactly when `--staged`
/// is given.
pub proof fn law_diff_arguments(args: Seq<Seq<char>>)
    requires
        args.len() > 0,
        args[0] == "--diff"@,
        forall|k: int| 1 <= k < args.len() ==> (#[trigger] args[k] == "--staged"@ || is_path_arg(args[k])),
    ensures
        path_args_from(args, 1).len() > 2 ==> spec_parse(args) == Err::<ConfigView, ArgsErrorView>(ArgsErrorView::TooManyDiffTargets),
        path_args_from(args, 1).len() <= 2 ==> (spec_parse(args) matches Ok(c) && c.mode == (ModeView::Diff {
            staged: args.contains("--staged"@),
            targets: path_args_from(args, 1),
        })),
{
    lemma_flag_spelling();
    let st = ParseState { diff: true, ..initial_state() };
    lemma_diff_args(args, 1, st);
    assert(st.targets + path_args_from(args, 1) =~= path_args_from(args, 1));
    lemma_occurs_step(args, 0, "--staged"@);
    assert(occurs_from(args, 0, "--staged"@) == args.contains("--staged"@));
}

/// With flags that take no value alone: view mode on standard input, no
/// language, help when `-h` or `--help` is given, the pager when `--pager`
/// is given, and for line numbers and colour the last flag of each group
/// decides (line numbers on and `Auto` colour without one).
pub proof fn law_flags_only(args: Seq<Seq<char>>)
    requires
        forall|k: int| 0 <= k < args.len() ==> is_view_flag(#[trigger] args[k]),
    ensures
        spec_parse(args) == Ok::<ConfigView, ArgsErrorView>(ConfigView {
            mode: ModeView::View { path: None },
            line_numbers: line_numbers_chosen(args),
            color: color_chosen(args),
            language: None,
            pager: args.contains("--pager"@),
            help: args.contains("-h"@) || args.contains("--help"@),
        }),
{
    lemma_flag_spelling();
    let st = initial_state();
    assert forall|k: int| 0 <= k < args.len() implies is_view_mode_arg(#[trigger] args[k]) by {
        assert(is_view_flag(args[k]));
    }
    assert forall|k: int| 0 <= k < args.len() implies !is_path_arg(#[trigger] args[k]) by {
        assert(is_view_flag(args[k]));
    }
    lemma_no_path_args(args, 0);
    lemma_view_args(args, 0, st);
    lemma_last_line_number_flag(args);
    lemma_last_color_flag(args);
    assert(path_seq(st.path) + path_args(args) =~= Seq::<Seq<char>>::empty());
    assert(!occurs_from(args, 0, "--staged"@)) by {
        if occurs_from(args, 0, "--staged"@) {
            let k = choose|k: int| 0 <= k < args.len() && #[trigger] args[k] == "--staged"@;
            assert(is_view_flag(args[k]));
        }
    }
    assert(occurs_from(args, 0, "--pager"@) == args.contains("--pager"@));
    assert(occurs_from(args, 0, "-h"@) == args.contains("-h"@));
    assert(occurs_from(args, 0, "--help"@) == args.contains("--help"@));
}

} // verus!
