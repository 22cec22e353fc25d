# scat

A small terminal file viewer: syntax highlighting for a dozen languages,
Markdown and MDX, coloured `git diff` output, line numbers and a pager.

`src/` is the library, verified with Verus. Each highlighter is specified as a
sequence of spans (a piece of the line and its colour), the output is the
spans rendered with ANSI codes, and the proofs show that the executable code
produces exactly that output and that the spans always cover the line, so
highlighting never changes the text. Argument parsing, `git diff` argument
construction, line splitting and numbering, language detection and the
pager/colour decisions are specified and proved the same way.

`app/` is the command-line program: it reads files, standard input and the
output of `git`, and writes to the terminal or to `$PAGER`.

Modules: `ansi` (colours, spans), `text` (characters, lines),
`language`, `args`, `highlight` (one highlighter per language family),
`simple` (one highlighter for all languages), `render` and `diff_render`
(numbered output), `git`, `input`, `dispatch`, `numbers`.
