# omp_tui

The verified core of a terminal user interface: cell frames, text editing,
completion, widgets, and the rules behind an introspection socket. The functions
under `src/` are proved by [Verus](https://github.com/verus-lang/verus) against
the contracts they state, but for the wrappers around outside code: their
contracts are believed (see Trust).

## Layout

- `src/` — the library.
  - Cells and frames: `cell`, `row`, `frame`, `color`, `style`, `geometry`,
    `screen`, `escape`.
  - Presentation: `charset`, `theme`, `context`, `anim`, `markup`, `runs`,
    `clipping`, `lines`, `wrap`, `text`.
  - Editing: `buffer` with `motion`, `layout`, `kills`, `typing`, `words`,
    `references`, `atoms`, `transient`, `selecting`; `editor` with `prompting`,
    `composing`, `completion`, `commands`, `emoji`, `scoring`, `codes`, `paths`.
  - Widgets: `select`, `select_layout`, `select_paint`, `tree`, `tree_paint`,
    `tabs`, `wizard`, `pattern`, `segmented`, `table`, `scroll`, `status`,
    `gauge`, `state`, `spinner`, `strike`, `time`, `tool_card`.
  - Introspection: `serving`, `requests`, `keyspec`, `queries`, `input`, `events`.
- `app/` — the host side: measuring text, floating-point colors and percentages,
  live command providers, the emoji catalog, the file system and the socket. Not
  verified.
- `tests/` — the library run on concrete values.

## Trust

Outside crates are reached through the wrappers in `bits` (`smol_bitmap`),
`ranges` (`smallvec`), `atoms` (`im`) and `requests` (`serde_json`), and through
the few of the standard library that Verus has no specification for. Each
wrapper's doc comment says what is claimed of the function it calls.

A completion engine is code of the host's: `completion::EditorCompletion` states
for each request what an engine may answer, as a relation that the engine
defines. The editor's contracts say what it asks, and what it makes of the
answers.

## Text

The library never measures text: a host hands it grapheme clusters with their
widths (`text::Text`, `layout::Measured`), and the contracts say what is made of
them. Pasted text is cleaned by the host too (line ends, control characters,
composition; `measure::cleaned` in `app/`) before it is handed in.
