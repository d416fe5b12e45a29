# m1-doc

Documentation generator for MoTeC M1 projects. It reads a `Project.m1prj` and
emits a Markdown and HTML reference of the project's channels, parameters,
constants, functions, tables, objects, CAN messages and references, organised by
group, plus an optional machine-readable JSON document.

The library (`src/`) is written in Verus: every function carries a contract and
is proved against it.

- `loader` builds the documentation model from the project's symbol table,
  given as plain records: one page per group (every ancestor group included),
  members on their immediate parent group in path order, page-unique anchors,
  resolved reference targets, the Enums reference, and each function's script.
- `graph` and `syntax` derive the relationship graph (call / read / write /
  reference edges) from the outermost paths of each script.
- `model`, `facets`, `scope` and `anchored` hold the model, its statistics and
  facets, scoped views, and the deep-linkable entities.
- `diagram` computes the neighbourhood and subsystem diagrams and renders them as
  Mermaid and as inline JSON.
- `markdown`, `html` and `json` render the model; HTML pages are rendered from
  the Markdown with pulldown-cmark.
- `suggest` finds the nearest group for a mistyped `--graph` argument.
- `limits` checks that a model is within what the renderers can count and
  walk, before they are called.

`app/` is the command-line program around the library: argument handling, the
project and script files on disk, the m1-core and m1-typecheck calls, and writing
the output.

## Usage

```sh
m1-doc --project path/to/Project.m1prj --out site --format both
```

`--format` is `markdown`, `html`, `both` (default) or `json`;
`--only-security` and `--only-tag` scope the output to matching symbols;
`--graph <group>` adds a focused subsystem-graph page.
