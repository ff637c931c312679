# dioxus-showcase

The logic of a storybook-style showcase for Dioxus components, verified with Verus.

Component crates annotate functions with `#[showcase]`, `#[story]` and `#[provider]`; the
`dioxus-showcase` command-line tool scans those annotations, writes an advisory manifest and
scaffolds a small Dioxus app whose shell lists, filters and renders the stories.

## Layout

- `src/` is the verified library. Every public function states what it returns in its
  contract, and the laws of the library are public proof functions:
  - `slug`, `manifest`, `json`, `scaffold`: story ids, the JSON manifest and the generation
    token that identifies a discovery run.
  - `rust_source`, `discovery`, `paths`, `source_walk`, `meta`, `controls`, `expansion`:
    parsing source files and attribute arguments (through `syn`), the rules that turn
    annotated functions into story and provider definitions, which files a `mod` declaration
    names and which reached files the walk lists, the attribute rules, and everything the
    `#[showcase]`, `#[story]` and `#[provider]` macros decide from their input text.
  - `templates`, `check`, `commands`, `dev`, `config`, `cli`: what the commands write, check,
    prompt for and try.
  - `navigation`, `sidebar`, `filters`, `theme`, `base_path`, `registration`, `sorting`,
    `order`: the shell's tree, tag filters, theme, URLs, and the deterministic order of
    registered stories and providers.
- `tests/` exercises the library on concrete values.
- `app/` is the command-line tool around the library: argument parsing, the file system
  (reading files and asking for canonical paths while the library's walk decides), prompts,
  TOML and child processes.
