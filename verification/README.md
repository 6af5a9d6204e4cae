# recon

The logic of a terminal viewer for logs and source code: which lines of a file
are shown and how, where the filters come from and what becomes of them, and
the text formats around that. It is written in Rust and proved with Verus.

- `filter` holds the filters themselves. `filter::model` says what every
  operation means, `filter::sets` the sets that filters come in, and
  `filter::matcher` the snapshot that a scan over many files matches with.
  `filter::laws` states what holds of several operations together.
- `document` is a file's lines with a verdict on each; `headless` runs
  documents without a screen, and `emit` hands the result back.
- `filtersets` loads and saves sets of filters, `document_text` edits the TOML
  they are kept in, and `set_laws` states what holds of loading and saving.
- `config`, `editor` and `clipboard` resolve settings and commands; `keymap`
  and `help` the key bindings and the overlay that shows them.
- `text`, `path`, `pattern`, `colour` and `syntax` are what the others are
  written with.

`app/` is the shell around the library: arguments, files, processes and the
terminal. It is ordinary Rust.

What the proofs take on trust stands beside the calls it concerns: the regular
expression engine in `pattern`, TOML documents in `document_text`, colour names
in `colour`, the border of a panel in `help`, and a few functions of the
standard library in `text`, `document` and `help`.
