# cargo-scholium

A library and a `cargo` subcommand for `#[scholium::mark(...)]` annotations:
structured, Rust-native replacements for `TODO`-style comments, with a
severity, one or more `group::id` report ids, optional `see_also` links and a
mandatory `reason`.

The library (`src/`) is verified with Verus. It holds:

- `tokens`, `elements`, `arguments`: the grammar of the attribute's arguments,
  checked element by element, with the law that a list is accepted exactly
  when every element stands in its place and a reason is given;
- `ident`: identifiers, report ids and prefixes, and their text forms;
- `config`, `definitions`: report definitions by group, profiles, and how
  command-line and profile overrides resolve the severity of each report
  (the most specific prefix wins; the command line wins over the profile);
- `reports`: from the attributes of a file to what each of its reports
  comes to;
- `format_results`, `format_source_error`, `render`: the human text of
  reports and of source errors;
- `listing`, `packages`: the `list` and `explain` output, and which folders a
  report run walks;
- `outside`: the calls into `syn` (parsing a file and walking its
  attributes), `proc-macro2`, `unicode-ident`, `serde_json`, `nu-ansi-term`,
  `indexmap` and `std::path`, each with the contract the library relies on.

`app/` is the command itself: argument parsing, reading files and cargo
metadata, walking folders and the tracing set-up.
