# wsm — Windows Screen Manager

A command-line tool that saves the current monitor arrangement of a Windows
machine under an alias and restores it later (`wsm save`, `wsm load`,
`wsm list`, `wsm delete`).

Layout:

- `src/` — the library, verified with Verus:
  - `types.rs`: a monitor record and a configuration (the monitors of one profile);
  - `text.rs`: decimal numbers, padding, parsing of numbers, and the few std
    string functions the library relies on;
  - `display.rs`: UTF-16 buffers of the display API, display numbers, monitor
    models and labels, and the record built for each attached display;
  - `profiles.rs`: the profile store (profiles kept in the order first saved), its
    operations and their laws, errors and file formats;
  - `commands.rs`: what each command decides and prints — the staging order,
    the reports and messages.
- `app/` — the program: command-line parsing, the profile files (YAML or
  JSON through serde), the home directory, and the Win32 display calls.
- `tests/` — tests of the library.
