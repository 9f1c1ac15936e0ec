# zr-proxy

A terminal tool for macOS that starts applications with a proxy server passed
on their command line (`open -na "<App>.app" --args --proxy-server="<url>"`),
keeps a list of the applications the user launches this way, and copies the
launch command to the clipboard.

Layout:

- `src/` — the library, written in Verus and verified:
  - `state.rs`: the application state and what each key press does to it,
    specified by `step` and returned as an `Effect` for the program to carry out;
  - `laws.rs`: properties of every run (the selection stays in its list, the
    picker shows exactly the matches of the search, quitting and removing an
    application take two presses, a failed launch offers the removal, an
    address that is not an HTTP or SOCKS proxy is refused, no path is listed
    twice, editors give back what they were shown);
  - `config.rs`, `launch.rs`, `proxy.rs`, `apps.rs`, `path.rs`, `text.rs`, `screen.rs`,
    `theme.rs`, `key.rs`, `terminal.rs`: the configuration, the launch command,
    application discovery, path and text handling, and the screen texts.
- `app/` — the program around it: terminal, drawing with ratatui, the
  configuration file, the file system, `open` and the clipboard.
- `tests/` — tests of the library on concrete values.
