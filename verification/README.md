# omni

fzf-backed pickers over tmux windows and panes — jump to any window, search the
content of a session's windows, capture a pane's scrollback — with the logic
written in Verus and proved against its contracts.

- `src/` — the verified library:
  - `text` — `str`-like primitives (split, lines, trim, words, integer parsing,
    decimal formatting) specified over character sequences;
  - `order` — recency/session order, how it is stored and read back, headers;
  - `sorting` — the numeric sort keys and the recency, visited and session
    orders;
  - `rows` — the window list: alarm states, column alignment, hoisting the
    current window;
  - `content` — captured panes as searchable rows, the blank-line test, the
    content picker's arguments and selections;
  - `position` — copy-mode placement and the capture viewer's first line;
  - `capture` — the capture's commands, in a window or in a popup over the
    pane (`@capture-overlay on`), OSC-8 stripping;
  - `env` — the exported-environment snapshot records;
  - `tmux`, `picker` — what tmux and fzf replies mean, picker arguments;
  - `trusted` — the calls into `regex` and the few `std` functions vstd does
    not specify, each with the contract it is believed to meet.
- `app/` — the `omni` binary: argument parsing, running tmux and fzf, files.
- `tests/` — runs the library on concrete values.
