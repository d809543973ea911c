# beebo

Real-time SSH fleet monitoring in the terminal: every host of `~/.ssh/config`
as a tile with live CPU, memory and network sparklines, a focus view with an
interactive terminal, disk, process and system panels, and password fallback
when no key is accepted.

## Layout

- `src/` — the library, verified with Verus:
  - `text` — the character-level model of the string operations used
    (lines, trimming, words, decimal numbers);
  - `ssh_config`, `disk_info`, `process_info`, `system_info`, `metrics` —
    parsers of the SSH configuration and of the remote outputs, and the
    metric time series;
  - `grid_layout` — the saved arrangement of hosts into rows;
  - `dashboard`, `arrange`, `dashboard_laws` — the dashboard model, its
    operations, how it starts from a layout, and the laws it keeps (no host
    lost or duplicated, the cursor always valid, rows within capacity, what
    a cancelled move restores);
  - `session` — the course of a session from connecting to disconnected;
  - `input` — what keys do, and the bytes they send to a remote terminal;
  - `view`, `panels` — the texts, tones and sizes the screens show.
- `app/` — the program: terminal drawing (ratatui), the SSH sessions and
  remote commands (russh, russh-sftp, vt100, tokio), and the layout file
  (serde_yaml).
- `tests/` — tests of the library.
