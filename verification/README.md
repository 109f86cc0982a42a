# tmux_dart

An EasyMotion-like cursor jump for tmux panes, written in Verus: the library
in `src/` is verified, `app/` holds the `tmux-dart` program around it.

## Layout

- `src/jump.rs`: match scanning (`word`, `char`, `line` modes, case folding).
- `src/labels.rs`: label alphabets, label generation and the key groups that
  recursive selection narrows to.
- `src/cells.rs`: grid geometry of a captured screen (display columns for the
  overlay, grid cells for copy-mode navigation).
- `src/overlay.rs`: overlay rendering, color decoding and screen recovery.
- `src/flow.rs`: the jump flow over the `TmuxBackend` trait.
- `src/tmux.rs`: pane state, capture ranges, prompt files and copy-mode
  command lists.
- `src/config.rs`, `src/cli.rs`: option values and the command line.
- `src/text.rs`, `src/unicode.rs`: string helpers, and the trusted wrappers
  around `unicode-segmentation`, `unicode-width` and std's `char` classes.
- `app/main.rs`: argument handling, the environment, and every call to tmux,
  prompt files and the pane's tty.
- `tests/`: the test suite, including whole jumps against a modelled pane.
