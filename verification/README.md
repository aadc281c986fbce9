# diffie

The logic of a side-by-side diff and three-way merge viewer, written in Verus
and verified: character-level diffs of changed lines, grouping of line diffs
into hunks, the rows and highlights each pane shows, selections and copying,
anchor picking, find-in-panes with next/previous jumps, merge hunk layout and
resolution pickers, syntax highlighting with tree-sitter, the Recents list,
tab and window titles, dual-monitor pairing, the pieces a highlighted line is
painted in, the Swarm login dialog's state machine, and decoding of file
contents.

Layout:

- `src/` — the library. Each public function states its behaviour in
  `requires`/`ensures`, except the four in `swarm_creds` that only read or
  write the OS keychain (what the keychain holds is not the library's to
  state; the account names they use and how the two secrets are paired
  are); laws that relate several calls are public proof
  functions next to the code they are about (for example
  `recents::lemma_add_idempotent`, `char_diff::lemma_alignment_at_most_lcs`,
  `dual_monitor::lemma_adjacent_pairs_complete`).
- `tests/` — executable tests of the library.
- `app/` — a small command-line front end: file I/O, JSON persistence of
  Recents and preferences, and the process-wide whitespace settings.
