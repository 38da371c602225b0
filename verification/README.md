# nexterm-client

The verified core of the Nexterm terminal client, written in Verus.

`src/` is the library; every function in it is verified against its
`requires`/`ensures` contract:

- `command_blocks` — folding OSC 133 semantic marks into command blocks,
  block navigation, collapsing, the overlay pass and the replay sanitiser.
- `named_blocks` — the in-memory store of user-assigned block names, with its
  soft cap.
- `accessibility` — accessibility node ids (encoding and decoding) and the
  text of terminal rows.
- `key_map` — physical keys to protocol keys, and configured keybinding
  strings to and from key presses.
- `host_manager` — the SSH host picker: `~/.ssh/config` parsing, filtering,
  ranking and connection history; password entry.
- `macro_picker` — the macro picker.
- `ranking` — fuzzy scoring and the ordering shared by both pickers.
- `colors` — which colour a cell takes (overrides, scheme, built-in table) and
  custom palette parsing.
- `drop_target` — where a dragged tab was dropped.
- `glyph_atlas`, `icons` — glyph cache keys, cache sizing, the shelf packer
  of the glyph atlas and the LRU cache of packed glyphs.
- `font` — the integer side of rasterising: attribute runs of a row, glyph
  coverage written into bitmaps, and glyphs cut out of a shaped run.
- `animations` — the motion table, timers, the press and surface state
  machines, and the start times of tab-switch and pane fade-in transitions.
- `picker_nodes` — accessibility nodes, and those of the two pickers.
- `pane_tree` — the base of the accessibility tree: tabs, window buttons,
  panes with their visible rows and scrollback window, the caret, and the
  input buffer.
- `tree_nodes` — the whole accessibility tree: the overlay of highest
  priority (close dialog, Quick Select, context menu, and the others), the
  info bars and the alert region, and the focus.
- `tree_state` — the change detector of the tree: the state it reads laid
  out as self-delimiting words for hashing; SSH host labels.
  The command palette's nodes, the settings panel's nodes and the info
  bars' nodes are built outside this crate and handed to `build_tree`; the
  settings panel's action routing is not part of the crate.
- `alerts` — the screen-reader alert queue: sequence numbers, the cap, expiry
  and dismissal.
- `notification` — the text of desktop notifications.
- `ipc` — endpoint names and message framing.
- `text` — character-level helpers (whitespace, trimming, lowercasing,
  decimal digits).

`tests/` exercises the library. `app/` is the program around it: reading and
writing the state files, the environment, desktop notifications, the font
engine and the GPU texture of the glyph atlas, the conversions from the
windowing and accessibility toolkits' types, and the floating-point parts of
rendering (colour blending, easing curves, springs, the window-edge hit
test).
