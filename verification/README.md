# iff_editor

The logic of a rhythm-chart editor for `.spc` charts, verified with Verus.

- `src/spc.rs`: cutting SPC text into lines and call shapes (`name(a,b,...)`),
  and writing lines back, with the laws that written lines read back.
- `src/chart.rs`: ease and flick codes, per-kind counts, the chart header,
  BPM line fields.
- `src/chart_notes.rs`: the ids a loaded chart gives its notes and timeline
  events, and the editor's note order.
- `src/project.rs`: reading the asset paths of `.iffproj` project files
  (through `serde_json`) and writing asset paths relative to the project.
- `src/undo.rs`: the bounded undo history and its laws.
- `src/hit.rs`, `src/selection.rs`: the canonical order of hit candidates,
  click cycling over overlapping notes and events, note and event selection.
- `src/lane_drag.rs`, `src/paste.rs`: the lanes that dragged and pasted
  ground notes go to, kept within the lanes each note may occupy; when a
  paste is refused; ids for pasted notes.
- `src/note_types.rs`, `src/note_style.rs`, `src/playback.rs`,
  `src/view_mode.rs`, `src/clipboard.rs`: editor tools, lanes, colors, the
  player's state machine, the view mode and the clipboard.
- `app/`: the parts with floating-point numbers, files and JSON: the chart
  model, reading and writing `.spc` and `.iffproj` files, time keys for the clipboard, and
  drawing colors.
