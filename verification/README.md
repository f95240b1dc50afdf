# pcbmotorgen

Verified core of a generator for multi-layer PCB stator layouts of linear
coreless motors. Coil geometry, in integer nanometres, is turned into a DXF
file or into KiCad board items written in one commit; design-rule
interference checks and pre-write validation report problems without
touching the geometry.

- `src/` — the library, specified and proved with Verus: DXF export
  (`dxf`, `text`), KiCad board items and layers (`board_items`,
  `layer_map`), board queries and writes through a `BoardClient`
  (`board`, `edge_bbox`, `tally`, `code_counts`), diagnostics and dry-run previews
  (`diagnostics`, `preview`), DRC (`interference`, `clearance`, `rules`),
  and the desktop front end's rules for project files, plugins, the recent
  files menu and its wire types (`project`, `plugins`, `menu`, `ipc`).
- `tests/` — tests of the library on concrete values.
- `app/` — the desktop host: SI floating-point configuration and its
  validation, file and plugin storage, JSON wire copies of the library's
  types, and the floating-point bounding boxes of curved board graphics.
