# wzmapeditor

The editing logic of a Warzone 2100 map editor, written in Verus. The
functions in `src/` carry contracts that Verus proves; the few that only
call the standard library (`str::to_lowercase`, `String::push`,
`Arc::clone`) are marked `external_body`, and their contracts are
assumptions, said so in their doc comments.

- `src/map_model.rs` - the map document (tiles, gateways, objects, labels)
  and its mathematical view.
- `src/history.rs`, `object_edit.rs`, `label_tool.rs`, `gateway_tool.rs`,
  `stamp_command.rs`, `property_edit.rs` - the undoable edit commands and the
  undo/redo stacks; undoing a command built against a map restores it.
- `src/wall_tool.rs`, `wall_render.rs` - wall families, wall shapes from
  neighbour masks, stroke painting (which walls a press or drag places,
  tile by tile along the stroke) and the per-frame wall index.
- `src/stamp_transform.rs`, `stamp_tool.rs` - rotating and mirroring stamp
  patterns, and the stamp tool's capture and mode transitions.
- `src/designer.rs`, `stats.rs`, `stats_mapper.rs` - droid-template
  validation against the stats tables, and stat-name to model resolution.
- `src/loader_cache.rs`, `keyed_table.rs` - the model loader's caches, with
  the invariant that a model name is in at most one of the parsed, uploaded
  and missing sets.
- `src/file_index.rs` - the case-insensitive file-name index of model files
  and texture pages.
- `src/page_atlas.rs` - the four-layer texture array of a model, with
  nearest-neighbour resampling of odd-sized pages.
- `src/balance.rs`, `balance_panel.rs` - balance analysis and its panel.
- `src/help.rs`, `help_search.rs` - help topics, context lookup and search.
- `src/water.rs` - water tiles and the riverbed the game digs under them,
  with its Mersenne Twister jitter.
- `src/stats_bridge.rs` - what map validation reads from the stats tables.
- `src/render_diag.rs` - the renderer report's histograms and map lines.
- `src/testing.rs`, `logger.rs`, `text.rs` - smaller pieces: test-launch
  rules, log routing, string helpers.

`app/` holds what stays outside the proofs: the `log`/`env_logger` logger,
the skirmish config JSON, reading help bodies from disk, the walks over the
data directories that find model files and fill the file index, and the
floating-point water sheet and lightmap over the riverbed. `tests/` runs the
library on concrete inputs.
