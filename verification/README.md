# poe_vis

A visualiser for the Path of Exile 2 passive tree, with its decision logic verified
by Verus.

- `src/` is the verified library: which nodes and edges light up, how a broken path is
  repaired and how a hovered path is previewed, how characters are overridden, synced,
  saved and loaded, how the configuration binds keys and colours, how clicks, hovers,
  hotkeys, search and remote requests turn into requests on the tree, and the state of
  the egui visualiser (`tree_vis`). Each public function states in its contract what it
  returns or changes; the laws that span several calls are public proof functions.
- `tests/` runs the library on concrete values.
- `app/` is the program around it: the bevy world, the files, the JSON-RPC server, the
  egui panels and everything that works in floating point (camera, zoom, drawing).
  `--legacy` runs the earlier egui visualiser on the same library state, and
  `--print-keys` prints the outline of the keys of the tree's data file.

The passive tree itself (its data, path searches and fuzzy search) comes from the
`poe_tree` crate of the same workspace; the library takes what those searches return
as arguments.
