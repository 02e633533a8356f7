# brdb

Reading and writing Brickadia's `.brz` world archives, the pending
filesystem trees written into them, and the plain data of worlds (bricks,
colors, orientations, logic gates, name tables), with contracts proved by
Verus.

Layout:

- `src/` — the library. `brz`, `index`, `index_read`, `le`, `reader`: the
  archive and its index as bytes, with parse/write laws. `archive`,
  `archive_wf`, `archive_read`, `archive_tree`: packing a tree into an
  archive and what reading it back gives. `unpack`: an archive back into a tree. `pending`,
  `patch`, `insert`, `render`: pending trees. `bits`, `flat`, `model`,
  `logic`, `entities`, `brick`, `mps`, `global_data`: world data.
  `msgpack`, `schema_meta`, `mp_int`: the MessagePack schema head and
  integers, read and written through `rmp`. `value`: values written by a
  schema (structs, arrays, maps, enums, wire variants, flat arrays, zero
  values); `value_read`: values read back by a schema; `value_laws`: what
  reading gives back of what writing wrote, for every kind of value the
  reader takes back. `literal`: components given by name and property values. `components`:
  the component chunk of a grid chunk (runs of component types). `order`:
  the order of brick sizes and brick types. `tree_view`, `unsaved`: the folder layout of a new world or
  prefab file.
  `codec`: the calls into `blake3`, `zstd` and std that Verus takes on trust.
- `tests/` — tests run against the compiled library.
- `app/` — the `brzip` command line tool (file I/O, arguments) and the
  floating point color conversions.
