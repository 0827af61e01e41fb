# rimecraft_core

Core primitives of a block game engine, written in Verus: each public
function states its behaviour in `requires`/`ensures`, and Verus proves the
code against it.

## Layout

- `src/` is the verified library.
  - `varint`, `packet`: variable-length integers and the packet traits with
    their implementations for primitive values.
  - `palette`, `container`: palettes that map objects to small indices, and
    paletted containers that store those indices.
  - `component` (with `component::changes` and `component::packet`):
    component maps, patched maps and their changes, and the serialized and
    packet forms of both.
  - `item`, `block_entity`, `block_pos`, `entity`, `entity_data`,
    `advancement`, `option`, `context`, `local_cx`: items and stacks, block
    entities, block positions, entity bookkeeping and tracked data,
    advancement display flags, option callbacks and context traits.
  - `index_map`: the `ahash` maps and sets the library keeps, behind
    wrappers whose contracts state what each call does to the contents.
- `tests/` exercises the library from outside.
- `app/` holds what stays outside the proofs: serde glue, and the parts
  that compute in floating point (entity motion, movement input, hit
  results, slider progress, advancement display positions).
