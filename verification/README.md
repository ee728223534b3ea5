# bevy_proto (verified core)

The data structures and rules behind prototype-based entity spawning,
written in Verus and proved against their contracts:

- `tree::access` — entity access paths (`/`, `..`, `@i`, `@n:id`, `~n`,
  `~id`, `~n:id`): building them, writing them as paths and reading paths
  back (writing then reading gives the access back for every access whose
  ids can be written unambiguously: no `/`, no `:` in an id, no id that
  reads as a number or as `.`/`..`, and so on; see `path_writable`).
- `tree::proto_tree` — the cached tree of a prototype: its own handle
  first, inherited templates after it without duplicates, children merged
  by merge key.
- `tree::entity_tree` — the breadth-first layout of a prototype tree into
  numbered nodes, and the navigation of access paths through it.
- `tree::builder` — building the tree of a prototype from its children and
  templates, with the registry as cache and a check for cycles along the
  path being built.
- `templates`, `registry` — the insertion-ordered template map (removal
  keeps the order of the rest), the load
  queue and the registry's bookkeeping.
- `registration` — registering, reloading (with the prototypes that depend
  on the reloaded one) and unregistering prototypes as asset events come.
- `schematics` — schematic ids and errors.
- `derive` — the attribute configuration of the `Schematic` and
  `AssetSchematic` derive macros: which settings combine, the messages of
  refused ones, and what the generated code does (which fields the input
  type declares and where each is read from, how each field is converted
  and preloaded, which impls are emitted and whether they are hidden).

`app/` holds what cannot be verified: deserializable and error types with
their derives, the entity spawning loop, the shared load queue, the
reporting of asset events, and the token building of the derive macros,
which follows the verified decisions.
