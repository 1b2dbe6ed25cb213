# void

VOID is a terminal program for moving through a zoomable map of notes,
projects, people and music. This crate holds its verified core, written in
Verus; the terminal program around it lives in `app/`.

## Layout

- `src/graph` — the world graph over petgraph's `StableGraph` (`stable.rs`
  declares the store and its model; `types.rs` is the graph with its id
  index, breadth-first walk and the rest; `reach.rs` defines distances and
  the order of a breadth-first walk;
  `layout.rs` groups a walk into levels; `laws.rs` states what the graph
  operations promise together).
- `src/state` — navigation: selection, the zoom trail, search, key and mouse
  handling, one turn of the event loop, and the laws that tie them together.
  Camera movement comes back as a list of `ViewCommand`s.
- `src/render` — themes, node glyphs and colours, node label text, the cells
  of an edge (Bresenham) and of a cluster frame.
- `src/animation`, `src/ecs`, `src/physics` — the step logic of animation
  sequences, the entity components, the constraint solver settings and the
  bucket store of the spatial hash.
- `src/text.rs`, `src/ids.rs` — the string operations and the random ids that
  the core takes from std and uuid; `src/seqs.rs` — facts about sequences.
- `app/` — the program: terminal input and drawing, the camera, easing,
  tweens, force-directed layout and physics, all of which work in floating
  point.
- `tests/` — tests of the library.
