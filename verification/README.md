# hexgame

The rules of a tactics game played on a hexagon grid, verified with Verus.

- `src/components`: hexagon coordinates (`Cell`, `Position`, `Hexagon`),
  their distances and neighbours, and units with their attacks and moves.
- `src/world.rs`: the entity world the game plays in.
- `src/gameworld.rs`: selecting, attacking, moving, new rounds, and the path
  search between hexagons (a shortest free path, found with the hexagon
  distance as estimate and the `priority_queue` crate as frontier).
- `src/frontier.rs`: the contracts the path search relies on for the
  priority queue.
- `src/addon`: the hexagon map add-on: axial hexagons, offset coordinates of
  tile maps, and the configuration checks of its nodes.
- `src/hexgrid.rs`, `src/hexfield.rs`, `src/nodes`, `src/systems`,
  `src/unit.rs`, `src/game_state.rs`: what the scene nodes decide.
- `app/`: the Godot classes, drawing, input and floating-point screen
  geometry around the library.
- `tests/`: the tests of the library.
