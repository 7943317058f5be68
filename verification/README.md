# temper_game

The game logic of a Minecraft server, verified with Verus: block-state
registries and door interactions, pathfinding for land mobs, spawn-position
generation, command argument handling and replies, and the per-player
decisions of the packet handlers.

- `src/` is the verified library. Each module states its behaviour in
  `requires`/`ensures` contracts over mathematical models (`Seq`, `Map`,
  integers), and its laws as public proof functions.
  - `blocks`, `text`: block states, their string properties and the registry.
  - `world`: block positions, chunks and the loaded terrain.
  - `cost`, `astar`, `collections`: pathfinding penalties and weighted A*.
  - `interactions`: doors (toggling, breaking both halves).
  - `spawn`: chunk rings, valid spawn surfaces and the spawn queue.
  - `mobs`: mob profiles and the pig's per-tick decision.
  - `commands`, `messages`, `players`, `placement`: command arguments,
    server texts and packet-handler decisions.
- `app/` is ordinary Rust around the library: floating-point positions and
  velocities, time budgets and the loops that feed world data to it.
- `tests/` exercises the library on concrete values.
