# riposte_client

The verified core of the Riposte game client, written in Verus.

- `src/` is the library. Every function in it is verified against its
  `requires`/`ensures` contract: the tile map, unit stacks and their ordering,
  cheapest-path unit pathfinding (proved to find a path exactly when one
  exists, and one that no other walk undercuts), the network-ID and registry
  tables, the routing of server responses, the lobby and its screen, the
  menu's screens, the queue of deferred operations, the
  choice of sounds and music, the texts of the game screens, and the small
  decisions of the user interface. Public proof functions (`lemma_*`) state
  the laws that relate several operations, such as that unit stacks keep
  agreeing with unit positions as units are added, moved and deleted.
- `tests/` runs the library on concrete values.
- `app/` holds what the library cannot: floating-point work (progress bars,
  the fair random song picker), the glue that hands sounds to an audio engine,
  the game's directories on disk, and copies of the error types with their
  `std::error::Error` impls.

Outside crates are reached from `src/` only through small trusted wrappers
whose doc comments say what they claim: `ahash` hash maps and sets,
`indexmap`, `smallvec`, `anyhow` and `heck`.
