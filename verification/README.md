# voxel_game

A block-building voxel game. The rules of its world live in the verified library
under `src/`; the Bevy program under `app/` draws the world, reads the input
and runs the rules.

## Library (`src/`)

- `world` — chunked block storage (`Chunk`, `ChunkMap`), biomes, terrain
  layering, and which chunks around the player still need loading.
- `physics` — material properties, falling sand and liquids, material
  interactions, ghost cells between chunks, fire, fluids, explosions and
  player collision boxes.
- `inventory` — item stacks, the hotbar and backpack, crafting recipes.
- `combat` — boss attacks, difficulty by depth, monster spawning depths and
  spell effects.
- `rendering` — which faces of a chunk's mesh are visible, and its index
  buffer.
- `player` — breaking and placing blocks, number-key material selection.
- `game` — the screens and how events move between them.

Temperatures, fire lifetimes and fluid levels are single-precision values,
kept in the library as their bit patterns. Where a rule needs arithmetic on
them (a fire's next lifetime, a fluid's level after it drains, an
explosion's ignition radius), the program computes those values and hands
them to the library, whose contracts are stated in terms of them.

## Program (`app/`)

Bevy plugins: the game screens, the player controller and collision, chunk
loading and meshing, the HUD and debug overlay, and the floating-point parts
(noise, ray casting, monster and spell figures).
