# Bloksel

The world model of a block-based game engine, written in Verus: the
functions of the library under `src/` carry contracts that Verus proves,
apart from a few marked wrappers around outside crates (hashing, random
numbers, string conversions), whose contracts are trusted. File access,
noise sampling and floating-point motion live in the small headless driver
under `app/`, which hands the library plain values. The library holds the
decisions of rendering and windowing (device selection, swapchain shape,
frame slots, face geometry, index batching); the driver opens no window
and drives no graphics device, so those are exercised by the tests alone.

## Layout

- `src/voxel/` – blocks with properties, 16 x 256 x 16 chunks (lighting,
  heights, dirty flags), the block registry, and the world: chunk loading,
  unloading and streaming queues, world/chunk coordinate conversion.
- `src/block.rs`, `src/block_registry.rs` – block ids and their text form,
  sub-block grids, the registry of block definitions, variants and colours.
- `src/terrain_generator.rs`, `src/terrain/` – biome and layered terrain
  generation from sampled noise values, trees, strata, and the chunk loader.
- `src/world_engine.rs` – the quad tree of loaded chunks.
- `src/chunk_renderer.rs`, `src/chunk_faces.rs` – meshing: greedy boxes of
  equal blocks, face culling of cubic chunks, partial blocks, and the texture
  atlas layouts; `src/render/` – atlas packing, face geometry, and the
  choices of the graphics device setup (queue families, memory types,
  device selection, swapchain shape).
- `src/player/`, `src/physics/` – input state, movement modes, the
  controller's keys, surface materials.
- `src/ui/` – the menu's state machine, translations, the HUD, and the
  batching of interface primitives into one index buffer.
- `src/frame.rs` – the game loop's decisions: loading stage, frame slots,
  presentation results, window events, fatal errors.
- `src/config/`, `src/updater.rs`, `src/engine.rs` – settings, update
  checks, engine statistics.

The tests under `tests/` run the library on concrete values.
