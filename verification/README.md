# macrokid_graphics

Descriptions of graphics pipelines, resource bindings, vertex layouts, render graphs,
system schedules and procedural assets, with the rules that turn them into Vulkan
state. The library in `src/` is verified with Verus: each public function states in
`requires` / `ensures` what it returns or, where it calls methods of traits that users
implement, which calls it makes and how their results make up its own (`call_ensures`).
Token streams are opaque: the join of two of them is named, not described. The
properties that span functions are proof functions named `law_*`.

## Layout

- `src/` — the verified library
  - `text` — string helpers (trimming, case, splitting, number parsing) with their specs
  - `pipeline`, `engine` — pipeline descriptions and attribute parsing, engine options,
    the builder, option merging and config validation
  - `resources` — binding and vertex-attribute rules: sizes, sorting, offsets, strides
  - `attr_parse` — attribute parsing on token trees (`#[uniform(..)]`, `key = "value"` lists)
  - `schedule` — stage declarations, Kahn ordering and layering, conflict-free batching
  - `render_graph` — pass kinds, usages, sizes, resource planning and pass outputs
  - `assets`, `asset_specs` — meshes, index generators, RGBA8 textures, asset attributes
  - `lighting` — lighting models, their shaders and bindings
  - `vulkan`, `device_setup`, `frame_loop` — Vulkan formats, states, adapter, surface
    and present-mode choices, render pass, depth, descriptor pool and write plans,
    shader loading, and the window loop as a state machine
  - `gpu_sync`, `barriers` — stage, access and layout hints for GPU resources, and the
    barrier report
  - `proto` — conversion of serialized configurations
  - `codegen` — code generation combinators for derive macros
- `app/` — what sits around the library: floating-point geometry and textures,
  environment variables, token streams, and the ash/winit backend that performs the
  device calls the library decides on
- `tests/` — tests run against the compiled library
