# vavo core, verified

The core of the Vavo ECS game engine as a Verus library: what it runs, when, and in which order.

- `src/system`: system descriptions (`SystemExec`, `System`, `SystemCondition`), parameter access
  information and conflict detection, the phase/layer/batch scheduler with its queue of changes,
  the execution of phases and pipelines, deferred world commands, systems registered by stage,
  and render graph systems.
- `src/render_assets`: the cache of render assets created for entities' components, asset handles
  and resources, and the sizing of GPU storage buffers.
- `src/state.rs`: application states and the run conditions that test them.
- `src/ui`: UI layout settings and pointer interaction with UI nodes.
- `src/renderer`: face culling settings and frustum culling decisions.
- `app/`: what stays outside the proofs: clocks, timers and colours (floating point), UI lengths
  and vertex data, worker threads and background tasks, a closure-driven runner, debug output.

A system's function and the world it works on are opaque to the library: they are reached through
runner traits (`SystemRunner`, `PhaseRunner`, `GraphSystemRunner`, `CommandTarget`,
`RenderAsset`) that the engine implements. Geometry that is computed in floating point
(bounding volumes, frusta, UI rectangles) comes in as the results of functions the caller passes.
