# ui

The core of a retained-mode UI toolkit that renders with wgpu on Wayland,
written in Verus.

- `src/` is the verified library: atlas allocators (shelf and skyline),
  texture slots and handle packing, the glyph atlas's page pool and its
  least-recently-used recycling, glyph pixel conversion, the mesh arena,
  the pipeline registry and the shared render pass, the bytes of words
  sent to GPU buffers (through `bytemuck`), attachment and frame
  decisions, the Wayland surface table, event routing, input mapping and
  output selection, text and theme value types, and the helpers of the
  widget tree. Every public function states its result in `ensures`; the
  laws the library keeps are public proof functions beside the code they
  speak of.
- `tests/` runs the library on concrete values.
- `app/` is ordinary Rust around the library: the GPU side (textures,
  glyph pages, mesh buffers, attachments, pipeline building), floating-point
  packing and geometry, the process-wide pipeline slot allocator, and
  background tasks.

The skyline packer always places a rect at the lowest baseline that fits
(the leftmost among equals); it never prefers a higher notch that would fit
the rect's width more snugly.
