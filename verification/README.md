# fathom

A low-level visualization library for multimodal spatiotemporal data: video,
depth, point clouds, trajectories, kinematics, time series, drawn with one
small set of primitives.

`src/` is the verified core, every function proved against its contract:

- `color`: packed `0xRRGGBBAA` colors, colormap names, the fill-a-buffer
  shape of a colormap.
- `batch`: the vertex arena, its command list, and the render plan that
  replays it; the proof that replaying the plan draws every packed vertex,
  in order, with the state it was packed under.
- `pack`: lowering of every primitive (quads, segments, strips, fans, axis
  triads) into batches that fit the arena.
- `media`: frame sizing, the encoder command line, and the encode protocol.
- `texture`, `surface`: pixel-buffer sizing, row padding of read-backs,
  resizing.
- `session`: the frame and camera protocol of a renderer driven from Python.
- `font`: which atlas cell each character is drawn from (ASCII and Latin-1
  draw themselves, anything else draws as `?`), where each cell sits, and the
  baking of the atlas texture from the glyph rows.
- `units`, `calib`, `text`, `shapes`: nanosecond timestamps, text scale,
  calibration errors, decimal text, array shape checks.

`app/` is what stands around it: the floating-point geometry (calibration,
projection, homographies, color ramps), the wgpu backend, the `ffmpeg`
process and the Python bindings. Text is drawn by `draw_text_at`, one quad
per glyph through `pack_quads`; the 8x8 glyph rows it samples are in
`app/render/font.rs`: ASCII from the public-domain IBM PC set, the Latin-1
letters as their base letter with the accent in the top row.
