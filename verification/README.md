# ryowm

The verified core of the RyoWM Wayland compositor, written in Verus.

`src/` is the library; every function in it carries a contract that Verus
proves:

- `geometry`: window/output/workspace ids and `Rect`, with the union
  (bounding box) used for damage tracking and its algebraic laws.
- `render`, `damage`: frame tokens, the per-frame damage/queue state, the
  stable front-to-back ordering of queued surfaces, and the present/skip
  decision (`FrameDriver`) a render backend follows.
- `layout`: the layout-algorithm interface, the monocle layout, and the
  integer tiling of the master/stack layout, with the proof that its tiles
  cover the viewport without gaps.
- `window`, `input`, `scene`: cascade placement, pointer-drag geometry,
  the temporary drag/close triggers, timestamp normalization, cursor size
  selection, and frame outcomes.
- `state`: window lifecycle records, focus order, and placement state.

`app/` is the compositor binary around it: Smithay protocol handlers,
the winit/GLES backend, libinput on its own thread, the calloop reactor,
and the floating-point layout ratio.
