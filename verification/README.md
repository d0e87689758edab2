# phys_3d

A small ray-cast 3-D viewer with a mass-spring simulation.

- `src/` is the verified library:
  - `draw_helpers`: an RGBA canvas of 500 by 500 pixels with circles, squares,
    rectangles and single pixels; every drawing call states, byte for byte, the
    buffer it leaves.
  - `rendering`: the colour a ray takes from its hits (nearest visible hit, edge
    hits in black, background otherwise) and the drawing of one square per ray.
  - `physics`: which vertices a spring pushes and when it breaks, and the removal
    of a broken constraint from the constraint list.
- `app/` is the window, the event loop and the floating-point geometry (camera,
  rays, triangle intersection, vertex integration), built on winit, pixels and
  nalgebra.
