# raytracer

The integer core of a path tracer in the style of *Ray Tracing in One Weekend*,
verified with Verus, and the renderer around it.

- `src/` — the verified library:
  - `color`: plain PPM (`P3`) output: header, one decimal `r g b` line per pixel.
  - `perlin`: the shuffled lattice tables of Perlin noise and the hashing of a
    lattice corner to a gradient entry.
  - `rtw_image`: images stored row by row, three channels per pixel, with
    clamped pixel addressing.
  - `texture`: solid colors, checker parity, image texel lookup.
  - `model`: triangle corners from an OBJ face list.
  - `bvh`: how a hierarchy node divides its objects.
  - `material`, `matrix`, `prelude`: small containers and the vector traits.
- `tests/`: tests of the library.
- `app/`: the renderer (camera, geometry, materials, scenes), which computes in
  floating point, reads files and writes to standard output.
