# pathtracer

A small Monte Carlo path tracer. The image is traced in tiles of 5×5 window
pixels; every pixel keeps sampling until a confidence test on its running mean
says it has converged.

Layout:

- `src/` — the verified library (Verus):
  - `material_mgr` — material handles and the registry of materials, with the
    laws of registration and lookup;
  - `mesh` — index-buffer handling for triangle meshes loaded from OBJ data;
  - `path` — the depth rule that ends, or subjects to Russian roulette, a path;
  - `frame` — per-pixel sampling state (convergence, sample counts, RGBA
    bytes), the frame's byte layout and its convergence count.
- `app/` — the program: window and GPU plumbing, scene setup, and the
  floating-point work (ray/surface intersection, scattering models, colour
  accumulation and tone mapping), built on the library.
- `tests/` — tests of the library.
