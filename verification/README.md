# optics_bench

The verified core of Optics Bench, an interactive optics bench for teaching
geometrical and Fourier optics.

`src/` is a Verus library:

| module | content |
|---|---|
| `tools`, `scene_kinds`, `fourier_kinds`, `bench_mode` | the toolbox, the scenery objects, the examples of both benches, the 4f beams, objects, filters and views, with their labels and menus |
| `configs` | file names and browser-storage keys of saved configurations, and the sorted listing of what is saved |
| `text` | trimming, lexicographic order and the few `char`/`String` functions of std that the library calls |
| `scheduler` | which parameters the background 4f worker computes next (only the newest request is worked on) |
| `grid` | the quadrant swap and transposition of the n x n grid around the 2D FFT |
| `sampling` | the sample budget of a progressive renderer: how many samples to trace per frame (from one, up to a cap) and how a buffer grows; the GPU renderer itself is not part of this crate, so nothing here calls it yet |
| `events` | reading the events along a traced ray path |
| `roster` | the ids and roles of the scene's elements: new ids, lookup, removal, duplication, and dropping a tool (one screen and one eye: another one moves the existing one) |

`tests/` exercises the library. `app/` holds what computes in floating point
or draws with egui (scene model, ray tracer, 4f wave optics and its panels)
and the configuration files on disk; it uses the library for the catalogues,
configurations, scheduler, grid, ray events and the scene's ids. `app/` is a
library, not the program: the egui application around the benches, the GPU
renderer with its shader, and the program's entry point are not part of it.
