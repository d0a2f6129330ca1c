# viture-v2

A driver for VITURE Gen2 XR glasses, with its logic verified by Verus: the wire format, requests and
their replies, tracking sessions, the simulated glasses, the reading of a media library's formats,
mesh projections, and the index buffers and layouts of panoramas.

* `src/` is the verified library. Every public function states in its `ensures` what it returns; the
  public proof functions state what holds across functions.
* `app/` is the program around it: syscalls, threads, the C ABI, and everything in floating point.
* `tests/` runs the library.

Single-precision numbers are carried through the library as their bit patterns. Where the library
decides by them (how wide a picture is, whether a crop leaves anything), the comparison is exact.

What is taken on trust is `miniz_oxide` for raw deflate (`src/mesh.rs`), and of the standard library
the clock (`src/clock.rs`) and UTF-8 validation (`src/text.rs`).
