# raytracer

A path tracer for glTF scenes, with its integer and text logic verified by Verus.

- `src/` is the verified library: how a frame is cut into workloads for the
  worker threads, the mip-map atlas layout and its point-sampled levels, the
  frame buffer and its pixel packing, fixed-capacity material storage, URI and
  inline-buffer resolution of glTF resources, and the index logic of the
  importer. Calls into `uriparse`, `itertools` and `base64` stand behind small
  trusted wrappers whose contracts are stated in their doc comments.
- `app/` is the program around it: command line, window and event loop, the
  render threads, glTF and image loading, and everything computed in `f32`
  (vector math, intersections, shading, tone mapping).
- `tests/` exercises the library on concrete values.
