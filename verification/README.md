# insploray

The integer core of the InsploRay CPU path tracer, written in Verus and
proved against its contracts, and the renderer program around it.

`src/` is the verified library:

- `base`: BxDF lobe flags and their predicates, the transport mode.
- `geometry`: index triangles and meshes.
- `image_buffer`: the row-major `ImageBuffer`.
- `accumulators`: whole-image and per-tile sample accumulators, and the
  merge of a render pass's tiles, which adds one sample to every pixel;
  pixel sums are combined by a function the caller passes in.
- `acceleration_structure`: building BVH trees from the caller's bounds
  and split choices, their flattening into arrays, and the bucket
  bookkeeping of the surface area heuristic.
- `renderer`: cutting a frame into tile jobs.
- `scene`: turning OBJ models into meshes and triangles.
- `cli`: command-line settings, thread count and the sharing of samples
  between cluster nodes.
- `utils`: packing colour channels into `0xAARRGGBB`.

`app/` is the command-line renderer: shading, intersection and sampling in
floating point, threads, file I/O and argument parsing, calling the library
for everything above. It renders on one machine: rendering across a
cluster of machines is not included, only the share of samples that each
node would take (`cli::split_samples`).

`tests/` exercises the library on concrete values.
