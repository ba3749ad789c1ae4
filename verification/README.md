# jxr_native

JPEG XR parsing, entropy decoding primitives, decode planning, reconstruction and output
formatting, written in Rust and verified with Verus. Every public function states in its contract
what it returns or changes, and when it fails; the proofs show that it does not panic on any input
that its contract admits.

## Layout

- `src/header`, `src/tail.rs`, `src/codestream.rs`, `src/annex_a`: image headers, tile directory,
  raw codestreams and tag containers, and the container writer.
- `src/metadata.rs`, `src/pixel_format.rs`: the description of an image and its pixel formats.
- `src/entropy`: bit reading, prefix codes, adaptive tables and scans, coefficient blocks.
- `src/prepare`, `src/plan.rs`: regions, packet ranges, tiles and sizes of a decode.
- `src/reconstruct`: dequantization, inverse transforms, overlap filters, chroma interpolation.
- `src/output_format`: colour conversion, scaling, packing, premultiplication, planar output.
- `src/decode`, `src/coefficient.rs`, `src/accelerator.rs`: the decode routes.
- `tests`: behaviour on concrete values.
- `app`: standard error types and floating-point values around the library.

## Platform

Only x86 and x86-64 are supported: the vector level that the library asks `fearless_simd` for,
AVX2, exists on these alone. Where the processor does not have it, the portable loops run.

## Supplied operators

Some arithmetic is supplied by the caller as functions: the transforms and overlap filters
(`Kernel`), high-pass prediction (`HighPassKernel`), the operators on the numbers of a pixel
(`PixelOperator`), the tile entropy decoder, the resource limits and the consistency checks. The
contracts hold for every such function: they say exactly what the library makes of its results.

## Laws

Beside the contracts there are public proof functions for what holds across functions. Among
them: a written container parses back to what was written; parsed headers end within their input
and keep each field in its bounds; every parsed codestream meets what planning asks for; tiles fill the image and follow one another; packets do not overlap; no code word
begins with another one and no bits are without a code word; a decoded block always fits its place;
adapted scan orders stay permutations; hard tiles are filtered alone and a plane of zeros stays
zero; macroblocks without overlap are reconstructed alone; the first high-pass coefficient of a
block and what buffers held before never show; repeated reconstruction reuses its buffers; a
formatted part has the pixels of the whole; output into storage of the caller equals owned output;
colour conversion is reversible; vector packing agrees with scalar packing; a retained workspace
does not change a decode.
