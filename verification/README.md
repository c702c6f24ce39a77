# paintcore

A raster painting engine: layers and animated canvases, points, lines and fills, flood
selection, coverage masks and brush tips, Porter-Duff operators and blend modes, JPEG and
TIFF/Exif header reading with a baseline JPEG entropy decoder, PNG raster glyphs decoded
through the `png` crate, and edge tracking.

- `src/` is the library, written in Verus. Every function there carries a contract, and the
  properties that relate several functions stand as `law_*` proof functions next to them.
- `app/` is ordinary Rust around the library: everything that computes in floating point
  (affine transforms and resizing, circles and ellipses, antialiased lines and curves, outline rasterisation,
  convolution filters, colour adjustments, fractional compositing, brush strokes), the
  adapters through which the `wml2` image loader draws into canvases and layers, and the JPEG
  decoding loop with its inverse DCT. It calls the verified library for the integer work.
- `tests/` exercises the library from outside.
