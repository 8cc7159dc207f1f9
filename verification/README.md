# squoosh

An image converter for the desktop: JPEG, PNG, WebP and AVIF output from
JPEG, PNG, WebP, AVIF, SVG, GIF, BMP and TIFF input, with two settings panels
to compare, per-image exceptions to the common settings, and batch export.

The library in `src/` is written in Verus and proved against its contracts:

- `text`: character helpers (ASCII case, decimal digits, keyed lists).
- `i18n`: languages, locale parsing, translation catalogs and placeholder
  formatting.
- `codecs`: output formats, the registry of codec settings with their
  bounds, validation, pixel limits and the input handed to each encoder.
- `settings`: the two sides, their validation, and per-field exceptions
  (recording an edit, resolving against the common settings).
- `exceptions`: what recording and resolving give back, field by field.
- `pipeline`: the RGBA image and its geometry (turns, EXIF and AVIF
  orientation, crop), transparency over a background, straight alpha,
  HQX packing, ZX palette blocks, recognizing and planning the decoding of a
  source, and the plan of a conversion.
- `raster`: decoding a source through the `image` crate, with the pixel
  limits checked on its header before any pixel is decoded, and the
  orientation applied.
- `paths`: the order of paths, as the standard library sorts them.
- `jobs`: which paths an import keeps, the names tried for an output, and
  what the worker does with each command and each batch outcome (stale
  previews skipped, a failed item isolated, a cancelled batch stopped,
  settings frozen when a batch starts), and how an export is planned.
- `session`: the image list and what the window does with each report of
  the worker (imports without duplicates, the selection, no removal while a
  batch runs, stale previews ignored, at most 128 thumbnails kept, least
  recently shown first out, batch counts).
- `panel`: what the settings panels show (codec names, which settings
  apply, presets, inverted sliders, byte sizes, the size change of a
  result).

`app/` is the program around it: the window, the worker thread, file
access, the SVG renderer, resampling and palette libraries, and the native
encoders.
