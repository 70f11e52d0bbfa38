# gemini-unmark

Removes Gemini's visible sparkle watermark from RGBA buffers and videos.

`src/` is the verified library (Verus): the integer logic of the tool with
its contracts and laws.

- `template` — the sparkle's geometry, the template built from the
  captured 48×48 RGBA bytes of the mark, and a geometric stand-in star of
  the same size and peak opacity (not the captured artwork).
- `detect` — candidate sizes, placements, margin-padded patches, control
  windows, bilinear taps and the integer silhouette gradient terms.
- `blend` — the footprint of a template placed on an image.
- `mask` — square and 3×3 dilation of pixel masks.
- `fill` — per-channel median fill of masked pixels.
- `residual` — the inpaint seed window and the busy-texture residual fill.
- `window` — reading a window of an image and writing masked pixels back.
- `cli` — classifying an input path by its extension.
- `native_link` — the native libraries each target links for the denoiser.
- `video` — video errors, probe frame selection, request and stream
  checks, map choice, ffmpeg tool path choice and encoder arguments, ROI
  bounds and border reflection.

`app/` is the `gunmark` command line tool: image and video I/O, the ffmpeg
pipeline, threads, and the floating-point parts (reverse alpha-blend,
correlation and silhouette scoring, TELEA inpainting, adaptive alpha, blurs).
It reads the captured sparkle from `assets/sparkle_rgba.bin` and the video
alpha maps from `assets/video/`, relative to the working directory; without
the sparkle asset it warns and falls back to the stand-in star.
