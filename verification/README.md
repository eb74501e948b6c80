# msg_shaders

Shader effects for Bevy (black holes, gravitational lensing, palette
quantization, pixelation, a layered nebula) split into two parts:

- `src/` — the library, verified with Verus. It holds the integer and layout
  logic the effects rest on:
  - `quantize`: dither patterns and their shader codes, and the palette key
    that decides when the baked lookup table must be rebuilt;
  - `packing`: filling fixed-size uniform arrays from the front, with counts
    and dropped items;
  - `nebula`: octave clamping and the packing of every star layer's colors
    into one shared array with a disjoint slice per layer;
  - `lut`: the cell order of the baked palette lookup table and the
    rebuild-or-reuse decision;
  - `lensing`: the capped deflection-source array and the selection of the
    lenses (and palette) sent to the display pass.
- `app/` — the Bevy plugins, materials, render-graph nodes and all
  floating-point color and geometry math, calling into the library.

The WGSL shaders are loaded from the `shaders/` asset directory.
