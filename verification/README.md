# femtovg (verified core)

The integer and byte-level logic of a 2D vector drawing library in the
style of the HTML5 Canvas API, written in Verus with its behaviour stated in
contracts and proved.

- `src/` is the verified library:
  - `state_stack` - the stack of saved drawing states: save/restore pairing,
    layers sharing the stack, the clips each level owns, and the depth limit
    past which the canvas saturates; its laws are public proof functions;
  - `clip_planes` - the clips in force by render target, and each target's
    stencil clip plane (how many clips it holds, whether it needs a rebuild);
  - `shaper` - glyph ids for text (with Unicode normalization behind trusted
    wrappers), variation sequences, decomposition fallback and kerning;
  - `sfnt` - rewriting a TrueType/OpenType font without some of its tables;
  - `color` - HTML hex colours and colour-space hue layouts;
  - `composite`, `image`, `renderer`, `paint`, `path`, `combining_class`,
    `font_manager`, `error` - blend states, image flags and update checks,
    image handles, render targets, shader codes and the plain enums and
    errors of the library.
- `tests/` runs the library on concrete values.
- `app/` holds what the library does not: the floating-point colour
  type and conversions, pixel sources that carry image data, the errors'
  `Display` text, and serializable copies of the plain enums.
