# svg

An SVG reader with SMIL animation support, and a command-line renderer to
PNG and animated PNG.

`src/` is the library, verified with Verus: the XML tokenizer and tree
builder, colour syntax, style keywords, the grammars of path data and
transform lists, the identifiers given to animated elements, where the
animations are and what they target, the outline of the scene, and the
pixel conversion of animation frames. Each public function states what it
returns in its contract; laws that relate several functions are public
proof functions next to them.

`app/` is the program around it: reading files, floating-point geometry
(curves, arcs, matrices, flattening, stroking), animation evaluation, and
drawing with tiny-skia.

`tests/` runs the library on concrete inputs.
