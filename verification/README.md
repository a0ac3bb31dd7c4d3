# drawer

Renders JSON Canvas (`.canvas`) files to SVG.

`src/` is the verified library: the document model, XML escaping, the color palette,
word wrapping, the geometry of nodes and edges, and the SVG text of a canvas, each
function with a contract proved by Verus, and the laws of wrapping, escaping and
layout as proof functions.

`app/` is the command line program: it parses the arguments and the JSON, computes the
control points of the edge curves in floating point, calls the library, and writes the
SVG file.
