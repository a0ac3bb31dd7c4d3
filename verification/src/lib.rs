//! Rendering of JSON Canvas documents to SVG text.
//!
//! - `canvas`: the document model (nodes, edges, the canvas).
//! - `text`: decimal text of numbers, UTF-8 widths, white space, string assembly.
//! - `escape`: XML escaping.
//! - `color`: the color palette.
//! - `wrap`: greedy word wrapping of node text.
//! - `layout`: attachment sides and points of edges, the extent of the nodes.
//! - `edges`: which edges are drawn, their curves, and their SVG.
//! - `render`: the SVG of nodes and of a whole canvas.
//!
//! All coordinates are computed exactly, in whole, half or quarter units. The control
//! points of an edge's curve are the one part that needs floating point (a square
//! root); the caller computes their text from the curves that `render::edge_curves`
//! gives and hands it to `render::render_svg`.

pub mod text;
pub mod escape;
pub mod canvas;
pub mod color;
pub mod wrap;
pub mod layout;
pub mod edges;
pub mod render;
