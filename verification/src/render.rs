//! SVG text of a canvas: one rectangle per node (groups first, so that they lie
//! below the other nodes), wrapped text inside text, file and link cards, and one
//! Bézier curve per edge whose two ends name existing nodes.

use vstd::prelude::*;
use crate::canvas::{Canvas, Edge, Node};
use crate::color::{color_of, resolve_color};
use crate::escape::{escape, push_escaped};
use crate::layout::{
    best_sides, center_delta, corner_fits, corners_fit, extent, in_i64, lemma_extent_contains, lookup,
    node_extent,
};
use crate::text::{half_str, int_str, push_i64, push_quarter, quarter_str};
use crate::wrap::{max_chars, wrap_lines, wrap_text};
use crate::edges::{
    curve_in_range, curve_of, curves, edge_curve, edges_svg, origins_fit, render_edge, ControlPoints,
    CurveView, EdgeCurve,
};

verus! {

/// The whole picture of a canvas without nodes.
pub const EMPTY_SVG: &'static str =
    "<svg xmlns=\"http://www.w3.org/2000/svg\" width=\"100\" height=\"100\"></svg>";

pub const SVG_OPEN: &'static str = "<svg xmlns=\"http://www.w3.org/2000/svg\" width=\"";

pub const SVG_HEIGHT: &'static str = "\" height=\"";

pub const SVG_VIEWBOX: &'static str = "\" viewBox=\"0 0 ";

pub const SVG_OPEN_END: &'static str = "\">\n";

/// The shared definitions (the default arrowhead) and the style sheet.
pub const PREAMBLE: &'static str =
    "<defs>\n<marker id=\"arrowhead\" markerWidth=\"10\" markerHeight=\"7\" refX=\"10\" refY=\"3.5\" orient=\"auto\">\n  <polygon points=\"0 0, 10 3.5, 0 7\" fill=\"#888\" />\n</marker>\n</defs>\n<style>\n  .node-rect { fill: #fff; stroke-width: 2; rx: 8; ry: 8; }\n  .group-rect { fill: none; stroke-dasharray: 6 3; stroke-width: 2; rx: 8; ry: 8; }\n  .node-text { font-family: -apple-system, \"Segoe UI\", sans-serif; font-size: 14px; fill: #1a1a1a; }\n  .group-label { font-family: -apple-system, \"Segoe UI\", sans-serif; font-size: 13px; fill: #666; font-weight: 600; }\n  .edge-label { font-family: -apple-system, \"Segoe UI\", sans-serif; font-size: 12px; fill: #666; }\n  .edge-line { fill: none; stroke-width: 2; }\n</style>\n";

pub const SVG_CLOSE: &'static str = "</svg>\n";

pub const SPACE: &'static str = " ";

pub const GROUP_RECT: &'static str = "<rect class=\"group-rect\" x=\"";

pub const NODE_RECT: &'static str = "<rect class=\"node-rect\" x=\"";

pub const ATTR_Y: &'static str = "\" y=\"";

pub const ATTR_WIDTH: &'static str = "\" width=\"";

pub const ATTR_HEIGHT: &'static str = "\" height=\"";

pub const ATTR_STROKE: &'static str = "\" stroke=\"";

pub const EMPTY_TAG_END: &'static str = "\" />\n";

pub const GROUP_LABEL: &'static str = "<text class=\"group-label\" x=\"";

pub const NODE_TEXT: &'static str = "<text class=\"node-text\" x=\"";

pub const TAG_END: &'static str = "\">";

pub const TEXT_CLOSE: &'static str = "</text>\n";

/// The rectangle of a node: `open` starts the element and carries its class.
pub open spec fn rect_svg(open: Seq<char>, rx: int, ry: int, w: int, h: int, color: Seq<char>) -> Seq<
    char,
> {
    open + int_str(rx) + ATTR_Y@ + int_str(ry) + ATTR_WIDTH@ + int_str(w) + ATTR_HEIGHT@ + int_str(h)
        + ATTR_STROKE@ + color + EMPTY_TAG_END@
}

/// A `<text>` element at `(x, y)`, where `y` is given as text, holding `body` escaped.
pub open spec fn text_svg(open: Seq<char>, x: int, y: Seq<char>, body: Seq<char>) -> Seq<char> {
    open + int_str(x) + ATTR_Y@ + y + TAG_END@ + escape(body) + TEXT_CLOSE@
}

/// Twice the baseline of line `i` of `n` lines in a box at `ry` of height `h`: the
/// lines, 20 units apart, are centered vertically, with the first baseline 14 units
/// below the top of the block.
pub open spec fn baseline2(ry: int, h: int, n: int, i: int) -> int {
    2 * ry + h - 20 * n + 28 + 40 * i
}

/// Whether line `i` of `n` still has its baseline no lower than 4 units above the
/// bottom of a box of height `h`; later lines are not drawn.
pub open spec fn line_shown(h: int, n: int, i: int) -> bool {
    36 + 40 * i - 20 * n <= h
}

/// The `<text>` elements of the first lines of a node's wrapped text, of `n` lines in
/// all, that fit its box.
pub open spec fn lines_svg(ls: Seq<Seq<char>>, rx: int, ry: int, h: int, n: int) -> Seq<char>
    decreases ls.len(),
{
    if ls.len() == 0 {
        Seq::<char>::empty()
    } else {
        let k = ls.len() - 1;
        lines_svg(ls.drop_last(), rx, ry, h, n) + if line_shown(h, n, k) {
            text_svg(NODE_TEXT@, rx + 12, half_str(baseline2(ry, h, n, k)), ls.last())
        } else {
            Seq::<char>::empty()
        }
    }
}

/// The label of a group node.
pub open spec fn group_label(n: Node) -> Option<Seq<char>> {
    match n {
        Node::Group { label, .. } => label.deep_view(),
        _ => None,
    }
}

/// The lines of a node's text, wrapped to its width.
pub open spec fn node_lines(n: Node) -> Seq<Seq<char>> {
    wrap_lines(n.spec_display_text(), max_chars(n.spec_bounds().2 as int))
}

/// The SVG of one node drawn with its rectangle moved by `(ox, oy)`: a dashed frame and
/// its label above it for a group; a card and the lines of its text that fit for any
/// other node.
pub open spec fn node_svg(n: Node, ox: int, oy: int) -> Seq<char> {
    let b = n.spec_bounds();
    let rx = b.0 + ox;
    let ry = b.1 + oy;
    let color = color_of(n.spec_color());
    if n is Group {
        rect_svg(GROUP_RECT@, rx, ry, b.2 as int, b.3 as int, color) + match group_label(n) {
            Some(l) => text_svg(GROUP_LABEL@, rx + 12, int_str(ry - 8), l),
            None => Seq::<char>::empty(),
        }
    } else {
        let ls = node_lines(n);
        rect_svg(NODE_RECT@, rx, ry, b.2 as int, b.3 as int, color) + lines_svg(
            ls,
            rx,
            ry,
            b.3 as int,
            ls.len() as int,
        )
    }
}

/// The integer arithmetic of drawing one node stays within `i64`.
pub open spec fn node_fits(n: Node, ox: int, oy: int) -> bool {
    let b = n.spec_bounds();
    let rx = b.0 + ox;
    let ry = b.1 + oy;
    &&& in_i64(rx)
    &&& in_i64(ry)
    &&& if n is Group {
        group_label(n) is Some ==> in_i64(rx + 12) && in_i64(ry - 8)
    } else {
        &&& in_i64(ry + b.3)
        &&& line_shown(b.3 as int, node_lines(n).len() as int, 0) ==> in_i64(rx + 12)
    }
}

proof fn lemma_lines_svg_stop(ls: Seq<Seq<char>>, rx: int, ry: int, h: int, n: int, k: int, j: int)
    requires
        0 <= k <= j <= ls.len(),
        !line_shown(h, n, k),
    ensures
        lines_svg(ls.take(j), rx, ry, h, n) == lines_svg(ls.take(k), rx, ry, h, n),
    decreases j - k,
{
    if j > k {
        lemma_lines_svg_stop(ls, rx, ry, h, n, k, j - 1);
        assert(ls.take(j).drop_last() =~= ls.take(j - 1));
    }
}

/// Appends the rectangle of a node.
fn push_rect(svg: &mut String, open: &str, rx: i64, ry: i64, w: i64, h: i64, color: &str)
    ensures
        final(svg)@ == old(svg)@ + rect_svg(open@, rx as int, ry as int, w as int, h as int, color@),
{
    svg.append(open);
    push_i64(svg, rx);
    svg.append(ATTR_Y);
    push_i64(svg, ry);
    svg.append(ATTR_WIDTH);
    push_i64(svg, w);
    svg.append(ATTR_HEIGHT);
    push_i64(svg, h);
    svg.append(ATTR_STROKE);
    svg.append(color);
    svg.append(EMPTY_TAG_END);
    assert(final(svg)@ =~= old(svg)@ + rect_svg(
        open@,
        rx as int,
        ry as int,
        w as int,
        h as int,
        color@,
    ));
}

/// Appends a `<text>` element whose `y` is a number of quarter units.
fn push_text_quarter(svg: &mut String, open: &str, x: i64, y4: i128, body: &str)
    ensures
        final(svg)@ == old(svg)@ + text_svg(open@, x as int, quarter_str(y4 as int), body@),
{
    svg.append(open);
    push_i64(svg, x);
    svg.append(ATTR_Y);
    push_quarter(svg, y4);
    svg.append(TAG_END);
    push_escaped(svg, body);
    svg.append(TEXT_CLOSE);
    assert(final(svg)@ =~= old(svg)@ + text_svg(open@, x as int, quarter_str(y4 as int), body@));
}

/// Appends a `<text>` element whose `y` is a whole number.
fn push_text_int(svg: &mut String, open: &str, x: i64, y: i64, body: &str)
    ensures
        final(svg)@ == old(svg)@ + text_svg(open@, x as int, int_str(y as int), body@),
{
    svg.append(open);
    push_i64(svg, x);
    svg.append(ATTR_Y);
    push_i64(svg, y);
    svg.append(TAG_END);
    push_escaped(svg, body);
    svg.append(TEXT_CLOSE);
    assert(final(svg)@ =~= old(svg)@ + text_svg(open@, x as int, int_str(y as int), body@));
}

/// Appends the SVG of one node, its rectangle moved by `(ox, oy)` (see `node_svg`).
pub fn render_node(svg: &mut String, node: &Node, ox: i64, oy: i64)
    requires
        node_fits(*node, ox as int, oy as int),
    ensures
        final(svg)@ == old(svg)@ + node_svg(*node, ox as int, oy as int),
{
    let (x, y, w, h) = node.bounds();
    let rx = x + ox;
    let ry = y + oy;
    let color = resolve_color(node.color());
    if node.is_group() {
        push_rect(svg, GROUP_RECT, rx, ry, w, h, color);
        match node {
            Node::Group { label: Some(label), .. } => {
                push_text_int(svg, GROUP_LABEL, rx + 12, ry - 8, label.as_str());
            },
            _ => {},
        }
        assert(final(svg)@ =~= old(svg)@ + node_svg(*node, ox as int, oy as int));
    } else {
        push_rect(svg, NODE_RECT, rx, ry, w, h, color);
        let ghost s1 = svg@;
        let text = node.display_text();
        let lines = wrap_text(&text, w);
        let ghost lv = lines@.map_values(|l: String| l@);
        assert(lv == node_lines(*node));
        let n = lines.len();
        let bottom: i64 = ry + h;
        let mut i: usize = 0;
        while i < n
            invariant
                n == lines@.len(),
                lv == lines@.map_values(|l: String| l@),
                lv == node_lines(*node),
                i <= n,
                node_fits(*node, ox as int, oy as int),
                rx == x + ox,
                ry == y + oy,
                (x, y, w, h) == node.spec_bounds(),
                bottom == ry + h,
                !(*node is Group),
                svg@ == s1 + lines_svg(lv.take(i as int), rx as int, ry as int, h as int, n as int),
            ensures
                svg@ == s1 + lines_svg(lv.take(n as int), rx as int, ry as int, h as int, n as int),
            decreases n - i,
        {
            let ly2: i128 = 2 * (ry as i128) + (h as i128) - 20 * (n as i128) + 28 + 40 * (i as i128);
            assert(lv.take(i + 1).drop_last() =~= lv.take(i as int));
            if ly2 > 2 * (bottom as i128) - 8 {
                proof {
                    lemma_lines_svg_stop(lv, rx as int, ry as int, h as int, n as int, i as int, n as int);
                }
                break;
            }
            push_text_quarter(svg, NODE_TEXT, rx + 12, 2 * ly2, lines[i].as_str());
            i = i + 1;
        }
        assert(lv.take(n as int) =~= lv);
        assert(final(svg)@ =~= old(svg)@ + node_svg(*node, ox as int, oy as int));
    }
}

/// The translation `(ox, oy)` that moves the top left corner of the nodes' extent to
/// `(padding, padding)`.
pub open spec fn offsets(ns: Seq<Node>, p: int) -> (int, int) {
    let e = extent(ns);
    (-e.0 + p, -e.1 + p)
}

/// The integer arithmetic of drawing the canvas stays within `i64`: the corners of the
/// nodes, the size of the picture, the translation, and the coordinates of every node.
pub open spec fn canvas_fits(c: Canvas, p: int) -> bool {
    let ns = c.nodes@;
    let e = extent(ns);
    ns.len() > 0 ==> {
        &&& corners_fit(ns)
        &&& in_i64(e.2 - e.0)
        &&& in_i64(e.3 - e.1)
        &&& in_i64(2 * p)
        &&& in_i64(e.2 - e.0 + 2 * p)
        &&& in_i64(e.3 - e.1 + 2 * p)
        &&& in_i64(-e.0)
        &&& in_i64(-e.1)
        &&& in_i64(-e.0 + p)
        &&& in_i64(-e.1 + p)
        &&& forall|i: int| 0 <= i < ns.len() ==> node_fits(#[trigger] ns[i], -e.0 + p, -e.1 + p)
    }
}

/// The SVG of the nodes that are groups (`groups`) or that are not, in order.
pub open spec fn nodes_svg(ns: Seq<Node>, groups: bool, ox: int, oy: int) -> Seq<char>
    decreases ns.len(),
{
    if ns.len() == 0 {
        Seq::<char>::empty()
    } else {
        nodes_svg(ns.drop_last(), groups, ox, oy) + if (ns.last() is Group) == groups {
            node_svg(ns.last(), ox, oy)
        } else {
            Seq::<char>::empty()
        }
    }
}

/// The opening `<svg>` tag of a picture `vw` by `vh` units.
pub open spec fn header_svg(vw: int, vh: int) -> Seq<char> {
    SVG_OPEN@ + int_str(vw) + SVG_HEIGHT@ + int_str(vh) + SVG_VIEWBOX@ + int_str(vw) + SPACE@
        + int_str(vh) + SVG_OPEN_END@
}

/// The curves of the edges that are drawn.
pub open spec fn drawn_curves(c: Canvas, p: int) -> Seq<CurveView> {
    let o = offsets(c.nodes@, p);
    curves(c.nodes@, c.edges@, o.0, o.1)
}

/// The SVG of a canvas with `padding` units of margin, the `k`-th drawn edge having the
/// control points `ctls[k]`. A canvas without nodes gives a fixed empty 100 by 100
/// picture. Otherwise the picture spans the nodes' extent plus the margin on each side;
/// after the definitions and styles come the groups, then the other nodes, then the
/// edges, each in document order.
pub open spec fn svg_text(c: Canvas, p: int, ctls: Seq<ControlPoints>) -> Seq<char> {
    let ns = c.nodes@;
    if ns.len() == 0 {
        EMPTY_SVG@
    } else {
        let e = extent(ns);
        let o = offsets(ns, p);
        header_svg(e.2 - e.0 + 2 * p, e.3 - e.1 + 2 * p) + PREAMBLE@ + nodes_svg(ns, true, o.0, o.1)
            + nodes_svg(ns, false, o.0, o.1) + edges_svg(ns, c.edges@, o.0, o.1, ctls) + SVG_CLOSE@
    }
}

proof fn lemma_curves_prefix(ns: Seq<Node>, es: Seq<Edge>, ox: int, oy: int, k: int)
    requires
        0 <= k <= es.len(),
    ensures
        curves(ns, es.take(k), ox, oy).len() <= curves(ns, es, ox, oy).len(),
    decreases es.len() - k,
{
    if k < es.len() {
        lemma_curves_prefix(ns, es, ox, oy, k + 1);
        assert(es.take(k + 1).drop_last() =~= es.take(k));
    } else {
        assert(es.take(k) =~= es);
    }
}

proof fn lemma_curves_no_nodes(ns: Seq<Node>, es: Seq<Edge>, ox: int, oy: int)
    requires
        ns.len() == 0,
    ensures
        curves(ns, es, ox, oy).len() == 0,
    decreases es.len(),
{
    if es.len() > 0 {
        lemma_curves_no_nodes(ns, es.drop_last(), ox, oy);
    }
}

fn push_header(svg: &mut String, vw: i64, vh: i64)
    ensures
        final(svg)@ == old(svg)@ + header_svg(vw as int, vh as int),
{
    svg.append(SVG_OPEN);
    push_i64(svg, vw);
    svg.append(SVG_HEIGHT);
    push_i64(svg, vh);
    svg.append(SVG_VIEWBOX);
    push_i64(svg, vw);
    svg.append(SPACE);
    push_i64(svg, vh);
    svg.append(SVG_OPEN_END);
    assert(final(svg)@ =~= old(svg)@ + header_svg(vw as int, vh as int));
}

fn push_nodes(svg: &mut String, nodes: &Vec<Node>, groups: bool, ox: i64, oy: i64)
    requires
        forall|i: int| 0 <= i < nodes@.len() ==> node_fits(#[trigger] nodes@[i], ox as int, oy as int),
    ensures
        final(svg)@ == old(svg)@ + nodes_svg(nodes@, groups, ox as int, oy as int),
{
    let mut k: usize = 0;
    while k < nodes.len()
        invariant
            k <= nodes@.len(),
            forall|i: int| 0 <= i < nodes@.len() ==> node_fits(#[trigger] nodes@[i], ox as int, oy as int),
            svg@ == old(svg)@ + nodes_svg(nodes@.take(k as int), groups, ox as int, oy as int),
        decreases nodes@.len() - k,
    {
        assert(nodes@.take(k + 1).drop_last() =~= nodes@.take(k as int));
        assert(nodes@.take(k + 1).last() == nodes@[k as int]);
        if nodes[k].is_group() == groups {
            render_node(svg, &nodes[k], ox, oy);
        }
        assert(svg@ =~= old(svg)@ + nodes_svg(nodes@.take(k + 1), groups, ox as int, oy as int));
        k = k + 1;
    }
    assert(nodes@.take(nodes@.len() as int) =~= nodes@);
}

fn push_edges(svg: &mut String, nodes: &Vec<Node>, edges: &Vec<Edge>, ox: i64, oy: i64, controls: &Vec<ControlPoints>)
    requires
        origins_fit(nodes@, ox as int, oy as int),
        controls@.len() == curves(nodes@, edges@, ox as int, oy as int).len(),
    ensures
        final(svg)@ == old(svg)@ + edges_svg(nodes@, edges@, ox as int, oy as int, controls@),
{
    let mut k: usize = 0;
    let mut j: usize = 0;
    let nctl = controls.len();
    while k < edges.len()
        invariant
            nctl == controls@.len(),
            k <= edges@.len(),
            origins_fit(nodes@, ox as int, oy as int),
            controls@.len() == curves(nodes@, edges@, ox as int, oy as int).len(),
            j == curves(nodes@, edges@.take(k as int), ox as int, oy as int).len(),
            svg@ == old(svg)@ + edges_svg(nodes@, edges@.take(k as int), ox as int, oy as int, controls@),
        decreases edges@.len() - k,
    {
        let ghost es1 = edges@.take(k + 1);
        assert(es1.drop_last() =~= edges@.take(k as int));
        assert(es1.last() == edges@[k as int]);
        proof {
            lemma_curves_prefix(nodes@, edges@, ox as int, oy as int, k + 1);
        }
        match curve_of(nodes, &edges[k], ox, oy) {
            Some(c) => {
                render_edge(svg, &edges[k], &c, &controls[j]);
                j = j + 1;
            },
            None => {},
        }
        assert(svg@ =~= old(svg)@ + edges_svg(nodes@, es1, ox as int, oy as int, controls@));
        k = k + 1;
    }
    assert(edges@.take(edges@.len() as int) =~= edges@);
}

/// The curves of the edges that are drawn, in order: the caller computes the control
/// points of each from it and hands them to `render_svg`.
pub fn edge_curves(canvas: &Canvas, padding: i64) -> (r: Vec<EdgeCurve>)
    requires
        canvas_fits(*canvas, padding as int),
    ensures
        r@.map_values(|c: EdgeCurve| c@) == drawn_curves(*canvas, padding as int),
        forall|i: int| 0 <= i < r@.len() ==> curve_in_range(#[trigger] r@[i]@),
{
    let mut r: Vec<EdgeCurve> = Vec::new();
    if canvas.nodes.len() == 0 {
        proof {
            lemma_curves_no_nodes(canvas.nodes@, canvas.edges@, offsets(canvas.nodes@, padding as int).0, offsets(canvas.nodes@, padding as int).1);
        }
        assert(r@.map_values(|c: EdgeCurve| c@) =~= drawn_curves(*canvas, padding as int));
        return r;
    }
    let (min_x, min_y, _max_x, _max_y) = node_extent(&canvas.nodes);
    let ox = -min_x + padding;
    let oy = -min_y + padding;
    let ghost ns = canvas.nodes@;
    let ghost es = canvas.edges@;
    assert(origins_fit(ns, ox as int, oy as int)) by {
        assert forall|i: int| 0 <= i < ns.len() implies in_i64(#[trigger] ns[i].spec_bounds().0 + ox) && in_i64(ns[i].spec_bounds().1 + oy) by {
            assert(node_fits(ns[i], ox as int, oy as int));
        }
    }
    let mut k: usize = 0;
    while k < canvas.edges.len()
        invariant
            ns == canvas.nodes@,
            es == canvas.edges@,
            k <= es.len(),
            origins_fit(ns, ox as int, oy as int),
            (ox as int, oy as int) == offsets(ns, padding as int),
            r@.map_values(|c: EdgeCurve| c@) == curves(ns, es.take(k as int), ox as int, oy as int),
            forall|i: int| 0 <= i < r@.len() ==> curve_in_range(#[trigger] r@[i]@),
        decreases es.len() - k,
    {
        assert(es.take(k + 1).drop_last() =~= es.take(k as int));
        assert(es.take(k + 1).last() == es[k as int]);
        let ghost before = r@.map_values(|c: EdgeCurve| c@);
        match curve_of(&canvas.nodes, &canvas.edges[k], ox, oy) {
            Some(c) => {
                r.push(c);
                assert(r@.map_values(|c: EdgeCurve| c@) =~= before.push(r@[r@.len() - 1]@));
            },
            None => {},
        }
        k = k + 1;
    }
    assert(es.take(es.len() as int) =~= es);
    r
}

/// The SVG text of a canvas (see `svg_text`): `controls` holds the control points of
/// the drawn edges, in the order of `edge_curves`.
pub fn render_svg(canvas: &Canvas, padding: i64, controls: &Vec<ControlPoints>) -> (svg: String)
    requires
        canvas_fits(*canvas, padding as int),
        controls@.len() == drawn_curves(*canvas, padding as int).len(),
    ensures
        svg@ == svg_text(*canvas, padding as int, controls@),
{
    let mut svg = String::new();
    if canvas.nodes.len() == 0 {
        svg.append(EMPTY_SVG);
        assert(svg@ =~= svg_text(*canvas, padding as int, controls@));
        return svg;
    }
    let (min_x, min_y, max_x, max_y) = node_extent(&canvas.nodes);
    let vw = max_x - min_x + padding * 2;
    let vh = max_y - min_y + padding * 2;
    let ox = -min_x + padding;
    let oy = -min_y + padding;
    let ghost ns = canvas.nodes@;
    assert(origins_fit(ns, ox as int, oy as int)) by {
        assert forall|i: int| 0 <= i < ns.len() implies in_i64(#[trigger] ns[i].spec_bounds().0 + ox) && in_i64(ns[i].spec_bounds().1 + oy) by {
            assert(node_fits(ns[i], ox as int, oy as int));
        }
    }
    push_header(&mut svg, vw, vh);
    svg.append(PREAMBLE);
    push_nodes(&mut svg, &canvas.nodes, true, ox, oy);
    push_nodes(&mut svg, &canvas.nodes, false, ox, oy);
    push_edges(&mut svg, &canvas.nodes, &canvas.edges, ox, oy, controls);
    svg.append(SVG_CLOSE);
    assert(svg@ =~= svg_text(*canvas, padding as int, controls@));
    svg
}

fn fits_i64(v: i128) -> (b: bool)
    ensures
        b == in_i64(v as int),
{
    -0x8000_0000_0000_0000 <= v && v <= 0x7fff_ffff_ffff_ffff
}

/// Whether the integer arithmetic of drawing one node moved by `(ox, oy)` stays within
/// `i64` (see `node_fits`).
pub fn check_node_fits(node: &Node, ox: i128, oy: i128) -> (b: bool)
    requires
        in_i64(ox as int),
        in_i64(oy as int),
    ensures
        b == node_fits(*node, ox as int, oy as int),
{
    let (x, y, w, h) = node.bounds();
    let rx: i128 = x as i128 + ox;
    let ry: i128 = y as i128 + oy;
    if !fits_i64(rx) || !fits_i64(ry) {
        return false;
    }
    if node.is_group() {
        let has_label = match node {
            Node::Group { label: Some(_), .. } => true,
            _ => false,
        };
        if has_label {
            fits_i64(rx + 12) && fits_i64(ry - 8)
        } else {
            true
        }
    } else {
        if !fits_i64(ry + h as i128) {
            return false;
        }
        let text = node.display_text();
        let lines = wrap_text(&text, w);
        let n = lines.len() as i128;
        assert(lines@.map_values(|l: String| l@).len() == lines@.len());
        if 36 - 20 * n <= h as i128 {
            fits_i64(rx + 12)
        } else {
            true
        }
    }
}

/// Whether the integer arithmetic of drawing the canvas stays within `i64` (see
/// `canvas_fits`), which `render_svg` and `edge_curves` require.
pub fn check_canvas_fits(canvas: &Canvas, padding: i64) -> (b: bool)
    ensures
        b == canvas_fits(*canvas, padding as int),
{
    let nodes = &canvas.nodes;
    if nodes.len() == 0 {
        return true;
    }
    let mut k: usize = 0;
    while k < nodes.len()
        invariant
            nodes@ == canvas.nodes@,
            k <= nodes@.len(),
            forall|i: int| 0 <= i < k ==> corner_fits(#[trigger] nodes@[i]),
        decreases nodes@.len() - k,
    {
        let (x, y, w, h) = nodes[k].bounds();
        if !fits_i64(x as i128 + w as i128) || !fits_i64(y as i128 + h as i128) {
            assert(!corner_fits(nodes@[k as int]));
            assert(!corners_fit(nodes@));
            return false;
        }
        k = k + 1;
    }
    let (min_x, min_y, max_x, max_y) = node_extent(nodes);
    let p: i128 = padding as i128;
    let dx: i128 = max_x as i128 - min_x as i128;
    let dy: i128 = max_y as i128 - min_y as i128;
    if !fits_i64(dx) || !fits_i64(dy) || !fits_i64(2 * p) || !fits_i64(dx + 2 * p) || !fits_i64(dy + 2 * p)
        || !fits_i64(-(min_x as i128)) || !fits_i64(-(min_y as i128)) || !fits_i64(-(min_x as i128) + p)
        || !fits_i64(-(min_y as i128) + p) {
        return false;
    }
    let ox: i128 = -(min_x as i128) + p;
    let oy: i128 = -(min_y as i128) + p;
    let mut k: usize = 0;
    while k < nodes.len()
        invariant
            nodes@ == canvas.nodes@,
            k <= nodes@.len(),
            in_i64(ox as int),
            in_i64(oy as int),
            corners_fit(nodes@),
            nodes@.len() > 0,
            (min_x as int, min_y as int, max_x as int, max_y as int) == extent(nodes@),
            ox == -(min_x as int) + padding,
            oy == -(min_y as int) + padding,
            in_i64(dx as int) && in_i64(dy as int) && in_i64(2 * p) && in_i64(dx + 2 * p) && in_i64(dy + 2 * p),
            in_i64(-(min_x as int)) && in_i64(-(min_y as int)),
            dx == max_x - min_x,
            dy == max_y - min_y,
            p == padding,
            forall|i: int| 0 <= i < k ==> node_fits(#[trigger] nodes@[i], ox as int, oy as int),
        decreases nodes@.len() - k,
    {
        if !check_node_fits(&nodes[k], ox, oy) {
            assert(!node_fits(nodes@[k as int], ox as int, oy as int));
            return false;
        }
        k = k + 1;
    }
    true
}

/// Every node, moved into the picture, lies inside it with at least `p` units of margin
/// on each side: the picture is `vw` by `vh` units where `vw` and `vh` are the width and
/// height of the nodes' extent plus `2 * p`.
pub proof fn lemma_nodes_inside(c: Canvas, p: int, i: int)
    requires
        0 <= i < c.nodes@.len(),
    ensures
        ({
            let ns = c.nodes@;
            let e = extent(ns);
            let o = offsets(ns, p);
            let b = ns[i].spec_bounds();
            let vw = e.2 - e.0 + 2 * p;
            let vh = e.3 - e.1 + 2 * p;
            &&& p <= b.0 + o.0
            &&& b.0 + o.0 + b.2 <= vw - p
            &&& p <= b.1 + o.1
            &&& b.1 + o.1 + b.3 <= vh - p
        }),
{
    lemma_extent_contains(c.nodes@);
}

/// The picture of a canvas with nodes is one `<svg>` element: it opens with the `<svg`
/// tag and closes with `</svg>` and a newline.
pub proof fn lemma_svg_frame(c: Canvas, p: int, ctls: Seq<ControlPoints>)
    requires
        c.nodes@.len() > 0,
    ensures
        svg_text(c, p, ctls).take(SVG_OPEN@.len() as int) == SVG_OPEN@,
        svg_text(c, p, ctls).skip(svg_text(c, p, ctls).len() - SVG_CLOSE@.len()) == SVG_CLOSE@,
{
    let e = extent(c.nodes@);
    let o = offsets(c.nodes@, p);
    let h = header_svg(e.2 - e.0 + 2 * p, e.3 - e.1 + 2 * p);
    let rest = h.skip(SVG_OPEN@.len() as int) + PREAMBLE@ + nodes_svg(c.nodes@, true, o.0, o.1)
        + nodes_svg(c.nodes@, false, o.0, o.1) + edges_svg(c.nodes@, c.edges@, o.0, o.1, ctls);
    assert(h =~= SVG_OPEN@ + h.skip(SVG_OPEN@.len() as int));
    assert(svg_text(c, p, ctls) =~= SVG_OPEN@ + rest + SVG_CLOSE@);
    assert((SVG_OPEN@ + rest + SVG_CLOSE@).take(SVG_OPEN@.len() as int) =~= SVG_OPEN@);
    assert((SVG_OPEN@ + rest + SVG_CLOSE@).skip(
        (SVG_OPEN@ + rest + SVG_CLOSE@).len() - SVG_CLOSE@.len(),
    ) =~= SVG_CLOSE@);
}

/// `m` is node `n` moved by `(dx, dy)`: the same kind, id, size, color, text and label,
/// at a position `(dx, dy)` further.
pub open spec fn moved(m: Node, n: Node, dx: int, dy: int) -> bool {
    &&& m.spec_bounds().0 == n.spec_bounds().0 + dx
    &&& m.spec_bounds().1 == n.spec_bounds().1 + dy
    &&& m.spec_bounds().2 == n.spec_bounds().2
    &&& m.spec_bounds().3 == n.spec_bounds().3
    &&& m.spec_id() == n.spec_id()
    &&& m.spec_color() == n.spec_color()
    &&& m.spec_display_text() == n.spec_display_text()
    &&& (m is Group) == (n is Group)
    &&& group_label(m) == group_label(n)
}

/// Every node of `ms` is the node of `ns` at the same place moved by `(dx, dy)`.
pub open spec fn all_moved(ms: Seq<Node>, ns: Seq<Node>, dx: int, dy: int) -> bool {
    &&& ms.len() == ns.len()
    &&& forall|i: int| 0 <= i < ns.len() ==> moved(#[trigger] ms[i], ns[i], dx, dy)
}

proof fn lemma_all_moved_drop_last(ms: Seq<Node>, ns: Seq<Node>, dx: int, dy: int)
    requires
        all_moved(ms, ns, dx, dy),
        ns.len() > 0,
    ensures
        all_moved(ms.drop_last(), ns.drop_last(), dx, dy),
        moved(ms.last(), ns.last(), dx, dy),
{
    assert forall|i: int| 0 <= i < ns.drop_last().len() implies moved(
        #[trigger] ms.drop_last()[i],
        ns.drop_last()[i],
        dx,
        dy,
    ) by {
        assert(ms.drop_last()[i] == ms[i]);
        assert(ns.drop_last()[i] == ns[i]);
    }
    assert(moved(ms[ns.len() - 1], ns[ns.len() - 1], dx, dy));
}

proof fn lemma_corners_fit_drop_last(ns: Seq<Node>)
    requires
        corners_fit(ns),
        ns.len() > 0,
    ensures
        corners_fit(ns.drop_last()),
        corner_fits(ns.last()),
{
    assert forall|i: int| 0 <= i < ns.drop_last().len() implies corner_fits(
        #[trigger] ns.drop_last()[i],
    ) by {
        assert(ns.drop_last()[i] == ns[i]);
    }
    assert(corner_fits(ns[ns.len() - 1]));
}

proof fn lemma_extent_moved(ms: Seq<Node>, ns: Seq<Node>, dx: int, dy: int)
    requires
        all_moved(ms, ns, dx, dy),
        corners_fit(ms),
        corners_fit(ns),
        ns.len() > 0,
    ensures
        extent(ms) == (extent(ns).0 + dx, extent(ns).1 + dy, extent(ns).2 + dx, extent(ns).3 + dy),
    decreases ns.len(),
{
    lemma_all_moved_drop_last(ms, ns, dx, dy);
    lemma_corners_fit_drop_last(ms);
    lemma_corners_fit_drop_last(ns);
    let bm = ms.last().spec_bounds();
    let bn = ns.last().spec_bounds();
    assert(corner_fits(ms.last()));
    assert(corner_fits(ns.last()));
    if ns.len() > 1 {
        lemma_extent_moved(ms.drop_last(), ns.drop_last(), dx, dy);
    } else {
        assert(extent(ms.drop_last()) == (
            i64::MAX as int,
            i64::MAX as int,
            i64::MIN as int,
            i64::MIN as int,
        ));
        assert(extent(ns.drop_last()) == (
            i64::MAX as int,
            i64::MAX as int,
            i64::MIN as int,
            i64::MIN as int,
        ));
    }
}

proof fn lemma_node_svg_moved(m: Node, n: Node, dx: int, dy: int, ox: int, oy: int)
    requires
        moved(m, n, dx, dy),
    ensures
        node_svg(m, ox - dx, oy - dy) == node_svg(n, ox, oy),
{
    assert(node_lines(m) == node_lines(n));
}

proof fn lemma_nodes_svg_moved(
    ms: Seq<Node>,
    ns: Seq<Node>,
    dx: int,
    dy: int,
    groups: bool,
    ox: int,
    oy: int,
)
    requires
        all_moved(ms, ns, dx, dy),
    ensures
        nodes_svg(ms, groups, ox - dx, oy - dy) == nodes_svg(ns, groups, ox, oy),
    decreases ns.len(),
{
    if ns.len() > 0 {
        lemma_all_moved_drop_last(ms, ns, dx, dy);
        lemma_nodes_svg_moved(ms.drop_last(), ns.drop_last(), dx, dy, groups, ox, oy);
        lemma_node_svg_moved(ms.last(), ns.last(), dx, dy, ox, oy);
    }
}

proof fn lemma_lookup_moved(ms: Seq<Node>, ns: Seq<Node>, dx: int, dy: int, id: Seq<char>)
    requires
        all_moved(ms, ns, dx, dy),
    ensures
        lookup(ms, id) == lookup(ns, id),
    decreases ns.len(),
{
    if ns.len() > 0 {
        lemma_all_moved_drop_last(ms, ns, dx, dy);
        lemma_lookup_moved(ms.drop_last(), ns.drop_last(), dx, dy, id);
    }
}

proof fn lemma_edge_curve_moved(ms: Seq<Node>, ns: Seq<Node>, dx: int, dy: int, e: Edge, ox: int, oy: int)
    requires
        all_moved(ms, ns, dx, dy),
    ensures
        edge_curve(ms, e, ox - dx, oy - dy) == edge_curve(ns, e, ox, oy),
{
    lemma_lookup_moved(ms, ns, dx, dy, e.from_node@);
    lemma_lookup_moved(ms, ns, dx, dy, e.to_node@);
    match (lookup(ns, e.from_node@), lookup(ns, e.to_node@)) {
        (Some(i), Some(j)) => {
            crate::layout::lemma_lookup_found(ns, e.from_node@);
            crate::layout::lemma_lookup_found(ns, e.to_node@);
            assert(moved(ms[i], ns[i], dx, dy));
            assert(moved(ms[j], ns[j], dx, dy));
            assert(center_delta(ms[i].spec_bounds(), ms[j].spec_bounds()) == center_delta(
                ns[i].spec_bounds(),
                ns[j].spec_bounds(),
            ));
            assert(best_sides(ms[i].spec_bounds(), ms[j].spec_bounds()) == best_sides(
                ns[i].spec_bounds(),
                ns[j].spec_bounds(),
            ));
        },
        _ => {},
    }
}

proof fn lemma_edges_moved(
    ms: Seq<Node>,
    ns: Seq<Node>,
    dx: int,
    dy: int,
    es: Seq<Edge>,
    ox: int,
    oy: int,
    ctls: Seq<ControlPoints>,
)
    requires
        all_moved(ms, ns, dx, dy),
    ensures
        curves(ms, es, ox - dx, oy - dy) == curves(ns, es, ox, oy),
        edges_svg(ms, es, ox - dx, oy - dy, ctls) == edges_svg(ns, es, ox, oy, ctls),
    decreases es.len(),
{
    if es.len() > 0 {
        lemma_edges_moved(ms, ns, dx, dy, es.drop_last(), ox, oy, ctls);
        lemma_edge_curve_moved(ms, ns, dx, dy, es.last(), ox, oy);
    }
}

/// Moving every node by the same amount changes nothing in the picture: the picture
/// is placed by the nodes' extent, not by where the canvas sits.
pub proof fn lemma_svg_moved(c2: Canvas, c: Canvas, dx: int, dy: int, p: int, ctls: Seq<ControlPoints>)
    requires
        all_moved(c2.nodes@, c.nodes@, dx, dy),
        c2.edges@ == c.edges@,
        corners_fit(c2.nodes@),
        corners_fit(c.nodes@),
    ensures
        svg_text(c2, p, ctls) == svg_text(c, p, ctls),
        drawn_curves(c2, p) == drawn_curves(c, p),
{
    let ns = c.nodes@;
    let ms = c2.nodes@;
    if ns.len() > 0 {
        lemma_extent_moved(ms, ns, dx, dy);
        let o = offsets(ns, p);
        assert(offsets(ms, p) == (o.0 - dx, o.1 - dy));
        lemma_nodes_svg_moved(ms, ns, dx, dy, true, o.0, o.1);
        lemma_nodes_svg_moved(ms, ns, dx, dy, false, o.0, o.1);
        lemma_edges_moved(ms, ns, dx, dy, c.edges@, o.0, o.1, ctls);
    } else {
        let o = offsets(ns, p);
        let o2 = offsets(ms, p);
        assert(ms.len() == 0);
        lemma_curves_no_nodes(ns, c.edges@, o.0, o.1);
        lemma_curves_no_nodes(ms, c.edges@, o2.0, o2.1);
    }
}

/// No node has the id `id`.
pub open spec fn names_no_node(ns: Seq<Node>, id: Seq<char>) -> bool {
    forall|i: int| 0 <= i < ns.len() ==> (#[trigger] ns[i]).spec_id() != id
}

proof fn lemma_dangling_edge_curve(ns: Seq<Node>, e: Edge, ox: int, oy: int)
    requires
        names_no_node(ns, e.from_node@) || names_no_node(ns, e.to_node@),
    ensures
        edge_curve(ns, e, ox, oy) is None,
{
    crate::layout::lemma_lookup_found(ns, e.from_node@);
    crate::layout::lemma_lookup_found(ns, e.to_node@);
}

proof fn lemma_insert_dangling_edge(
    ns: Seq<Node>,
    es: Seq<Edge>,
    k: int,
    e: Edge,
    ox: int,
    oy: int,
    ctls: Seq<ControlPoints>,
)
    requires
        0 <= k <= es.len(),
        names_no_node(ns, e.from_node@) || names_no_node(ns, e.to_node@),
    ensures
        curves(ns, es.insert(k, e), ox, oy) == curves(ns, es, ox, oy),
        edges_svg(ns, es.insert(k, e), ox, oy, ctls) == edges_svg(ns, es, ox, oy, ctls),
    decreases es.len(),
{
    let es2 = es.insert(k, e);
    lemma_dangling_edge_curve(ns, e, ox, oy);
    if k == es.len() {
        assert(es2.drop_last() =~= es);
        assert(es2.last() == e);
    } else {
        lemma_insert_dangling_edge(ns, es.drop_last(), k, e, ox, oy, ctls);
        assert(es2.drop_last() =~= es.drop_last().insert(k, e));
        assert(es2.last() == es.last());
    }
}

/// An edge one of whose ends names no node leaves no trace: inserting it anywhere among
/// the edges changes neither the picture nor the drawn curves.
pub proof fn lemma_dangling_edge_skipped(
    c2: Canvas,
    c: Canvas,
    k: int,
    e: Edge,
    p: int,
    ctls: Seq<ControlPoints>,
)
    requires
        c2.nodes@ == c.nodes@,
        0 <= k <= c.edges@.len(),
        c2.edges@ == c.edges@.insert(k, e),
        names_no_node(c.nodes@, e.from_node@) || names_no_node(c.nodes@, e.to_node@),
    ensures
        svg_text(c2, p, ctls) == svg_text(c, p, ctls),
        drawn_curves(c2, p) == drawn_curves(c, p),
{
    let o = offsets(c.nodes@, p);
    lemma_insert_dangling_edge(c.nodes@, c.edges@, k, e, o.0, o.1, ctls);
}

/// The drawing of every node, group or not, begins with its rectangle element: at the
/// node's moved position, with its width and height, and stroked with the color its
/// color setting gives.
pub proof fn lemma_node_starts_with_rect(n: Node, ox: int, oy: int)
    ensures
        ({
            let b = n.spec_bounds();
            let open = if n is Group {
                GROUP_RECT@
            } else {
                NODE_RECT@
            };
            let r = open + int_str(b.0 + ox) + ATTR_Y@ + int_str(b.1 + oy) + ATTR_WIDTH@ + int_str(
                b.2 as int,
            ) + ATTR_HEIGHT@ + int_str(b.3 as int) + ATTR_STROKE@ + color_of(n.spec_color())
                + EMPTY_TAG_END@;
            r.len() <= node_svg(n, ox, oy).len() && node_svg(n, ox, oy).take(r.len() as int) == r
        }),
{
    let b = n.spec_bounds();
    let open = if n is Group {
        GROUP_RECT@
    } else {
        NODE_RECT@
    };
    let r = open + int_str(b.0 + ox) + ATTR_Y@ + int_str(b.1 + oy) + ATTR_WIDTH@ + int_str(
        b.2 as int,
    ) + ATTR_HEIGHT@ + int_str(b.3 as int) + ATTR_STROKE@ + color_of(n.spec_color())
        + EMPTY_TAG_END@;
    let t = node_svg(n, ox, oy).skip(r.len() as int);
    assert(node_svg(n, ox, oy) =~= r + t);
    assert((r + t).take(r.len() as int) =~= r);
}

/// The `n` lines of a node's text form a block 20 units a line, centered vertically in
/// the box at `ry` of height `h`: the space above the block equals the space below it.
/// Each line's baseline lies 14 units below the top of its 20-unit row, and a line is
/// drawn exactly when its baseline is at least 4 units above the bottom of the box, so
/// the lines drawn are always the first ones.
pub proof fn lemma_text_block(ry: int, h: int, n: int, i: int)
    ensures
        ({
            let top2 = 2 * ry + h - 20 * n;
            &&& top2 - 2 * ry == 2 * (ry + h) - (top2 + 40 * n)
            &&& baseline2(ry, h, n, i) == top2 + 40 * i + 28
            &&& line_shown(h, n, i) <==> baseline2(ry, h, n, i) <= 2 * (ry + h) - 8
            &&& (0 <= i && line_shown(h, n, i + 1)) ==> line_shown(h, n, i)
        }),
{
}

/// The picture of a canvas with nodes declares its size as the width and height of the
/// nodes' extent plus the padding on both sides.
pub proof fn lemma_svg_size(c: Canvas, p: int, ctls: Seq<ControlPoints>)
    requires
        c.nodes@.len() > 0,
    ensures
        ({
            let e = extent(c.nodes@);
            let head = SVG_OPEN@ + int_str(e.2 - e.0 + 2 * p) + SVG_HEIGHT@ + int_str(e.3 - e.1 + 2 * p)
                + SVG_VIEWBOX@ + int_str(e.2 - e.0 + 2 * p) + SPACE@ + int_str(e.3 - e.1 + 2 * p)
                + SVG_OPEN_END@;
            head.len() <= svg_text(c, p, ctls).len() && svg_text(c, p, ctls).take(head.len() as int)
                == head
        }),
{
    let e = extent(c.nodes@);
    let head = SVG_OPEN@ + int_str(e.2 - e.0 + 2 * p) + SVG_HEIGHT@ + int_str(e.3 - e.1 + 2 * p)
        + SVG_VIEWBOX@ + int_str(e.2 - e.0 + 2 * p) + SPACE@ + int_str(e.3 - e.1 + 2 * p)
        + SVG_OPEN_END@;
    let t = svg_text(c, p, ctls).skip(head.len() as int);
    assert(svg_text(c, p, ctls) =~= head + t);
    assert((head + t).take(head.len() as int) =~= head);
}

} // verus!
