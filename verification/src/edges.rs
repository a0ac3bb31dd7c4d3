//! Edges: which of them are drawn, the curve each one follows, and their SVG.

use vstd::prelude::*;
use crate::canvas::{Edge, Node};
use crate::color::{color_of, lemma_color_starts_with_hash, resolve_color};
use crate::escape::{escape, push_escaped};
use crate::render::{ATTR_STROKE, ATTR_WIDTH, ATTR_Y, SPACE, TEXT_CLOSE};
use crate::layout::{best_side, best_sides, find_node, in_i64, lookup, side_point, side_point_half};
use crate::text::{
    chars_of, chars_width, int_str, lemma_utf8_len_bounds, push_int, push_quarter, quarter_str,
    str_is, string_of, utf8_len,
};

verus! {

pub const DEFAULT_GRAY: &'static str = "#b4b4b4";

pub const EDGE_GRAY: &'static str = "#888";

pub const END_NONE: &'static str = "none";

pub const END_ARROW: &'static str = "arrow";

pub const ARROW_OPEN: &'static str = "<defs><marker id=\"ah-";

pub const ARROW_MID: &'static str =
    "\" markerWidth=\"10\" markerHeight=\"7\" refX=\"10\" refY=\"3.5\" orient=\"auto\"><polygon points=\"0 0, 10 3.5, 0 7\" fill=\"";

pub const ARROW_END: &'static str = "\" /></marker>\n";

pub const REV_OPEN: &'static str = "<marker id=\"ah-";

pub const REV_MID: &'static str =
    "-rev\" markerWidth=\"10\" markerHeight=\"7\" refX=\"0\" refY=\"3.5\" orient=\"auto\"><polygon points=\"10 0, 0 3.5, 10 7\" fill=\"";

pub const REV_END: &'static str = "\" /></marker></defs>\n";

pub const PATH_OPEN: &'static str = "<path class=\"edge-line\" d=\"M ";

pub const CURVE_TO: &'static str = " C ";

pub const COMMA: &'static str = ", ";

pub const QUOTE: &'static str = "\"";

pub const PATH_END: &'static str = " />\n";

pub const MARKER_END_OPEN: &'static str = " marker-end=\"url(#ah-";

pub const MARKER_END_CLOSE: &'static str = ")\"";

pub const MARKER_START_OPEN: &'static str = " marker-start=\"url(#ah-";

pub const MARKER_START_CLOSE: &'static str = "-rev)\"";

pub const LABEL_RECT: &'static str = "<rect x=\"";

pub const LABEL_RECT_END: &'static str =
    "\" height=\"20\" rx=\"4\" fill=\"white\" opacity=\"0.85\" />\n";

pub const EDGE_LABEL: &'static str = "<text class=\"edge-label\" x=\"";

pub const EDGE_LABEL_END: &'static str = "\" text-anchor=\"middle\">";

/// The curve of a drawn edge: its end points in half units (doubled coordinates of the
/// picture) and the sides of the two nodes it attaches to.
pub struct CurveView {
    pub x1: int,
    pub y1: int,
    pub x2: int,
    pub y2: int,
    pub from_side: Seq<char>,
    pub to_side: Seq<char>,
}

/// The curve of a drawn edge: end points in half units, and the sides it attaches to.
pub struct EdgeCurve {
    pub x1: i128,
    pub y1: i128,
    pub x2: i128,
    pub y2: i128,
    pub from_side: String,
    pub to_side: String,
}

impl View for EdgeCurve {
    type V = CurveView;

    open spec fn view(&self) -> CurveView {
        CurveView {
            x1: self.x1 as int,
            y1: self.y1 as int,
            x2: self.x2 as int,
            y2: self.y2 as int,
            from_side: self.from_side@,
            to_side: self.to_side@,
        }
    }
}

/// The end points of a curve stay far from the limits of `i128`.
pub open spec fn curve_in_range(c: CurveView) -> bool {
    &&& -0x4_0000_0000_0000_0000 <= c.x1 <= 0x4_0000_0000_0000_0000
    &&& -0x4_0000_0000_0000_0000 <= c.y1 <= 0x4_0000_0000_0000_0000
    &&& -0x4_0000_0000_0000_0000 <= c.x2 <= 0x4_0000_0000_0000_0000
    &&& -0x4_0000_0000_0000_0000 <= c.y2 <= 0x4_0000_0000_0000_0000
}

/// The text of the two control points of an edge's cubic Bézier curve, as the caller
/// computed them from the edge's curve.
pub struct ControlPoints {
    pub cx1: String,
    pub cy1: String,
    pub cx2: String,
    pub cy2: String,
}

/// The value of an optional setting, or `d` when it is absent.
pub open spec fn or_default(s: Option<String>, d: Seq<char>) -> Seq<char> {
    match s {
        Some(x) => x@,
        None => d,
    }
}

/// The curve of an edge with the picture moved by `(ox, oy)`, when both its ends name
/// nodes (the last node of that id): it leaves and enters by the sides the edge names,
/// or else by the sides `best_sides` picks.
pub open spec fn edge_curve(ns: Seq<Node>, e: Edge, ox: int, oy: int) -> Option<CurveView> {
    match (lookup(ns, e.from_node@), lookup(ns, e.to_node@)) {
        (Some(i), Some(j)) => {
            let fb = ns[i].spec_bounds();
            let tb = ns[j].spec_bounds();
            let auto = best_sides(fb, tb);
            let fs = or_default(e.from_side, auto.0);
            let ts = or_default(e.to_side, auto.1);
            let p1 = side_point_half(fb.0 + ox, fb.1 + oy, fb.2 as int, fb.3 as int, Some(fs));
            let p2 = side_point_half(tb.0 + ox, tb.1 + oy, tb.2 as int, tb.3 as int, Some(ts));
            Some(CurveView { x1: p1.0, y1: p1.1, x2: p2.0, y2: p2.1, from_side: fs, to_side: ts })
        },
        _ => None,
    }
}

/// The curves of the drawn edges among `es`, in order.
pub open spec fn curves(ns: Seq<Node>, es: Seq<Edge>, ox: int, oy: int) -> Seq<CurveView>
    decreases es.len(),
{
    if es.len() == 0 {
        Seq::<CurveView>::empty()
    } else {
        let prev = curves(ns, es.drop_last(), ox, oy);
        match edge_curve(ns, es.last(), ox, oy) {
            Some(c) => prev.push(c),
            None => prev,
        }
    }
}

/// The stroke color of an edge: its drawn color, with the default gray darkened.
pub open spec fn edge_color(e: Edge) -> Seq<char> {
    let c = color_of(e.color.deep_view());
    if c == DEFAULT_GRAY@ {
        EDGE_GRAY@
    } else {
        c
    }
}

/// The per-color arrowhead markers, forward and reverse.
pub open spec fn arrowheads_svg(cid: Seq<char>, color: Seq<char>) -> Seq<char> {
    ARROW_OPEN@ + cid + ARROW_MID@ + color + ARROW_END@ + REV_OPEN@ + cid + REV_MID@ + color
        + REV_END@
}

/// The marker attributes of a path: an arrow at the end when `to_end` is `arrow`, an
/// arrow at the start when `from_end` is `arrow`.
pub open spec fn markers_svg(cid: Seq<char>, from_end: Seq<char>, to_end: Seq<char>) -> Seq<char> {
    (if to_end == END_ARROW@ {
        MARKER_END_OPEN@ + cid + MARKER_END_CLOSE@
    } else {
        Seq::<char>::empty()
    }) + (if from_end == END_ARROW@ {
        MARKER_START_OPEN@ + cid + MARKER_START_CLOSE@
    } else {
        Seq::<char>::empty()
    })
}

/// Two coordinates given in quarter units, separated by a space.
pub open spec fn point_svg(a: int, b: int) -> Seq<char> {
    quarter_str(a) + SPACE@ + quarter_str(b)
}

/// The path data after `M`: the start point, then `C` with the two control points and
/// the end point.
pub open spec fn curve_svg(c: CurveView, ctl: ControlPoints) -> Seq<char> {
    point_svg(2 * c.x1, 2 * c.y1) + CURVE_TO@ + ctl.cx1@ + SPACE@ + ctl.cy1@ + COMMA@ + ctl.cx2@
        + SPACE@ + ctl.cy2@ + COMMA@ + point_svg(2 * c.x2, 2 * c.y2)
}

/// The `<path>` of an edge's curve.
pub open spec fn path_svg(c: CurveView, ctl: ControlPoints, color: Seq<char>, markers: Seq<char>) -> Seq<
    char,
> {
    PATH_OPEN@ + curve_svg(c, ctl) + ATTR_STROKE@ + color + QUOTE@ + markers + PATH_END@
}

/// The white box behind an edge label of `len` bytes: 7 units wide per byte plus 8,
/// 20 high, centered horizontally on the midpoint of the ends and 12 units above it.
pub open spec fn label_box_svg(c: CurveView, len: int) -> Seq<char> {
    LABEL_RECT@ + quarter_str(c.x1 + c.x2 - 14 * len - 16) + ATTR_Y@ + quarter_str(c.y1 + c.y2 - 48)
        + ATTR_WIDTH@ + int_str(7 * len + 8) + LABEL_RECT_END@
}

/// The escaped text of an edge label, centered on the midpoint of the ends.
pub open spec fn label_text_svg(c: CurveView, l: Seq<char>) -> Seq<char> {
    EDGE_LABEL@ + quarter_str(c.x1 + c.x2) + ATTR_Y@ + quarter_str(c.y1 + c.y2) + EDGE_LABEL_END@
        + escape(l) + TEXT_CLOSE@
}

/// The label of an edge, if it has one: its box, then its text.
pub open spec fn label_svg(label: Option<Seq<char>>, c: CurveView) -> Seq<char> {
    match label {
        Some(l) => label_box_svg(c, utf8_len(l)) + label_text_svg(c, l),
        None => Seq::<char>::empty(),
    }
}

/// The SVG of one drawn edge with curve `c` and control points `ctl`.
pub open spec fn edge_svg(e: Edge, c: CurveView, ctl: ControlPoints) -> Seq<char> {
    let color = edge_color(e);
    let cid = color.drop_first();
    arrowheads_svg(cid, color) + path_svg(
        c,
        ctl,
        color,
        markers_svg(cid, or_default(e.from_end, END_NONE@), or_default(e.to_end, END_ARROW@)),
    ) + label_svg(e.label.deep_view(), c)
}

/// The SVG of the drawn edges among `es`; the `k`-th drawn edge uses `ctls[k]`.
pub open spec fn edges_svg(
    ns: Seq<Node>,
    es: Seq<Edge>,
    ox: int,
    oy: int,
    ctls: Seq<ControlPoints>,
) -> Seq<char>
    decreases es.len(),
{
    if es.len() == 0 {
        Seq::<char>::empty()
    } else {
        let prev = edges_svg(ns, es.drop_last(), ox, oy, ctls);
        match edge_curve(ns, es.last(), ox, oy) {
            Some(c) => prev + edge_svg(es.last(), c, ctls[curves(ns, es.drop_last(), ox, oy).len() as int]),
            None => prev,
        }
    }
}

/// Every node's rectangle can be moved by `(ox, oy)` within `i64`.
pub open spec fn origins_fit(ns: Seq<Node>, ox: int, oy: int) -> bool {
    forall|i: int|
        0 <= i < ns.len() ==> in_i64(#[trigger] ns[i].spec_bounds().0 + ox) && in_i64(
            ns[i].spec_bounds().1 + oy,
        )
}

fn opt_str(s: &Option<String>) -> (r: Option<&str>)
    ensures
        r.deep_view() == s.deep_view(),
{
    match s {
        Some(x) => Some(x.as_str()),
        None => None,
    }
}

fn or_default_str<'a>(s: &'a Option<String>, d: &'a str) -> (r: &'a str)
    ensures
        r@ == or_default(*s, d@),
{
    match s {
        Some(x) => x.as_str(),
        None => d,
    }
}

/// The curve of an edge with the picture moved by `(ox, oy)`, when it is drawn (see
/// `edge_curve`).
pub fn curve_of(nodes: &Vec<Node>, e: &Edge, ox: i64, oy: i64) -> (r: Option<EdgeCurve>)
    requires
        origins_fit(nodes@, ox as int, oy as int),
    ensures
        match r {
            Some(c) => edge_curve(nodes@, *e, ox as int, oy as int) == Some(c@) && curve_in_range(c@),
            None => edge_curve(nodes@, *e, ox as int, oy as int) is None,
        },
{
    let fi = find_node(nodes, e.from_node.as_str());
    let ti = find_node(nodes, e.to_node.as_str());
    match (fi, ti) {
        (Some(i), Some(j)) => {
            let fb = nodes[i].bounds();
            let tb = nodes[j].bounds();
            let (auto_from, auto_to) = best_side(fb, tb);
            let fs = or_default_str(&e.from_side, auto_from);
            let ts = or_default_str(&e.to_side, auto_to);
            assert(in_i64(nodes@[i as int].spec_bounds().0 + ox));
            assert(in_i64(nodes@[j as int].spec_bounds().0 + ox));
            let p1 = side_point(fb.0 + ox, fb.1 + oy, fb.2, fb.3, Some(fs));
            let p2 = side_point(tb.0 + ox, tb.1 + oy, tb.2, tb.3, Some(ts));
            Some(
                EdgeCurve {
                    x1: p1.0,
                    y1: p1.1,
                    x2: p2.0,
                    y2: p2.1,
                    from_side: string_of(&chars_of(fs)),
                    to_side: string_of(&chars_of(ts)),
                },
            )
        },
        _ => None,
    }
}

/// The text of `s` without its first character.
fn tail_string(s: &str) -> (r: String)
    requires
        s@.len() >= 1,
    ensures
        r@ == s@.drop_first(),
{
    let v = chars_of(s);
    let mut r = String::new();
    let mut i: usize = 1;
    while i < v.len()
        invariant
            v@ == s@,
            1 <= i <= v@.len(),
            r@ == v@.subrange(1, i as int),
        decreases v@.len() - i,
    {
        crate::text::push_char(&mut r, v[i]);
        assert(v@.subrange(1, i + 1) =~= v@.subrange(1, i as int).push(v@[i as int]));
        i = i + 1;
    }
    assert(v@.subrange(1, v@.len() as int) =~= v@.drop_first());
    r
}

fn push_arrowheads(svg: &mut String, cid: &str, color: &str)
    ensures
        final(svg)@ == old(svg)@ + arrowheads_svg(cid@, color@),
{
    svg.append(ARROW_OPEN);
    svg.append(cid);
    svg.append(ARROW_MID);
    svg.append(color);
    svg.append(ARROW_END);
    svg.append(REV_OPEN);
    svg.append(cid);
    svg.append(REV_MID);
    svg.append(color);
    svg.append(REV_END);
    assert(final(svg)@ =~= old(svg)@ + arrowheads_svg(cid@, color@));
}

fn push_markers(svg: &mut String, cid: &str, from_end: &str, to_end: &str)
    ensures
        final(svg)@ == old(svg)@ + markers_svg(cid@, from_end@, to_end@),
{
    if str_is(to_end, END_ARROW) {
        svg.append(MARKER_END_OPEN);
        svg.append(cid);
        svg.append(MARKER_END_CLOSE);
    }
    if str_is(from_end, END_ARROW) {
        svg.append(MARKER_START_OPEN);
        svg.append(cid);
        svg.append(MARKER_START_CLOSE);
    }
    assert(final(svg)@ =~= old(svg)@ + markers_svg(cid@, from_end@, to_end@));
}

fn push_point(svg: &mut String, a: i128, b: i128)
    ensures
        final(svg)@ == old(svg)@ + point_svg(a as int, b as int),
{
    push_quarter(svg, a);
    svg.append(SPACE);
    push_quarter(svg, b);
    assert(final(svg)@ =~= old(svg)@ + point_svg(a as int, b as int));
}

fn push_curve(svg: &mut String, c: &EdgeCurve, ctl: &ControlPoints)
    requires
        curve_in_range(c@),
    ensures
        final(svg)@ == old(svg)@ + curve_svg(c@, *ctl),
{
    push_point(svg, 2 * c.x1, 2 * c.y1);
    svg.append(CURVE_TO);
    svg.append(ctl.cx1.as_str());
    svg.append(SPACE);
    svg.append(ctl.cy1.as_str());
    svg.append(COMMA);
    svg.append(ctl.cx2.as_str());
    svg.append(SPACE);
    svg.append(ctl.cy2.as_str());
    svg.append(COMMA);
    push_point(svg, 2 * c.x2, 2 * c.y2);
    assert(final(svg)@ =~= old(svg)@ + curve_svg(c@, *ctl));
}

fn push_path(
    svg: &mut String,
    c: &EdgeCurve,
    ctl: &ControlPoints,
    color: &str,
    cid: &str,
    from_end: &str,
    to_end: &str,
)
    requires
        curve_in_range(c@),
    ensures
        final(svg)@ == old(svg)@ + path_svg(c@, *ctl, color@, markers_svg(cid@, from_end@, to_end@)),
{
    svg.append(PATH_OPEN);
    push_curve(svg, c, ctl);
    svg.append(ATTR_STROKE);
    svg.append(color);
    svg.append(QUOTE);
    push_markers(svg, cid, from_end, to_end);
    svg.append(PATH_END);
    assert(final(svg)@ =~= old(svg)@ + path_svg(
        c@,
        *ctl,
        color@,
        markers_svg(cid@, from_end@, to_end@),
    ));
}

fn push_label_box(svg: &mut String, c: &EdgeCurve, len: i128)
    requires
        curve_in_range(c@),
        0 <= len <= 0x10_0000_0000_0000_0000,
    ensures
        final(svg)@ == old(svg)@ + label_box_svg(c@, len as int),
{
    svg.append(LABEL_RECT);
    push_quarter(svg, c.x1 + c.x2 - 14 * len - 16);
    svg.append(ATTR_Y);
    push_quarter(svg, c.y1 + c.y2 - 48);
    svg.append(ATTR_WIDTH);
    push_int(svg, 7 * len + 8);
    svg.append(LABEL_RECT_END);
    assert(final(svg)@ =~= old(svg)@ + label_box_svg(c@, len as int));
}

fn push_label_text(svg: &mut String, c: &EdgeCurve, l: &str)
    requires
        curve_in_range(c@),
    ensures
        final(svg)@ == old(svg)@ + label_text_svg(c@, l@),
{
    svg.append(EDGE_LABEL);
    push_quarter(svg, c.x1 + c.x2);
    svg.append(ATTR_Y);
    push_quarter(svg, c.y1 + c.y2);
    svg.append(EDGE_LABEL_END);
    push_escaped(svg, l);
    svg.append(TEXT_CLOSE);
    assert(final(svg)@ =~= old(svg)@ + label_text_svg(c@, l@));
}

fn push_label(svg: &mut String, label: &Option<String>, c: &EdgeCurve)
    requires
        curve_in_range(c@),
    ensures
        final(svg)@ == old(svg)@ + label_svg(label.deep_view(), c@),
{
    match label {
        Some(l) => {
            let lc = chars_of(l.as_str());
            let len = chars_width(&lc);
            // The length fits in `usize`, which bounds the byte count.
            let _len = lc.len();
            proof {
                lemma_utf8_len_bounds(lc@);
            }
            push_label_box(svg, c, len as i128);
            push_label_text(svg, c, l.as_str());
            assert(final(svg)@ =~= old(svg)@ + label_svg(label.deep_view(), c@));
        },
        None => {
            assert(final(svg)@ =~= old(svg)@ + label_svg(label.deep_view(), c@));
        },
    }
}

/// Appends the SVG of a drawn edge with curve `c` and control points `ctl` (see
/// `edge_svg`).
pub fn render_edge(svg: &mut String, e: &Edge, c: &EdgeCurve, ctl: &ControlPoints)
    requires
        curve_in_range(c@),
    ensures
        final(svg)@ == old(svg)@ + edge_svg(*e, c@, *ctl),
{
    let c0 = resolve_color(opt_str(&e.color));
    let color = if str_is(c0, DEFAULT_GRAY) {
        EDGE_GRAY
    } else {
        c0
    };
    proof {
        lemma_color_starts_with_hash(e.color.deep_view());
        reveal_strlit("#888");
    }
    let cid = tail_string(color);
    let from_end = or_default_str(&e.from_end, END_NONE);
    let to_end = or_default_str(&e.to_end, END_ARROW);
    push_arrowheads(svg, cid.as_str(), color);
    push_path(svg, c, ctl, color, cid.as_str(), from_end, to_end);
    push_label(svg, &e.label, c);
    assert(final(svg)@ =~= old(svg)@ + edge_svg(*e, c@, *ctl));
}

/// `t` occurs in `s` as a contiguous piece.
pub open spec fn contains(s: Seq<char>, t: Seq<char>) -> bool {
    exists|i: int| 0 <= i && i + t.len() <= s.len() && #[trigger] s.subrange(i, i + t.len()) == t
}

/// The reference to the arrowhead at the end of a path of color id `cid`.
pub open spec fn end_marker(cid: Seq<char>) -> Seq<char> {
    MARKER_END_OPEN@ + cid + MARKER_END_CLOSE@
}

/// The reference to the reversed arrowhead at the start of a path of color id `cid`.
pub open spec fn start_marker(cid: Seq<char>) -> Seq<char> {
    MARKER_START_OPEN@ + cid + MARKER_START_CLOSE@
}

proof fn lemma_contains_prefix_of_middle(a: Seq<char>, m: Seq<char>, b: Seq<char>, t: Seq<char>)
    requires
        t.len() <= m.len(),
        m.take(t.len() as int) == t,
    ensures
        contains(a + m + b, t),
{
    let s = a + m + b;
    let i = a.len() as int;
    assert(s.subrange(i, i + t.len()) =~= t);
}

proof fn lemma_contains_suffix_of_middle(a: Seq<char>, m: Seq<char>, b: Seq<char>, t: Seq<char>)
    requires
        t.len() <= m.len(),
        m.skip(m.len() - t.len()) == t,
    ensures
        contains(a + m + b, t),
{
    let s = a + m + b;
    let i = a.len() + m.len() - t.len();
    assert(s.subrange(i, i + t.len()) =~= t);
}

/// The two arrow ends of a path are independent: the end arrow is there exactly when
/// `to_end` is `arrow` and comes first; the start arrow is there exactly when
/// `from_end` is `arrow` and comes last; nothing else is in the marker attributes.
pub proof fn lemma_markers(cid: Seq<char>, from_end: Seq<char>, to_end: Seq<char>)
    ensures
        to_end == END_ARROW@ ==> markers_svg(cid, from_end, to_end).take(end_marker(cid).len() as int)
            == end_marker(cid),
        from_end == END_ARROW@ ==> markers_svg(cid, from_end, to_end).skip(
            markers_svg(cid, from_end, to_end).len() - start_marker(cid).len(),
        ) == start_marker(cid),
        markers_svg(cid, from_end, to_end).len() == (if to_end == END_ARROW@ {
            end_marker(cid).len()
        } else {
            0
        }) + (if from_end == END_ARROW@ {
            start_marker(cid).len()
        } else {
            0
        }),
{
    let m = markers_svg(cid, from_end, to_end);
    if to_end == END_ARROW@ {
        if from_end == END_ARROW@ {
            assert(m =~= end_marker(cid) + start_marker(cid));
            assert(m.take(end_marker(cid).len() as int) =~= end_marker(cid));
            assert(m.skip(m.len() - start_marker(cid).len()) =~= start_marker(cid));
        } else {
            assert(m =~= end_marker(cid));
            assert(m.take(end_marker(cid).len() as int) =~= end_marker(cid));
        }
    } else if from_end == END_ARROW@ {
        assert(m =~= start_marker(cid));
        assert(m.skip(m.len() - start_marker(cid).len()) =~= start_marker(cid));
    } else {
        assert(m =~= Seq::<char>::empty());
    }
}

/// The SVG of an edge refers to the start arrowhead of its color whenever its `fromEnd`
/// is `arrow`, and to the end arrowhead whenever its `toEnd` is `arrow` or absent,
/// each whatever the other end is.
pub proof fn lemma_edge_arrows(e: Edge, c: CurveView, ctl: ControlPoints)
    ensures
        e.from_end.deep_view() == Some(END_ARROW@) ==> contains(
            edge_svg(e, c, ctl),
            start_marker(edge_color(e).drop_first()),
        ),
        (e.to_end is None || e.to_end.deep_view() == Some(END_ARROW@)) ==> contains(
            edge_svg(e, c, ctl),
            end_marker(edge_color(e).drop_first()),
        ),
{
    let color = edge_color(e);
    let cid = color.drop_first();
    let fe = or_default(e.from_end, END_NONE@);
    let te = or_default(e.to_end, END_ARROW@);
    let m = markers_svg(cid, fe, te);
    let a = arrowheads_svg(cid, color) + PATH_OPEN@ + curve_svg(c, ctl) + ATTR_STROKE@ + color
        + QUOTE@;
    let b = PATH_END@ + label_svg(e.label.deep_view(), c);
    assert(edge_svg(e, c, ctl) =~= a + m + b);
    lemma_markers(cid, fe, te);
    if e.from_end.deep_view() == Some(END_ARROW@) {
        assert(fe == END_ARROW@);
        lemma_contains_suffix_of_middle(a, m, b, start_marker(cid));
    }
    if e.to_end is None || e.to_end.deep_view() == Some(END_ARROW@) {
        assert(te == END_ARROW@);
        lemma_contains_prefix_of_middle(a, m, b, end_marker(cid));
    }
}

/// A drawn edge joins the last nodes with its two ids. Each end attaches to the side the
/// edge names for it, whatever the other end names, and to the side `best_sides` picks
/// when it names none; the curve's end points are the attachment points on those sides
/// of the moved rectangles.
pub proof fn lemma_edge_curve_sides(ns: Seq<Node>, e: Edge, ox: int, oy: int)
    ensures
        edge_curve(ns, e, ox, oy) is Some <==> (lookup(ns, e.from_node@) is Some && lookup(
            ns,
            e.to_node@,
        ) is Some),
        edge_curve(ns, e, ox, oy) matches Some(c) ==> {
            let fb = ns[lookup(ns, e.from_node@)->0].spec_bounds();
            let tb = ns[lookup(ns, e.to_node@)->0].spec_bounds();
            &&& e.from_side matches Some(s) ==> c.from_side == s@
            &&& e.to_side matches Some(s) ==> c.to_side == s@
            &&& e.from_side is None ==> c.from_side == best_sides(fb, tb).0
            &&& e.to_side is None ==> c.to_side == best_sides(fb, tb).1
            &&& (c.x1, c.y1) == side_point_half(
                fb.0 + ox,
                fb.1 + oy,
                fb.2 as int,
                fb.3 as int,
                Some(c.from_side),
            )
            &&& (c.x2, c.y2) == side_point_half(
                tb.0 + ox,
                tb.1 + oy,
                tb.2 as int,
                tb.3 as int,
                Some(c.to_side),
            )
        },
{
}

/// An edge label's box is centered horizontally on the label text and reaches 12
/// units above its baseline and 8 below: its left edge plus half its width is the
/// text's `x`, in quarter units.
pub proof fn lemma_label_box_centered(c: CurveView, len: int)
    ensures
        ({
            let box_x4 = c.x1 + c.x2 - 14 * len - 16;
            let box_w = 7 * len + 8;
            let text_x4 = c.x1 + c.x2;
            let box_y4 = c.y1 + c.y2 - 48;
            let text_y4 = c.y1 + c.y2;
            &&& label_box_svg(c, len) == LABEL_RECT@ + quarter_str(box_x4) + ATTR_Y@ + quarter_str(
                box_y4,
            ) + ATTR_WIDTH@ + int_str(box_w) + LABEL_RECT_END@
            &&& box_x4 + 2 * box_w == text_x4
            &&& text_y4 - box_y4 == 4 * 12
        }),
{
}

/// An edge is stroked in the color its setting gives, except that the default gray is
/// drawn darker (`#888`): an edge never shows the default gray, and its color always
/// starts with `#`.
pub proof fn lemma_edge_color(e: Edge)
    ensures
        edge_color(e) != crate::color::default_color(),
        color_of(e.color.deep_view()) != crate::color::default_color() ==> edge_color(e) == color_of(
            e.color.deep_view(),
        ),
        color_of(e.color.deep_view()) == crate::color::default_color() ==> edge_color(e) == EDGE_GRAY@,
        edge_color(e).len() > 0 && edge_color(e)[0] == '#',
{
    reveal_strlit("#888");
    reveal_strlit("#b4b4b4");
    lemma_color_starts_with_hash(e.color.deep_view());
    assert(DEFAULT_GRAY@ == crate::color::default_color());
    assert(EDGE_GRAY@.len() != crate::color::default_color().len());
}

} // verus!
