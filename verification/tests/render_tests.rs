use drawer::canvas::{Canvas, Edge, Node};
use drawer::edges::{ControlPoints, EdgeCurve};
use drawer::render::{check_canvas_fits, edge_curves, render_node, render_svg};

fn text_node(id: &str, x: i64, y: i64, width: i64, height: i64, text: &str) -> Node {
    Node::Text {
        id: id.to_string(),
        x,
        y,
        width,
        height,
        color: None,
        text: text.to_string(),
    }
}

fn edge(from: &str, to: &str) -> Edge {
    Edge {
        id: "e".to_string(),
        from_node: from.to_string(),
        to_node: to.to_string(),
        from_side: None,
        to_side: None,
        from_end: None,
        to_end: None,
        color: None,
        label: None,
    }
}

fn controls(v: &[(&str, &str, &str, &str)]) -> Vec<ControlPoints> {
    v.iter()
        .map(|(a, b, c, d)| ControlPoints {
            cx1: a.to_string(),
            cy1: b.to_string(),
            cx2: c.to_string(),
            cy2: d.to_string(),
        })
        .collect()
}

fn header(vw: i64, vh: i64) -> String {
    let mut s = String::new();
    s.push_str(&format!(
        r#"<svg xmlns="http://www.w3.org/2000/svg" width="{vw}" height="{vh}" viewBox="0 0 {vw} {vh}">"#
    ));
    s.push('\n');
    s.push_str("<defs>\n");
    s.push_str(r#"<marker id="arrowhead" markerWidth="10" markerHeight="7" refX="10" refY="3.5" orient="auto">"#);
    s.push('\n');
    s.push_str("  <polygon points=\"0 0, 10 3.5, 0 7\" fill=\"#888\" />\n");
    s.push_str("</marker>\n");
    s.push_str("</defs>\n");
    s.push_str("<style>\n");
    s.push_str("  .node-rect { fill: #fff; stroke-width: 2; rx: 8; ry: 8; }\n");
    s.push_str("  .group-rect { fill: none; stroke-dasharray: 6 3; stroke-width: 2; rx: 8; ry: 8; }\n");
    s.push_str("  .node-text { font-family: -apple-system, \"Segoe UI\", sans-serif; font-size: 14px; fill: #1a1a1a; }\n");
    s.push_str("  .group-label { font-family: -apple-system, \"Segoe UI\", sans-serif; font-size: 13px; fill: #666; font-weight: 600; }\n");
    s.push_str("  .edge-label { font-family: -apple-system, \"Segoe UI\", sans-serif; font-size: 12px; fill: #666; }\n");
    s.push_str("  .edge-line { fill: none; stroke-width: 2; }\n");
    s.push_str("</style>\n");
    s
}

fn arrowheads(color: &str) -> String {
    let cid = &color[1..];
    format!(
        "<defs><marker id=\"ah-{cid}\" markerWidth=\"10\" markerHeight=\"7\" refX=\"10\" refY=\"3.5\" orient=\"auto\"><polygon points=\"0 0, 10 3.5, 0 7\" fill=\"{color}\" /></marker>\n<marker id=\"ah-{cid}-rev\" markerWidth=\"10\" markerHeight=\"7\" refX=\"0\" refY=\"3.5\" orient=\"auto\"><polygon points=\"10 0, 0 3.5, 10 7\" fill=\"{color}\" /></marker></defs>\n"
    )
}

#[test]
fn empty_canvas_gives_fixed_picture() {
    let c = Canvas { nodes: vec![], edges: vec![edge("a", "b")] };
    assert!(check_canvas_fits(&c, 40));
    assert!(edge_curves(&c, 40).is_empty());
    assert_eq!(
        render_svg(&c, 40, &vec![]),
        r#"<svg xmlns="http://www.w3.org/2000/svg" width="100" height="100"></svg>"#
    );
}

#[test]
fn group_node_with_label() {
    let g = Node::Group {
        id: "g".to_string(),
        x: 0,
        y: 0,
        width: 200,
        height: 100,
        color: Some("1".to_string()),
        label: Some("L<".to_string()),
    };
    let mut s = String::new();
    render_node(&mut s, &g, 40, 40);
    assert_eq!(
        s,
        "<rect class=\"group-rect\" x=\"40\" y=\"40\" width=\"200\" height=\"100\" stroke=\"#fb464c\" />\n<text class=\"group-label\" x=\"52\" y=\"32\">L&lt;</text>\n"
    );
}

#[test]
fn group_node_without_label() {
    let g = Node::Group {
        id: "g".to_string(),
        x: -5,
        y: 3,
        width: 10,
        height: 20,
        color: None,
        label: None,
    };
    let mut s = String::new();
    render_node(&mut s, &g, 0, 0);
    assert_eq!(
        s,
        "<rect class=\"group-rect\" x=\"-5\" y=\"3\" width=\"10\" height=\"20\" stroke=\"#b4b4b4\" />\n"
    );
}

#[test]
fn text_node_single_line() {
    let mut s = String::new();
    render_node(&mut s, &text_node("t", 0, 0, 250, 60, "Hello"), 40, 40);
    assert_eq!(
        s,
        "<rect class=\"node-rect\" x=\"40\" y=\"40\" width=\"250\" height=\"60\" stroke=\"#b4b4b4\" />\n<text class=\"node-text\" x=\"52\" y=\"74\">Hello</text>\n"
    );
}

#[test]
fn text_node_half_unit_baseline() {
    let mut s = String::new();
    render_node(&mut s, &text_node("t", 0, 0, 250, 61, "Hi & bye"), 40, 40);
    assert_eq!(
        s,
        "<rect class=\"node-rect\" x=\"40\" y=\"40\" width=\"250\" height=\"61\" stroke=\"#b4b4b4\" />\n<text class=\"node-text\" x=\"52\" y=\"74.5\">Hi &amp; bye</text>\n"
    );
}

#[test]
fn text_node_lines_that_do_not_fit_are_dropped() {
    let mut s = String::new();
    render_node(&mut s, &text_node("t", 0, 0, 100, 20, "a\nb"), 40, 40);
    assert_eq!(
        s,
        "<rect class=\"node-rect\" x=\"40\" y=\"40\" width=\"100\" height=\"20\" stroke=\"#b4b4b4\" />\n<text class=\"node-text\" x=\"52\" y=\"44\">a</text>\n"
    );
}

#[test]
fn text_node_with_no_room_draws_no_text() {
    let mut s = String::new();
    render_node(&mut s, &text_node("t", 0, 0, 100, 0, "x"), 0, 0);
    assert_eq!(
        s,
        "<rect class=\"node-rect\" x=\"0\" y=\"0\" width=\"100\" height=\"0\" stroke=\"#b4b4b4\" />\n"
    );
}

#[test]
fn single_node_picture() {
    let c = Canvas { nodes: vec![text_node("a", 0, 0, 100, 50, "Hi")], edges: vec![] };
    let mut expected = header(180, 130);
    expected.push_str("<rect class=\"node-rect\" x=\"40\" y=\"40\" width=\"100\" height=\"50\" stroke=\"#b4b4b4\" />\n");
    expected.push_str("<text class=\"node-text\" x=\"52\" y=\"69\">Hi</text>\n");
    expected.push_str("</svg>\n");
    assert_eq!(render_svg(&c, 40, &vec![]), expected);
}

#[test]
fn groups_are_drawn_before_other_nodes() {
    let g = Node::Group {
        id: "g".to_string(),
        x: 0,
        y: 0,
        width: 10,
        height: 10,
        color: None,
        label: None,
    };
    let c = Canvas { nodes: vec![text_node("a", 0, 0, 10, 10, ""), g], edges: vec![] };
    let out = render_svg(&c, 0, &vec![]);
    let group_at = out.find("group-rect\" x").unwrap();
    let node_at = out.find("node-rect\" x").unwrap();
    assert!(group_at < node_at);
}

#[test]
fn edge_with_label() {
    let a = text_node("a", 0, 0, 100, 100, "");
    let b = text_node("b", 300, 0, 100, 100, "");
    let mut e = edge("a", "b");
    e.label = Some("go".to_string());
    let c = Canvas { nodes: vec![a, b], edges: vec![e] };
    assert!(check_canvas_fits(&c, 0));
    let curves: Vec<EdgeCurve> = edge_curves(&c, 0);
    assert_eq!(curves.len(), 1);
    assert_eq!((curves[0].x1, curves[0].y1, curves[0].x2, curves[0].y2), (200, 100, 600, 100));
    assert_eq!((curves[0].from_side.as_str(), curves[0].to_side.as_str()), ("right", "left"));
    let out = render_svg(&c, 0, &controls(&[("180", "50", "220", "50")]));
    let mut expected = header(400, 100);
    expected.push_str("<rect class=\"node-rect\" x=\"0\" y=\"0\" width=\"100\" height=\"100\" stroke=\"#b4b4b4\" />\n");
    expected.push_str("<text class=\"node-text\" x=\"12\" y=\"54\"></text>\n");
    expected.push_str("<rect class=\"node-rect\" x=\"300\" y=\"0\" width=\"100\" height=\"100\" stroke=\"#b4b4b4\" />\n");
    expected.push_str("<text class=\"node-text\" x=\"312\" y=\"54\"></text>\n");
    expected.push_str(&arrowheads("#888"));
    expected.push_str("<path class=\"edge-line\" d=\"M 100 50 C 180 50, 220 50, 300 50\" stroke=\"#888\" marker-end=\"url(#ah-888)\" />\n");
    expected.push_str("<rect x=\"189\" y=\"38\" width=\"22\" height=\"20\" rx=\"4\" fill=\"white\" opacity=\"0.85\" />\n");
    expected.push_str("<text class=\"edge-label\" x=\"200\" y=\"50\" text-anchor=\"middle\">go</text>\n");
    expected.push_str("</svg>\n");
    assert_eq!(out, expected);
}

#[test]
fn edge_quarter_unit_label_position() {
    let a = text_node("a", 0, 0, 101, 100, "");
    let b = text_node("b", 300, 0, 100, 101, "");
    let mut e = edge("a", "b");
    e.label = Some("abc".to_string());
    e.color = Some("#ff0000".to_string());
    e.from_end = Some("arrow".to_string());
    e.to_end = Some("none".to_string());
    let c = Canvas { nodes: vec![a, b], edges: vec![e] };
    let out = render_svg(&c, 0, &controls(&[("p", "q", "r", "s")]));
    let mut tail = arrowheads("#ff0000");
    tail.push_str("<path class=\"edge-line\" d=\"M 101 50 C p q, r s, 300 50.5\" stroke=\"#ff0000\" marker-start=\"url(#ah-ff0000-rev)\" />\n");
    tail.push_str("<rect x=\"186\" y=\"38.25\" width=\"29\" height=\"20\" rx=\"4\" fill=\"white\" opacity=\"0.85\" />\n");
    tail.push_str("<text class=\"edge-label\" x=\"200.5\" y=\"50.25\" text-anchor=\"middle\">abc</text>\n");
    tail.push_str("</svg>\n");
    assert!(out.ends_with(&tail), "{out}");
}

#[test]
fn edge_with_named_sides_and_gray_color() {
    let a = text_node("a", 0, 0, 10, 10, "");
    let b = text_node("b", 100, 0, 10, 10, "");
    let mut e = edge("a", "b");
    e.from_side = Some("bottom".to_string());
    e.to_side = Some("top".to_string());
    e.color = Some("#b4b4b4".to_string());
    let c = Canvas { nodes: vec![a, b], edges: vec![e] };
    let curves = edge_curves(&c, 0);
    assert_eq!((curves[0].x1, curves[0].y1, curves[0].x2, curves[0].y2), (10, 20, 210, 0));
    let out = render_svg(&c, 0, &controls(&[("5", "40", "105", "-30")]));
    assert!(out.contains("<path class=\"edge-line\" d=\"M 5 10 C 5 40, 105 -30, 105 0\" stroke=\"#888\" marker-end=\"url(#ah-888)\" />\n"));
}

#[test]
fn edges_to_missing_nodes_are_skipped() {
    let a = text_node("a", 0, 0, 10, 10, "");
    let b = text_node("b", 100, 0, 10, 10, "");
    let c = Canvas { nodes: vec![a, b], edges: vec![edge("a", "zzz"), edge("b", "a")] };
    let curves = edge_curves(&c, 0);
    assert_eq!(curves.len(), 1);
    assert_eq!((curves[0].from_side.as_str(), curves[0].to_side.as_str()), ("left", "right"));
    let out = render_svg(&c, 0, &controls(&[("1", "2", "3", "4")]));
    assert_eq!(out.matches("<path").count(), 1);
    assert!(out.contains("d=\"M 100 5 C 1 2, 3 4, 10 5\""));
}

#[test]
fn duplicate_ids_refer_to_the_last_node() {
    let a1 = text_node("a", 0, 0, 10, 10, "");
    let b = text_node("b", 100, 0, 10, 10, "");
    let a2 = text_node("a", 100, 200, 10, 10, "");
    let c = Canvas { nodes: vec![a1, b, a2], edges: vec![edge("a", "b")] };
    let curves = edge_curves(&c, 0);
    assert_eq!((curves[0].from_side.as_str(), curves[0].to_side.as_str()), ("top", "bottom"));
}

#[test]
fn padding_offsets_and_nodes_inside_picture() {
    let c = Canvas {
        nodes: vec![text_node("a", -30, 10, 20, 20, ""), text_node("b", 50, -5, 5, 5, "")],
        edges: vec![],
    };
    let out = render_svg(&c, 7, &vec![]);
    // Extent x: -30 .. 55, y: -5 .. 30; margin 7 on each side.
    assert!(out.starts_with("<svg xmlns=\"http://www.w3.org/2000/svg\" width=\"99\" height=\"49\" viewBox=\"0 0 99 49\">\n"));
    assert!(out.contains("x=\"7\" y=\"22\" width=\"20\" height=\"20\""));
    assert!(out.contains("x=\"87\" y=\"7\" width=\"5\" height=\"5\""));
}

#[test]
fn overflowing_canvas_is_refused() {
    let c = Canvas { nodes: vec![text_node("a", i64::MAX - 10, 0, 100, 10, "")], edges: vec![] };
    assert!(!check_canvas_fits(&c, 0));
    let c = Canvas { nodes: vec![text_node("a", 0, 0, 10, 10, "")], edges: vec![] };
    assert!(!check_canvas_fits(&c, i64::MAX));
    assert!(check_canvas_fits(&c, 40));
}

#[test]
fn moving_all_nodes_leaves_the_picture_unchanged() {
    let build = |dx: i64, dy: i64| {
        let a = text_node("a", 0 + dx, 0 + dy, 120, 60, "some words here");
        let b = Node::Group {
            id: "b".to_string(),
            x: 200 + dx,
            y: 150 + dy,
            width: 90,
            height: 45,
            color: Some("3".to_string()),
            label: Some("group".to_string()),
        };
        let mut e = edge("a", "b");
        e.label = Some("x".to_string());
        Canvas { nodes: vec![a, b], edges: vec![e] }
    };
    let c1 = build(0, 0);
    let c2 = build(123, -45);
    let k = controls(&[("1", "2", "3", "4")]);
    assert_eq!(render_svg(&c1, 40, &k), render_svg(&c2, 40, &k));
    let (v1, v2) = (edge_curves(&c1, 40), edge_curves(&c2, 40));
    assert_eq!((v1[0].x1, v1[0].y1, v1[0].x2, v1[0].y2), (v2[0].x1, v2[0].y1, v2[0].x2, v2[0].y2));
}

#[test]
fn overflow_only_where_text_is_drawn() {
    let far = |h: i64| text_node("b", i64::MAX - 20, 0, 0, h, "");
    let c = Canvas { nodes: vec![text_node("a", 0, 0, 0, 0, ""), far(0)], edges: vec![] };
    assert!(check_canvas_fits(&c, 10));
    let c = Canvas { nodes: vec![text_node("a", 0, 0, 0, 0, ""), far(16)], edges: vec![] };
    assert!(!check_canvas_fits(&c, 10));
    let c = Canvas { nodes: vec![text_node("a", 0, 0, 0, 0, ""), far(15)], edges: vec![] };
    assert!(check_canvas_fits(&c, 10));
}

#[test]
fn edge_naming_a_missing_node_leaves_no_trace() {
    let a = text_node("a", 0, 0, 100, 100, "");
    let b = text_node("b", 300, 0, 100, 100, "");
    let mut labelled = edge("a", "b");
    labelled.label = Some("go".to_string());
    let c1 = Canvas { nodes: vec![a.clone_node(), b.clone_node()], edges: vec![labelled.clone_edge()] };
    let mut dangling = edge("nowhere", "b");
    dangling.label = Some("never".to_string());
    let c2 = Canvas { nodes: vec![a, b], edges: vec![dangling, labelled] };
    let k = controls(&[("180", "50", "220", "50")]);
    assert_eq!(edge_curves(&c1, 0).len(), edge_curves(&c2, 0).len());
    assert_eq!(render_svg(&c1, 0, &k), render_svg(&c2, 0, &k));
}

trait CloneNode {
    fn clone_node(&self) -> Node;
}

impl CloneNode for Node {
    fn clone_node(&self) -> Node {
        match self {
            Node::Text { id, x, y, width, height, color, text } => Node::Text {
                id: id.clone(),
                x: *x,
                y: *y,
                width: *width,
                height: *height,
                color: color.clone(),
                text: text.clone(),
            },
            _ => unreachable!(),
        }
    }
}

trait CloneEdge {
    fn clone_edge(&self) -> Edge;
}

impl CloneEdge for Edge {
    fn clone_edge(&self) -> Edge {
        Edge {
            id: self.id.clone(),
            from_node: self.from_node.clone(),
            to_node: self.to_node.clone(),
            from_side: self.from_side.clone(),
            to_side: self.to_side.clone(),
            from_end: self.from_end.clone(),
            to_end: self.to_end.clone(),
            color: self.color.clone(),
            label: self.label.clone(),
        }
    }
}
