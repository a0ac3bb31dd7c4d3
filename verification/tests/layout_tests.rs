use drawer::canvas::Node;
use drawer::layout::{best_side, find_node, node_extent, side_point};

fn text_node(id: &str, x: i64, y: i64, width: i64, height: i64) -> Node {
    Node::Text {
        id: id.to_string(),
        x,
        y,
        width,
        height,
        color: None,
        text: String::new(),
    }
}

#[test]
fn best_side_horizontal() {
    assert_eq!(best_side((0, 0, 100, 100), (300, 0, 100, 100)), ("right", "left"));
    assert_eq!(best_side((300, 0, 100, 100), (0, 0, 100, 100)), ("left", "right"));
}

#[test]
fn best_side_vertical() {
    assert_eq!(best_side((0, 0, 100, 100), (0, 300, 100, 100)), ("bottom", "top"));
    assert_eq!(best_side((0, 0, 100, 100), (0, -300, 100, 100)), ("top", "bottom"));
}

#[test]
fn best_side_ties_go_vertical() {
    assert_eq!(best_side((0, 0, 10, 10), (100, 100, 10, 10)), ("bottom", "top"));
    assert_eq!(best_side((0, 0, 10, 10), (0, 0, 10, 10)), ("top", "bottom"));
}

#[test]
fn best_side_uses_centers() {
    // Left edges coincide, but the wider target has its center to the right.
    assert_eq!(best_side((0, 0, 10, 10), (0, 0, 100, 10)), ("right", "left"));
    // Half a unit of difference between centers decides.
    assert_eq!(best_side((0, 0, 10, 10), (0, 0, 11, 10)), ("right", "left"));
}

#[test]
fn best_side_swaps_when_edge_is_reversed() {
    let boxes = [(0, 0, 50, 50), (120, 10, 30, 70), (-40, 200, 10, 10), (5, -90, 200, 20)];
    for a in boxes {
        for b in boxes {
            if a != b {
                let (f, t) = best_side(a, b);
                assert_eq!(best_side(b, a), (t, f));
            }
        }
    }
}

#[test]
fn side_points_in_half_units() {
    assert_eq!(side_point(10, 20, 100, 50, Some("top")), (120, 40));
    assert_eq!(side_point(10, 20, 100, 50, Some("bottom")), (120, 140));
    assert_eq!(side_point(10, 20, 100, 50, Some("left")), (20, 90));
    assert_eq!(side_point(10, 20, 100, 50, Some("right")), (220, 90));
    assert_eq!(side_point(10, 20, 100, 50, Some("middle")), (120, 90));
    assert_eq!(side_point(10, 20, 100, 50, None), (120, 90));
    assert_eq!(side_point(0, 0, 5, 7, Some("left")), (0, 7));
}

#[test]
fn find_node_takes_the_last_with_the_id() {
    let nodes = vec![text_node("a", 0, 0, 1, 1), text_node("b", 0, 0, 1, 1), text_node("a", 5, 5, 1, 1)];
    assert_eq!(find_node(&nodes, "a"), Some(2));
    assert_eq!(find_node(&nodes, "b"), Some(1));
    assert_eq!(find_node(&nodes, "c"), None);
}

#[test]
fn extent_of_nodes() {
    let nodes = vec![text_node("a", -10, 5, 20, 30), text_node("b", 40, -7, 10, 3)];
    assert_eq!(node_extent(&nodes), (-10, -7, 50, 35));
}

#[test]
fn node_accessors() {
    let g = Node::Group {
        id: "g1".to_string(),
        x: 1,
        y: 2,
        width: 3,
        height: 4,
        color: Some("5".to_string()),
        label: None,
    };
    assert_eq!(g.id(), "g1");
    assert_eq!(g.bounds(), (1, 2, 3, 4));
    assert_eq!(g.color(), Some("5"));
    assert_eq!(g.display_text(), "");
    assert!(g.is_group());
    let l = Node::Link {
        id: "l".to_string(),
        x: 0,
        y: 0,
        width: 0,
        height: 0,
        color: None,
        url: "https://example.com".to_string(),
    };
    assert_eq!(l.display_text(), "https://example.com");
    assert_eq!(l.color(), None);
    assert!(!l.is_group());
    let f = Node::File {
        id: "f".to_string(),
        x: 0,
        y: 0,
        width: 0,
        height: 0,
        color: None,
        file: "notes/a.md".to_string(),
    };
    assert_eq!(f.display_text(), "notes/a.md");
}
