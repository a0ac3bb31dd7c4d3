//! The document model of a JSON Canvas file: nodes, edges and the canvas holding them.

use vstd::prelude::*;

verus! {

/// A node of the canvas. Every kind has an id, a rectangle (`x`, `y`, `width`,
/// `height`) and an optional color; the kinds differ in the text they carry.
#[derive(Debug)]
pub enum Node {
    /// A card of free text.
    Text {
        id: String,
        x: i64,
        y: i64,
        width: i64,
        height: i64,
        color: Option<String>,
        text: String,
    },
    /// A reference to a file, shown by its path.
    File {
        id: String,
        x: i64,
        y: i64,
        width: i64,
        height: i64,
        color: Option<String>,
        file: String,
    },
    /// A web link, shown by its URL.
    Link {
        id: String,
        x: i64,
        y: i64,
        width: i64,
        height: i64,
        color: Option<String>,
        url: String,
    },
    /// A frame that groups other nodes, with an optional label.
    Group {
        id: String,
        x: i64,
        y: i64,
        width: i64,
        height: i64,
        color: Option<String>,
        label: Option<String>,
    },
}

/// A connection between two nodes, named by their ids.
#[derive(Debug)]
pub struct Edge {
    pub id: String,
    pub from_node: String,
    pub to_node: String,
    pub from_side: Option<String>,
    pub to_side: Option<String>,
    pub from_end: Option<String>,
    pub to_end: Option<String>,
    pub color: Option<String>,
    pub label: Option<String>,
}

/// A whole canvas document.
#[derive(Debug)]
pub struct Canvas {
    pub nodes: Vec<Node>,
    pub edges: Vec<Edge>,
}

impl Node {
    /// The node's id.
    pub open spec fn spec_id(&self) -> Seq<char> {
        match self {
            Node::Text { id, .. } => id@,
            Node::File { id, .. } => id@,
            Node::Link { id, .. } => id@,
            Node::Group { id, .. } => id@,
        }
    }

    /// The node's rectangle as `(x, y, width, height)`.
    pub open spec fn spec_bounds(&self) -> (i64, i64, i64, i64) {
        match self {
            Node::Text { x, y, width, height, .. } => (*x, *y, *width, *height),
            Node::File { x, y, width, height, .. } => (*x, *y, *width, *height),
            Node::Link { x, y, width, height, .. } => (*x, *y, *width, *height),
            Node::Group { x, y, width, height, .. } => (*x, *y, *width, *height),
        }
    }

    /// The node's color, if it has one.
    pub open spec fn spec_color(&self) -> Option<Seq<char>> {
        match self {
            Node::Text { color, .. } => color.deep_view(),
            Node::File { color, .. } => color.deep_view(),
            Node::Link { color, .. } => color.deep_view(),
            Node::Group { color, .. } => color.deep_view(),
        }
    }

    /// The text shown inside the node: the text of a text card, the path of a file,
    /// the URL of a link, the label of a group (empty when it has none).
    pub open spec fn spec_display_text(&self) -> Seq<char> {
        match self {
            Node::Text { text, .. } => text@,
            Node::File { file, .. } => file@,
            Node::Link { url, .. } => url@,
            Node::Group { label, .. } => match label {
                Some(l) => l@,
                None => Seq::<char>::empty(),
            },
        }
    }

    /// The node's id.
    pub fn id(&self) -> (r: &str)
        ensures
            r@ == self.spec_id(),
    {
        match self {
            Node::Text { id, .. } => id.as_str(),
            Node::File { id, .. } => id.as_str(),
            Node::Link { id, .. } => id.as_str(),
            Node::Group { id, .. } => id.as_str(),
        }
    }

    /// The node's rectangle as `(x, y, width, height)`.
    pub fn bounds(&self) -> (r: (i64, i64, i64, i64))
        ensures
            r == self.spec_bounds(),
    {
        match self {
            Node::Text { x, y, width, height, .. } => (*x, *y, *width, *height),
            Node::File { x, y, width, height, .. } => (*x, *y, *width, *height),
            Node::Link { x, y, width, height, .. } => (*x, *y, *width, *height),
            Node::Group { x, y, width, height, .. } => (*x, *y, *width, *height),
        }
    }

    /// The node's color, if it has one.
    pub fn color(&self) -> (r: Option<&str>)
        ensures
            r.deep_view() == self.spec_color(),
    {
        let c = match self {
            Node::Text { color, .. } => color,
            Node::File { color, .. } => color,
            Node::Link { color, .. } => color,
            Node::Group { color, .. } => color,
        };
        match c {
            Some(s) => Some(s.as_str()),
            None => None,
        }
    }

    /// The text shown inside the node.
    pub fn display_text(&self) -> (r: String)
        ensures
            r@ == self.spec_display_text(),
    {
        match self {
            Node::Text { text, .. } => text.clone(),
            Node::File { file, .. } => file.clone(),
            Node::Link { url, .. } => url.clone(),
            Node::Group { label, .. } => match label {
                Some(l) => l.clone(),
                None => String::new(),
            },
        }
    }

    /// Whether the node is a group.
    pub fn is_group(&self) -> (r: bool)
        ensures
            r == (self is Group),
    {
        match self {
            Node::Group { .. } => true,
            _ => false,
        }
    }
}

} // verus!
