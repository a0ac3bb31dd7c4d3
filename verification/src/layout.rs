//! Geometry of the drawing: where edges attach to nodes, the extent of the canvas,
//! and the translation that puts it inside the picture.
//!
//! Coordinates are whole numbers; points halfway between them (the middle of a side)
//! are given in half units, that is doubled.

use vstd::prelude::*;
use crate::canvas::Node;
use crate::text::str_is;

verus! {

pub const TOP: &'static str = "top";
pub const BOTTOM: &'static str = "bottom";
pub const LEFT: &'static str = "left";
pub const RIGHT: &'static str = "right";

/// Whether a value is representable as an `i64`.
pub open spec fn in_i64(v: int) -> bool {
    i64::MIN <= v <= i64::MAX
}

pub open spec fn abs(v: int) -> int {
    if v < 0 {
        -v
    } else {
        v
    }
}

/// Twice the horizontal and vertical distance from the center of rectangle `from` to
/// the center of rectangle `to` (rectangles as `(x, y, width, height)`).
pub open spec fn center_delta(from: (i64, i64, i64, i64), to: (i64, i64, i64, i64)) -> (
    int,
    int,
) {
    ((2 * to.0 + to.2) - (2 * from.0 + from.2), (2 * to.1 + to.3) - (2 * from.1 + from.3))
}

/// The sides an edge leaves `from` and enters `to` by when it does not name them: the
/// facing vertical sides when the centers lie further apart horizontally than
/// vertically, else the facing horizontal sides (`top`/`bottom` when the centers
/// coincide).
pub open spec fn best_sides(from: (i64, i64, i64, i64), to: (i64, i64, i64, i64)) -> (
    Seq<char>,
    Seq<char>,
) {
    let (dx, dy) = center_delta(from, to);
    if abs(dx) > abs(dy) {
        if dx > 0 {
            (RIGHT@, LEFT@)
        } else {
            (LEFT@, RIGHT@)
        }
    } else if dy > 0 {
        (BOTTOM@, TOP@)
    } else {
        (TOP@, BOTTOM@)
    }
}

/// The point, in half units, where an edge meets the rectangle `(x, y, w, h)` on the
/// given side: the middle of that side, or the center of the rectangle for a side that
/// is not one of `top`, `bottom`, `left`, `right`.
pub open spec fn side_point_half(x: int, y: int, w: int, h: int, side: Option<Seq<char>>) -> (
    int,
    int,
) {
    if side == Some(TOP@) {
        (2 * x + w, 2 * y)
    } else if side == Some(BOTTOM@) {
        (2 * x + w, 2 * y + 2 * h)
    } else if side == Some(LEFT@) {
        (2 * x, 2 * y + h)
    } else if side == Some(RIGHT@) {
        (2 * x + 2 * w, 2 * y + h)
    } else {
        (2 * x + w, 2 * y + h)
    }
}

/// The sides an edge between two rectangles attaches to (see `best_sides`).
pub fn best_side(from: (i64, i64, i64, i64), to: (i64, i64, i64, i64)) -> (r: (
    &'static str,
    &'static str,
))
    ensures
        (r.0@, r.1@) == best_sides(from, to),
{
    let (fx, fy, fw, fh) = from;
    let (tx, ty, tw, th) = to;
    let dx: i128 = (2 * (tx as i128) + tw as i128) - (2 * (fx as i128) + fw as i128);
    let dy: i128 = (2 * (ty as i128) + th as i128) - (2 * (fy as i128) + fh as i128);
    let adx: i128 = if dx < 0 {
        -dx
    } else {
        dx
    };
    let ady: i128 = if dy < 0 {
        -dy
    } else {
        dy
    };
    if adx > ady {
        if dx > 0 {
            (RIGHT, LEFT)
        } else {
            (LEFT, RIGHT)
        }
    } else if dy > 0 {
        (BOTTOM, TOP)
    } else {
        (TOP, BOTTOM)
    }
}

/// The point, in half units, where an edge meets the rectangle `(x, y, w, h)` on
/// `side` (see `side_point_half`).
pub fn side_point(x: i64, y: i64, w: i64, h: i64, side: Option<&str>) -> (r: (i128, i128))
    ensures
        (r.0 as int, r.1 as int) == side_point_half(
            x as int,
            y as int,
            w as int,
            h as int,
            side.deep_view(),
        ),
{
    let x2: i128 = 2 * (x as i128);
    let y2: i128 = 2 * (y as i128);
    let w1: i128 = w as i128;
    let h1: i128 = h as i128;
    match side {
        Some(s) => {
            if str_is(s, TOP) {
                (x2 + w1, y2)
            } else if str_is(s, BOTTOM) {
                (x2 + w1, y2 + 2 * h1)
            } else if str_is(s, LEFT) {
                (x2, y2 + h1)
            } else if str_is(s, RIGHT) {
                (x2 + 2 * w1, y2 + h1)
            } else {
                (x2 + w1, y2 + h1)
            }
        },
        None => (x2 + w1, y2 + h1),
    }
}

/// The index of the node an edge end refers to: the last node with that id.
pub open spec fn lookup(ns: Seq<Node>, id: Seq<char>) -> Option<int>
    decreases ns.len(),
{
    if ns.len() == 0 {
        None
    } else if ns.last().spec_id() == id {
        Some(ns.len() - 1)
    } else {
        lookup(ns.drop_last(), id)
    }
}

pub proof fn lemma_lookup_found(ns: Seq<Node>, id: Seq<char>)
    ensures
        lookup(ns, id) matches Some(i) ==> 0 <= i < ns.len() && ns[i].spec_id() == id && forall|
            j: int,
        |
            i < j < ns.len() ==> ns[j].spec_id() != id,
        lookup(ns, id) is None ==> forall|j: int| 0 <= j < ns.len() ==> ns[j].spec_id() != id,
    decreases ns.len(),
{
    if ns.len() > 0 {
        lemma_lookup_found(ns.drop_last(), id);
        if ns.last().spec_id() != id {
            assert forall|j: int| 0 <= j < ns.len() - 1 implies ns[j] == ns.drop_last()[j] by {}
        }
    }
}

/// The index of the last node whose id is `id`.
pub fn find_node(nodes: &Vec<Node>, id: &str) -> (r: Option<usize>)
    ensures
        match r {
            Some(i) => lookup(nodes@, id@) == Some(i as int) && i < nodes@.len(),
            None => lookup(nodes@, id@) is None,
        },
{
    let mut k: usize = nodes.len();
    assert(nodes@.take(k as int) =~= nodes@);
    while k > 0
        invariant
            k <= nodes@.len(),
            lookup(nodes@, id@) == lookup(nodes@.take(k as int), id@),
        decreases k,
    {
        let i = k - 1;
        assert(nodes@.take(k as int).drop_last() =~= nodes@.take(i as int));
        if str_is(nodes[i].id(), id) {
            return Some(i);
        }
        k = i;
    }
    None
}

/// The smallest `x` and `y` and the largest right and bottom edge of a sequence of
/// nodes, as `(min_x, min_y, max_x, max_y)`; for no node, the extreme `i64` values.
pub open spec fn extent(ns: Seq<Node>) -> (int, int, int, int)
    decreases ns.len(),
{
    if ns.len() == 0 {
        (i64::MAX as int, i64::MAX as int, i64::MIN as int, i64::MIN as int)
    } else {
        let e = extent(ns.drop_last());
        let b = ns.last().spec_bounds();
        (
            if b.0 < e.0 {
                b.0 as int
            } else {
                e.0
            },
            if b.1 < e.1 {
                b.1 as int
            } else {
                e.1
            },
            if b.0 + b.2 > e.2 {
                b.0 + b.2
            } else {
                e.2
            },
            if b.1 + b.3 > e.3 {
                b.1 + b.3
            } else {
                e.3
            },
        )
    }
}

/// The right and bottom edges of a node are representable.
pub open spec fn corner_fits(n: Node) -> bool {
    in_i64(n.spec_bounds().0 + n.spec_bounds().2) && in_i64(n.spec_bounds().1 + n.spec_bounds().3)
}

/// The right and bottom edges of every node are representable.
pub open spec fn corners_fit(ns: Seq<Node>) -> bool {
    forall|i: int| 0 <= i < ns.len() ==> corner_fits(#[trigger] ns[i])
}

/// The extent reaches every node: each node's rectangle lies within it.
pub proof fn lemma_extent_contains(ns: Seq<Node>)
    ensures
        forall|i: int|
            0 <= i < ns.len() ==> extent(ns).0 <= #[trigger] ns[i].spec_bounds().0 && extent(ns).1
                <= ns[i].spec_bounds().1 && ns[i].spec_bounds().0 + ns[i].spec_bounds().2
                <= extent(ns).2 && ns[i].spec_bounds().1 + ns[i].spec_bounds().3 <= extent(ns).3,
    decreases ns.len(),
{
    if ns.len() > 0 {
        lemma_extent_contains(ns.drop_last());
        assert(ns[ns.len() - 1] == ns.last());
        assert forall|i: int| 0 <= i < ns.len() - 1 implies ns[i] == ns.drop_last()[i] by {}
    }
}

/// The extent `(min_x, min_y, max_x, max_y)` of a non-empty sequence of nodes.
pub fn node_extent(nodes: &Vec<Node>) -> (r: (i64, i64, i64, i64))
    requires
        corners_fit(nodes@),
    ensures
        (r.0 as int, r.1 as int, r.2 as int, r.3 as int) == extent(nodes@),
{
    let mut min_x: i64 = i64::MAX;
    let mut min_y: i64 = i64::MAX;
    let mut max_x: i64 = i64::MIN;
    let mut max_y: i64 = i64::MIN;
    let mut k: usize = 0;
    while k < nodes.len()
        invariant
            k <= nodes@.len(),
            corners_fit(nodes@),
            (min_x as int, min_y as int, max_x as int, max_y as int) == extent(
                nodes@.take(k as int),
            ),
        decreases nodes@.len() - k,
    {
        let (x, y, w, h) = nodes[k].bounds();
        assert(nodes@.take(k + 1).drop_last() =~= nodes@.take(k as int));
        assert(nodes@.take(k + 1).last() == nodes@[k as int]);
        assert(corner_fits(nodes@[k as int]));
        if x < min_x {
            min_x = x;
        }
        if y < min_y {
            min_y = y;
        }
        if x + w > max_x {
            max_x = x + w;
        }
        if y + h > max_y {
            max_y = y + h;
        }
        k = k + 1;
    }
    assert(nodes@.take(nodes@.len() as int) =~= nodes@);
    (min_x, min_y, max_x, max_y)
}

/// Exchanging the two ends of an edge exchanges the sides it attaches to, unless the
/// two centers coincide.
pub proof fn lemma_best_sides_swap(a: (i64, i64, i64, i64), b: (i64, i64, i64, i64))
    requires
        center_delta(a, b) != (0int, 0int),
    ensures
        best_sides(b, a) == (best_sides(a, b).1, best_sides(a, b).0),
{
}

/// An edge always leaves and enters by opposite sides.
pub proof fn lemma_best_sides_opposite(a: (i64, i64, i64, i64), b: (i64, i64, i64, i64))
    ensures
        (best_sides(a, b) == (RIGHT@, LEFT@)) || (best_sides(a, b) == (LEFT@, RIGHT@)) || (
        best_sides(a, b) == (BOTTOM@, TOP@)) || (best_sides(a, b) == (TOP@, BOTTOM@)),
{
}

/// The direction a side of a rectangle faces, as `(x, y)` with `y` growing downwards;
/// `(0, 0)` for a text that names no side.
pub open spec fn outward(side: Seq<char>) -> (int, int) {
    if side == RIGHT@ {
        (1, 0)
    } else if side == LEFT@ {
        (-1, 0)
    } else if side == BOTTOM@ {
        (0, 1)
    } else if side == TOP@ {
        (0, -1)
    } else {
        (0, 0)
    }
}

/// An edge between two rectangles leaves by the side that faces the other center most
/// directly, and enters by the opposite side: the side's direction, taken against the
/// offset `(dx, dy)` between the centers, gives `max(|dx|, |dy|)`. The sides are
/// horizontal exactly when the centers lie further apart horizontally than vertically.
pub proof fn lemma_best_sides_face(a: (i64, i64, i64, i64), b: (i64, i64, i64, i64))
    ensures
        ({
            let (dx, dy) = center_delta(a, b);
            let (f, t) = best_sides(a, b);
            let nf = outward(f);
            let nt = outward(t);
            &&& nf != (0int, 0int)
            &&& nt == (-nf.0, -nf.1)
            &&& nf.0 * dx + nf.1 * dy == (if abs(dx) > abs(dy) {
                abs(dx)
            } else {
                abs(dy)
            })
            &&& (abs(dx) > abs(dy)) == (nf.1 == 0)
        }),
{
    reveal_strlit("right");
    reveal_strlit("left");
    reveal_strlit("top");
    reveal_strlit("bottom");
    assert(RIGHT@ == "right"@);
    assert(LEFT@ == "left"@);
    assert(TOP@ == "top"@);
    assert(BOTTOM@ == "bottom"@);
    assert(RIGHT@[0] != LEFT@[0]);
    assert(RIGHT@[0] != BOTTOM@[0]);
    assert(RIGHT@[0] != TOP@[0]);
    assert(LEFT@[0] != BOTTOM@[0]);
    assert(LEFT@[0] != TOP@[0]);
    assert(BOTTOM@[0] != TOP@[0]);
}

/// An edge attaches to the middle of the side it names: starting from the center of
/// the rectangle `(x, y, w, h)`, it moves half the width along the side's direction
/// horizontally and half the height vertically (in half units); for a text that names no
/// side it stays at the center.
pub proof fn lemma_side_point_on_side(x: int, y: int, w: int, h: int, side: Seq<char>)
    ensures
        side_point_half(x, y, w, h, Some(side)) == (
            2 * x + w + outward(side).0 * w,
            2 * y + h + outward(side).1 * h,
        ),
{
    reveal_strlit("right");
    reveal_strlit("left");
    reveal_strlit("top");
    reveal_strlit("bottom");
    assert(RIGHT@ == "right"@);
    assert(LEFT@ == "left"@);
    assert(TOP@ == "top"@);
    assert(BOTTOM@ == "bottom"@);
    assert(RIGHT@[0] != LEFT@[0]);
    assert(RIGHT@[0] != BOTTOM@[0]);
    assert(RIGHT@[0] != TOP@[0]);
    assert(LEFT@[0] != BOTTOM@[0]);
    assert(LEFT@[0] != TOP@[0]);
    assert(BOTTOM@[0] != TOP@[0]);
}

/// The extent of nodes is tight: some node has the smallest `x`, some the smallest `y`,
/// some the rightmost right edge and some the lowest bottom edge.
pub proof fn lemma_extent_attained(ns: Seq<Node>)
    requires
        ns.len() > 0,
        corners_fit(ns),
    ensures
        exists|i: int| 0 <= i < ns.len() && (#[trigger] ns[i].spec_bounds()).0 == extent(ns).0,
        exists|i: int| 0 <= i < ns.len() && (#[trigger] ns[i].spec_bounds()).1 == extent(ns).1,
        exists|i: int|
            0 <= i < ns.len() && (#[trigger] ns[i].spec_bounds()).0 + ns[i].spec_bounds().2
                == extent(ns).2,
        exists|i: int|
            0 <= i < ns.len() && (#[trigger] ns[i].spec_bounds()).1 + ns[i].spec_bounds().3
                == extent(ns).3,
    decreases ns.len(),
{
    let k = ns.len() - 1;
    let b = ns[k].spec_bounds();
    assert(ns.last() == ns[k]);
    assert(corner_fits(ns[k]));
    if ns.len() == 1 {
        assert(extent(ns.drop_last()) == (
            i64::MAX as int,
            i64::MAX as int,
            i64::MIN as int,
            i64::MIN as int,
        ));
        assert(ns[0].spec_bounds().0 == extent(ns).0);
        assert(ns[0].spec_bounds().1 == extent(ns).1);
        assert(ns[0].spec_bounds().0 + ns[0].spec_bounds().2 == extent(ns).2);
        assert(ns[0].spec_bounds().1 + ns[0].spec_bounds().3 == extent(ns).3);
    } else {
        let d = ns.drop_last();
        assert(corners_fit(d)) by {
            assert forall|i: int| 0 <= i < d.len() implies corner_fits(#[trigger] d[i]) by {
                assert(d[i] == ns[i]);
            }
        }
        lemma_extent_attained(d);
        let e = extent(d);
        if b.0 < e.0 {
            assert(ns[k].spec_bounds().0 == extent(ns).0);
        } else {
            let i = choose|i: int| 0 <= i < d.len() && (#[trigger] d[i].spec_bounds()).0 == e.0;
            assert(ns[i] == d[i]);
            assert(ns[i].spec_bounds().0 == extent(ns).0);
        }
        if b.1 < e.1 {
            assert(ns[k].spec_bounds().1 == extent(ns).1);
        } else {
            let i = choose|i: int| 0 <= i < d.len() && (#[trigger] d[i].spec_bounds()).1 == e.1;
            assert(ns[i] == d[i]);
            assert(ns[i].spec_bounds().1 == extent(ns).1);
        }
        if b.0 + b.2 > e.2 {
            assert(ns[k].spec_bounds().0 + ns[k].spec_bounds().2 == extent(ns).2);
        } else {
            let i = choose|i: int|
                0 <= i < d.len() && (#[trigger] d[i].spec_bounds()).0 + d[i].spec_bounds().2 == e.2;
            assert(ns[i] == d[i]);
            assert(ns[i].spec_bounds().0 + ns[i].spec_bounds().2 == extent(ns).2);
        }
        if b.1 + b.3 > e.3 {
            assert(ns[k].spec_bounds().1 + ns[k].spec_bounds().3 == extent(ns).3);
        } else {
            let i = choose|i: int|
                0 <= i < d.len() && (#[trigger] d[i].spec_bounds()).1 + d[i].spec_bounds().3 == e.3;
            assert(ns[i] == d[i]);
            assert(ns[i].spec_bounds().1 + ns[i].spec_bounds().3 == extent(ns).3);
        }
    }
}

} // verus!
