use vstd::prelude::*;

use crate::bsp::PartitionNode;
use crate::bsp::carve_partition;
use crate::bsp::clamp_roll;
use crate::bsp::covers;
use crate::bsp::fill_rect_spec;
use crate::bsp::fits_split;
use crate::bsp::generate_tiles;
use crate::bsp::node_bounds;
use crate::bsp::node_wf;
use crate::bsp::rect_in;
use crate::bsp::split_partition;
use crate::grid::Tile;
use crate::grid::walls;
use crate::point::Point;
use crate::rectangle::Rectangle;
use crate::rectangle::max_coord;
use crate::rectangle::min_coord;

verus! {

/// A map cell named by its column and its row.
pub type Cell = (int, int);

/// `c` names a cell of the tile matrix `t`.
pub open spec fn in_grid(t: Seq<Seq<Tile>>, c: Cell) -> bool {
    0 <= c.1 < t.len() && 0 <= c.0 < t[c.1].len()
}

/// The cell is carved floor.
pub open spec fn is_floor(t: Seq<Seq<Tile>>, c: Cell) -> bool {
    in_grid(t, c) && t[c.1][c.0] == Tile::Floor
}

/// The two cells share an edge.
pub open spec fn adjacent(a: Cell, b: Cell) -> bool {
    ||| (a.0 == b.0 && (a.1 == b.1 + 1 || a.1 + 1 == b.1))
    ||| (a.1 == b.1 && (a.0 == b.0 + 1 || a.0 + 1 == b.0))
}

/// A walk over carved floor: at least one cell, every cell floor, every step
/// between edge-sharing cells.
pub open spec fn is_floor_path(t: Seq<Seq<Tile>>, p: Seq<Cell>) -> bool {
    &&& p.len() >= 1
    &&& forall|i: int| 0 <= i < p.len() ==> is_floor(t, #[trigger] p[i])
    &&& forall|i: int| 0 <= i < p.len() - 1 ==> adjacent(#[trigger] p[i], p[i + 1])
}

/// Two cells joined by a walk over floor.
pub open spec fn connected(t: Seq<Seq<Tile>>, a: Cell, b: Cell) -> bool {
    exists|p: Seq<Cell>| is_floor_path(t, p) && p.first() == a && p.last() == b
}

/// Every floor tile reaches every other through edge-sharing floor tiles.
pub open spec fn floor_connected(t: Seq<Seq<Tile>>) -> bool {
    forall|a: Cell, b: Cell| is_floor(t, a) && is_floor(t, b) ==> #[trigger] connected(t, a, b)
}

/// The second matrix has the shape of the first and keeps all its floor.
pub open spec fn floor_preserved(t: Seq<Seq<Tile>>, t2: Seq<Seq<Tile>>) -> bool {
    &&& t2.len() == t.len()
    &&& forall|y: int| 0 <= y < t.len() ==> (#[trigger] t2[y]).len() == t[y].len()
    &&& forall|c: Cell| is_floor(t, c) ==> #[trigger] is_floor(t2, c)
}

proof fn lemma_path_connects(t: Seq<Seq<Tile>>, p: Seq<Cell>, a: Cell, b: Cell)
    requires
        is_floor_path(t, p),
        p.first() == a,
        p.last() == b,
    ensures
        connected(t, a, b),
{
}

proof fn lemma_connected_refl(t: Seq<Seq<Tile>>, a: Cell)
    requires
        is_floor(t, a),
    ensures
        connected(t, a, a),
{
    let p = seq![a];
    assert(is_floor(t, p[0]));
    lemma_path_connects(t, p, a, a);
}

proof fn lemma_connected_sym(t: Seq<Seq<Tile>>, a: Cell, b: Cell)
    requires
        connected(t, a, b),
    ensures
        connected(t, b, a),
{
    let p = choose|p: Seq<Cell>| is_floor_path(t, p) && p.first() == a && p.last() == b;
    let q = Seq::new(p.len(), |i: int| p[p.len() - 1 - i]);
    assert forall|i: int| 0 <= i < q.len() implies is_floor(t, #[trigger] q[i]) by {
        assert(is_floor(t, p[p.len() - 1 - i]));
    }
    assert forall|i: int| 0 <= i < q.len() - 1 implies adjacent(#[trigger] q[i], q[i + 1]) by {
        assert(adjacent(p[p.len() - 2 - i], p[p.len() - 1 - i]));
    }
    lemma_path_connects(t, q, b, a);
}

proof fn lemma_connected_trans(t: Seq<Seq<Tile>>, a: Cell, b: Cell, c: Cell)
    requires
        connected(t, a, b),
        connected(t, b, c),
    ensures
        connected(t, a, c),
{
    let p = choose|p: Seq<Cell>| is_floor_path(t, p) && p.first() == a && p.last() == b;
    let q = choose|q: Seq<Cell>| is_floor_path(t, q) && q.first() == b && q.last() == c;
    if q.len() == 1 {
        lemma_path_connects(t, p, a, c);
    } else {
        let r = p + q.drop_first();
        assert forall|i: int| 0 <= i < r.len() implies is_floor(t, #[trigger] r[i]) by {
            if i < p.len() {
                assert(r[i] == p[i]);
            } else {
                assert(r[i] == q[i - p.len() + 1]);
            }
        }
        assert forall|i: int| 0 <= i < r.len() - 1 implies adjacent(#[trigger] r[i], r[i + 1]) by {
            if i < p.len() - 1 {
                assert(r[i] == p[i] && r[i + 1] == p[i + 1]);
            } else if i == p.len() - 1 {
                assert(r[i] == p[p.len() - 1]);
                assert(r[i + 1] == q[1]);
                assert(adjacent(q[0], q[1]));
            } else {
                assert(r[i] == q[i - p.len() + 1] && r[i + 1] == q[i - p.len() + 2]);
                assert(adjacent(q[i - p.len() + 1], q[i - p.len() + 2]));
            }
        }
        assert(r.first() == a);
        assert(r.last() == q.last());
        lemma_path_connects(t, r, a, c);
    }
}

/// A run of floor cells along one row is connected end to end.
proof fn lemma_row_connected(t: Seq<Seq<Tile>>, x0: int, x1: int, y: int)
    requires
        x0 <= x1,
        forall|x: int| x0 <= x <= x1 ==> is_floor(t, (x, y)),
    ensures
        connected(t, (x0, y), (x1, y)),
{
    let p = Seq::new((x1 - x0 + 1) as nat, |i: int| (x0 + i, y));
    assert forall|i: int| 0 <= i < p.len() implies is_floor(t, #[trigger] p[i]) by {
        assert(is_floor(t, (x0 + i, y)));
    }
    assert forall|i: int| 0 <= i < p.len() - 1 implies adjacent(#[trigger] p[i], p[i + 1]) by {
        assert(p[i] == (x0 + i, y) && p[i + 1] == (x0 + i + 1, y));
    }
    lemma_path_connects(t, p, (x0, y), (x1, y));
}

/// A run of floor cells along one column is connected end to end.
proof fn lemma_column_connected(t: Seq<Seq<Tile>>, x: int, y0: int, y1: int)
    requires
        y0 <= y1,
        forall|y: int| y0 <= y <= y1 ==> is_floor(t, (x, y)),
    ensures
        connected(t, (x, y0), (x, y1)),
{
    let p = Seq::new((y1 - y0 + 1) as nat, |i: int| (x, y0 + i));
    assert forall|i: int| 0 <= i < p.len() implies is_floor(t, #[trigger] p[i]) by {
        assert(is_floor(t, (x, y0 + i)));
    }
    assert forall|i: int| 0 <= i < p.len() - 1 implies adjacent(#[trigger] p[i], p[i + 1]) by {
        assert(p[i] == (x, y0 + i) && p[i + 1] == (x, y0 + i + 1));
    }
    lemma_path_connects(t, p, (x, y0), (x, y1));
}

/// A run of floor cells along one row is connected whichever end comes first.
proof fn lemma_row_connected_either_way(t: Seq<Seq<Tile>>, x0: int, x1: int, y: int)
    requires
        forall|x: int| (if x0 <= x1 {
            x0 <= x <= x1
        } else {
            x1 <= x <= x0
        }) ==> is_floor(t, (x, y)),
    ensures
        connected(t, (x0, y), (x1, y)),
{
    if x0 <= x1 {
        lemma_row_connected(t, x0, x1, y);
    } else {
        lemma_row_connected(t, x1, x0, y);
        lemma_connected_sym(t, (x1, y), (x0, y));
    }
}

/// A run of floor cells along one column is connected whichever end comes
/// first.
proof fn lemma_column_connected_either_way(t: Seq<Seq<Tile>>, x: int, y0: int, y1: int)
    requires
        forall|y: int| (if y0 <= y1 {
            y0 <= y <= y1
        } else {
            y1 <= y <= y0
        }) ==> is_floor(t, (x, y)),
    ensures
        connected(t, (x, y0), (x, y1)),
{
    if y0 <= y1 {
        lemma_column_connected(t, x, y0, y1);
    } else {
        lemma_column_connected(t, x, y1, y0);
        lemma_connected_sym(t, (x, y1), (x, y0));
    }
}

/// Any two cells of an all-floor rectangle are connected, by a walk along the
/// first cell's row and then the second cell's column.
proof fn lemma_rect_connected(t: Seq<Seq<Tile>>, r: Rectangle, a: Cell, b: Cell)
    requires
        forall|x: int, y: int| covers(r, x, y) ==> is_floor(t, (x, y)),
        covers(r, a.0, a.1),
        covers(r, b.0, b.1),
    ensures
        connected(t, a, b),
{
    let corner = (b.0, a.1);
    assert(covers(r, corner.0, corner.1));
    assert forall|x: int| (if a.0 <= b.0 {
        a.0 <= x <= b.0
    } else {
        b.0 <= x <= a.0
    }) implies is_floor(t, (x, a.1)) by {
        assert(covers(r, x, a.1));
    }
    lemma_row_connected_either_way(t, a.0, b.0, a.1);
    assert forall|y: int| (if a.1 <= b.1 {
        a.1 <= y <= b.1
    } else {
        b.1 <= y <= a.1
    }) implies is_floor(t, (b.0, y)) by {
        assert(covers(r, b.0, y));
    }
    lemma_column_connected_either_way(t, b.0, a.1, b.1);
    lemma_connected_trans(t, a, corner, b);
}

/// A floor walk survives any change that keeps the floor it crosses.
proof fn lemma_connected_preserved(t: Seq<Seq<Tile>>, t2: Seq<Seq<Tile>>, a: Cell, b: Cell)
    requires
        floor_preserved(t, t2),
        connected(t, a, b),
    ensures
        connected(t2, a, b),
{
    let p = choose|p: Seq<Cell>| is_floor_path(t, p) && p.first() == a && p.last() == b;
    assert forall|i: int| 0 <= i < p.len() implies is_floor(t2, #[trigger] p[i]) by {
        assert(is_floor(t, p[i]));
    }
    lemma_path_connects(t2, p, a, b);
}

/// What carving one rectangle does cell by cell: the shape is kept, floor is
/// never lost, the covered in-grid cells become floor, and nothing else
/// changes.
proof fn lemma_fill_rect_cells(t: Seq<Seq<Tile>>, r: Rectangle)
    ensures
        floor_preserved(t, fill_rect_spec(t, r)),
        forall|c: Cell|
            #[trigger] is_floor(fill_rect_spec(t, r), c) ==> is_floor(t, c) || covers(r, c.0, c.1),
        forall|c: Cell|
            in_grid(t, c) && covers(r, c.0, c.1) ==> #[trigger] is_floor(fill_rect_spec(t, r), c),
{
    assert forall|c: Cell| is_floor(t, c) implies #[trigger] is_floor(fill_rect_spec(t, r), c) by {
        assert(fill_rect_spec(t, r)[c.1][c.0] == (if covers(r, c.0, c.1) {
            Tile::Floor
        } else {
            t[c.1][c.0]
        }));
    }
}

/// The tile matrix is a rectangle of `h` rows of `w` cells.
pub open spec fn rect_grid(t: Seq<Seq<Tile>>, w: int, h: int) -> bool {
    t.len() == h && forall|y: int| 0 <= y < h ==> (#[trigger] t[y]).len() == w
}

/// The cell at a room's center.
pub open spec fn center_cell(r: Rectangle) -> Cell {
    (r.spec_center().x as int, r.spec_center().y as int)
}

proof fn lemma_floor_preserved_trans(a: Seq<Seq<Tile>>, b: Seq<Seq<Tile>>, c: Seq<Seq<Tile>>)
    requires
        floor_preserved(a, b),
        floor_preserved(b, c),
    ensures
        floor_preserved(a, c),
{
    assert forall|d: Cell| is_floor(a, d) implies #[trigger] is_floor(c, d) by {
        assert(is_floor(b, d));
    }
}

/// The partition model only produces well-formed trees: every region is
/// canonical, strictly larger than the minimum room size on both axes, and
/// inside its parent, and the root region is kept.
proof fn lemma_split_partition_wf(bounds: Rectangle, m: u64, seed: u64, rolls: Seq<u64>)
    requires
        bounds.wf(),
        bounds.spec_width() > m,
        bounds.spec_height() > m,
    ensures
        node_wf(split_partition(bounds, m, seed, rolls).0, m),
        node_bounds(split_partition(bounds, m, seed, rolls).0) == bounds,
    decreases bounds.spec_width() + bounds.spec_height(),
{
    let w = bounds.spec_width();
    let h = bounds.spec_height();
    if !fits_split(w, m) && !fits_split(h, m) {
    } else {
        let (vertical, rolls1): (bool, Seq<u64>) = if fits_split(w, m)
            && !fits_split(h, m) {
            (true, rolls)
        } else if fits_split(h, m) && !fits_split(w, m) {
            (false, rolls)
        } else if w >= 2 * h {
            (true, rolls)
        } else if h >= 2 * w {
            (false, rolls)
        } else {
            (clamp_roll(seed, rolls, 2) == 1, rolls.push(2))
        };
        if vertical {
            let band = (w - 2 * (m + 2) + 1) as u64;
            let v = clamp_roll(seed, rolls1, band);
            let split_x = (bounds.top_left.x + m + 1 + v) as i32;
            let left_bounds = Rectangle {
                top_left: bounds.top_left,
                bottom_right: Point { x: split_x, y: bounds.bottom_right.y },
            };
            let right_bounds = Rectangle {
                top_left: Point { x: split_x, y: bounds.top_left.y },
                bottom_right: bounds.bottom_right,
            };
            lemma_split_partition_wf(left_bounds, m, seed, rolls1.push(band));
            lemma_split_partition_wf(right_bounds, m, seed, split_partition(
                left_bounds,
                m,
                seed,
                rolls1.push(band),
            ).1);
        } else {
            let band = (h - 2 * (m + 2) + 1) as u64;
            let v = clamp_roll(seed, rolls1, band);
            let split_y = (bounds.top_left.y + m + 1 + v) as i32;
            let top_bounds = Rectangle {
                top_left: bounds.top_left,
                bottom_right: Point { x: bounds.bottom_right.x, y: split_y },
            };
            let bottom_bounds = Rectangle {
                top_left: Point { x: bounds.top_left.x, y: split_y },
                bottom_right: bounds.bottom_right,
            };
            lemma_split_partition_wf(top_bounds, m, seed, rolls1.push(band));
            lemma_split_partition_wf(bottom_bounds, m, seed, split_partition(
                top_bounds,
                m,
                seed,
                rolls1.push(band),
            ).1);
        }
    }
}

/// The heart of the connectivity argument. Carving a well-formed subtree
/// into a rectangular matrix keeps the shape and the existing floor, carves
/// a nonempty representative room strictly inside the subtree's region, and
/// leaves every newly carved cell connected to that room's center: at a leaf
/// all new floor is one room, and at a branch the corridor ties each side's
/// new floor to its center and the two centers to each other.
proof fn lemma_carve_connected(
    node: PartitionNode,
    m: u64,
    seed: u64,
    t: Seq<Seq<Tile>>,
    rolls: Seq<u64>,
    w: int,
    h: int,
)
    requires
        node_wf(node, m),
        m >= 1,
        rect_grid(t, w, h),
        w <= i32::MAX,
        h <= i32::MAX,
        0 <= node_bounds(node).top_left.x,
        0 <= node_bounds(node).top_left.y,
        node_bounds(node).bottom_right.x <= w,
        node_bounds(node).bottom_right.y <= h,
    ensures
        ({
            let (t2, room, _) = carve_partition(node, m, seed, t, rolls);
            &&& rect_grid(t2, w, h)
            &&& floor_preserved(t, t2)
            &&& room.wf()
            &&& room.spec_width() >= 1
            &&& room.spec_height() >= 1
            &&& rect_in(room, node_bounds(node))
            &&& room.bottom_right.x < node_bounds(node).bottom_right.x
            &&& room.bottom_right.y < node_bounds(node).bottom_right.y
            &&& is_floor(t2, center_cell(room))
            &&& forall|c: Cell|
                is_floor(t2, c) && !is_floor(t, c) ==> #[trigger] connected(t2, c, center_cell(room))
        }),
    decreases node,
{
    match node {
        PartitionNode::Leaf { bounds } => {
            let wb = bounds.spec_width();
            let hb = bounds.spec_height();
            let sides_w = (wb - m) as u64;
            let r1 = clamp_roll(seed, rolls, sides_w);
            let rolls1 = rolls.push(sides_w);
            let sides_h = (hb - m) as u64;
            let r2 = clamp_roll(seed, rolls1, sides_h);
            let rolls2 = rolls1.push(sides_h);
            let rw = m + r1 - 1;
            let rh = m + r2 - 1;
            let sides_x = (wb - rw) as u64;
            let r3 = clamp_roll(seed, rolls2, sides_x);
            let rolls3 = rolls2.push(sides_x);
            let sides_y = (hb - rh) as u64;
            let r4 = clamp_roll(seed, rolls3, sides_y);
            let room = carve_partition(node, m, seed, t, rolls).1;
            assert(1 <= r1 <= wb - m);
            assert(1 <= r2 <= hb - m);
            assert(m <= rw <= wb - 1);
            assert(m <= rh <= hb - 1);
            assert(1 <= r3 <= wb - rw);
            assert(1 <= r4 <= hb - rh);
            assert(room.top_left.x == bounds.top_left.x + r3 - 1);
            assert(room.top_left.y == bounds.top_left.y + r4 - 1);
            assert(room.bottom_right.x == bounds.top_left.x + r3 - 1 + rw);
            assert(room.bottom_right.y == bounds.top_left.y + r4 - 1 + rh);
            let t2 = fill_rect_spec(t, room);
            lemma_fill_rect_cells(t, room);
            let cc = center_cell(room);
            assert(covers(room, cc.0, cc.1));
            assert(is_floor(t2, cc));
            assert forall|c: Cell| is_floor(t2, c) && !is_floor(t, c) implies #[trigger] connected(
                t2,
                c,
                cc,
            ) by {
                assert(covers(room, c.0, c.1));
                assert forall|x: int, y: int| covers(room, x, y) implies is_floor(t2, (x, y)) by {
                    assert(in_grid(t, (x, y)));
                }
                lemma_rect_connected(t2, room, c, cc);
            }
        },
        PartitionNode::Branch { bounds, left, right } => {
            lemma_carve_connected(*left, m, seed, t, rolls, w, h);
            let (t1, rl, ro1) = carve_partition(*left, m, seed, t, rolls);
            lemma_carve_connected(*right, m, seed, t1, ro1, w, h);
            let (t2, rr, ro2) = carve_partition(*right, m, seed, t1, ro1);
            let cl = rl.spec_center();
            let cr = rr.spec_center();
            let hseg = Rectangle {
                top_left: Point { x: min_coord(cl.x, cr.x), y: cl.y },
                bottom_right: Point { x: (max_coord(cl.x, cr.x) + 1) as i32, y: (cl.y + 1) as i32 },
            };
            let vseg = Rectangle {
                top_left: Point { x: cr.x, y: min_coord(cl.y, cr.y) },
                bottom_right: Point { x: (cr.x + 1) as i32, y: (max_coord(cl.y, cr.y) + 1) as i32 },
            };
            let t3 = fill_rect_spec(t2, hseg);
            let t4 = fill_rect_spec(t3, vseg);
            assert(carve_partition(node, m, seed, t, rolls).0 == t4);
            assert(carve_partition(node, m, seed, t, rolls).1 == rl);
            let ccl = center_cell(rl);
            let ccr = center_cell(rr);
            assert(rl.top_left.x <= cl.x < rl.bottom_right.x);
            assert(rl.top_left.y <= cl.y < rl.bottom_right.y);
            assert(rr.top_left.x <= cr.x < rr.bottom_right.x);
            assert(rr.top_left.y <= cr.y < rr.bottom_right.y);
            assert(0 <= cl.x < w && 0 <= cl.y < h);
            assert(0 <= cr.x < w && 0 <= cr.y < h);
            lemma_fill_rect_cells(t2, hseg);
            lemma_fill_rect_cells(t3, vseg);
            lemma_floor_preserved_trans(t, t1, t2);
            lemma_floor_preserved_trans(t, t2, t3);
            lemma_floor_preserved_trans(t, t3, t4);
            lemma_floor_preserved_trans(t1, t2, t3);
            lemma_floor_preserved_trans(t1, t3, t4);
            lemma_floor_preserved_trans(t2, t3, t4);
            assert forall|x: int, y: int| covers(hseg, x, y) implies is_floor(t4, (x, y)) by {
                assert(in_grid(t2, (x, y)));
                assert(is_floor(t3, (x, y)));
            }
            assert forall|x: int, y: int| covers(vseg, x, y) implies is_floor(t4, (x, y)) by {
                assert(in_grid(t3, (x, y)));
            }
            assert(is_floor(t4, ccl)) by {
                assert(covers(hseg, ccl.0, ccl.1));
            }
            // The corridor joins the two centers.
            assert(connected(t4, ccr, ccl)) by {
                let elbow = (cr.x as int, cl.y as int);
                assert forall|y: int| (if cr.y as int <= cl.y as int {
                    cr.y <= y <= cl.y
                } else {
                    cl.y <= y <= cr.y
                }) implies is_floor(t4, (cr.x as int, y)) by {
                    assert(covers(vseg, cr.x as int, y));
                }
                lemma_column_connected_either_way(t4, cr.x as int, cr.y as int, cl.y as int);
                assert forall|x: int| (if cr.x as int <= cl.x as int {
                    cr.x <= x <= cl.x
                } else {
                    cl.x <= x <= cr.x
                }) implies is_floor(t4, (x, cl.y as int)) by {
                    assert(covers(hseg, x, cl.y as int));
                }
                lemma_row_connected_either_way(t4, cr.x as int, cl.x as int, cl.y as int);
                lemma_connected_trans(t4, ccr, elbow, ccl);
            }
            assert forall|c: Cell| is_floor(t4, c) && !is_floor(t, c) implies #[trigger] connected(
                t4,
                c,
                ccl,
            ) by {
                if is_floor(t2, c) {
                    if is_floor(t1, c) {
                        assert(connected(t1, c, ccl));
                        lemma_connected_preserved(t1, t4, c, ccl);
                    } else {
                        assert(connected(t2, c, ccr));
                        lemma_connected_preserved(t2, t4, c, ccr);
                        lemma_connected_trans(t4, c, ccr, ccl);
                    }
                } else if is_floor(t3, c) {
                    assert(covers(hseg, c.0, c.1));
                    assert(c.1 == cl.y as int);
                    assert forall|x: int| (if c.0 <= cl.x as int {
                        c.0 <= x <= cl.x
                    } else {
                        cl.x <= x <= c.0
                    }) implies is_floor(t4, (x, cl.y as int)) by {
                        assert(covers(hseg, x, cl.y as int));
                    }
                    lemma_row_connected_either_way(t4, c.0, cl.x as int, cl.y as int);
                } else {
                    assert(covers(vseg, c.0, c.1));
                    assert(c.0 == cr.x as int);
                    let elbow = (cr.x as int, cl.y as int);
                    assert forall|y: int| (if c.1 <= cl.y as int {
                        c.1 <= y <= cl.y
                    } else {
                        cl.y <= y <= c.1
                    }) implies is_floor(t4, (cr.x as int, y)) by {
                        assert(covers(vseg, cr.x as int, y));
                    }
                    lemma_column_connected_either_way(t4, cr.x as int, c.1, cl.y as int);
                    assert forall|x: int| (if cr.x as int <= cl.x as int {
                        cr.x <= x <= cl.x
                    } else {
                        cl.x <= x <= cr.x
                    }) implies is_floor(t4, (x, cl.y as int)) by {
                        assert(covers(hseg, x, cl.y as int));
                    }
                    lemma_row_connected_either_way(t4, cr.x as int, cl.x as int, cl.y as int);
                    lemma_connected_trans(t4, c, elbow, ccl);
                }
            }
        },
    }
}

/// Full connectivity of a generated map: with a positive minimum room size
/// and valid dimensions, every floor tile of the generated map reaches every
/// other floor tile through edge-sharing floor tiles.
pub proof fn lemma_generate_tiles_connected(
    width: usize,
    height: usize,
    minimum_room_size: usize,
    seed: u64,
)
    requires
        1 <= minimum_room_size,
        minimum_room_size < width,
        minimum_room_size < height,
        width <= i32::MAX,
        height <= i32::MAX,
    ensures
        floor_connected(generate_tiles(width, height, minimum_room_size, seed)),
{
    let root = Rectangle {
        top_left: Point { x: 0, y: 0 },
        bottom_right: Point { x: width as i32, y: height as i32 },
    };
    let m = minimum_room_size as u64;
    let (tree, rolls) = split_partition(root, m, seed, Seq::empty());
    lemma_split_partition_wf(root, m, seed, Seq::empty());
    let t0 = walls(width as int, height as int);
    lemma_carve_connected(tree, m, seed, t0, rolls, width as int, height as int);
    let (t2, room, _) = carve_partition(tree, m, seed, t0, rolls);
    let cc = center_cell(room);
    assert(generate_tiles(width, height, minimum_room_size, seed) == t2);
    assert forall|a: Cell, b: Cell| is_floor(t2, a) && is_floor(t2, b) implies #[trigger] connected(
        t2,
        a,
        b,
    ) by {
        assert(!is_floor(t0, a));
        assert(!is_floor(t0, b));
        assert(connected(t2, a, cc));
        assert(connected(t2, b, cc));
        lemma_connected_sym(t2, b, cc);
        lemma_connected_trans(t2, a, cc, b);
    }
}

} // verus!
