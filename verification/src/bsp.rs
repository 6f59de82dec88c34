use vstd::prelude::*;

use crate::grid::Grid;
use crate::grid::Tile;
use crate::grid::walls;
use crate::map::MapError;
use crate::point::Point;
use crate::prng::Prng;
use crate::prng::roll_of;
use crate::reach::floor_connected;
use crate::reach::lemma_generate_tiles_connected;
use crate::rectangle::Rectangle;
use crate::rectangle::max_coord;
use crate::rectangle::min_coord;

verus! {

/// A node of the binary space partition: either a leaf holding an undivided
/// region, or a branch holding the two regions a split produced.
pub enum PartitionNode {
    Leaf { bounds: Rectangle },
    Branch { bounds: Rectangle, left: Box<PartitionNode>, right: Box<PartitionNode> },
}

/// The region a node covers.
pub open spec fn node_bounds(n: PartitionNode) -> Rectangle {
    match n {
        PartitionNode::Leaf { bounds } => bounds,
        PartitionNode::Branch { bounds, .. } => bounds,
    }
}

/// `inner` lies entirely within `outer`.
pub open spec fn rect_in(inner: Rectangle, outer: Rectangle) -> bool {
    &&& outer.top_left.x <= inner.top_left.x
    &&& inner.bottom_right.x <= outer.bottom_right.x
    &&& outer.top_left.y <= inner.top_left.y
    &&& inner.bottom_right.y <= outer.bottom_right.y
}

/// Every region in the tree is canonical, strictly wider and taller than the
/// minimum room size `m`, and contained in its parent's region.
pub open spec fn node_wf(n: PartitionNode, m: u64) -> bool
    decreases n,
{
    match n {
        PartitionNode::Leaf { bounds } => {
            &&& bounds.wf()
            &&& bounds.spec_width() > m
            &&& bounds.spec_height() > m
        },
        PartitionNode::Branch { bounds, left, right } => {
            &&& bounds.wf()
            &&& node_wf(*left, m)
            &&& node_wf(*right, m)
            &&& rect_in(node_bounds(*left), bounds)
            &&& rect_in(node_bounds(*right), bounds)
        },
    }
}

/// An extent is wide enough to split when both halves can keep the minimum
/// room size plus a two-tile margin.
pub open spec fn fits_split(extent: int, m: u64) -> bool {
    extent >= 2 * (m + 2)
}

/// The next draw of a generator with the given seed and history, clamped into
/// `[1, sides]`. `roll` always reports a value in that range, so on every
/// value an actual generator produces the clamp changes nothing; it only
/// keeps the model total.
pub open spec fn clamp_roll(seed: u64, history: Seq<u64>, sides: u64) -> u64 {
    let r = roll_of(seed, history, sides);
    if 1 <= r && r <= sides {
        r
    } else {
        1
    }
}

/// The partition tree grown from `bounds`, together with the draw history
/// after growing it. A region too small to split on either axis becomes a
/// leaf. Otherwise the split axis is the only one that fits, or the longer
/// one when one extent is at least twice the other, or else one
/// draw decides; a second draw places the split line so that both halves keep
/// the minimum room size plus margin; then each half is partitioned in turn,
/// left before right.
pub open spec fn split_partition(bounds: Rectangle, m: u64, seed: u64, rolls: Seq<u64>) -> (
    PartitionNode,
    Seq<u64>,
)
    decreases bounds.spec_width() + bounds.spec_height()
        when bounds.wf()
{
    let w = bounds.spec_width();
    let h = bounds.spec_height();
    if !fits_split(w, m) && !fits_split(h, m) {
        (PartitionNode::Leaf { bounds }, rolls)
    } else {
        let (vertical, rolls1): (bool, Seq<u64>) = if fits_split(w, m) && !fits_split(h, m) {
            (true, rolls)
        } else if fits_split(h, m) && !fits_split(w, m) {
            (false, rolls)
        } else if w >= 2 * h {
            (true, rolls)
        } else if h >= 2 * w {
            (false, rolls)
        } else {
            (clamp_roll(seed, rolls, 2) == 1, rolls.push(2))
        };
        if vertical {
            let band = (w - 2 * (m + 2) + 1) as u64;
            let v = clamp_roll(seed, rolls1, band);
            let split_x = (bounds.top_left.x + m + 1 + v) as i32;
            let left_bounds = Rectangle {
                top_left: bounds.top_left,
                bottom_right: Point { x: split_x, y: bounds.bottom_right.y },
            };
            let right_bounds = Rectangle {
                top_left: Point { x: split_x, y: bounds.top_left.y },
                bottom_right: bounds.bottom_right,
            };
            let (left_node, rolls2) = split_partition(left_bounds, m, seed, rolls1.push(band));
            let (right_node, rolls3) = split_partition(right_bounds, m, seed, rolls2);
            (
                PartitionNode::Branch {
                    bounds,
                    left: Box::new(left_node),
                    right: Box::new(right_node),
                },
                rolls3,
            )
        } else {
            let band = (h - 2 * (m + 2) + 1) as u64;
            let v = clamp_roll(seed, rolls1, band);
            let split_y = (bounds.top_left.y + m + 1 + v) as i32;
            let top_bounds = Rectangle {
                top_left: bounds.top_left,
                bottom_right: Point { x: bounds.bottom_right.x, y: split_y },
            };
            let bottom_bounds = Rectangle {
                top_left: Point { x: bounds.top_left.x, y: split_y },
                bottom_right: bounds.bottom_right,
            };
            let (left_node, rolls2) = split_partition(top_bounds, m, seed, rolls1.push(band));
            let (right_node, rolls3) = split_partition(bottom_bounds, m, seed, rolls2);
            (
                PartitionNode::Branch {
                    bounds,
                    left: Box::new(left_node),
                    right: Box::new(right_node),
                },
                rolls3,
            )
        }
    }
}

/// Recursively partitions `bounds` down to leaves, drawing from `prng` to
/// choose split axes and positions exactly as `split_partition` records.
pub(crate) fn partition(bounds: Rectangle, m: u64, prng: &mut Prng) -> (node: PartitionNode)
    requires
        bounds.wf(),
        0 <= bounds.top_left.x,
        0 <= bounds.top_left.y,
        bounds.spec_width() > m,
        bounds.spec_height() > m,
    ensures
        node == split_partition(bounds, m, old(prng).spec_seed(), old(prng).spec_rolls()).0,
        final(prng).spec_rolls() == split_partition(
            bounds,
            m,
            old(prng).spec_seed(),
            old(prng).spec_rolls(),
        ).1,
        final(prng).spec_seed() == old(prng).spec_seed(),
        node_wf(node, m),
        node_bounds(node) == bounds,
    decreases bounds.spec_width() + bounds.spec_height(),
{
    let ghost seed = prng.spec_seed();
    let ghost rolls0 = prng.spec_rolls();
    let w_exec = bounds.width();
    let h_exec = bounds.height();
    let w = w_exec as u64;
    let h = h_exec as u64;
    let can_x = w >= 2 * (m + 2);
    let can_y = h >= 2 * (m + 2);
    proof {
        assert(can_x == fits_split(bounds.spec_width(), m));
        assert(can_y == fits_split(bounds.spec_height(), m));
    }
    if !can_x && !can_y {
        let node = PartitionNode::Leaf { bounds };
        proof {
            assert(split_partition(bounds, m, seed, rolls0) == (node, rolls0));
        }
        return node;
    }
    let vertical: bool = if can_x && !can_y {
        true
    } else if can_y && !can_x {
        false
    } else if w >= 2 * h {
        true
    } else if h >= 2 * w {
        false
    } else {
        prng.roll(2) == 1
    };
    let ghost rolls1 = prng.spec_rolls();
    if vertical {
        let band = w - 2 * (m + 2) + 1;
        let v = prng.roll(band);
        let split_x = bounds.top_left.x + ((m + 1 + v) as i32);
        let left_bounds = Rectangle {
            top_left: bounds.top_left,
            bottom_right: Point { x: split_x, y: bounds.bottom_right.y },
        };
        let right_bounds = Rectangle {
            top_left: Point { x: split_x, y: bounds.top_left.y },
            bottom_right: bounds.bottom_right,
        };
        let left_node = partition(left_bounds, m, prng);
        let right_node = partition(right_bounds, m, prng);
        let node = PartitionNode::Branch {
            bounds,
            left: Box::new(left_node),
            right: Box::new(right_node),
        };
        proof {
            assert(split_partition(bounds, m, seed, rolls0).0 == node);
            assert(split_partition(bounds, m, seed, rolls0).1 == prng.spec_rolls());
        }
        node
    } else {
        let band = h - 2 * (m + 2) + 1;
        let v = prng.roll(band);
        let split_y = bounds.top_left.y + ((m + 1 + v) as i32);
        let top_bounds = Rectangle {
            top_left: bounds.top_left,
            bottom_right: Point { x: bounds.bottom_right.x, y: split_y },
        };
        let bottom_bounds = Rectangle {
            top_left: Point { x: bounds.top_left.x, y: split_y },
            bottom_right: bounds.bottom_right,
        };
        let left_node = partition(top_bounds, m, prng);
        let right_node = partition(bottom_bounds, m, prng);
        let node = PartitionNode::Branch {
            bounds,
            left: Box::new(left_node),
            right: Box::new(right_node),
        };
        proof {
            assert(split_partition(bounds, m, seed, rolls0).0 == node);
            assert(split_partition(bounds, m, seed, rolls0).1 == prng.spec_rolls());
        }
        node
    }
}

/// `r` covers the cell in column `x` of row `y` (half-open on both axes).
pub open spec fn covers(r: Rectangle, x: int, y: int) -> bool {
    &&& r.top_left.x <= x < r.bottom_right.x
    &&& r.top_left.y <= y < r.bottom_right.y
}

/// The tile matrix with every cell covered by `r` carved to floor and every
/// other cell unchanged.
pub open spec fn fill_rect_spec(t: Seq<Seq<Tile>>, r: Rectangle) -> Seq<Seq<Tile>> {
    Seq::new(
        t.len(),
        |y: int|
            Seq::new(
                t[y].len(),
                |x: int|
                    if covers(r, x, y) {
                        Tile::Floor
                    } else {
                        t[y][x]
                    },
            ),
    )
}

/// The tile matrix part-way through carving `r` row by row: every covered
/// cell before row `y`, and in row `y` before column `x`, is already floor.
pub open spec fn fill_rect_prefix(t: Seq<Seq<Tile>>, r: Rectangle, y: int, x: int) -> Seq<
    Seq<Tile>,
> {
    Seq::new(
        t.len(),
        |yy: int|
            Seq::new(
                t[yy].len(),
                |xx: int|
                    if covers(r, xx, yy) && (yy < y || (yy == y && xx < x)) {
                        Tile::Floor
                    } else {
                        t[yy][xx]
                    },
            ),
    )
}

/// Carves every cell covered by `r` to floor.
#[verifier::loop_isolation(false)]
fn fill_rect(grid: &mut Grid, r: Rectangle)
    requires
        old(grid).wf(),
        r.wf(),
        0 <= r.top_left.x,
        0 <= r.top_left.y,
        r.bottom_right.x <= old(grid).spec_width(),
        r.bottom_right.y <= old(grid).spec_height(),
    ensures
        final(grid).wf(),
        final(grid).spec_width() == old(grid).spec_width(),
        final(grid).spec_height() == old(grid).spec_height(),
        final(grid)@ == fill_rect_spec(old(grid)@, r),
{
    let ghost t0 = grid@;
    let x0 = r.top_left.x as usize;
    let x1 = r.bottom_right.x as usize;
    let y0 = r.top_left.y as usize;
    let y1 = r.bottom_right.y as usize;
    proof {
        assert(t0 =~~= fill_rect_prefix(t0, r, y0 as int, x0 as int));
    }
    let mut y = y0;
    while y < y1
        invariant
            y0 <= y <= y1,
            grid.wf(),
            grid.spec_width() == old(grid).spec_width(),
            grid.spec_height() == old(grid).spec_height(),
            grid@ == fill_rect_prefix(t0, r, y as int, x0 as int),
        decreases y1 - y,
    {
        let mut x = x0;
        while x < x1
            invariant
                x0 <= x <= x1,
                y0 <= y < y1,
                grid.wf(),
                grid.spec_width() == old(grid).spec_width(),
                grid.spec_height() == old(grid).spec_height(),
                grid@ == fill_rect_prefix(t0, r, y as int, x as int),
            decreases x1 - x,
        {
            let ghost before = grid@;
            let row = &mut grid.tiles[y];
            row.set(x, Tile::Floor);
            proof {
                assert(grid@ =~~= before.update(
                    y as int,
                    before[y as int].update(x as int, Tile::Floor),
                ));
                assert(grid@ =~~= fill_rect_prefix(t0, r, y as int, x + 1));
            }
            x += 1;
        }
        proof {
            assert(fill_rect_prefix(t0, r, y as int, x1 as int) =~~= fill_rect_prefix(
                t0,
                r,
                y + 1,
                x0 as int,
            ));
        }
        y += 1;
    }
    proof {
        assert(fill_rect_prefix(t0, r, y1 as int, x0 as int) =~~= fill_rect_spec(t0, r));
    }
}

/// The carve walk over a partition tree: the tiles after carving, the
/// subtree's representative room, and the draw history afterwards. At a leaf
/// four draws fix the room's width, height and offset inside the leaf's
/// region, and the room is carved. At a branch the left then the right
/// subtree are carved, and an L-shaped corridor joins the centers of their
/// representative rooms: first along the row of the left room's center, then
/// along the column of the right room's center. The left subtree's room
/// stands for the branch.
pub open spec fn carve_partition(
    node: PartitionNode,
    m: u64,
    seed: u64,
    t: Seq<Seq<Tile>>,
    rolls: Seq<u64>,
) -> (Seq<Seq<Tile>>, Rectangle, Seq<u64>)
    decreases node,
{
    match node {
        PartitionNode::Leaf { bounds } => {
            let w = bounds.spec_width();
            let h = bounds.spec_height();
            let sides_w = (w - m) as u64;
            let r1 = clamp_roll(seed, rolls, sides_w);
            let rolls1 = rolls.push(sides_w);
            let sides_h = (h - m) as u64;
            let r2 = clamp_roll(seed, rolls1, sides_h);
            let rolls2 = rolls1.push(sides_h);
            let rw = m + r1 - 1;
            let rh = m + r2 - 1;
            let sides_x = (w - rw) as u64;
            let r3 = clamp_roll(seed, rolls2, sides_x);
            let rolls3 = rolls2.push(sides_x);
            let sides_y = (h - rh) as u64;
            let r4 = clamp_roll(seed, rolls3, sides_y);
            let rolls4 = rolls3.push(sides_y);
            let room = Rectangle {
                top_left: Point {
                    x: (bounds.top_left.x + r3 - 1) as i32,
                    y: (bounds.top_left.y + r4 - 1) as i32,
                },
                bottom_right: Point {
                    x: (bounds.top_left.x + r3 - 1 + rw) as i32,
                    y: (bounds.top_left.y + r4 - 1 + rh) as i32,
                },
            };
            (fill_rect_spec(t, room), room, rolls4)
        },
        PartitionNode::Branch { bounds, left, right } => {
            let (t1, room_left, rolls1) = carve_partition(*left, m, seed, t, rolls);
            let (t2, room_right, rolls2) = carve_partition(*right, m, seed, t1, rolls1);
            let cl = room_left.spec_center();
            let cr = room_right.spec_center();
            let hseg = Rectangle {
                top_left: Point { x: min_coord(cl.x, cr.x), y: cl.y },
                bottom_right: Point { x: (max_coord(cl.x, cr.x) + 1) as i32, y: (cl.y + 1) as i32 },
            };
            let vseg = Rectangle {
                top_left: Point { x: cr.x, y: min_coord(cl.y, cr.y) },
                bottom_right: Point { x: (cr.x + 1) as i32, y: (max_coord(cl.y, cr.y) + 1) as i32 },
            };
            (fill_rect_spec(fill_rect_spec(t2, hseg), vseg), room_left, rolls2)
        },
    }
}

/// Carves a room in every leaf region and a corridor at every branch,
/// post-order, drawing from `prng` exactly as `carve_partition` records, and
/// returns the representative room of the whole tree.
pub(crate) fn carve(node: &PartitionNode, m: u64, grid: &mut Grid, prng: &mut Prng) -> (room:
    Rectangle)
    requires
        node_wf(*node, m),
        old(grid).wf(),
        old(grid).spec_width() <= i32::MAX,
        old(grid).spec_height() <= i32::MAX,
        0 <= node_bounds(*node).top_left.x,
        0 <= node_bounds(*node).top_left.y,
        node_bounds(*node).bottom_right.x <= old(grid).spec_width(),
        node_bounds(*node).bottom_right.y <= old(grid).spec_height(),
    ensures
        final(grid)@ == carve_partition(
            *node,
            m,
            old(prng).spec_seed(),
            old(grid)@,
            old(prng).spec_rolls(),
        ).0,
        room == carve_partition(
            *node,
            m,
            old(prng).spec_seed(),
            old(grid)@,
            old(prng).spec_rolls(),
        ).1,
        final(prng).spec_rolls() == carve_partition(
            *node,
            m,
            old(prng).spec_seed(),
            old(grid)@,
            old(prng).spec_rolls(),
        ).2,
        final(prng).spec_seed() == old(prng).spec_seed(),
        final(grid).wf(),
        final(grid).spec_width() == old(grid).spec_width(),
        final(grid).spec_height() == old(grid).spec_height(),
        room.wf(),
        rect_in(room, node_bounds(*node)),
        room.bottom_right.x < node_bounds(*node).bottom_right.x,
        room.bottom_right.y < node_bounds(*node).bottom_right.y,
    decreases *node,
{
    let ghost seed = prng.spec_seed();
    let ghost rolls0 = prng.spec_rolls();
    let ghost t0 = grid@;
    match node {
        PartitionNode::Leaf { bounds } => {
            let w = bounds.width() as u64;
            let h = bounds.height() as u64;
            let r1 = prng.roll(w - m);
            let r2 = prng.roll(h - m);
            let rw = m + r1 - 1;
            let rh = m + r2 - 1;
            let r3 = prng.roll(w - rw);
            let r4 = prng.roll(h - rh);
            let room_x = bounds.top_left.x + ((r3 - 1) as i32);
            let room_y = bounds.top_left.y + ((r4 - 1) as i32);
            let room = Rectangle {
                top_left: Point { x: room_x, y: room_y },
                bottom_right: Point { x: room_x + (rw as i32), y: room_y + (rh as i32) },
            };
            fill_rect(grid, room);
            proof {
                assert(room == carve_partition(*node, m, seed, t0, rolls0).1);
            }
            room
        },
        PartitionNode::Branch { bounds, left, right } => {
            let room_left = carve(&**left, m, grid, prng);
            let room_right = carve(&**right, m, grid, prng);
            let cl = room_left.center();
            let cr = room_right.center();
            let lo_x = if cl.x <= cr.x {
                cl.x
            } else {
                cr.x
            };
            let hi_x = if cl.x <= cr.x {
                cr.x
            } else {
                cl.x
            };
            let hseg = Rectangle {
                top_left: Point { x: lo_x, y: cl.y },
                bottom_right: Point { x: hi_x + 1, y: cl.y + 1 },
            };
            fill_rect(grid, hseg);
            let lo_y = if cl.y <= cr.y {
                cl.y
            } else {
                cr.y
            };
            let hi_y = if cl.y <= cr.y {
                cr.y
            } else {
                cl.y
            };
            let vseg = Rectangle {
                top_left: Point { x: cr.x, y: lo_y },
                bottom_right: Point { x: cr.x + 1, y: hi_y + 1 },
            };
            fill_rect(grid, vseg);
            proof {
                assert(grid@ == carve_partition(*node, m, seed, t0, rolls0).0);
            }
            room_left
        },
    }
}

/// The tile matrix that generation produces for the given dimensions,
/// minimum room size and seed: an all-wall grid, partitioned from its full
/// extent, then carved. Generation is a function of these four inputs and
/// nothing else, so two runs with the same inputs yield the same map.
pub open spec fn generate_tiles(
    width: usize,
    height: usize,
    minimum_room_size: usize,
    seed: u64,
) -> Seq<Seq<Tile>> {
    let root = Rectangle {
        top_left: Point { x: 0, y: 0 },
        bottom_right: Point { x: width as i32, y: height as i32 },
    };
    let m = minimum_room_size as u64;
    let (tree, rolls) = split_partition(root, m, seed, Seq::empty());
    carve_partition(tree, m, seed, walls(width as int, height as int), rolls).0
}

/// Builds the map: validates the inputs, partitions the full grid rectangle,
/// and carves rooms and corridors into a fresh all-wall grid. Fails, before
/// any grid exists, exactly when the minimum room size is not strictly
/// smaller than both grid dimensions. With a positive minimum room size the
/// carved floor of the returned grid is fully connected.
pub fn generate(width: usize, height: usize, minimum_room_size: usize, seed: u64) -> (r: Result<
    Grid,
    MapError,
>)
    requires
        width <= i32::MAX,
        height <= i32::MAX,
    ensures
        r is Err <==> (minimum_room_size >= width || minimum_room_size >= height),
        r is Err ==> r->Err_0 == MapError::MinimumRoomSizeMustBeSmallerThanGridSize,
        r is Ok ==> (r->Ok_0).wf() && (r->Ok_0).spec_width() == width && (r->Ok_0).spec_height()
            == height && (r->Ok_0)@ == generate_tiles(width, height, minimum_room_size, seed),
        r is Ok && minimum_room_size >= 1 ==> floor_connected((r->Ok_0)@),
{
    if minimum_room_size >= width || minimum_room_size >= height {
        return Err(MapError::MinimumRoomSizeMustBeSmallerThanGridSize);
    }
    let mut grid = Grid::new(width, height);
    let mut prng = Prng::new(seed);
    let m = minimum_room_size as u64;
    let root = Rectangle {
        top_left: Point { x: 0, y: 0 },
        bottom_right: Point { x: width as i32, y: height as i32 },
    };
    let tree = partition(root, m, &mut prng);
    let _room = carve(&tree, m, &mut grid, &mut prng);
    proof {
        assert(grid@ == generate_tiles(width, height, minimum_room_size, seed));
        if minimum_room_size >= 1 {
            lemma_generate_tiles_connected(width, height, minimum_room_size, seed);
        }
    }
    Ok(grid)
}

/// The whole carve walk writes only inside the tile matrix it was given: the
/// shape of the matrix never changes.
pub proof fn lemma_carve_partition_shape(
    node: PartitionNode,
    m: u64,
    seed: u64,
    t: Seq<Seq<Tile>>,
    rolls: Seq<u64>,
)
    ensures
        carve_partition(node, m, seed, t, rolls).0.len() == t.len(),
        forall|y: int|
            0 <= y < t.len() ==> (#[trigger] carve_partition(node, m, seed, t, rolls).0[y]).len()
                == t[y].len(),
    decreases node,
{
    match node {
        PartitionNode::Leaf { bounds } => {
        },
        PartitionNode::Branch { bounds, left, right } => {
            lemma_carve_partition_shape(*left, m, seed, t, rolls);
            let (t1, room_left, rolls1) = carve_partition(*left, m, seed, t, rolls);
            lemma_carve_partition_shape(*right, m, seed, t1, rolls1);
        },
    }
}

/// Generation never writes outside the grid it carves: for any inputs the
/// generated map has exactly `height` rows of `width` tiles each.
pub proof fn lemma_generate_tiles_shape(width: usize, height: usize, m: usize, seed: u64)
    ensures
        generate_tiles(width, height, m, seed).len() == height,
        forall|y: int|
            0 <= y < height ==> (#[trigger] generate_tiles(width, height, m, seed)[y]).len()
                == width,
{
    let root = Rectangle {
        top_left: Point { x: 0, y: 0 },
        bottom_right: Point { x: width as i32, y: height as i32 },
    };
    let (tree, rolls) = split_partition(root, m as u64, seed, Seq::empty());
    lemma_carve_partition_shape(tree, m as u64, seed, walls(width as int, height as int), rolls);
}

} // verus!
