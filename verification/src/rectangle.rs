use vstd::prelude::*;

use crate::point::Point;

verus! {

/// The smaller of two coordinates.
pub open spec fn min_coord(a: i32, b: i32) -> i32 {
    if a <= b {
        a
    } else {
        b
    }
}

/// The larger of two coordinates.
pub open spec fn max_coord(a: i32, b: i32) -> i32 {
    if a <= b {
        b
    } else {
        a
    }
}

/// The rectangle spanned by two corner points, canonicalized so that
/// `top_left` holds the componentwise minimum and `bottom_right` the
/// componentwise maximum.
pub open spec fn rect_of(a: Point, b: Point) -> Rectangle {
    Rectangle {
        top_left: Point { x: min_coord(a.x, b.x), y: min_coord(a.y, b.y) },
        bottom_right: Point { x: max_coord(a.x, b.x), y: max_coord(a.y, b.y) },
    }
}

/// An axis-aligned bounding box given by its top-left and bottom-right corners.
#[derive(Debug, Clone, Copy, PartialEq, Eq, Structural)]
pub struct Rectangle {
    pub top_left: Point,
    pub bottom_right: Point,
}

impl Rectangle {
    /// The corners are in canonical order.
    pub open spec fn wf(self) -> bool {
        self.top_left.x <= self.bottom_right.x && self.top_left.y <= self.bottom_right.y
    }

    pub open spec fn spec_width(self) -> int {
        self.bottom_right.x - self.top_left.x
    }

    pub open spec fn spec_height(self) -> int {
        self.bottom_right.y - self.top_left.y
    }

    pub open spec fn spec_area(self) -> int {
        self.spec_width() * self.spec_height()
    }

    /// Containment is half-open on both axes: points on the right or bottom
    /// edge are outside.
    pub open spec fn spec_contains(self, point: Point) -> bool {
        &&& self.top_left.x <= point.x < self.bottom_right.x
        &&& self.top_left.y <= point.y < self.bottom_right.y
    }

    /// Overlap is closed on both axes: rectangles that merely touch along an
    /// edge or corner still intersect.
    pub open spec fn spec_intersects(self, other: Rectangle) -> bool {
        !(self.bottom_right.x < other.top_left.x || other.bottom_right.x < self.top_left.x
            || self.bottom_right.y < other.top_left.y || other.bottom_right.y < self.top_left.y)
    }

    /// The center, with floor division of the extents.
    pub open spec fn spec_center(self) -> Point {
        Point {
            x: (self.top_left.x + self.spec_width() / 2) as i32,
            y: (self.top_left.y + self.spec_height() / 2) as i32,
        }
    }

    pub fn new(top_left: Point, bottom_right: Point) -> (r: Rectangle)
        ensures
            r == rect_of(top_left, bottom_right),
            r.wf(),
    {
        let min_x = if top_left.x <= bottom_right.x {
            top_left.x
        } else {
            bottom_right.x
        };
        let min_y = if top_left.y <= bottom_right.y {
            top_left.y
        } else {
            bottom_right.y
        };
        let max_x = if top_left.x <= bottom_right.x {
            bottom_right.x
        } else {
            top_left.x
        };
        let max_y = if top_left.y <= bottom_right.y {
            bottom_right.y
        } else {
            top_left.y
        };
        Rectangle {
            top_left: Point::new(min_x, min_y),
            bottom_right: Point::new(max_x, max_y),
        }
    }

    pub fn width(&self) -> (r: i32)
        requires
            self.wf(),
            self.spec_width() <= i32::MAX,
        ensures
            r == self.spec_width(),
    {
        self.bottom_right.x - self.top_left.x
    }

    pub fn height(&self) -> (r: i32)
        requires
            self.wf(),
            self.spec_height() <= i32::MAX,
        ensures
            r == self.spec_height(),
    {
        self.bottom_right.y - self.top_left.y
    }

    pub fn area(&self) -> (r: i32)
        requires
            self.wf(),
            self.spec_width() <= i32::MAX,
            self.spec_height() <= i32::MAX,
            self.spec_area() <= i32::MAX,
        ensures
            r == self.spec_area(),
    {
        proof {
            assert(self.spec_width() * self.spec_height() >= 0) by (nonlinear_arith)
                requires
                    self.spec_width() >= 0,
                    self.spec_height() >= 0,
            ;
        }
        self.width() * self.height()
    }

    pub fn contains(&self, point: Point) -> (r: bool)
        ensures
            r == self.spec_contains(point),
    {
        self.top_left.x <= point.x && point.x < self.bottom_right.x && self.top_left.y <= point.y
            && point.y < self.bottom_right.y
    }

    pub fn intersects(&self, other: &Rectangle) -> (r: bool)
        ensures
            r == self.spec_intersects(*other),
    {
        !(self.bottom_right.x < other.top_left.x || other.bottom_right.x < self.top_left.x
            || self.bottom_right.y < other.top_left.y || other.bottom_right.y < self.top_left.y)
    }

    pub fn center(&self) -> (r: Point)
        requires
            self.wf(),
            self.spec_width() <= i32::MAX,
            self.spec_height() <= i32::MAX,
        ensures
            r == self.spec_center(),
    {
        Point::new(self.top_left.x + self.width() / 2, self.top_left.y + self.height() / 2)
    }
}

/// Construction is order-independent: the two corner points may be given in
/// either order and the canonical rectangle is the same.
pub proof fn lemma_rect_of_order_independent(a: Point, b: Point)
    ensures
        rect_of(a, b) == rect_of(b, a),
{
}

/// The area of a rectangle is the product of its width and its height.
pub proof fn lemma_area_is_width_times_height(r: Rectangle)
    ensures
        r.spec_area() == r.spec_width() * r.spec_height(),
{
}

} // verus!
