//! Grid coordinates, rectangular domains, and boundary topology.
//!
//! A domain is a `Rect` of at least 3x3 cells anchored at the origin, so that
//! every domain has at least one interior cell framed by boundary cells. A
//! coordinate is classified as a corner, a pure edge point, or neither; the
//! mirrored boundary conditions of the solver depend on which axis an edge
//! runs along, which `Perpendicular` captures.

use vstd::prelude::*;

verus! {

/// One of the two grid axes.
#[derive(Clone, Copy, PartialEq, Eq, Structural, Debug, Hash)]
pub enum Axis {
    X,
    Y,
}

/// One of the four domain edges.
#[derive(Clone, Copy, PartialEq, Eq, Structural, Debug, Hash)]
pub enum Edge {
    Top,
    Bottom,
    Left,
    Right,
}

/// The axis an edge runs perpendicular to is the axis of its outward normal;
/// `Top` and `Bottom` bound the y axis, `Left` and `Right` the x axis.
pub open spec fn edge_axis(e: Edge) -> Axis {
    match e {
        Edge::Top => Axis::Y,
        Edge::Bottom => Axis::Y,
        Edge::Left => Axis::X,
        Edge::Right => Axis::X,
    }
}

impl Edge {
    /// The axis whose coordinate is pinned on this edge.
    pub fn as_axis(&self) -> (r: Axis)
        ensures
            r == edge_axis(*self),
    {
        match self {
            Edge::Top => Axis::Y,
            Edge::Bottom => Axis::Y,
            Edge::Left => Axis::X,
            Edge::Right => Axis::X,
        }
    }
}

/// Whether two directed things refer to different axes.
pub trait Perpendicular<Cmp> {
    /// The axis this value refers to.
    spec fn perp_axis(&self) -> Axis;

    /// The axis the compared value refers to.
    spec fn perp_axis_other(cmp: &Cmp) -> Axis;

    /// True exactly when the two values refer to different axes.
    fn perpendicular(&self, cmp: &Cmp) -> (r: bool)
        ensures
            r == (self.perp_axis() != Self::perp_axis_other(cmp)),
    ;
}

impl Perpendicular<Axis> for Axis {
    open spec fn perp_axis(&self) -> Axis {
        *self
    }

    open spec fn perp_axis_other(cmp: &Axis) -> Axis {
        *cmp
    }

    fn perpendicular(&self, cmp: &Axis) -> (r: bool) {
        match (self, cmp) {
            (Axis::X, Axis::Y) => true,
            (Axis::Y, Axis::X) => true,
            _ => false,
        }
    }
}

impl Perpendicular<Axis> for Edge {
    open spec fn perp_axis(&self) -> Axis {
        edge_axis(*self)
    }

    open spec fn perp_axis_other(cmp: &Axis) -> Axis {
        *cmp
    }

    fn perpendicular(&self, cmp: &Axis) -> (r: bool) {
        let a = self.as_axis();
        a.perpendicular(cmp)
    }
}

impl Perpendicular<Edge> for Edge {
    open spec fn perp_axis(&self) -> Axis {
        edge_axis(*self)
    }

    open spec fn perp_axis_other(cmp: &Edge) -> Axis {
        edge_axis(*cmp)
    }

    fn perpendicular(&self, cmp: &Edge) -> (r: bool) {
        let a = self.as_axis();
        let b = cmp.as_axis();
        a.perpendicular(&b)
    }
}

/// Where a coordinate sits relative to the domain boundary: on two edges at
/// once (a corner), on exactly one edge, or on neither (interior).
#[derive(Clone, Copy, PartialEq, Eq, Structural, Debug, Hash)]
pub enum EdgeInfo {
    Corner(Edge, Edge),
    Edge(Edge),
    Neither,
}

impl EdgeInfo {
    /// The edge, for a pure edge point; corners and interior points yield
    /// nothing.
    pub fn get_edge(&self) -> (r: Option<Edge>)
        ensures
            r == (match *self {
                EdgeInfo::Edge(e) => Some(e),
                _ => None::<Edge>,
            }),
    {
        match self {
            EdgeInfo::Edge(e) => Some(*e),
            _ => None,
        }
    }
}

/// A corner, named by the two edges that meet there: the vertical position
/// (`Top` or `Bottom`) first, then the horizontal one (`Left` or `Right`).
#[derive(Clone, Copy, PartialEq, Eq, Structural, Debug, Hash)]
pub struct Corner(pub Edge, pub Edge);

impl Corner {
    /// The four corners of any domain.
    pub fn all() -> (r: Vec<Corner>)
        ensures
            r@ == seq![
                Corner(Edge::Top, Edge::Left),
                Corner(Edge::Top, Edge::Right),
                Corner(Edge::Bottom, Edge::Left),
                Corner(Edge::Bottom, Edge::Right),
            ],
    {
        let mut v: Vec<Corner> = Vec::new();
        v.push(Corner(Edge::Top, Edge::Left));
        v.push(Corner(Edge::Top, Edge::Right));
        v.push(Corner(Edge::Bottom, Edge::Left));
        v.push(Corner(Edge::Bottom, Edge::Right));
        proof {
            assert(v@ =~= seq![
                Corner(Edge::Top, Edge::Left),
                Corner(Edge::Top, Edge::Right),
                Corner(Edge::Bottom, Edge::Left),
                Corner(Edge::Bottom, Edge::Right),
            ]);
        }
        v
    }
}

/// A 2D cartesian coordinate in the first quadrant.
#[derive(Clone, Copy, PartialEq, Eq, Structural, Debug, Hash)]
pub struct Coord2 {
    pub x: usize,
    pub y: usize,
}

/// Which cells count as neighbors in a neighbor query: only the four
/// cardinal neighbors, or the diagonals as well.
#[derive(Clone, Copy, PartialEq, Eq, Structural, Debug)]
pub enum NeighborStrategy {
    Adjacent,
    IncludeDiag,
}

/// Whether two coordinates are within one step of each other along the
/// cardinal directions (a coordinate neighbors itself).
pub open spec fn adjacent_spec(a: Coord2, b: Coord2) -> bool {
    ||| (crate::scalar::iabs(a.x - b.x) <= 1 && a.y == b.y)
    ||| (crate::scalar::iabs(a.y - b.y) <= 1 && a.x == b.x)
}

/// Whether two coordinates are within one step of each other, diagonals
/// included.
pub open spec fn diag_adjacent_spec(a: Coord2, b: Coord2) -> bool {
    crate::scalar::iabs(a.x - b.x) <= 1 && crate::scalar::iabs(a.y - b.y) <= 1
}

impl Coord2 {
    /// Convert a coordinate pair to an (x, y) tuple.
    pub fn to_pair(&self) -> (r: (usize, usize))
        ensures
            r == (self.x, self.y),
    {
        (self.x, self.y)
    }

    /// Whether `other` is within one step of this coordinate under the given
    /// strategy. A coordinate counts as its own neighbor.
    pub fn is_neighbor(&self, other: Coord2, strategy: NeighborStrategy) -> (r: bool)
        ensures
            r == (match strategy {
                NeighborStrategy::Adjacent => adjacent_spec(*self, other),
                NeighborStrategy::IncludeDiag => diag_adjacent_spec(*self, other),
            }),
    {
        let x_adjacent = if self.x >= other.x {
            self.x - other.x <= 1
        } else {
            other.x - self.x <= 1
        };
        let y_adjacent = if self.y >= other.y {
            self.y - other.y <= 1
        } else {
            other.y - self.y <= 1
        };

        match strategy {
            NeighborStrategy::Adjacent => {
                x_adjacent && (self.y == other.y) || y_adjacent && (self.x == other.x)
            },
            NeighborStrategy::IncludeDiag => x_adjacent && y_adjacent,
        }
    }
}

/// A rectangular area in 2D cartesian space, with a width, height, and
/// origin.
#[derive(Clone, Copy, PartialEq, Eq, Structural, Debug)]
pub struct Rect {
    pub height: usize,
    pub width: usize,
    pub origin: Coord2,
}

impl Rect {
    /// A well-formed domain sits at the origin, is at least 3x3 (one interior
    /// cell framed by boundary cells), and is small enough that cell indices
    /// and casts to wider arithmetic cannot overflow.
    pub open spec fn wf(self) -> bool {
        &&& self.origin.x == 0
        &&& self.origin.y == 0
        &&& 3 <= self.width
        &&& 3 <= self.height
        &&& self.width <= 0x7fff_ffff
        &&& self.height <= 0x7fff_ffff
        &&& self.width * self.height <= usize::MAX
    }

    /// Whether a coordinate falls inside the domain.
    pub open spec fn contains_spec(self, x: int, y: int) -> bool {
        &&& self.origin.x <= x < self.origin.x + self.width
        &&& self.origin.y <= y < self.origin.y + self.height
    }

    /// Whether a coordinate is strictly inside the domain, off every
    /// boundary cell.
    pub open spec fn interior_spec(self, x: int, y: int) -> bool {
        &&& 1 <= x < self.width - 1
        &&& 1 <= y < self.height - 1
    }

    /// Whether a coordinate lies on the domain boundary.
    pub open spec fn boundary_spec(self, x: int, y: int) -> bool {
        self.contains_spec(x, y) && !self.interior_spec(x, y)
    }

    /// Build a domain from its origin and dimensions.
    pub fn new(origin: Coord2, width: usize, height: usize) -> (r: Rect)
        requires
            origin.x == 0,
            origin.y == 0,
            3 <= width <= 0x7fff_ffff,
            3 <= height <= 0x7fff_ffff,
            width * height <= usize::MAX,
        ensures
            r == (Rect { height, width, origin }),
            r.wf(),
    {
        Rect { origin, width, height }
    }

    /// Test whether a coordinate falls within the bounds of the Rect.
    pub fn contains(&self, coords: Coord2) -> (r: bool)
        requires
            self.wf(),
        ensures
            r == self.contains_spec(coords.x as int, coords.y as int),
    {
        let x_good = coords.x < self.width;
        let y_good = coords.y < self.height;
        x_good && y_good
    }

    /// Compute the area of the Rect (width * height).
    pub fn area(&self) -> (r: usize)
        requires
            self.wf(),
        ensures
            r == self.width * self.height,
    {
        proof {
            vstd::arithmetic::mul::lemma_mul_is_commutative(
                self.height as int,
                self.width as int,
            );
        }
        self.height * self.width
    }
}

/// Classification of a coordinate against a `width` x `height` domain: a
/// coordinate pinned on one axis extreme is an edge point, pinned on both a
/// corner (vertical edge named first), and otherwise interior.
pub open spec fn classify(w: int, h: int, x: int, y: int) -> EdgeInfo {
    let xe = if x == 0 {
        Some(Edge::Left)
    } else if x == w - 1 {
        Some(Edge::Right)
    } else {
        None::<Edge>
    };
    let ye = if y == 0 {
        Some(Edge::Bottom)
    } else if y == h - 1 {
        Some(Edge::Top)
    } else {
        None::<Edge>
    };
    match (xe, ye) {
        (Some(ex), Some(ey)) => EdgeInfo::Corner(ey, ex),
        (Some(ex), None) => EdgeInfo::Edge(ex),
        (None, Some(ey)) => EdgeInfo::Edge(ey),
        (None, None) => EdgeInfo::Neither,
    }
}

/// The concrete coordinate of a corner tag: x is pinned right when either
/// named edge is `Right`, y pinned top when either is `Top`.
pub open spec fn corner_coords_spec(rect: Rect, corner: Corner) -> Coord2 {
    let x: usize = if corner.0 == Edge::Right || corner.1 == Edge::Right {
        (rect.width - 1) as usize
    } else {
        0
    };
    let y: usize = if corner.0 == Edge::Top || corner.1 == Edge::Top {
        (rect.height - 1) as usize
    } else {
        0
    };
    Coord2 { x, y }
}

/// Anything that has a rectangular domain and can classify coordinates
/// against it.
pub trait Edged {
    /// The domain coordinates are classified against.
    spec fn domain(&self) -> Rect;

    /// Given a coordinate, report whether that point resides on an edge of
    /// the domain, on a corner, or on neither.
    fn edge_at_coords(&self, coords: Coord2) -> (r: EdgeInfo)
        requires
            self.domain().wf(),
        ensures
            r == classify(
                self.domain().width as int,
                self.domain().height as int,
                coords.x as int,
                coords.y as int,
            ),
    ;

    /// The coordinates of a corner of the domain.
    fn coords_of_corner(&self, corner: Corner) -> (r: Coord2)
        requires
            self.domain().wf(),
        ensures
            r == corner_coords_spec(self.domain(), corner),
    ;
}

impl Edged for Rect {
    open spec fn domain(&self) -> Rect {
        *self
    }

    fn edge_at_coords(&self, coords: Coord2) -> (r: EdgeInfo) {
        let x_edge = if coords.x == 0 {
            Some(Edge::Left)
        } else if coords.x == self.width - 1 {
            Some(Edge::Right)
        } else {
            None
        };
        let y_edge = if coords.y == 0 {
            Some(Edge::Bottom)
        } else if coords.y == self.height - 1 {
            Some(Edge::Top)
        } else {
            None
        };
        match (x_edge, y_edge) {
            (Some(ex), Some(ey)) => EdgeInfo::Corner(ey, ex),
            (Some(ex), None) => EdgeInfo::Edge(ex),
            (None, Some(ey)) => EdgeInfo::Edge(ey),
            (None, None) => EdgeInfo::Neither,
        }
    }

    fn coords_of_corner(&self, corner: Corner) -> (r: Coord2) {
        let x = if matches!(corner.0, Edge::Right) || matches!(corner.1, Edge::Right) {
            self.width - 1
        } else {
            0
        };
        let y = if matches!(corner.0, Edge::Top) || matches!(corner.1, Edge::Top) {
            self.height - 1
        } else {
            0
        };
        Coord2 { x, y }
    }
}

/// The `i`-th interior coordinate of the domain, columns first: `x` advances
/// once `y` has swept the interior rows.
pub open spec fn interior_coord(rect: Rect, i: int) -> Coord2 {
    let rows = rect.height - 2;
    Coord2 { x: (1 + i / rows) as usize, y: (1 + i % rows) as usize }
}

/// The `i`-th boundary coordinate: the top row left to right, then the bottom
/// row, then the left and right columns (corners excluded, since the top and
/// bottom rows already hold them).
pub open spec fn boundary_coord(rect: Rect, i: int) -> Coord2 {
    let w = rect.width as int;
    let h = rect.height as int;
    if i < w {
        Coord2 { x: i as usize, y: (h - 1) as usize }
    } else if i < 2 * w {
        Coord2 { x: (i - w) as usize, y: 0 }
    } else if i < 2 * w + (h - 2) {
        Coord2 { x: 0, y: (i - 2 * w + 1) as usize }
    } else {
        Coord2 { x: (w - 1) as usize, y: (i - (2 * w + h - 2) + 1) as usize }
    }
}

/// How many boundary cells a domain has.
pub open spec fn boundary_len(rect: Rect) -> int {
    2 * rect.width + 2 * rect.height - 4
}

/// The position of a boundary coordinate in the boundary enumeration; the
/// inverse of `boundary_coord`.
pub open spec fn boundary_index(rect: Rect, x: int, y: int) -> int {
    let w = rect.width as int;
    let h = rect.height as int;
    if y == h - 1 {
        x
    } else if y == 0 {
        w + x
    } else if x == 0 {
        2 * w + y - 1
    } else {
        2 * w + h - 2 + y - 1
    }
}

/// `boundary_index` inverts `boundary_coord`: every boundary cell appears in
/// the enumeration, at the index the inverse gives.
pub proof fn lemma_boundary_coords_complete(rect: Rect, x: int, y: int)
    requires
        rect.wf(),
        rect.boundary_spec(x, y),
    ensures
        0 <= boundary_index(rect, x, y) < boundary_len(rect),
        boundary_coord(rect, boundary_index(rect, x, y)) == (Coord2 {
            x: x as usize,
            y: y as usize,
        }),
{
}

/// The boundary enumeration repeats no coordinate: distinct indices yield
/// distinct coordinates.
pub proof fn lemma_boundary_coords_unique(rect: Rect, i: int, j: int)
    requires
        rect.wf(),
        0 <= i < boundary_len(rect),
        0 <= j < boundary_len(rect),
        i != j,
    ensures
        boundary_coord(rect, i) != boundary_coord(rect, j),
{
}

/// Every enumerated boundary coordinate is on the boundary, and is mapped
/// back to its own index.
pub proof fn lemma_boundary_coord_on_boundary(rect: Rect, i: int)
    requires
        rect.wf(),
        0 <= i < boundary_len(rect),
    ensures
        rect.boundary_spec(boundary_coord(rect, i).x as int, boundary_coord(rect, i).y as int),
        boundary_index(
            rect,
            boundary_coord(rect, i).x as int,
            boundary_coord(rect, i).y as int,
        ) == i,
{
}

impl Rect {
    /// The interior coordinates of the domain, each exactly once, columns
    /// first.
    pub fn coords_iter(&self) -> (r: Vec<Coord2>)
        requires
            self.wf(),
        ensures
            r@.len() == (self.width - 2) * (self.height - 2),
            forall|i: int| 0 <= i < r@.len() ==> r@[i] == interior_coord(*self, i),
            forall|i: int|
                0 <= i < r@.len() ==> self.interior_spec(r@[i].x as int, r@[i].y as int),
    {
        let cols = self.width - 2;
        let rows = self.height - 2;
        let mut out: Vec<Coord2> = Vec::new();
        let mut x: usize = 1;
        while x < self.width - 1
            invariant
                self.wf(),
                1 <= x <= self.width - 1,
                rows == self.height - 2,
                out@.len() == (x - 1) * rows,
                forall|i: int| 0 <= i < out@.len() ==> out@[i] == interior_coord(*self, i),
                forall|i: int|
                    0 <= i < out@.len() ==> self.interior_spec(out@[i].x as int, out@[i].y as int),
            decreases self.width - x,
        {
            let mut y: usize = 1;
            while y < self.height - 1
                invariant
                    self.wf(),
                    1 <= x <= self.width - 2,
                    1 <= y <= self.height - 1,
                    rows == self.height - 2,
                    out@.len() == (x - 1) * rows + (y - 1),
                    forall|i: int| 0 <= i < out@.len() ==> out@[i] == interior_coord(*self, i),
                    forall|i: int|
                        0 <= i < out@.len() ==> self.interior_spec(
                            out@[i].x as int,
                            out@[i].y as int,
                        ),
                decreases self.height - y,
            {
                proof {
                    vstd::arithmetic::div_mod::lemma_fundamental_div_mod_converse(
                        (x - 1) * (rows as int) + (y - 1),
                        rows as int,
                        x - 1,
                        y - 1,
                    );
                }
                out.push(Coord2 { x, y });
                y = y + 1;
            }
            proof {
                assert((x - 1) * (rows as int) + rows == x * (rows as int)) by (nonlinear_arith);
            }
            x = x + 1;
        }
        out
    }

    /// The boundary coordinates of the domain, each exactly once and each
    /// paired with its classification.
    pub fn edge_coord_iter(&self) -> (r: Vec<(EdgeInfo, Coord2)>)
        requires
            self.wf(),
        ensures
            r@.len() == boundary_len(*self),
            forall|i: int| 0 <= i < r@.len() ==> (#[trigger] r@[i]).1 == boundary_coord(*self, i),
            forall|i: int|
                0 <= i < r@.len() ==> (#[trigger] r@[i]).0 == classify(
                    self.width as int,
                    self.height as int,
                    r@[i].1.x as int,
                    r@[i].1.y as int,
                ),
    {
        let max_x = self.width - 1;
        let max_y = self.height - 1;
        let mut out: Vec<(EdgeInfo, Coord2)> = Vec::new();

        let mut x: usize = 0;
        while x <= max_x
            invariant
                self.wf(),
                max_x == self.width - 1,
                max_y == self.height - 1,
                0 <= x <= self.width,
                out@.len() == x,
                forall|i: int|
                    0 <= i < out@.len() ==> (#[trigger] out@[i]).1 == boundary_coord(*self, i),
                forall|i: int|
                    0 <= i < out@.len() ==> (#[trigger] out@[i]).0 == classify(
                        self.width as int,
                        self.height as int,
                        out@[i].1.x as int,
                        out@[i].1.y as int,
                    ),
            decreases self.width - x,
        {
            let c = Coord2 { x, y: max_y };
            out.push((self.edge_at_coords(c), c));
            x = x + 1;
        }

        let mut x: usize = 0;
        while x <= max_x
            invariant
                self.wf(),
                max_x == self.width - 1,
                max_y == self.height - 1,
                0 <= x <= self.width,
                out@.len() == self.width + x,
                forall|i: int|
                    0 <= i < out@.len() ==> (#[trigger] out@[i]).1 == boundary_coord(*self, i),
                forall|i: int|
                    0 <= i < out@.len() ==> (#[trigger] out@[i]).0 == classify(
                        self.width as int,
                        self.height as int,
                        out@[i].1.x as int,
                        out@[i].1.y as int,
                    ),
            decreases self.width - x,
        {
            let c = Coord2 { x, y: 0 };
            out.push((self.edge_at_coords(c), c));
            x = x + 1;
        }

        let mut y: usize = 1;
        while y < max_y
            invariant
                self.wf(),
                max_x == self.width - 1,
                max_y == self.height - 1,
                1 <= y <= self.height - 1,
                out@.len() == 2 * self.width + y - 1,
                forall|i: int|
                    0 <= i < out@.len() ==> (#[trigger] out@[i]).1 == boundary_coord(*self, i),
                forall|i: int|
                    0 <= i < out@.len() ==> (#[trigger] out@[i]).0 == classify(
                        self.width as int,
                        self.height as int,
                        out@[i].1.x as int,
                        out@[i].1.y as int,
                    ),
            decreases self.height - y,
        {
            let c = Coord2 { x: 0, y };
            out.push((self.edge_at_coords(c), c));
            y = y + 1;
        }

        let mut y: usize = 1;
        while y < max_y
            invariant
                self.wf(),
                max_x == self.width - 1,
                max_y == self.height - 1,
                1 <= y <= self.height - 1,
                out@.len() == 2 * self.width + self.height - 2 + y - 1,
                forall|i: int|
                    0 <= i < out@.len() ==> (#[trigger] out@[i]).1 == boundary_coord(*self, i),
                forall|i: int|
                    0 <= i < out@.len() ==> (#[trigger] out@[i]).0 == classify(
                        self.width as int,
                        self.height as int,
                        out@[i].1.x as int,
                        out@[i].1.y as int,
                    ),
            decreases self.height - y,
        {
            let c = Coord2 { x: max_x, y };
            out.push((self.edge_at_coords(c), c));
            y = y + 1;
        }

        out
    }
}

} // verus!
