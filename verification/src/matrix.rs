//! A dense 2D grid of optional values over a rectangular domain.
//!
//! The grid maps each in-domain coordinate to either a stored value or
//! "absent". Absent cells are not zero: reads report them as `None`, neighbor
//! queries skip them, and interpolation lets them contribute a zero term.
//! Cells are stored row-major (`y * width + x`).

use crate::coords::{boundary_coord, boundary_index, boundary_len, classify, corner_coords_spec, Coord2, Corner,
    EdgeInfo, Edged, NeighborStrategy, Rect};
use crate::scalar::{clamped_floor, scalar_of_int, scalar_sub, Scalar, SCALE_ONE};
use vstd::prelude::*;

verus! {

/// The algebra a field value must support for the solver: a zero, addition,
/// and scaling or dividing by a fixed-point factor, each pinned to its spec
/// counterpart, together with the exactness laws the solver's contracts rely
/// on.
pub trait FieldValue: Sized + Copy {
    /// The zero value.
    spec fn zero_spec() -> Self;

    /// What `add` returns.
    spec fn add_spec(a: Self, b: Self) -> Self;

    /// What `scale` returns.
    spec fn scale_spec(a: Self, k: Scalar) -> Self;

    /// What `div_by` returns.
    spec fn div_spec(a: Self, k: Scalar) -> Self;

    /// The zero value.
    fn zero() -> (r: Self)
        ensures
            r == Self::zero_spec(),
    ;

    /// Add two values componentwise.
    fn add(a: Self, b: Self) -> (r: Self)
        ensures
            r == Self::add_spec(a, b),
    ;

    /// Scale a value by a fixed-point factor.
    fn scale(a: Self, k: Scalar) -> (r: Self)
        ensures
            r == Self::scale_spec(a, k),
    ;

    /// Divide a value by a fixed-point factor.
    fn div_by(a: Self, k: Scalar) -> (r: Self)
        ensures
            r == Self::div_spec(a, k),
    ;

    /// Zero is the identity of addition.
    proof fn lemma_add_zero(a: Self)
        ensures
            Self::add_spec(a, Self::zero_spec()) == a,
            Self::add_spec(Self::zero_spec(), a) == a,
    ;

    /// Scaling by one whole unit is exact.
    proof fn lemma_scale_one(a: Self)
        ensures
            Self::scale_spec(a, Scalar { bits: SCALE_ONE }) == a,
    ;

    /// Scaling by zero, or scaling zero, yields zero.
    proof fn lemma_scale_zero(a: Self, k: Scalar)
        ensures
            Self::scale_spec(a, Scalar { bits: 0 }) == Self::zero_spec(),
            Self::scale_spec(Self::zero_spec(), k) == Self::zero_spec(),
    ;
}

/// Row-major index of a coordinate.
pub open spec fn cell_index(rect: Rect, x: int, y: int) -> int {
    y * rect.width + x
}

/// The row-major index of an in-domain coordinate is a valid cell index.
pub proof fn lemma_cell_index_bounds(rect: Rect, x: int, y: int)
    requires
        rect.wf(),
        rect.contains_spec(x, y),
    ensures
        0 <= cell_index(rect, x, y) < rect.width * rect.height,
{
    let w = rect.width as int;
    let h = rect.height as int;
    assert(0 <= y * w + x < w * h) by (nonlinear_arith)
        requires
            0 <= x < w,
            0 <= y < h,
    ;
}

/// Distinct in-domain coordinates have distinct row-major indices.
pub proof fn lemma_cell_index_injective(rect: Rect, x1: int, y1: int, x2: int, y2: int)
    requires
        rect.wf(),
        rect.contains_spec(x1, y1),
        rect.contains_spec(x2, y2),
        cell_index(rect, x1, y1) == cell_index(rect, x2, y2),
    ensures
        x1 == x2 && y1 == y2,
{
    let w = rect.width as int;
    vstd::arithmetic::div_mod::lemma_fundamental_div_mod_converse(y1 * w + x1, w, y1, x1);
    vstd::arithmetic::div_mod::lemma_fundamental_div_mod_converse(y2 * w + x2, w, y2, x2);
}

/// The stored value of a cell state at a coordinate: `None` outside the
/// domain or where no value was ever set.
pub open spec fn cell_at<T>(rect: Rect, s: Seq<Option<T>>, x: int, y: int) -> Option<T> {
    if rect.contains_spec(x, y) {
        s[cell_index(rect, x, y)]
    } else {
        None
    }
}

/// The stored value of a cell state at a coordinate, with absent and
/// out-of-domain cells reading as zero.
pub open spec fn cell_value<T: FieldValue>(rect: Rect, s: Seq<Option<T>>, x: int, y: int) -> T {
    match cell_at(rect, s, x, y) {
        Some(v) => v,
        None => T::zero_spec(),
    }
}

/// Every valid cell index splits into an in-domain coordinate that indexes
/// back to it.
pub proof fn lemma_index_to_coords(rect: Rect, i: int)
    requires
        rect.wf(),
        0 <= i < rect.width * rect.height,
    ensures
        rect.contains_spec(i % (rect.width as int), i / (rect.width as int)),
        cell_index(rect, i % (rect.width as int), i / (rect.width as int)) == i,
{
    let w = rect.width as int;
    let h = rect.height as int;
    vstd::arithmetic::div_mod::lemma_fundamental_div_mod(i, w);
    assert(0 <= i % w < w) by {
        vstd::arithmetic::div_mod::lemma_mod_bound(i, w);
    }
    assert(0 <= i / w) by {
        vstd::arithmetic::div_mod::lemma_div_is_ordered(0, i, w);
    }
    assert(i / w < h) by {
        if i / w >= h {
            assert(w * (i / w) >= w * h) by (nonlinear_arith)
                requires
                    w > 0,
                    i / w >= h,
            ;
        }
    }
}

/// # 2-dimensional Grid
///
/// This grid structure represents a rectangular coordinate space of values of
/// type `T`, with an origin of (0, 0), viewed as the first quadrant of a
/// cartesian grid. A cell holds a value only once it has been set.
pub struct Grid<T> {
    /// The domain the cells cover.
    pub dimensions: Rect,
    /// One slot per cell, row-major; `None` marks a cell never set.
    pub cells: Vec<Option<T>>,
}

impl<T> View for Grid<T> {
    type V = Seq<Option<T>>;

    open spec fn view(&self) -> Seq<Option<T>> {
        self.cells@
    }
}

impl<T> Grid<T> {
    /// The grid's storage covers exactly its well-formed domain.
    pub open spec fn wf(self) -> bool {
        &&& self.dimensions.wf()
        &&& self.cells@.len() == self.dimensions.width * self.dimensions.height
    }

    /// The stored value at a coordinate: `None` outside the domain or where
    /// no value was ever set.
    pub open spec fn at(self, x: int, y: int) -> Option<T> {
        cell_at(self.dimensions, self.cells@, x, y)
    }

    /// Whether every in-domain cell holds a value.
    pub open spec fn full(self) -> bool {
        forall|i: int| 0 <= i < self.cells@.len() ==> (#[trigger] self.cells@[i]) is Some
    }

    /// Create a grid covering the default square universe with every cell
    /// absent.
    pub fn of_universe_dimensions() -> (r: Grid<T>)
        ensures
            r.wf(),
            r.dimensions == (Rect {
                height: crate::constant::N,
                width: crate::constant::N,
                origin: Coord2 { x: 0, y: 0 },
            }),
            forall|i: int| 0 <= i < r@.len() ==> (#[trigger] r@[i]) is None,
    {
        let dims = Rect::new(
            Coord2 { x: 0, y: 0 },
            crate::constant::N,
            crate::constant::N,
        );
        Self::from_dimensions(dims)
    }

    /// Create a grid of the given dimensions with every cell absent.
    pub fn from_dimensions(dims: Rect) -> (r: Grid<T>)
        requires
            dims.wf(),
        ensures
            r.dimensions == dims,
            r.wf(),
            r@.len() == dims.width * dims.height,
            forall|i: int| 0 <= i < r@.len() ==> (#[trigger] r@[i]) is None,
    {
        let n = dims.area();
        let mut cells: Vec<Option<T>> = Vec::new();
        let mut i: usize = 0;
        while i < n
            invariant
                cells@.len() == i,
                i <= n,
                forall|j: int| 0 <= j < i ==> (#[trigger] cells@[j]) is None,
            decreases n - i,
        {
            cells.push(None);
            i = i + 1;
        }
        Grid { dimensions: dims, cells }
    }

    /// Row-major index of an in-domain coordinate.
    fn cell_ix(&self, coords: Coord2) -> (r: usize)
        requires
            self.wf(),
            self.dimensions.contains_spec(coords.x as int, coords.y as int),
        ensures
            r == cell_index(self.dimensions, coords.x as int, coords.y as int),
            r < self@.len(),
    {
        proof {
            lemma_cell_index_bounds(self.dimensions, coords.x as int, coords.y as int);
        }
        coords.y * self.dimensions.width + coords.x
    }

    /// Get the value of a point at the given coordinates.
    pub fn get(&self, coords: Coord2) -> (r: Option<&T>)
        requires
            self.wf(),
        ensures
            r is Some <==> self.at(coords.x as int, coords.y as int) is Some,
            r is Some ==> Some(*r->Some_0) == self.at(coords.x as int, coords.y as int),
    {
        if coords.x < self.dimensions.width && coords.y < self.dimensions.height {
            let ix = self.cell_ix(coords);
            match &self.cells[ix] {
                Some(v) => Some(v),
                None => None,
            }
        } else {
            None
        }
    }

    /// Get mutable access to the cell at the given coordinates, which must
    /// lie inside the domain; callers check with `contains` first. The cell
    /// may be absent; writing `Some` stores a value, writing `None` unsets
    /// the cell.
    pub fn get_mut(&mut self, coords: Coord2) -> (r: &mut Option<T>)
        requires
            old(self).wf(),
            old(self).dimensions.contains_spec(coords.x as int, coords.y as int),
        ensures
            *r == old(self).at(coords.x as int, coords.y as int),
            final(self).dimensions == old(self).dimensions,
            final(self)@ == old(self)@.update(
                cell_index(old(self).dimensions, coords.x as int, coords.y as int),
                *final(r),
            ),
            final(self).wf(),
    {
        let ix = self.cell_ix(coords);
        &mut self.cells[ix]
    }

    /// Update the value of a point at the given coordinates, returning the
    /// previous value, if there was one. Writes outside the domain are
    /// no-ops that return nothing.
    pub fn set(&mut self, coords: Coord2, new_val: T) -> (r: Option<T>)
        where
            T: Copy,
        requires
            old(self).wf(),
        ensures
            final(self).wf(),
            final(self).dimensions == old(self).dimensions,
            r == old(self).at(coords.x as int, coords.y as int),
            old(self).dimensions.contains_spec(coords.x as int, coords.y as int)
                ==> final(self)@ == old(self)@.update(
                cell_index(old(self).dimensions, coords.x as int, coords.y as int),
                Some(new_val),
            ),
            !old(self).dimensions.contains_spec(coords.x as int, coords.y as int)
                ==> *final(self) == *old(self),
    {
        if coords.x < self.dimensions.width && coords.y < self.dimensions.height {
            let ix = self.cell_ix(coords);
            let prev = self.cells[ix];
            self.cells[ix] = Some(new_val);
            prev
        } else {
            None
        }
    }

    /// Copy every cell from a grid of the same dimensions.
    pub fn copy_from(&mut self, src: &Grid<T>)
        where
            T: Copy,
        requires
            old(self).wf(),
            src.wf(),
            old(self).dimensions == src.dimensions,
        ensures
            final(self).wf(),
            final(self).dimensions == old(self).dimensions,
            final(self)@ == src@,
    {
        let n = self.cells.len();
        let mut i: usize = 0;
        while i < n
            invariant
                self.wf(),
                self.dimensions == src.dimensions,
                src.wf(),
                n == self@.len(),
                n == src@.len(),
                i <= n,
                forall|j: int| 0 <= j < i ==> self@[j] == src@[j],
            decreases n - i,
        {
            self.cells[i] = match &src.cells[i] {
                Some(v) => Some(*v),
                None => None,
            };
            i = i + 1;
        }
        proof {
            assert(self@ =~= src@);
        }
    }
}

impl<T: Copy> Grid<T> {
    /// Fill every in-domain cell with copies of one value.
    pub fn fill_with(self, val: T) -> (r: Grid<T>)
        requires
            self.wf(),
        ensures
            r.wf(),
            r.dimensions == self.dimensions,
            r@.len() == self@.len(),
            forall|i: int| 0 <= i < r@.len() ==> (#[trigger] r@[i]) == Some(val),
            r.full(),
    {
        let mut g = self;
        let n = g.cells.len();
        let mut i: usize = 0;
        while i < n
            invariant
                g.wf(),
                n == g@.len(),
                i <= n,
                g.dimensions == self.dimensions,
                forall|j: int| 0 <= j < i ==> (#[trigger] g@[j]) == Some(val),
            decreases n - i,
        {
            g.cells[i] = Some(val);
            i = i + 1;
        }
        g
    }
}

impl<T> Grid<T> {
    /// Fill every in-domain cell with the result of a function, called once
    /// per cell.
    pub fn fill<F: Fn() -> T>(self, f: F) -> (r: Grid<T>)
        requires
            self.wf(),
            f.requires(()),
        ensures
            r.wf(),
            r.dimensions == self.dimensions,
            r@.len() == self@.len(),
            forall|i: int|
                0 <= i < r@.len() ==> (#[trigger] r@[i]) is Some && f.ensures(
                    (),
                    r@[i]->Some_0,
                ),
            r.full(),
    {
        let ghost dims = self.dimensions;
        let mut g = self;
        let n = g.cells.len();
        let mut i: usize = 0;
        while i < n
            invariant
                g.wf(),
                n == g@.len(),
                i <= n,
                g.dimensions == dims,
                f.requires(()),
                forall|j: int|
                    0 <= j < i ==> (#[trigger] g@[j]) is Some && f.ensures((), g@[j]->Some_0),
            decreases n - i,
        {
            let v = f();
            g.cells[i] = Some(v);
            i = i + 1;
        }
        g
    }
}

impl<T: FieldValue> Grid<T> {
    /// Fill every in-domain cell with the zero value.
    pub fn fill_with_default(self) -> (r: Grid<T>)
        requires
            self.wf(),
        ensures
            r.wf(),
            r.dimensions == self.dimensions,
            r@.len() == self@.len(),
            forall|i: int| 0 <= i < r@.len() ==> (#[trigger] r@[i]) == Some(T::zero_spec()),
            r.full(),
    {
        let z = T::zero();
        self.fill_with(z)
    }

    /// The stored value at a coordinate, with absent and out-of-domain cells
    /// reading as zero.
    pub open spec fn at_or_zero(self, x: int, y: int) -> T {
        cell_value(self.dimensions, self.cells@, x, y)
    }

    /// Read a cell, with absent and out-of-domain cells reading as zero.
    pub fn get_or_zero(&self, coords: Coord2) -> (r: T)
        requires
            self.wf(),
        ensures
            r == self.at_or_zero(coords.x as int, coords.y as int),
    {
        match self.get(coords) {
            Some(v) => *v,
            None => T::zero(),
        }
    }
}

/// A single-entry sequence holding a present cell and its coordinate, or the
/// empty sequence for an absent or out-of-domain cell.
pub open spec fn neighbor_entry<T>(g: Grid<T>, x: int, y: int) -> Seq<(Coord2, T)> {
    match g.at(x, y) {
        Some(v) => seq![(Coord2 { x: x as usize, y: y as usize }, v)],
        None => Seq::<(Coord2, T)>::empty(),
    }
}

/// The present cardinal neighbors of a coordinate, in the order left, right,
/// below, above; absent and out-of-domain neighbors are excluded.
pub open spec fn adjacent_entries<T>(g: Grid<T>, x: int, y: int) -> Seq<(Coord2, T)> {
    neighbor_entry(g, x - 1, y) + neighbor_entry(g, x + 1, y) + neighbor_entry(g, x, y - 1)
        + neighbor_entry(g, x, y + 1)
}

/// The present diagonal neighbors of a coordinate, in the order down-left,
/// up-left, down-right, up-right.
pub open spec fn diagonal_entries<T>(g: Grid<T>, x: int, y: int) -> Seq<(Coord2, T)> {
    neighbor_entry(g, x - 1, y - 1) + neighbor_entry(g, x - 1, y + 1) + neighbor_entry(
        g,
        x + 1,
        y - 1,
    ) + neighbor_entry(g, x + 1, y + 1)
}

/// Whether the cell at (nx, ny) is a present cardinal neighbor of (cx, cy).
pub open spec fn is_neighbor_entry<T>(g: Grid<T>, cx: int, cy: int, nx: int, ny: int) -> bool {
    &&& g.at(nx, ny) is Some
    &&& ((nx == cx - 1 && ny == cy) || (nx == cx + 1 && ny == cy) || (nx == cx && ny == cy - 1)
        || (nx == cx && ny == cy + 1))
}

/// Every present cardinal neighbor appears in `adjacent_entries`, with its
/// own coordinate and value.
pub proof fn lemma_adjacent_entries_contain<T>(g: Grid<T>, cx: int, cy: int, nx: int, ny: int)
    requires
        is_neighbor_entry(g, cx, cy, nx, ny),
    ensures
        adjacent_entries(g, cx, cy).contains(
            (Coord2 { x: nx as usize, y: ny as usize }, g.at(nx, ny)->Some_0),
        ),
{
    let a = neighbor_entry(g, cx - 1, cy);
    let b = neighbor_entry(g, cx + 1, cy);
    let c = neighbor_entry(g, cx, cy - 1);
    let d = neighbor_entry(g, cx, cy + 1);
    let s = adjacent_entries(g, cx, cy);
    let e = (Coord2 { x: nx as usize, y: ny as usize }, g.at(nx, ny)->Some_0);
    if nx == cx - 1 && ny == cy {
        assert(a == seq![e]);
        assert(s[0] == e);
        assert(s.contains(e));
    } else if nx == cx + 1 && ny == cy {
        assert(b == seq![e]);
        assert(s[a.len() as int] == e);
        assert(s.contains(e));
    } else if nx == cx && ny == cy - 1 {
        assert(c == seq![e]);
        assert(s[(a.len() + b.len()) as int] == e);
        assert(s.contains(e));
    } else {
        assert(d == seq![e]);
        assert(s[(a.len() + b.len() + c.len()) as int] == e);
        assert(s.contains(e));
    }
}

/// Neighbor symmetry: for an interior coordinate holding a value, every one
/// of its present neighbors lists that coordinate (with its value) among its
/// own neighbors.
pub proof fn lemma_neighbor_symmetry<T>(g: Grid<T>, cx: int, cy: int, nx: int, ny: int)
    requires
        g.wf(),
        g.dimensions.interior_spec(cx, cy),
        g.at(cx, cy) is Some,
        is_neighbor_entry(g, cx, cy, nx, ny),
    ensures
        adjacent_entries(g, nx, ny).contains(
            (Coord2 { x: cx as usize, y: cy as usize }, g.at(cx, cy)->Some_0),
        ),
{
    assert(is_neighbor_entry(g, nx, ny, cx, cy));
    lemma_adjacent_entries_contain(g, nx, ny, cx, cy);
}

/// The present cells among the first `n`, row-major, each with its
/// coordinate.
pub open spec fn present_entries<T>(g: Grid<T>, n: int) -> Seq<(Coord2, T)>
    decreases n,
{
    if n <= 0 {
        Seq::<(Coord2, T)>::empty()
    } else {
        let i = n - 1;
        let w = g.dimensions.width as int;
        present_entries(g, i) + (match g.cells@[i] {
            Some(v) => seq![(Coord2 { x: (i % w) as usize, y: (i / w) as usize }, v)],
            None => Seq::<(Coord2, T)>::empty(),
        })
    }
}

/// Every listed point is a set cell carrying its stored value: `iter`
/// invents nothing.
pub proof fn lemma_present_entries_sound<T>(g: Grid<T>, n: int, j: int)
    requires
        g.wf(),
        0 <= n <= g@.len(),
        0 <= j < present_entries(g, n).len(),
    ensures
        ({
            let e = present_entries(g, n)[j];
            g.at(e.0.x as int, e.0.y as int) == Some(e.1)
        }),
    decreases n,
{
    let prefix = present_entries(g, n - 1);
    if n > 0 && j < prefix.len() {
        lemma_present_entries_sound(g, n - 1, j);
    } else {
        lemma_index_to_coords(g.dimensions, n - 1);
    }
}

/// Every set cell is listed: a point with a stored value appears in the
/// enumeration, with that value.
pub proof fn lemma_present_entries_complete<T>(g: Grid<T>, n: int, x: int, y: int)
    requires
        g.wf(),
        g.dimensions.contains_spec(x, y),
        g.at(x, y) is Some,
        cell_index(g.dimensions, x, y) < n <= g@.len(),
    ensures
        present_entries(g, n).contains(
            (Coord2 { x: x as usize, y: y as usize }, g.at(x, y)->Some_0),
        ),
    decreases n,
{
    let ci = cell_index(g.dimensions, x, y);
    let e = (Coord2 { x: x as usize, y: y as usize }, g.at(x, y)->Some_0);
    let prefix = present_entries(g, n - 1);
    if ci < n - 1 {
        lemma_present_entries_complete(g, n - 1, x, y);
        let k = choose|k: int| 0 <= k < prefix.len() && prefix[k] == e;
        assert(present_entries(g, n)[k] == e);
    } else {
        lemma_cell_index_bounds(g.dimensions, x, y);
        vstd::arithmetic::div_mod::lemma_fundamental_div_mod_converse(
            y * (g.dimensions.width as int) + x,
            g.dimensions.width as int,
            y,
            x,
        );
        assert(present_entries(g, n)[prefix.len() as int] == e);
    }
}

/// The present cells among the first `n` boundary coordinates, each with its
/// classification and coordinate.
pub open spec fn boundary_entries<T>(g: Grid<T>, n: int) -> Seq<(EdgeInfo, Coord2, T)>
    decreases n,
{
    if n <= 0 {
        Seq::<(EdgeInfo, Coord2, T)>::empty()
    } else {
        let c = boundary_coord(g.dimensions, n - 1);
        boundary_entries(g, n - 1) + (match g.at(c.x as int, c.y as int) {
            Some(v) => seq![
                (
                    classify(
                        g.dimensions.width as int,
                        g.dimensions.height as int,
                        c.x as int,
                        c.y as int,
                    ),
                    c,
                    v,
                ),
            ],
            None => Seq::<(EdgeInfo, Coord2, T)>::empty(),
        })
    }
}

/// Every listed boundary point is a set boundary cell carrying its stored
/// value and its own classification.
pub proof fn lemma_boundary_entries_sound<T>(g: Grid<T>, n: int, j: int)
    requires
        g.wf(),
        0 <= n <= boundary_len(g.dimensions),
        0 <= j < boundary_entries(g, n).len(),
    ensures
        ({
            let e = boundary_entries(g, n)[j];
            &&& g.at(e.1.x as int, e.1.y as int) == Some(e.2)
            &&& e.0 == classify(
                g.dimensions.width as int,
                g.dimensions.height as int,
                e.1.x as int,
                e.1.y as int,
            )
            &&& g.dimensions.boundary_spec(e.1.x as int, e.1.y as int)
        }),
    decreases n,
{
    let prefix = boundary_entries(g, n - 1);
    if n > 0 && j < prefix.len() {
        lemma_boundary_entries_sound(g, n - 1, j);
    } else {
        crate::coords::lemma_boundary_coord_on_boundary(g.dimensions, n - 1);
    }
}

/// Every set boundary cell is listed.
pub proof fn lemma_boundary_entries_complete<T>(g: Grid<T>, n: int, x: int, y: int)
    requires
        g.wf(),
        g.dimensions.boundary_spec(x, y),
        g.at(x, y) is Some,
        boundary_index(g.dimensions, x, y) < n <= boundary_len(g.dimensions),
    ensures
        boundary_entries(g, n).contains(
            (
                classify(g.dimensions.width as int, g.dimensions.height as int, x, y),
                Coord2 { x: x as usize, y: y as usize },
                g.at(x, y)->Some_0,
            ),
        ),
    decreases n,
{
    let rect = g.dimensions;
    let bi = boundary_index(rect, x, y);
    let e = (
        classify(rect.width as int, rect.height as int, x, y),
        Coord2 { x: x as usize, y: y as usize },
        g.at(x, y)->Some_0,
    );
    let prefix = boundary_entries(g, n - 1);
    if bi < n - 1 {
        lemma_boundary_entries_complete(g, n - 1, x, y);
        let k = choose|k: int| 0 <= k < prefix.len() && prefix[k] == e;
        assert(boundary_entries(g, n)[k] == e);
    } else {
        crate::coords::lemma_boundary_coords_complete(rect, x, y);
        assert(boundary_coord(rect, n - 1) == e.1);
        assert(boundary_entries(g, n)[prefix.len() as int] == e);
    }
}

impl<T: Copy> Grid<T> {
    /// Push a cell's coordinate and value if the cell is present.
    fn push_present(&self, out: &mut Vec<(Coord2, T)>, c: Coord2)
        requires
            self.wf(),
        ensures
            final(out)@ == old(out)@ + neighbor_entry(*self, c.x as int, c.y as int),
    {
        match self.get(c) {
            Some(v) => {
                let val: T = *v;
                out.push((c, val));
                proof {
                    assert(out@ =~= old(out)@ + neighbor_entry(*self, c.x as int, c.y as int));
                }
            },
            None => {
                proof {
                    assert(out@ =~= old(out)@ + neighbor_entry(*self, c.x as int, c.y as int));
                }
            },
        }
    }

    /// The points touching a point at the given coordinates: the present
    /// cardinal neighbors, in the order left, right, below, above. Neighbor
    /// coordinates that would leave the domain are excluded, not clamped.
    pub fn get_adjacent_neighbors(&self, coords: Coord2) -> (r: Vec<(Coord2, T)>)
        requires
            self.wf(),
        ensures
            r@ == adjacent_entries(*self, coords.x as int, coords.y as int),
    {
        let x = coords.x;
        let y = coords.y;
        let ghost gx = x as int;
        let ghost gy = y as int;
        let mut out: Vec<(Coord2, T)> = Vec::new();
        if x > 0 {
            self.push_present(&mut out, Coord2 { x: x - 1, y });
        }
        proof {
            assert(out@ =~= neighbor_entry(*self, gx - 1, gy));
        }
        if x < usize::MAX {
            self.push_present(&mut out, Coord2 { x: x + 1, y });
        }
        proof {
            assert(out@ =~= neighbor_entry(*self, gx - 1, gy) + neighbor_entry(
                *self,
                gx + 1,
                gy,
            ));
        }
        if y > 0 {
            self.push_present(&mut out, Coord2 { x, y: y - 1 });
        }
        proof {
            assert(out@ =~= neighbor_entry(*self, gx - 1, gy) + neighbor_entry(*self, gx + 1, gy)
                + neighbor_entry(*self, gx, gy - 1));
        }
        if y < usize::MAX {
            self.push_present(&mut out, Coord2 { x, y: y + 1 });
        }
        proof {
            assert(out@ =~= adjacent_entries(*self, gx, gy));
        }
        out
    }

    /// The present diagonal neighbors of a point, in the order down-left,
    /// up-left, down-right, up-right.
    pub fn get_diagonal_neighbors(&self, coords: Coord2) -> (r: Vec<(Coord2, T)>)
        requires
            self.wf(),
        ensures
            r@ == diagonal_entries(*self, coords.x as int, coords.y as int),
    {
        let x = coords.x;
        let y = coords.y;
        let ghost gx = x as int;
        let ghost gy = y as int;
        let mut out: Vec<(Coord2, T)> = Vec::new();
        if x > 0 && y > 0 {
            self.push_present(&mut out, Coord2 { x: x - 1, y: y - 1 });
        }
        proof {
            assert(out@ =~= neighbor_entry(*self, gx - 1, gy - 1));
        }
        if x > 0 && y < usize::MAX {
            self.push_present(&mut out, Coord2 { x: x - 1, y: y + 1 });
        }
        proof {
            assert(out@ =~= neighbor_entry(*self, gx - 1, gy - 1) + neighbor_entry(
                *self,
                gx - 1,
                gy + 1,
            ));
        }
        if x < usize::MAX && y > 0 {
            self.push_present(&mut out, Coord2 { x: x + 1, y: y - 1 });
        }
        proof {
            assert(out@ =~= neighbor_entry(*self, gx - 1, gy - 1) + neighbor_entry(
                *self,
                gx - 1,
                gy + 1,
            ) + neighbor_entry(*self, gx + 1, gy - 1));
        }
        if x < usize::MAX && y < usize::MAX {
            self.push_present(&mut out, Coord2 { x: x + 1, y: y + 1 });
        }
        proof {
            assert(out@ =~= diagonal_entries(*self, gx, gy));
        }
        out
    }

    /// The present neighbors of a point under the given strategy; with
    /// diagonals included, the diagonal neighbors come first.
    pub fn get_neighbors(&self, coords: Coord2, strategy: NeighborStrategy) -> (r: Vec<
        (Coord2, T),
    >)
        requires
            self.wf(),
        ensures
            r@ == (match strategy {
                NeighborStrategy::Adjacent => adjacent_entries(
                    *self,
                    coords.x as int,
                    coords.y as int,
                ),
                NeighborStrategy::IncludeDiag => diagonal_entries(
                    *self,
                    coords.x as int,
                    coords.y as int,
                ) + adjacent_entries(*self, coords.x as int, coords.y as int),
            }),
    {
        match strategy {
            NeighborStrategy::Adjacent => self.get_adjacent_neighbors(coords),
            NeighborStrategy::IncludeDiag => {
                let mut out = self.get_diagonal_neighbors(coords);
                let mut adj = self.get_adjacent_neighbors(coords);
                out.append(&mut adj);
                out
            },
        }
    }

    /// The point at a given corner of the grid, if it holds a value.
    pub fn get_corner(&self, corner: Corner) -> (r: Option<(Coord2, T)>)
        requires
            self.wf(),
        ensures
            ({
                let cc = corner_coords_spec(self.dimensions, corner);
                r == (match self.at(cc.x as int, cc.y as int) {
                    Some(v) => Some((cc, v)),
                    None => None::<(Coord2, T)>,
                })
            }),
    {
        let cc = self.coords_of_corner(corner);
        match self.get(cc) {
            Some(v) => Some((cc, *v)),
            None => None,
        }
    }

    /// Update the value at a given corner, returning the old value, if there
    /// was one.
    pub fn set_corner(&mut self, corner: Corner, val: T) -> (r: Option<T>)
        requires
            old(self).wf(),
        ensures
            final(self).wf(),
            final(self).dimensions == old(self).dimensions,
            ({
                let cc = corner_coords_spec(old(self).dimensions, corner);
                r == old(self).at(cc.x as int, cc.y as int) && final(self)@ == old(
                    self,
                )@.update(
                    cell_index(old(self).dimensions, cc.x as int, cc.y as int),
                    Some(val),
                )
            }),
    {
        let cc = self.coords_of_corner(corner);
        self.set(cc, val)
    }

    /// The present points of the grid, row-major, each with its coordinates.
    /// Points whose values have never been set are not yielded.
    pub fn iter(&self) -> (r: Vec<(Coord2, T)>)
        requires
            self.wf(),
        ensures
            r@ == present_entries(*self, self@.len() as int),
    {
        let w = self.dimensions.width;
        let n = self.cells.len();
        let mut out: Vec<(Coord2, T)> = Vec::new();
        let mut i: usize = 0;
        while i < n
            invariant
                self.wf(),
                w == self.dimensions.width,
                n == self@.len(),
                i <= n,
                out@ == present_entries(*self, i as int),
            decreases n - i,
        {
            match &self.cells[i] {
                Some(v) => {
                    let val: T = *v;
                    out.push((Coord2 { x: i % w, y: i / w }, val));
                },
                None => {},
            }
            proof {
                assert(out@ =~= present_entries(*self, i + 1));
            }
            i = i + 1;
        }
        out
    }

    /// The present corner and edge points of the grid, each with its
    /// classification and coordinates, in boundary-enumeration order.
    pub fn edges_iter(&self) -> (r: Vec<(EdgeInfo, Coord2, T)>)
        requires
            self.wf(),
        ensures
            r@ == boundary_entries(*self, boundary_len(self.dimensions)),
    {
        let blist = self.dimensions.edge_coord_iter();
        let n = blist.len();
        let mut out: Vec<(EdgeInfo, Coord2, T)> = Vec::new();
        let mut k: usize = 0;
        while k < n
            invariant
                self.wf(),
                n == blist@.len(),
                n == boundary_len(self.dimensions),
                k <= n,
                forall|i: int| 0 <= i < n ==> (#[trigger] blist@[i]).1 == boundary_coord(
                    self.dimensions,
                    i,
                ),
                forall|i: int|
                    0 <= i < n ==> (#[trigger] blist@[i]).0 == classify(
                        self.dimensions.width as int,
                        self.dimensions.height as int,
                        blist@[i].1.x as int,
                        blist@[i].1.y as int,
                    ),
                out@ == boundary_entries(*self, k as int),
            decreases n - k,
        {
            let (info, c) = blist[k];
            match self.get(c) {
                Some(v) => {
                    let val: T = *v;
                    out.push((info, c, val));
                },
                None => {},
            }
            proof {
                assert(out@ =~= boundary_entries(*self, k + 1));
            }
            k = k + 1;
        }
        out
    }
}

/// What `Grid::interpolate` returns: a bilinear combination of the four cells
/// surrounding the sample point, each weighted by its overlap with the point
/// (an absent cell contributes a zero term, which biases samples near unset
/// cells toward zero).
pub open spec fn interpolate_spec<T: FieldValue>(rect: Rect, s: Seq<Option<T>>, px: Scalar, py: Scalar) -> T {
    let x0 = clamped_floor(px, rect.width as int);
    let y0 = clamped_floor(py, rect.height as int);
    let fx = scalar_sub(px, scalar_of_int(x0));
    let gx = scalar_sub(Scalar { bits: SCALE_ONE }, fx);
    let fy = scalar_sub(py, scalar_of_int(y0));
    let gy = scalar_sub(Scalar { bits: SCALE_ONE }, fy);
    let t00 = T::scale_spec(T::scale_spec(cell_value(rect, s, x0, y0), gx), gy);
    let t10 = T::scale_spec(T::scale_spec(cell_value(rect, s, x0 + 1, y0), fx), gy);
    let t01 = T::scale_spec(T::scale_spec(cell_value(rect, s, x0, y0 + 1), gx), fy);
    let t11 = T::scale_spec(T::scale_spec(cell_value(rect, s, x0 + 1, y0 + 1), fx), fy);
    T::add_spec(T::add_spec(T::add_spec(t00, t10), t01), t11)
}

impl<T: FieldValue> Grid<T> {
    /// The combined value of a point that sits between 4 other points, by
    /// bilinear interpolation. An absent surrounding cell contributes a zero
    /// term weighted by its bilinear coefficient, which silently biases the
    /// result toward zero near unset cells.
    pub fn interpolate(&self, pt: (Scalar, Scalar)) -> (r: T)
        requires
            self.wf(),
        ensures
            r == interpolate_spec(self.dimensions, self@, pt.0, pt.1),
    {
        let x0 = pt.0.floor_clamped(self.dimensions.width);
        let y0 = pt.1.floor_clamped(self.dimensions.height);
        let fx = pt.0.sub(Scalar::from_int(x0 as i64));
        let gx = Scalar::one().sub(fx);
        let fy = pt.1.sub(Scalar::from_int(y0 as i64));
        let gy = Scalar::one().sub(fy);
        let t00 = T::scale(T::scale(self.get_or_zero(Coord2 { x: x0, y: y0 }), gx), gy);
        let t10 = T::scale(T::scale(self.get_or_zero(Coord2 { x: x0 + 1, y: y0 }), fx), gy);
        let t01 = T::scale(T::scale(self.get_or_zero(Coord2 { x: x0, y: y0 + 1 }), gx), fy);
        let t11 = T::scale(T::scale(self.get_or_zero(Coord2 { x: x0 + 1, y: y0 + 1 }), fx), fy);
        T::add(T::add(T::add(t00, t10), t01), t11)
    }
}

/// Interpolation identity: sampling at a whole-unit coordinate inside the
/// domain reproduces the stored value there exactly.
pub proof fn lemma_interpolate_identity<T: FieldValue>(rect: Rect, s: Seq<Option<T>>, x: int, y: int)
    requires
        rect.wf(),
        s.len() == rect.width * rect.height,
        rect.contains_spec(x, y),
        cell_at(rect, s, x, y) is Some,
    ensures
        interpolate_spec(rect, s, scalar_of_int(x), scalar_of_int(y)) == cell_at(rect, s, x, y)->Some_0,
{
    let px = scalar_of_int(x);
    let py = scalar_of_int(y);
    let w = rect.width as int;
    let h = rect.height as int;
    assert(px.bits == x * SCALE_ONE && py.bits == y * SCALE_ONE) by {
        assert(0 <= x * SCALE_ONE <= 0x7fff_ffff * 0x1_0000 && 0 <= y * SCALE_ONE <= 0x7fff_ffff
            * 0x1_0000) by (nonlinear_arith)
            requires
                0 <= x < w <= 0x7fff_ffff,
                0 <= y < h <= 0x7fff_ffff,
        ;
    }
    assert(px.bits as int / (SCALE_ONE as int) == x) by {
        vstd::arithmetic::div_mod::lemma_div_multiples_vanish(x, SCALE_ONE as int);
        assert(SCALE_ONE as int * x == x * SCALE_ONE) by (nonlinear_arith);
    }
    assert(py.bits as int / (SCALE_ONE as int) == y) by {
        vstd::arithmetic::div_mod::lemma_div_multiples_vanish(y, SCALE_ONE as int);
        assert(SCALE_ONE as int * y == y * SCALE_ONE) by (nonlinear_arith);
    }
    let x0 = clamped_floor(px, w);
    let y0 = clamped_floor(py, h);
    assert(x0 == x && y0 == y);
    let fx = scalar_sub(px, scalar_of_int(x0));
    let gx = scalar_sub(Scalar { bits: SCALE_ONE }, fx);
    let fy = scalar_sub(py, scalar_of_int(y0));
    let gy = scalar_sub(Scalar { bits: SCALE_ONE }, fy);
    assert(fx == Scalar { bits: 0 } && fy == Scalar { bits: 0 });
    assert(gx == Scalar { bits: SCALE_ONE } && gy == Scalar { bits: SCALE_ONE });
    let v = cell_at(rect, s, x, y)->Some_0;
    assert(cell_value(rect, s, x0, y0) == v);
    let t00 = T::scale_spec(T::scale_spec(v, gx), gy);
    assert(t00 == v) by {
        T::lemma_scale_one(v);
        T::lemma_scale_one(T::scale_spec(v, gx));
    }
    let t10 = T::scale_spec(T::scale_spec(cell_value(rect, s, x0 + 1, y0), fx), gy);
    assert(t10 == T::zero_spec()) by {
        T::lemma_scale_zero(cell_value(rect, s, x0 + 1, y0), fx);
        T::lemma_scale_zero(T::scale_spec(cell_value(rect, s, x0 + 1, y0), fx), gy);
    }
    let t01 = T::scale_spec(T::scale_spec(cell_value(rect, s, x0, y0 + 1), gx), fy);
    assert(t01 == T::zero_spec()) by {
        T::lemma_scale_zero(T::scale_spec(cell_value(rect, s, x0, y0 + 1), gx), fy);
    }
    let t11 = T::scale_spec(T::scale_spec(cell_value(rect, s, x0 + 1, y0 + 1), fx), fy);
    assert(t11 == T::zero_spec()) by {
        T::lemma_scale_zero(cell_value(rect, s, x0 + 1, y0 + 1), fx);
        T::lemma_scale_zero(T::scale_spec(cell_value(rect, s, x0 + 1, y0 + 1), fx), fy);
    }
    assert(T::add_spec(T::add_spec(T::add_spec(t00, t10), t01), t11) == v) by {
        T::lemma_add_zero(v);
        T::lemma_add_zero(T::add_spec(t00, t10));
        T::lemma_add_zero(T::add_spec(T::add_spec(t00, t10), t01));
    }
}

impl<T> Edged for Grid<T> {
    open spec fn domain(&self) -> Rect {
        self.dimensions
    }

    fn edge_at_coords(&self, coords: Coord2) -> (r: EdgeInfo) {
        self.dimensions.edge_at_coords(coords)
    }

    fn coords_of_corner(&self, corner: Corner) -> (r: Coord2) {
        self.dimensions.coords_of_corner(corner)
    }
}

} // verus!
