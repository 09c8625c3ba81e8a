use swirl::coords::{Coord2, Corner, Edge, EdgeInfo, Rect};
use swirl::fluid::Density;
use swirl::matrix::Grid;
use swirl::scalar::Scalar;

fn rect(width: usize, height: usize) -> Rect {
    Rect::new(Coord2 { x: 0, y: 0 }, width, height)
}

fn c(x: usize, y: usize) -> Coord2 {
    Coord2 { x, y }
}

fn dens(n: i64, d: i64) -> Density {
    Density(Scalar::from_ratio(n, d))
}

#[test]
fn a_fresh_grid_has_no_values() {
    let grid = Grid::<i32>::from_dimensions(rect(3, 3));
    assert!(grid.get(c(0, 0)).is_none());
    assert!(grid.get(c(2, 2)).is_none());
}

#[test]
fn universe_grid_covers_the_default_domain() {
    let grid = Grid::<i32>::of_universe_dimensions();
    assert_eq!(grid.dimensions.width, swirl::constant::N);
    assert_eq!(grid.dimensions.height, swirl::constant::N);
    assert!(grid.get(c(0, 0)).is_none());
}

#[test]
fn set_stores_and_returns_the_previous_value() {
    let mut grid = Grid::<i32>::from_dimensions(rect(3, 3));
    assert_eq!(grid.set(c(1, 1), 7), None);
    assert_eq!(grid.get(c(1, 1)), Some(&7));
    assert_eq!(grid.set(c(1, 1), 9), Some(7));
    assert_eq!(grid.get(c(1, 1)), Some(&9));
}

#[test]
fn out_of_domain_writes_are_refused_quietly() {
    let mut grid = Grid::<i32>::from_dimensions(rect(3, 3));
    assert_eq!(grid.set(c(3, 0), 7), None);
    assert_eq!(grid.set(c(0, 3), 7), None);
    assert!(grid.get(c(3, 0)).is_none());
}

#[test]
fn get_mut_writes_through() {
    let mut grid = Grid::<i32>::from_dimensions(rect(3, 3));
    grid.set(c(1, 2), 5);
    *grid.get_mut(c(1, 2)) = Some(12);
    assert_eq!(grid.get(c(1, 2)), Some(&12));
    *grid.get_mut(c(1, 2)) = None;
    assert!(grid.get(c(1, 2)).is_none());
}

#[test]
fn adjacent_neighbors_skip_missing_cells() {
    let dims = rect(3, 3);
    let mut grid = Grid::<i32>::from_dimensions(dims);
    grid.set(c(0, 1), 0);
    grid.set(c(2, 1), 1);
    grid.set(c(1, 0), 2);
    grid.set(c(1, 2), 3);
    let mut neighbors: Vec<i32> = grid.get_adjacent_neighbors(c(1, 1)).iter().map(
        |(_, v)| *v,
    ).collect();
    neighbors.sort();
    assert_eq!(neighbors, vec![0, 1, 2, 3]);
    // a corner has only two candidate neighbors, and unset ones are skipped
    let from_corner = grid.get_adjacent_neighbors(c(0, 0));
    assert_eq!(from_corner.len(), 2);
    // no wrapping or clamping at the low boundary: (0,1)'s left neighbor
    // simply does not exist
    let from_edge = grid.get_adjacent_neighbors(c(0, 1));
    assert!(from_edge.iter().all(|(cc, _)| *cc != c(0, 1)));
}

#[test]
fn neighbor_symmetry_between_interior_cells() {
    let mut grid = Grid::<i32>::from_dimensions(rect(5, 5));
    for x in 0..5usize {
        for y in 0..5usize {
            grid.set(c(x, y), (x * 5 + y) as i32);
        }
    }
    let center = c(2, 2);
    let neighbors = grid.get_adjacent_neighbors(center);
    assert_eq!(neighbors.len(), 4);
    for (nc, _) in neighbors.iter() {
        let back = grid.get_adjacent_neighbors(*nc);
        assert!(back.iter().any(|(bc, bv)| *bc == center && *bv == 12));
    }
}

#[test]
fn diagonal_and_combined_neighbor_queries() {
    let mut grid = Grid::<i32>::from_dimensions(rect(3, 3));
    for x in 0..3usize {
        for y in 0..3usize {
            grid.set(c(x, y), (x * 3 + y) as i32);
        }
    }
    let diag = grid.get_diagonal_neighbors(c(1, 1));
    assert_eq!(diag.len(), 4);
    assert!(diag.iter().all(|(cc, _)| cc.x != 1 && cc.y != 1));
    let all = grid.get_neighbors(c(1, 1), swirl::coords::NeighborStrategy::IncludeDiag);
    assert_eq!(all.len(), 8);
    let adj = grid.get_neighbors(c(1, 1), swirl::coords::NeighborStrategy::Adjacent);
    assert_eq!(adj.len(), 4);
}

#[test]
fn corners_can_be_read_and_written() {
    let mut grid = Grid::<i32>::from_dimensions(rect(3, 3));
    assert!(grid.get_corner(Corner(Edge::Bottom, Edge::Left)).is_none());
    grid.set_corner(Corner(Edge::Bottom, Edge::Left), 12);
    assert_eq!(grid.get_corner(Corner(Edge::Bottom, Edge::Left)), Some((c(0, 0), 12)));
    grid.set_corner(Corner(Edge::Top, Edge::Right), 9);
    assert_eq!(grid.get_corner(Corner(Edge::Top, Edge::Right)), Some((c(2, 2), 9)));
}

#[test]
fn iter_yields_only_set_points() {
    let mut grid = Grid::<i32>::from_dimensions(rect(3, 3));
    grid.set(c(0, 2), 4);
    grid.set(c(2, 1), 6);
    let points = grid.iter();
    assert_eq!(points.len(), 2);
    assert!(points.contains(&(c(0, 2), 4)));
    assert!(points.contains(&(c(2, 1), 6)));
}

#[test]
fn edges_iter_tags_every_set_boundary_point_once() {
    let grid = Grid::<i32>::from_dimensions(rect(3, 3)).fill_with(0);
    let edges = grid.edges_iter();
    assert_eq!(edges.len(), 8);
    let mut corners: usize = 0;
    for (info, cc, v) in edges.iter() {
        assert_eq!(*v, 0);
        match info {
            EdgeInfo::Corner(_, _) => {
                corners += 1;
                assert!((cc.x == 0 || cc.x == 2) && (cc.y == 0 || cc.y == 2));
            }
            EdgeInfo::Edge(_) => assert!(*cc != c(1, 1)),
            EdgeInfo::Neither => panic!("interior point among edges"),
        }
    }
    assert_eq!(corners, 4);
}

#[test]
fn fill_populates_every_cell_from_a_function() {
    let grid = Grid::<i32>::from_dimensions(rect(3, 3)).fill(|| 7);
    for x in 0..3usize {
        for y in 0..3usize {
            assert_eq!(grid.get(c(x, y)), Some(&7));
        }
    }
}

#[test]
fn fill_with_default_zeroes_every_cell() {
    let grid = Grid::<Density>::from_dimensions(rect(3, 3)).fill_with_default();
    for x in 0..3usize {
        for y in 0..3usize {
            assert_eq!(grid.get(c(x, y)), Some(&Density(Scalar { bits: 0 })));
        }
    }
}

#[test]
fn interpolation_mixes_the_four_surrounding_points() {
    let mut grid = Grid::<Density>::from_dimensions(rect(3, 3));
    grid.set(c(0, 0), dens(1, 1));
    grid.set(c(0, 1), dens(1, 1));
    grid.set(c(1, 0), dens(1, 2));
    grid.set(c(1, 1), dens(1, 2));
    let middle = grid.interpolate((Scalar::from_ratio(1, 2), Scalar::from_ratio(1, 2)));
    assert_eq!(middle, dens(3, 4));
}

#[test]
fn interpolation_at_grid_points_is_exact() {
    let mut grid = Grid::<Density>::from_dimensions(rect(4, 4));
    for x in 0..4usize {
        for y in 0..4usize {
            grid.set(c(x, y), dens((x * 4 + y) as i64, 7));
        }
    }
    for x in 0..4usize {
        for y in 0..4usize {
            let sampled = grid.interpolate((
                Scalar::from_int(x as i64),
                Scalar::from_int(y as i64),
            ));
            assert_eq!(Some(&sampled), grid.get(c(x, y)));
        }
    }
}

#[test]
fn interpolation_treats_absent_cells_as_zero() {
    let mut grid = Grid::<Density>::from_dimensions(rect(3, 3));
    grid.set(c(1, 1), dens(1, 1));
    let halfway = grid.interpolate((Scalar::from_ratio(3, 2), Scalar::from_int(1)));
    // the (2, 1) cell is absent, so its half of the mix reads as zero
    assert_eq!(halfway, dens(1, 2));
}

#[test]
fn copy_from_duplicates_the_cells() {
    let mut a = Grid::<i32>::from_dimensions(rect(3, 3));
    a.set(c(1, 1), 3);
    let mut b = Grid::<i32>::from_dimensions(rect(3, 3));
    b.set(c(0, 0), 9);
    b.copy_from(&a);
    assert!(b.get(c(0, 0)).is_none());
    assert_eq!(b.get(c(1, 1)), Some(&3));
}
