use swirl::coords::{Axis, Coord2, Corner, Edge, EdgeInfo, Edged, NeighborStrategy, Perpendicular,
    Rect};
use swirl::math::Clamp;
use swirl::scalar::Scalar;
use swirl::utils::AsSome;

fn rect(width: usize, height: usize) -> Rect {
    Rect::new(Coord2 { x: 0, y: 0 }, width, height)
}

#[test]
fn contains_is_exclusive_of_the_far_edge() {
    let r = rect(10, 4);
    assert!(r.contains(Coord2 { x: 0, y: 0 }));
    assert!(r.contains(Coord2 { x: 9, y: 3 }));
    assert!(!r.contains(Coord2 { x: 10, y: 0 }));
    assert!(!r.contains(Coord2 { x: 0, y: 4 }));
}

#[test]
fn area_is_width_times_height() {
    assert_eq!(rect(10, 4).area(), 40);
    assert_eq!(rect(3, 3).area(), 9);
}

#[test]
fn classification_of_boundary_points() {
    let r = rect(10, 10);
    assert!(matches!(r.edge_at_coords(Coord2 { x: 0, y: 1 }), EdgeInfo::Edge(Edge::Left)));
    assert!(matches!(r.edge_at_coords(Coord2 { x: 9, y: 5 }), EdgeInfo::Edge(Edge::Right)));
    assert!(matches!(r.edge_at_coords(Coord2 { x: 4, y: 0 }), EdgeInfo::Edge(Edge::Bottom)));
    assert!(matches!(r.edge_at_coords(Coord2 { x: 4, y: 9 }), EdgeInfo::Edge(Edge::Top)));
    assert!(matches!(
        r.edge_at_coords(Coord2 { x: 0, y: 9 }),
        EdgeInfo::Corner(Edge::Top, Edge::Left)
    ));
    assert!(matches!(
        r.edge_at_coords(Coord2 { x: 9, y: 0 }),
        EdgeInfo::Corner(Edge::Bottom, Edge::Right)
    ));
    assert!(matches!(r.edge_at_coords(Coord2 { x: 5, y: 5 }), EdgeInfo::Neither));
}

#[test]
fn corner_coordinates() {
    let r = rect(10, 10);
    assert_eq!(r.coords_of_corner(Corner(Edge::Top, Edge::Left)), Coord2 { x: 0, y: 9 });
    assert_eq!(r.coords_of_corner(Corner(Edge::Top, Edge::Right)), Coord2 { x: 9, y: 9 });
    assert_eq!(r.coords_of_corner(Corner(Edge::Bottom, Edge::Left)), Coord2 { x: 0, y: 0 });
    assert_eq!(r.coords_of_corner(Corner(Edge::Bottom, Edge::Right)), Coord2 { x: 9, y: 0 });
}

#[test]
fn all_four_corners_are_listed() {
    let all = Corner::all();
    assert_eq!(all.len(), 4);
}

#[test]
fn edges_map_to_their_axes() {
    assert_eq!(Edge::Top.as_axis(), Axis::Y);
    assert_eq!(Edge::Bottom.as_axis(), Axis::Y);
    assert_eq!(Edge::Left.as_axis(), Axis::X);
    assert_eq!(Edge::Right.as_axis(), Axis::X);
}

#[test]
fn perpendicularity_means_different_axes() {
    assert!(Axis::X.perpendicular(&Axis::Y));
    assert!(!Axis::X.perpendicular(&Axis::X));
    assert!(Edge::Top.perpendicular(&Edge::Left));
    assert!(!Edge::Top.perpendicular(&Edge::Bottom));
    assert!(Edge::Left.perpendicular(&Axis::Y));
    assert!(!Edge::Left.perpendicular(&Axis::X));
}

#[test]
fn boundary_enumeration_is_complete_and_unique() {
    // a 5 x 4 domain has 2*5 + 2*4 - 4 = 14 boundary cells
    let r = rect(5, 4);
    let cells = r.edge_coord_iter();
    assert_eq!(cells.len(), 14);
    for i in 0..cells.len() {
        for j in 0..i {
            assert_ne!(cells[i].1, cells[j].1);
        }
    }
    let mut corners: usize = 0;
    let mut edges: usize = 0;
    for (info, c) in cells.iter() {
        // each tag matches a fresh classification of its coordinate
        match info {
            EdgeInfo::Corner(_, _) => {
                corners += 1;
                assert!(c.x == 0 || c.x == 4);
                assert!(c.y == 0 || c.y == 3);
            }
            EdgeInfo::Edge(_) => {
                edges += 1;
                assert!((c.x == 0 || c.x == 4) != (c.y == 0 || c.y == 3));
            }
            EdgeInfo::Neither => panic!("interior point in boundary enumeration"),
        }
    }
    assert_eq!(corners, 4);
    assert_eq!(edges, 2 * (5 - 2) + 2 * (4 - 2));
    // every boundary coordinate appears
    for x in 0..5usize {
        for y in 0..4usize {
            if x == 0 || x == 4 || y == 0 || y == 3 {
                assert!(cells.iter().any(|(_, c)| *c == Coord2 { x, y }));
            }
        }
    }
}

#[test]
fn interior_enumeration_covers_exactly_the_interior() {
    let r = rect(5, 4);
    let cells = r.coords_iter();
    assert_eq!(cells.len(), (5 - 2) * (4 - 2));
    for c in cells.iter() {
        assert!(c.x >= 1 && c.x <= 3 && c.y >= 1 && c.y <= 2);
    }
    for i in 0..cells.len() {
        for j in 0..i {
            assert_ne!(cells[i], cells[j]);
        }
    }
}

#[test]
fn neighbor_test_by_strategy() {
    let c = Coord2 { x: 3, y: 3 };
    assert!(c.is_neighbor(Coord2 { x: 2, y: 3 }, NeighborStrategy::Adjacent));
    assert!(c.is_neighbor(Coord2 { x: 3, y: 4 }, NeighborStrategy::Adjacent));
    assert!(c.is_neighbor(c, NeighborStrategy::Adjacent));
    assert!(!c.is_neighbor(Coord2 { x: 2, y: 2 }, NeighborStrategy::Adjacent));
    assert!(c.is_neighbor(Coord2 { x: 2, y: 2 }, NeighborStrategy::IncludeDiag));
    assert!(!c.is_neighbor(Coord2 { x: 1, y: 3 }, NeighborStrategy::IncludeDiag));
}

#[test]
fn coordinate_pairs() {
    assert_eq!(Coord2 { x: 7, y: 2 }.to_pair(), (7, 2));
}

#[test]
fn as_some_wraps_on_true() {
    assert_eq!(true.as_some(5), Some(5));
    assert_eq!(false.as_some(5), None);
}

#[test]
fn clamping_scalars_and_sizes() {
    let lo = Scalar::from_int(1);
    let hi = Scalar::from_int(3);
    assert_eq!(Scalar::from_int(0).clam(lo, hi), lo);
    assert_eq!(Scalar::from_int(2).clam(lo, hi), Scalar::from_int(2));
    assert_eq!(Scalar::from_int(9).clam(lo, hi), hi);
    assert_eq!(5usize.clam(1, 3), 3);
    assert_eq!(0usize.clam(1, 3), 1);
    assert_eq!(2usize.clam(1, 3), 2);
}
