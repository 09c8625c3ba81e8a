use swirl::coords::Coord2;
use swirl::fluid::{Density, Diffusion, Fluid, Viscosity};
use swirl::matrix::Grid;
use swirl::scalar::{Scalar, SCALE_ONE};
use swirl::time::TimeDelta;
use swirl::vector::Vector2;

fn c(x: usize, y: usize) -> Coord2 {
    Coord2 { x, y }
}

fn s(n: i64, d: i64) -> Scalar {
    Scalar::from_ratio(n, d)
}

fn vec2(x: Scalar, y: Scalar) -> Vector2 {
    Vector2 { x, y }
}

fn fluid(size: usize, dt: Scalar, diff: Scalar) -> Fluid {
    Fluid::with_size(size, TimeDelta(dt), Diffusion(diff), Viscosity(Scalar::zero())).unwrap()
}

/// The raw (unscaled) discrete divergence at an interior point, in bits.
fn raw_divergence(vel: &Grid<Vector2>, x: usize, y: usize) -> i128 {
    let r = vel.get(c(x + 1, y)).unwrap().x.bits as i128;
    let l = vel.get(c(x - 1, y)).unwrap().x.bits as i128;
    let t = vel.get(c(x, y + 1)).unwrap().y.bits as i128;
    let b = vel.get(c(x, y - 1)).unwrap().y.bits as i128;
    (r - l) + (t - b)
}

fn total_dye_bits(f: &Fluid) -> i128 {
    f.density.iter().iter().map(|(_, d)| d.0.bits as i128).sum()
}

#[test]
fn construction_validates_the_timestep() {
    assert!(Fluid::new(TimeDelta(Scalar::zero()), Diffusion(Scalar::zero()), Viscosity(
        Scalar::zero()
    )).is_none());
    assert!(Fluid::new(TimeDelta(Scalar::from_int(-1)), Diffusion(Scalar::zero()), Viscosity(
        Scalar::zero()
    )).is_none());
    let f = Fluid::new(TimeDelta(s(1, 10)), Diffusion(Scalar::zero()), Viscosity(Scalar::zero()));
    assert!(f.is_some());
    assert_eq!(f.unwrap().size, swirl::constant::N);
}

#[test]
fn dye_injection_is_bounds_checked() {
    let mut f = fluid(10, s(1, 10), Scalar::zero());
    assert_eq!(f.add_dye(c(5, 5), Scalar::one()), Some(()));
    assert_eq!(f.density.get(c(5, 5)), Some(&Density(Scalar::one())));
    assert_eq!(f.add_dye(c(5, 5), Scalar::one()), Some(()));
    assert_eq!(f.density.get(c(5, 5)), Some(&Density(Scalar::from_int(2))));
    assert_eq!(f.add_dye(c(10, 5), Scalar::one()), None);
    assert_eq!(f.add_dye(c(5, 10), Scalar::one()), None);
}

#[test]
fn velocity_injection_is_bounds_checked() {
    let mut f = fluid(10, s(1, 10), Scalar::zero());
    let v = vec2(Scalar::one(), s(1, 2));
    assert_eq!(f.add_velocity(c(3, 4), v), Some(()));
    assert_eq!(f.velocity.get(c(3, 4)), Some(&v));
    assert_eq!(f.add_velocity(c(3, 4), v), Some(()));
    assert_eq!(f.velocity.get(c(3, 4)), Some(&vec2(Scalar::from_int(2), Scalar::one())));
    assert_eq!(f.add_velocity(c(12, 0), v), None);
}

#[test]
fn boundary_fixup_mirrors_the_normal_component() {
    // a 4x4 vector field with a distinctive interior
    let mut grid = Grid::<Vector2>::from_dimensions(swirl::coords::Rect::new(
        c(0, 0),
        4,
        4,
    )).fill_with(vec2(Scalar::zero(), Scalar::zero()));
    grid.set(c(1, 1), vec2(Scalar::from_int(2), Scalar::from_int(3)));
    grid.set(c(2, 1), vec2(Scalar::from_int(-4), Scalar::from_int(5)));
    grid.set(c(1, 2), vec2(Scalar::from_int(6), Scalar::from_int(-7)));
    grid.set(c(2, 2), vec2(Scalar::from_int(8), Scalar::from_int(9)));
    Fluid::set_bnd(&mut grid);
    // left edge (0,1): inward neighbor (1,1); x (normal) negated, y kept
    assert_eq!(grid.get(c(0, 1)), Some(&vec2(Scalar::from_int(-2), Scalar::from_int(3))));
    // right edge (3,2): inward neighbor (2,2)
    assert_eq!(grid.get(c(3, 2)), Some(&vec2(Scalar::from_int(-8), Scalar::from_int(9))));
    // bottom edge (2,0): inward neighbor (2,1); y (normal) negated, x kept
    assert_eq!(grid.get(c(2, 0)), Some(&vec2(Scalar::from_int(-4), Scalar::from_int(-5))));
    // top edge (1,3): inward neighbor (1,2)
    assert_eq!(grid.get(c(1, 3)), Some(&vec2(Scalar::from_int(6), Scalar::from_int(7))));
}

#[test]
fn boundary_fixup_averages_the_corners() {
    let mut grid = Grid::<Density>::from_dimensions(swirl::coords::Rect::new(
        c(0, 0),
        4,
        4,
    )).fill_with(Density(Scalar::zero()));
    grid.set(c(1, 1), Density(Scalar::from_int(2)));
    grid.set(c(2, 1), Density(Scalar::from_int(4)));
    grid.set(c(1, 2), Density(Scalar::from_int(6)));
    grid.set(c(2, 2), Density(Scalar::from_int(8)));
    Fluid::set_bnd(&mut grid);
    // scalar fields are copied, never negated, at edges
    assert_eq!(grid.get(c(1, 0)), Some(&Density(Scalar::from_int(2))));
    assert_eq!(grid.get(c(0, 1)), Some(&Density(Scalar::from_int(2))));
    // each corner is the mean of its two adjacent (fixed) edge cells
    assert_eq!(grid.get(c(0, 0)), Some(&Density(Scalar::from_int(2))));
    assert_eq!(grid.get(c(3, 0)), Some(&Density(Scalar::from_int(4))));
    assert_eq!(grid.get(c(0, 3)), Some(&Density(Scalar::from_int(6))));
    assert_eq!(grid.get(c(3, 3)), Some(&Density(Scalar::from_int(8))));
}

#[test]
fn advection_with_zero_velocity_preserves_the_field() {
    let dims = swirl::coords::Rect::new(c(0, 0), 6, 6);
    let mut field = Grid::<Density>::from_dimensions(dims).fill_with(Density(Scalar::zero()));
    for x in 1..5usize {
        for y in 1..5usize {
            field.set(c(x, y), Density(s((x * 6 + y) as i64, 3)));
        }
    }
    let mut snapshot = Grid::<Density>::from_dimensions(dims).fill_with(Density(Scalar::zero()));
    snapshot.copy_from(&field);
    let velocity = Grid::<Vector2>::from_dimensions(dims).fill_with(vec2(
        Scalar::zero(),
        Scalar::zero(),
    ));
    let before: i128 = field.iter().iter().map(|(_, d)| d.0.bits as i128).sum();
    Fluid::advect(TimeDelta(s(1, 10)), &mut field, &snapshot, &velocity);
    let after: i128 = field.iter().iter().map(|(_, d)| d.0.bits as i128).sum();
    assert_eq!(before, after);
    for x in 0..6usize {
        for y in 0..6usize {
            assert_eq!(field.get(c(x, y)), snapshot.get(c(x, y)));
        }
    }
}

#[test]
fn diffusion_spreads_dye_to_neighbors() {
    let mut f = fluid(10, s(1, 10), s(1, 10));
    f.add_dye(c(5, 5), Scalar::one());
    f.diffuse_density();
    let center = f.density.get(c(5, 5)).unwrap().0;
    let side = f.density.get(c(4, 5)).unwrap().0;
    assert!(center.bits > 0 && center.bits < SCALE_ONE);
    assert!(side.bits > 0);
    assert!(center.bits > side.bits);
}

#[test]
fn projection_reduces_divergence() {
    let mut f = fluid(12, s(1, 10), Scalar::zero());
    f.add_velocity(c(6, 6), vec2(Scalar::one(), s(1, 2)));
    let mut before: Vec<i128> = Vec::new();
    for x in 1..11usize {
        for y in 1..11usize {
            before.push(raw_divergence(&f.velocity, x, y));
        }
    }
    let max_before = before.iter().map(|d| d.abs()).max().unwrap();
    assert!(max_before > 0);
    f.project_velocity();
    let mut max_after: i128 = 0;
    let mut k: usize = 0;
    for x in 1..11usize {
        for y in 1..11usize {
            let after = raw_divergence(&f.velocity, x, y).abs();
            if after > max_after {
                max_after = after;
            }
            // wherever there was divergence, projection shrinks it
            if before[k].abs() > 0 {
                assert!(after < before[k].abs());
            }
            k += 1;
        }
    }
    assert!(max_after < max_before);
}

#[test]
fn a_tick_spreads_injected_dye_and_creates_no_mass() {
    let mut f = fluid(10, s(1, 10), s(1, 10));
    f.add_dye(c(5, 5), Scalar::one());
    assert_eq!(total_dye_bits(&f), SCALE_ONE as i128);
    f.tick();
    // the dye has spread to at least one cardinal neighbor of (5,5)
    let spread = f.density.get(c(4, 5)).unwrap().0.bits > 0 || f.density.get(
        c(6, 5),
    ).unwrap().0.bits > 0 || f.density.get(c(5, 4)).unwrap().0.bits > 0 || f.density.get(
        c(5, 6),
    ).unwrap().0.bits > 0;
    assert!(spread);
    // and the total dye mass has not grown beyond what was injected
    assert!(total_dye_bits(&f) <= SCALE_ONE as i128);
    assert!(total_dye_bits(&f) > (SCALE_ONE / 2) as i128);
}

#[test]
fn a_tick_without_diffusion_or_flow_leaves_the_dye_in_place() {
    let mut f = fluid(10, s(1, 10), Scalar::zero());
    f.add_dye(c(5, 5), Scalar::one());
    f.tick();
    assert_eq!(f.density.get(c(5, 5)), Some(&Density(Scalar::one())));
    assert_eq!(total_dye_bits(&f), SCALE_ONE as i128);
    // the velocity field stays exactly zero
    for (_, v) in f.velocity.iter().iter() {
        assert_eq!(*v, vec2(Scalar::zero(), Scalar::zero()));
    }
}

#[test]
fn the_default_universe_simulates_at_full_size() {
    let mut f = Fluid::new(TimeDelta(s(1, 10)), Diffusion(s(1, 20)), Viscosity(Scalar::zero()))
        .unwrap();
    let n = swirl::constant::N;
    assert_eq!(f.density.dimensions.width, n);
    f.add_dye(c(n / 2, n / 2), Scalar::one());
    f.add_velocity(c(n / 2, n / 2), vec2(s(1, 2), s(1, 2)));
    f.tick();
    assert!(total_dye_bits(&f) > 0);
    assert!(total_dye_bits(&f) <= SCALE_ONE as i128);
}

#[test]
fn ticking_is_deterministic() {
    let mut a = fluid(10, s(1, 10), s(1, 20));
    let mut b = fluid(10, s(1, 10), s(1, 20));
    for f in [&mut a, &mut b] {
        f.add_dye(c(4, 4), Scalar::one());
        f.add_velocity(c(4, 4), vec2(s(1, 2), s(-1, 3)));
        f.tick();
        f.tick();
    }
    for x in 0..10usize {
        for y in 0..10usize {
            assert_eq!(a.density.get(c(x, y)), b.density.get(c(x, y)));
            assert_eq!(a.velocity.get(c(x, y)), b.velocity.get(c(x, y)));
        }
    }
}
