use ray_tracer::camera::{Camera_, GeometryError};
use ray_tracer::direction::{NORMALIZE_LIMIT, UNIT};
use ray_tracer::vector::Vect_;

fn v(x: i64, y: i64, z: i64) -> Vect_ {
    Vect_ { x, y, z }
}

fn fractions(a: Vect_) -> (f64, f64, f64) {
    let u = UNIT as f64;
    (a.x as f64 / u, a.y as f64 / u, a.z as f64 / u)
}

fn length(a: Vect_) -> f64 {
    let f = fractions(a);
    (f.0 * f.0 + f.1 * f.1 + f.2 * f.2).sqrt()
}

fn fdot(a: Vect_, b: Vect_) -> f64 {
    let (f, g) = (fractions(a), fractions(b));
    f.0 * g.0 + f.1 * g.1 + f.2 * g.2
}

#[test]
fn unit_has_fifty_two_bits_behind_the_point() {
    assert_eq!(UNIT, 1 << 52);
    assert_eq!(NORMALIZE_LIMIT, 4_294_967_295);
}

#[test]
fn normalize_gives_exact_coordinates() {
    assert_eq!(v(3, 4, 0).normalize(), Ok(v(2702159776422297, 3602879701896396, 0)));
    assert_eq!(v(3, 0, 4).normalize(), Ok(v(2702159776422297, 0, 3602879701896396)));
    assert_eq!(v(0, 0, -7).normalize(), Ok(v(0, 0, -UNIT)));
    assert_eq!(v(5, 0, 0).normalize(), Ok(v(UNIT, 0, 0)));
    assert_eq!(v(1, 1, 0).normalize(), Ok(v(3184525836262886, 3184525836262886, 0)));
    assert_eq!(
        v(-1, 1, -1).normalize(),
        Ok(v(-2600154457184654, 2600154457184654, -2600154457184654))
    );
    assert_eq!(
        v(2, -2, 1).normalize(),
        Ok(v(3002399751580330, -3002399751580330, 1501199875790165))
    );
    assert_eq!(v(1, 0, 2).normalize(), Ok(v(2014070982048630, 0, 4028141964097260)));
}

#[test]
fn normalize_of_three_nought_four() {
    let n = fractions(v(3, 0, 4).normalize().unwrap());
    assert!((n.0 - 0.6).abs() < 1e-12);
    assert!(n.1 == 0.0);
    assert!((n.2 - 0.8).abs() < 1e-12);
}

#[test]
fn normalized_vector_has_length_one() {
    let samples = [
        v(3, 4, 0),
        v(1, 1, 1),
        v(1, 0, 2),
        v(-30, -10, 52),
        v(52, 0, 30),
        v(300, -3604, -520),
        v(1, 0, 0),
        v(1, 2_000_000_000, -3),
        v(NORMALIZE_LIMIT, NORMALIZE_LIMIT, -NORMALIZE_LIMIT),
        v(-7, 10, -10),
        v(1 << 31, 0, 0),
        v(i64::MAX, i64::MIN, 1 << 62),
        v(i64::MIN, i64::MIN, i64::MIN),
        v(1 << 40, 3 << 40, 0),
    ];
    for s in samples {
        let n = s.normalize().unwrap();
        assert!((length(n) - 1.0).abs() <= 1e-12);
        let sq = n.magnitude_squared();
        let unit = UNIT as u128;
        assert!(sq <= unit * unit);
        assert!(sq > (unit - 4) * (unit - 4));
        let m = n.magnitude();
        assert!(m <= UNIT as u64 && m >= UNIT as u64 - 4);
    }
}

#[test]
fn normalize_is_the_vector_over_its_length() {
    let samples = [v(1, 0, 2), v(-30, -10, 52), v(300, -3604, -520), v(1 << 31, 7, -(1 << 30))];
    for s in samples {
        let n = fractions(s.normalize().unwrap());
        let m = (s.magnitude_squared() as f64).sqrt();
        assert!((n.0 - s.x as f64 / m).abs() <= 1e-12);
        assert!((n.1 - s.y as f64 / m).abs() <= 1e-12);
        assert!((n.2 - s.z as f64 / m).abs() <= 1e-12);
    }
    // a vector that is halved first loses what halving drops
    let s = v(1 << 40, 7, -(1 << 50));
    let n = fractions(s.normalize().unwrap());
    let m = (s.magnitude_squared() as f64).sqrt();
    assert!((n.0 - s.x as f64 / m).abs() <= 1e-9);
    assert!((n.1 - s.y as f64 / m).abs() <= 1e-9);
    assert!((n.2 - s.z as f64 / m).abs() <= 1e-9);
}

#[test]
fn normalize_of_zero_is_degenerate() {
    assert_eq!(v(0, 0, 0).normalize(), Err(GeometryError::DegenerateVectorError));
}

#[test]
fn normalize_takes_every_vector_but_zero() {
    assert_eq!(v(1 << 31, 0, 0).normalize(), Ok(v(UNIT, 0, 0)));
    assert_eq!(v(NORMALIZE_LIMIT + 1, 1, 0).normalize(), Ok(v(UNIT, 0, 0)));
    assert_eq!(v(0, i64::MIN, 0).normalize(), Ok(v(0, -UNIT, 0)));
    assert_eq!(v(0, 0, i64::MAX).normalize(), Ok(v(0, 0, UNIT)));
    assert_eq!(
        v(i64::MAX, i64::MIN, 1 << 62).normalize(),
        Ok(v(3002399750803607, -3002399752201709, 1501199876100854))
    );
    assert_eq!(v(1 << 40, 3 << 40, 0).normalize(), Ok(v(1424163249197635, 4272489747592907, 0)));
}

#[test]
fn whole_multiplier_in_fixed_point_gives_fixed_point() {
    // (1, -2, 3) times two and a half is (2.5, -5, 7.5), in units of UNIT
    let r = v(1, -2, 3).vectMult(5 * UNIT / 2).unwrap();
    assert_eq!(r, v(5 * UNIT / 2, -5 * UNIT, 15 * UNIT / 2));
    assert_eq!(fractions(r), (2.5, -5.0, 7.5));
}

#[test]
fn scale_takes_a_multiplier_in_fixed_point() {
    // coordinates in tenths: (1, -2, 3) times 2.5 is (2.5, -5, 7.5)
    assert_eq!(v(10, -20, 30).scale(5 * UNIT / 2), Some(v(25, -50, 75)));
    assert_eq!(v(1, -2, 3).scale(UNIT), Some(v(1, -2, 3)));
    assert_eq!(v(1, -2, 3).scale(-UNIT), Some(v(-1, 2, -3)));
    assert_eq!(v(1, -2, 3).scale(0), Some(v(0, 0, 0)));
    // a vector in fixed point stays in fixed point
    assert_eq!(
        v(UNIT, -2 * UNIT, 3 * UNIT).scale(5 * UNIT / 2),
        Some(v(5 * UNIT / 2, -5 * UNIT, 15 * UNIT / 2))
    );
}

#[test]
fn scale_rounds_toward_zero() {
    assert_eq!(v(1, -2, 3).scale(5 * UNIT / 2), Some(v(2, -5, 7)));
    assert_eq!(v(7, -7, 1).scale(UNIT / 2), Some(v(3, -3, 0)));
    assert_eq!(v(7, -7, 1).scale(-UNIT / 2), Some(v(-3, 3, 0)));
}

#[test]
fn scale_that_does_not_fit_is_none() {
    assert_eq!(v(1 << 62, 0, 0).scale(4 * UNIT), None);
    assert_eq!(v(1 << 62, 0, 0).scale(-2 * UNIT), Some(v(i64::MIN, 0, 0)));
    assert_eq!(v(1 << 62, 0, 0).scale(2 * UNIT), None);
    assert_eq!(v(i64::MIN, i64::MAX, 0).scale(UNIT), Some(v(i64::MIN, i64::MAX, 0)));
    assert_eq!(v(i64::MIN, 0, 0).scale(i64::MIN), None);
}

#[test]
fn unit_axes_of_exact_axes() {
    let c = Camera_::looking_at(v(30, 10, -52), v(0, 0, 0), v(0, 1, 0)).unwrap();
    let u = c.unit_axes().unwrap();
    assert_eq!(u, Camera_::derive(v(30, 10, -52), v(0, 0, 0), v(0, 1, 0)).unwrap());
    assert_eq!(Camera_::new().unit_axes(), Err(GeometryError::DegenerateCameraOrientation));
}

// The camera stands at (3, 1, -5.2); coordinates count tenths.
#[test]
fn derived_frame_is_orthonormal() {
    let f = Camera_::derive(v(30, 10, -52), v(0, 0, 0), v(0, 1, 0)).unwrap();
    assert_eq!(f.pos, v(30, 10, -52));
    assert_eq!(f.dir, v(-2219961998590368, -739987332863456, 3847934130889971));
    assert_eq!(f.right, v(3900953082562171, 0, 2250549855324329));
    assert_eq!(f.down, v(369788285529734, -4442389936830545, -640966361584873));
    for axis in [f.dir, f.right, f.down] {
        assert!((length(axis) - 1.0).abs() < 1e-9);
        assert!((axis.magnitude() as f64 / UNIT as f64 - 1.0).abs() < 1e-9);
        assert!((axis.length() as f64 / UNIT as f64 / UNIT as f64 - 1.0).abs() < 1e-12);
    }
    assert!(fdot(f.dir, f.right).abs() < 1e-9);
    assert!(fdot(f.dir, f.down).abs() < 1e-9);
    assert!(fdot(f.right, f.down).abs() < 1e-9);
    // right is level and down points down
    assert_eq!(f.right.y, 0);
    assert!(f.down.y < 0);
}

#[test]
fn derived_frame_reports_degenerate_input() {
    assert_eq!(
        Camera_::derive(v(3, 1, -5), v(3, 1, -5), v(0, 1, 0)),
        Err(GeometryError::DegenerateVectorError)
    );
    assert_eq!(
        Camera_::derive(v(0, 0, 0), v(0, 5, 0), v(0, 1, 0)),
        Err(GeometryError::DegenerateCameraOrientation)
    );
    assert_eq!(
        Camera_::derive(v(30, 10, -52), v(0, 0, 0), v(0, 0, 0)),
        Err(GeometryError::DegenerateCameraOrientation)
    );
    assert_eq!(
        Camera_::derive(v(i64::MAX, 5, 0), v(i64::MAX, 5, 0), v(0, 0, 0)),
        Err(GeometryError::DegenerateVectorError)
    );
    assert_eq!(
        Camera_::derive(v(0, i64::MIN, 0), v(0, i64::MAX, 0), v(0, 1, 0)),
        Err(GeometryError::DegenerateCameraOrientation)
    );
}

#[test]
fn nearly_degenerate_scene_has_a_frame() {
    let f = Camera_::derive(v(0, 0, 0), v(2, 1 << 62, 0), v(0, 1, 0)).unwrap();
    assert_eq!(f.dir, v(0, UNIT, 0));
    assert_eq!(f.right, v(0, 0, -UNIT));
    assert_eq!(f.down, v(UNIT, 0, 0));
}

#[test]
fn derived_frame_of_a_far_camera() {
    let f = Camera_::derive(v(-1_000_000_000, 0, 0), v(1_000_000_000, 0, 0), v(0, 1, 0)).unwrap();
    assert_eq!(f.dir, v(UNIT, 0, 0));
    assert_eq!(f.right, v(0, 0, -UNIT));
    assert_eq!(f.down, v(0, -UNIT, 0));
    let g = Camera_::derive(v(i64::MAX, 0, 0), v(-1, 0, 0), v(0, 1, 0)).unwrap();
    assert_eq!(g.pos, v(i64::MAX, 0, 0));
    assert_eq!(g.dir, v(-UNIT, 0, 0));
    assert_eq!(g.right, v(0, 0, UNIT));
    assert_eq!(g.down, v(0, -UNIT, 0));
}

#[test]
fn axes_beyond_128_bits_are_an_overflow() {
    assert_eq!(
        Camera_::derive(v(i64::MIN, 0, 0), v(i64::MAX, 0, 0), v(0, i64::MAX, 0)),
        Err(GeometryError::CoordinateOverflow)
    );
    assert_eq!(
        Camera_::derive(v(i64::MIN, i64::MAX, i64::MIN), v(i64::MAX, i64::MIN, 7), v(1, i64::MAX, 3)),
        Err(GeometryError::CoordinateOverflow)
    );
}

#[test]
fn derived_frame_of_a_huge_scene_is_orthonormal() {
    let campos = v(3_000_000_000_000, 1_000_000_000_000, -5_200_000_000_000);
    let f = Camera_::derive(campos, v(0, 0, 0), v(0, 1_000_000, 0)).unwrap();
    assert_eq!(f.pos, campos);
    for axis in [f.dir, f.right, f.down] {
        assert!((length(axis) - 1.0).abs() < 1e-9);
    }
    assert!(fdot(f.dir, f.right).abs() < 1e-9);
    assert!(fdot(f.dir, f.down).abs() < 1e-9);
    assert!(fdot(f.right, f.down).abs() < 1e-9);
    assert!((f.right.y as f64 / UNIT as f64).abs() < 1e-9);
    // the same directions as for the scene a hundred billion times smaller
    let small = Camera_::derive(v(30, 10, -52), v(0, 0, 0), v(0, 1, 0)).unwrap();
    assert!((fdot(f.dir, small.dir) - 1.0).abs() < 1e-9);
    assert!((fdot(f.right, small.right) - 1.0).abs() < 1e-9);
    assert!((fdot(f.down, small.down) - 1.0).abs() < 1e-9);
}

#[test]
fn length_counts_units() {
    let unit = UNIT as u128;
    assert_eq!(v(3, 4, 0).length(), 5 * unit);
    assert_eq!(v(0, 0, 0).length(), 0);
    assert_eq!(v(0, -7, 0).length(), 7 * unit);
    assert_eq!(v(1, 1, 0).length(), 6369051672525772);
    assert_eq!(v(-30, -10, 52).length(), 274091308092624103);
    assert_eq!(v(i64::MIN, i64::MIN, i64::MIN).length(), 71946575735700742525411976485782977);
    assert!((v(1, 1, 0).length() as f64 / UNIT as f64 - 2f64.sqrt()).abs() < 1e-12);
}

#[test]
fn length_of_a_normalized_vector_is_one() {
    let unit = UNIT as u128;
    for s in [v(3, 0, 4), v(1, 0, 2), v(-30, -10, 52), v(i64::MAX, 1, -5), v(1, 1, 1)] {
        let m = s.normalize().unwrap().length();
        assert!(m <= unit * unit);
        assert!(m > (unit - 4) * unit);
        assert!((m as f64 / UNIT as f64 / UNIT as f64 - 1.0).abs() <= 1e-12);
    }
}
