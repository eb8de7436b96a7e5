use ray_tracer::camera::{Camera_, GeometryError};
use ray_tracer::canvas::{blank_image, pixel_count};
use ray_tracer::scene::{Color_, Light_, Ray_, CHANNEL_FULL};
use ray_tracer::vector::Vect_;

fn v(x: i64, y: i64, z: i64) -> Vect_ {
    Vect_ { x, y, z }
}

fn unit(a: Vect_) -> (f64, f64, f64) {
    let m = (a.magnitude_squared() as f64).sqrt();
    (a.x as f64 / m, a.y as f64 / m, a.z as f64 / m)
}

fn fdot(a: (f64, f64, f64), b: (f64, f64, f64)) -> f64 {
    a.0 * b.0 + a.1 * b.1 + a.2 * b.2
}

#[test]
fn default_camera_looks_along_z() {
    let c = Camera_::new();
    assert_eq!(c.pos, v(0, 0, 0));
    assert_eq!(c.dir, v(0, 0, 1));
    assert_eq!(c.right, v(0, 0, 0));
    assert_eq!(c.down, v(0, 0, 0));
}

// The camera stands at (3, 1, -5.2); coordinates count tenths.
#[test]
fn frame_has_exact_axes() {
    let c = Camera_::looking_at(v(30, 10, -52), v(0, 0, 0), v(0, 1, 0)).unwrap();
    assert_eq!(c.pos, v(30, 10, -52));
    assert_eq!(c.dir, v(-30, -10, 52));
    assert_eq!(c.right, v(52, 0, 30));
    assert_eq!(c.down, v(300, -3604, -520));
}

#[test]
fn frame_axes_are_pairwise_orthogonal() {
    let c = Camera_::looking_at(v(30, 10, -52), v(0, 0, 0), v(0, 1, 0)).unwrap();
    assert_eq!(c.dir.dot(c.right), Some(0));
    assert_eq!(c.dir.dot(c.down), Some(0));
    assert_eq!(c.right.dot(c.down), Some(0));
    assert_eq!(
        c.down.magnitude_squared(),
        c.right.magnitude_squared() * c.dir.magnitude_squared()
    );
}

#[test]
fn frame_axes_scaled_to_unit_length_are_orthonormal() {
    let c = Camera_::looking_at(v(30, 10, -52), v(0, 0, 0), v(0, 1, 0)).unwrap();
    let dir = unit(c.dir);
    let right = unit(c.right);
    // screen-down is the cross product of the two unit axes, taken as it is
    let down = (
        right.1 * dir.2 - right.2 * dir.1,
        right.2 * dir.0 - right.0 * dir.2,
        right.0 * dir.1 - right.1 * dir.0,
    );
    assert!(fdot(dir, right).abs() < 1e-9);
    assert!(fdot(dir, down).abs() < 1e-9);
    assert!(fdot(right, down).abs() < 1e-9);
    assert!((fdot(dir, dir).sqrt() - 1.0).abs() < 1e-9);
    assert!((fdot(right, right).sqrt() - 1.0).abs() < 1e-9);
    assert!((fdot(down, down).sqrt() - 1.0).abs() < 1e-9);
    // and it points the way of the exact screen-down axis
    let exact = unit(c.down);
    assert!((fdot(down, exact) - 1.0).abs() < 1e-9);
}

#[test]
fn camera_on_its_target_is_degenerate() {
    assert_eq!(
        Camera_::looking_at(v(3, 1, -5), v(3, 1, -5), v(0, 1, 0)),
        Err(GeometryError::DegenerateVectorError)
    );
    assert_eq!(
        Camera_::looking_at(v(0, 0, 0), v(0, 0, 0), v(0, 0, 0)),
        Err(GeometryError::DegenerateVectorError)
    );
}

#[test]
fn looking_along_up_is_degenerate() {
    assert_eq!(
        Camera_::looking_at(v(0, 0, 0), v(0, 5, 0), v(0, 1, 0)),
        Err(GeometryError::DegenerateCameraOrientation)
    );
    assert_eq!(
        Camera_::looking_at(v(0, 7, 0), v(0, 0, 0), v(0, 1, 0)),
        Err(GeometryError::DegenerateCameraOrientation)
    );
    assert_eq!(
        Camera_::looking_at(v(1, 2, 3), v(3, 6, 9), v(-5, -10, -15)),
        Err(GeometryError::DegenerateCameraOrientation)
    );
}

#[test]
fn zero_up_reference_is_degenerate() {
    assert_eq!(
        Camera_::looking_at(v(30, 10, -52), v(0, 0, 0), v(0, 0, 0)),
        Err(GeometryError::DegenerateCameraOrientation)
    );
}

#[test]
fn frame_that_does_not_fit_is_an_overflow() {
    // the viewing direction itself
    assert_eq!(
        Camera_::looking_at(v(i64::MAX, 0, 0), v(-1, 0, 0), v(0, 1, 0)),
        Err(GeometryError::CoordinateOverflow)
    );
    // screen-right
    assert_eq!(
        Camera_::looking_at(v(0, 0, 0), v(1 << 40, 1, 0), v(0, 1 << 40, 0)),
        Err(GeometryError::CoordinateOverflow)
    );
    // screen-down
    assert_eq!(
        Camera_::looking_at(v(0, 0, 0), v(1 << 30, 0, 0), v(0, 1 << 20, 0)),
        Err(GeometryError::CoordinateOverflow)
    );
}

#[test]
fn far_apart_camera_and_target_still_give_a_frame() {
    let c = Camera_::looking_at(v(-1_000_000, 0, 0), v(1_000_000, 0, 0), v(0, 1, 0)).unwrap();
    assert_eq!(c.dir, v(2_000_000, 0, 0));
    assert_eq!(c.right, v(0, 0, -2_000_000));
    assert_eq!(c.down, v(0, -4_000_000_000_000, 0));
}

#[test]
fn default_color_is_mid_gray() {
    let c = Color_::new();
    assert_eq!(c, Color_ { r: 500, g: 500, b: 500, special: 0 });
    assert_eq!(2 * c.r, CHANNEL_FULL);
}

#[test]
fn default_light_is_white_at_origin() {
    let l = Light_::new();
    assert_eq!(l.position, v(0, 0, 0));
    assert_eq!(l.color, Color_ { r: 1000, g: 1000, b: 1000, special: 0 });
}

#[test]
fn default_ray_runs_along_x() {
    let r = Ray_::new();
    assert_eq!(r.origin, v(0, 0, 0));
    assert_eq!(r.direction, v(1, 0, 0));
}

#[test]
fn pixel_count_is_width_times_height() {
    assert_eq!(pixel_count(640, 480), 307_200);
    assert_eq!(pixel_count(0, 480), 0);
    assert_eq!(pixel_count(u32::MAX, u32::MAX), 18_446_744_065_119_617_025);
}

#[test]
fn blank_image_holds_one_zero_vector_per_pixel() {
    let image = blank_image(4, 3);
    assert_eq!(image.len(), 12);
    assert!(image.iter().all(|p| *p == v(0, 0, 0)));
    assert_eq!(blank_image(0, 9).len(), 0);
    assert_eq!(blank_image(640, 480).len(), 307_200);
}

#[test]
fn scene_configuration_gives_its_camera() {
    let config = ray_tracer::scene::SceneConfig {
        camera_pos: v(30, 10, -52),
        look_at: v(0, 0, 0),
        world_up: v(0, 1, 0),
        lights: vec![Light_::new()],
        background_color: Color_::new(),
    };
    assert_eq!(config.camera(), Camera_::derive(v(30, 10, -52), v(0, 0, 0), v(0, 1, 0)));
    assert_eq!(config.camera().unwrap().dir, v(-2219961998590368, -739987332863456, 3847934130889971));
    let stuck = ray_tracer::scene::SceneConfig { look_at: v(30, 10, -52), ..config };
    assert_eq!(stuck.camera(), Err(GeometryError::DegenerateVectorError));
}
