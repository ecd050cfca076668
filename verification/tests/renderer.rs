use termray::render::{checker_dark, clamp_channel, render_cell, render_frame, sphere_center_z, tile_parity_even};
use termray::scene::{Rgb, Scene, Sphere};

/// The standard scene with its spheres removed: only background remains.
fn bare_scene() -> Scene {
    let mut sc = Scene::standard();
    sc.spheres = Vec::new();
    sc
}

/// A single white sphere dead ahead of the eye, lit from behind the eye.
fn single_sphere_scene() -> Scene {
    Scene {
        width: 1,
        height: 1,
        spheres: vec![Sphere {
            center_x: 0,
            center_y: 5000,
            amplitude: 0,
            phase_ms: 0,
            col_r: 1000,
            col_g: 1000,
            col_b: 1000,
        }],
        radius: 1500,
        eye_x: 0,
        eye_y: 0,
        eye_z: 0,
        proj_y: 1000,
        eps_z: 0,
        aspect: 1500,
        light_x: 0,
        light_y: -10000,
        light_z: 0,
        ambient: 150,
        diffuse: 750,
        tile: 1200,
        rate_ms: 300,
    }
}

#[test]
fn frame_has_one_color_per_cell() {
    let sc = Scene::standard();
    let frame = render_frame(&sc, 0);
    assert_eq!(frame.len(), 100 * 40);
    for &(x, y) in &[(0usize, 0usize), (50, 20), (99, 39), (13, 7)] {
        assert_eq!(frame[y * 100 + x], render_cell(&sc, x, y, 0));
    }
}

#[test]
fn checkerboard_parity() {
    // One tile step in both coordinates keeps the shade...
    assert_eq!(checker_dark(0, 0, 1200), checker_dark(1200, 1200, 1200));
    // ...one tile step in a single coordinate flips it.
    assert_ne!(checker_dark(0, 0, 1200), checker_dark(1200, 0, 1200));
    assert!(tile_parity_even(0, 1200));
    assert!(!tile_parity_even(1200, 1200));
    assert!(tile_parity_even(2400, 1200));
}

#[test]
fn sky_gradient_rows() {
    let sc = bare_scene();
    // Rows whose rays point upward resolve to sky.
    assert_eq!(render_cell(&sc, 50, 0, 0), Rgb { r: 0, g: 0, b: 255 });
    assert_eq!(
        render_cell(&sc, 50, 16, 0),
        Rgb { r: 240, g: 240, b: 255 }
    );
    // Row 17: 17 * 15 == 255, which wraps to 0 modulo 255.
    assert_eq!(render_cell(&sc, 50, 17, 0), Rgb { r: 0, g: 0, b: 255 });
}

#[test]
fn checkerboard_cells() {
    let sc = bare_scene();
    // A downward ray on the grid's center column lands in an even/even tile.
    assert_eq!(
        render_cell(&sc, 50, 39, 0),
        Rgb { r: 10, g: 10, b: 10 }
    );
    // Far to the right the X tile parity flips.
    assert_eq!(
        render_cell(&sc, 90, 39, 0),
        Rgb { r: 225, g: 225, b: 225 }
    );
}

#[test]
fn sphere_shading_exact() {
    let sc = single_sphere_scene();
    // Entry point at distance 3.5, normal and light direction anti-parallel:
    // raw channel = 0.15 * 1 + 0.75 * 1 = 0.9, scaled to 229.
    assert_eq!(
        render_cell(&sc, 0, 0, 0),
        Rgb { r: 229, g: 229, b: 229 }
    );
}

#[test]
fn tangent_ray_is_a_hit() {
    let mut sc = single_sphere_scene();
    // Shift the sphere sideways by exactly its radius: the ray is tangent,
    // the discriminant is zero, and the cell still shades the sphere.
    sc.spheres[0].center_x = 1500;
    let c = render_cell(&sc, 0, 0, 0);
    // cos(theta) is zero at the tangent point, so only ambient light is
    // left: 0.15 of white, scaled to 38.
    assert_eq!(c, Rgb { r: 38, g: 38, b: 38 });
    // In particular not the sky (the background for this ray) and not a
    // checkerboard shade.
    assert_ne!(c, Rgb { r: 0, g: 0, b: 255 });
    assert_ne!(c, Rgb { r: 10, g: 10, b: 10 });
    assert_ne!(c, Rgb { r: 225, g: 225, b: 225 });
}

#[test]
fn negative_light_clamps_to_black() {
    let mut sc = single_sphere_scene();
    // Light moved behind the sphere: cos(theta) == -1, the raw channel is
    // 0.15 - 0.75 = -0.6, and every channel clamps to 0 instead of
    // wrapping.
    sc.light_y = 20000;
    assert_eq!(render_cell(&sc, 0, 0, 0), Rgb { r: 0, g: 0, b: 0 });
}

#[test]
fn clamp_channel_saturates() {
    assert_eq!(clamp_channel(-5), 0);
    assert_eq!(clamp_channel(0), 0);
    assert_eq!(clamp_channel(1), 0);
    assert_eq!(clamp_channel(500), 127);
    assert_eq!(clamp_channel(999), 254);
    assert_eq!(clamp_channel(1000), 255);
    assert_eq!(clamp_channel(5000), 255);
}

#[test]
fn sphere_animation_band() {
    let sph = Sphere {
        center_x: 0,
        center_y: 0,
        amplitude: 1000,
        phase_ms: 0,
        col_r: 0,
        col_g: 0,
        col_b: 0,
    };
    // With a rate divisor of 1000 the argument equals the elapsed time.
    assert_eq!(sphere_center_z(&sph, 1000, 0), 1000);
    assert_eq!(sphere_center_z(&sph, 1000, 1571), 0);
    assert_eq!(sphere_center_z(&sph, 1000, 4713), 2000);
    let mut t: i128 = -50000;
    while t <= 50000 {
        let z = sphere_center_z(&sph, 300, t);
        assert!(0 <= z && z <= 2000);
        t += 113;
    }
}

#[test]
fn far_spheres_leave_only_background() {
    let mut sc = Scene::standard();
    for sph in sc.spheres.iter_mut() {
        sph.amplitude = 0;
        sph.center_x = 1_000_000;
        sph.center_y = 1_000_000;
    }
    let frame = render_frame(&sc, 12345);
    assert_eq!(frame.len(), 4000);
    for (k, c) in frame.iter().enumerate() {
        let y = (k / 100) as i128;
        let sky = ((y * 15) % 255) as u8;
        let is_sky = *c == Rgb { r: sky, g: sky, b: 255 };
        let is_dark = *c == Rgb { r: 10, g: 10, b: 10 };
        let is_light = *c == Rgb { r: 225, g: 225, b: 225 };
        assert!(is_sky || is_dark || is_light);
    }
}
