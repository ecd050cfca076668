//! The scene: a fixed set of animated spheres over a checkerboard ground
//! plane under a sky gradient, seen by a pinhole camera. All world-space
//! quantities are fixed-point integers counting thousandths of a unit; a
//! color channel of a surface is a fixed-point value in `[0, 1000]`.

use vstd::prelude::*;

verus! {

/// Largest magnitude a world-space coordinate (or radius, amplitude,
/// aspect, tile size) may have: a thousand world units.
pub const COORD_LIM: i128 = 1_000_000;

/// Largest magnitude of an elapsed-time or phase value, in milliseconds.
pub const TIME_LIM: i128 = 1_000_000_000_000;

/// One 24-bit color, as written to a single terminal cell.
#[derive(Clone, Copy, PartialEq, Eq, Structural, Debug)]
pub struct Rgb {
    pub r: u8,
    pub g: u8,
    pub b: u8,
}

/// One sphere: a center whose Z coordinate oscillates with the given
/// amplitude and phase, and a base color.
#[derive(Clone, Copy, PartialEq, Eq, Structural, Debug)]
pub struct Sphere {
    /// X coordinate of the center, fixed-point.
    pub center_x: i128,
    /// Y coordinate of the center, fixed-point.
    pub center_y: i128,
    /// Amplitude of the vertical oscillation, fixed-point; the Z center
    /// stays within `[0, 2 * amplitude]`.
    pub amplitude: i128,
    /// Phase offset of the oscillation, in milliseconds.
    pub phase_ms: i128,
    /// Base color channels, fixed-point in `[0, 1000]`.
    pub col_r: i128,
    pub col_g: i128,
    pub col_b: i128,
}

impl Sphere {
    /// Every field within the bounds the renderer's arithmetic needs.
    pub open spec fn wf(self) -> bool {
        &&& -COORD_LIM <= self.center_x <= COORD_LIM
        &&& -COORD_LIM <= self.center_y <= COORD_LIM
        &&& 0 <= self.amplitude <= COORD_LIM
        &&& -TIME_LIM <= self.phase_ms <= TIME_LIM
        &&& 0 <= self.col_r <= 1000
        &&& 0 <= self.col_g <= 1000
        &&& 0 <= self.col_b <= 1000
    }
}

/// The whole fixed configuration of one rendering: grid size, spheres,
/// camera, light, shading coefficients and ground-plane tiling.
pub struct Scene {
    /// Grid width in cells.
    pub width: usize,
    /// Grid height in cells.
    pub height: usize,
    /// The spheres, tested for intersection in this order.
    pub spheres: Vec<Sphere>,
    /// Radius shared by all spheres, fixed-point.
    pub radius: i128,
    /// The eye point, fixed-point.
    pub eye_x: i128,
    pub eye_y: i128,
    pub eye_z: i128,
    /// Y coordinate of the projection plane, fixed-point.
    pub proj_y: i128,
    /// Offset added to every projected Z coordinate, fixed-point.
    pub eps_z: i128,
    /// Vertical aspect correction the projected Z is divided by,
    /// fixed-point.
    pub aspect: i128,
    /// The point light, fixed-point.
    pub light_x: i128,
    pub light_y: i128,
    pub light_z: i128,
    /// Ambient shading coefficient, fixed-point in `[0, 1000]`.
    pub ambient: i128,
    /// Diffuse shading coefficient, fixed-point in `[0, 1000]`.
    pub diffuse: i128,
    /// Edge length of one checkerboard tile, fixed-point.
    pub tile: i128,
    /// Divisor turning milliseconds into the oscillation argument.
    pub rate_ms: i128,
}

impl Scene {
    /// Every field within the bounds the renderer's arithmetic needs.
    pub open spec fn wf(self) -> bool {
        &&& 1 <= self.width <= 1000
        &&& 1 <= self.height <= 1000
        &&& forall|i: int|
            0 <= i < self.spheres@.len() ==> (#[trigger] self.spheres@[i]).wf()
        &&& 0 < self.radius <= COORD_LIM
        &&& -COORD_LIM <= self.eye_x <= COORD_LIM
        &&& -COORD_LIM <= self.eye_y <= COORD_LIM
        &&& -COORD_LIM <= self.eye_z <= COORD_LIM
        &&& -COORD_LIM <= self.proj_y <= COORD_LIM
        &&& -COORD_LIM <= self.eps_z <= COORD_LIM
        &&& 0 < self.aspect <= COORD_LIM
        &&& -COORD_LIM <= self.light_x <= COORD_LIM
        &&& -COORD_LIM <= self.light_y <= COORD_LIM
        &&& -COORD_LIM <= self.light_z <= COORD_LIM
        &&& 0 <= self.ambient <= 1000
        &&& 0 <= self.diffuse <= 1000
        &&& 0 < self.tile <= COORD_LIM
        &&& 0 < self.rate_ms <= COORD_LIM
    }

    /// The scene the renderer was written for: a 100 x 40 grid, three
    /// spheres of radius 1.5 in red, green and blue, the eye at
    /// (0, -5, 0), a point light at (-15, -15, -25), and a checkerboard
    /// of 1.2-unit tiles.
    pub fn standard() -> (sc: Scene)
        ensures
            sc.wf(),
            sc.width == 100,
            sc.height == 40,
            sc.spheres@.len() == 3,
            sc.spheres@[0] == (Sphere {
                center_x: 1750,
                center_y: 30000,
                amplitude: 1200,
                phase_ms: 0,
                col_r: 750,
                col_g: 50,
                col_b: 50,
            }),
            sc.spheres@[1] == (Sphere {
                center_x: -2000i128,
                center_y: 62000,
                amplitude: 1900,
                phase_ms: 150,
                col_r: 50,
                col_g: 750,
                col_b: 50,
            }),
            sc.spheres@[2] == (Sphere {
                center_x: 6000,
                center_y: 48000,
                amplitude: 2400,
                phase_ms: 240,
                col_r: 50,
                col_g: 50,
                col_b: 750,
            }),
            sc.radius == 1500,
            sc.eye_x == 0,
            sc.eye_y == -5000,
            sc.eye_z == 0,
            sc.proj_y == -1750,
            sc.eps_z == 10,
            sc.aspect == 1500,
            sc.light_x == -15000,
            sc.light_y == -15000,
            sc.light_z == -25000,
            sc.ambient == 150,
            sc.diffuse == 750,
            sc.tile == 1200,
            sc.rate_ms == 300,
    {
        let mut spheres: Vec<Sphere> = Vec::new();
        spheres.push(Sphere {
            center_x: 1750,
            center_y: 30000,
            amplitude: 1200,
            phase_ms: 0,
            col_r: 750,
            col_g: 50,
            col_b: 50,
        });
        spheres.push(Sphere {
            center_x: -2000,
            center_y: 62000,
            amplitude: 1900,
            phase_ms: 150,
            col_r: 50,
            col_g: 750,
            col_b: 50,
        });
        spheres.push(Sphere {
            center_x: 6000,
            center_y: 48000,
            amplitude: 2400,
            phase_ms: 240,
            col_r: 50,
            col_g: 50,
            col_b: 750,
        });
        Scene {
            width: 100,
            height: 40,
            spheres,
            radius: 1500,
            eye_x: 0,
            eye_y: -5000,
            eye_z: 0,
            proj_y: -1750,
            eps_z: 10,
            aspect: 1500,
            light_x: -15000,
            light_y: -15000,
            light_z: -25000,
            ambient: 150,
            diffuse: 750,
            tile: 1200,
            rate_ms: 300,
        }
    }
}

} // verus!
