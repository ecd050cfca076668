//! The frame renderer. Every cell of the grid is a pure function of the
//! cell coordinates, the elapsed time and the scene constants: a ray is cast
//! from the eye through the cell's point on the projection plane, tested
//! against each sphere in order (first hit wins), then against the ground
//! plane, and otherwise shaded as sky. The whole pipeline is mirrored by
//! spec functions over the integers, and every executable function returns
//! exactly its mirror's value.

use vstd::prelude::*;
use vstd::arithmetic::div_mod::{
    lemma_div_plus_one, lemma_fundamental_div_mod, lemma_fundamental_div_mod_converse_div,
    lemma_fundamental_div_mod_converse_mod, lemma_mod_bound,
};
use crate::fixed::{
    tdiv, tdiv_s, tdivg, tdivg_s, fxmul, fxmul_s, fxdiv, fxdiv_s, emod, isqrt, isqrt_s,
    lemma_tdiv_range, lemma_fxmul_bound, lemma_fxdiv_bound, lemma_fxsquare_bound,
};
use crate::trig::{sin_milli, sin_milli_s, lemma_sin_milli_bounds};
use crate::scene::{Scene, Sphere, Rgb, COORD_LIM, TIME_LIM};

verus! {

/// Largest magnitude a ray-direction component can reach.
pub const DIR_LIM: i128 = 4_000_000_000;

/// The renderer's working volume: a ray parameter is clamped to this
/// magnitude (a million world units) before the intersection point is
/// formed, so that the shading arithmetic stays in range.
pub const T_CLAMP: i128 = 1_000_000_000;

/// What one cell resolved to: the first sphere the ray hits, a dark or
/// light checkerboard tile, or the sky.
#[derive(Clone, Copy, PartialEq, Eq, Structural, Debug)]
pub enum Decision {
    Sphere { idx: usize },
    PlaneDark,
    PlaneLight,
    Sky,
}

/// A fixed-point vector, used for the ray direction.
#[derive(Clone, Copy, PartialEq, Eq, Structural, Debug)]
pub struct V3 {
    pub x: i128,
    pub y: i128,
    pub z: i128,
}

/// Clamping to a symmetric window.
pub open spec fn clamp_s(v: int, lim: int) -> int {
    if v < -lim {
        -lim
    } else if v > lim {
        lim
    } else {
        v
    }
}

// ---------------------------------------------------------------------
// Sphere animation.

/// The oscillation argument, in milliradians: elapsed time plus phase,
/// scaled by the rate divisor.
pub open spec fn osc_arg_s(phase_ms: int, rate_ms: int, time_ms: int) -> int {
    tdiv_s((time_ms + phase_ms) * 1000, rate_ms)
}

/// Z coordinate of a sphere's center at the given time:
/// `amplitude * -sin(arg) + amplitude`, which stays in
/// `[0, 2 * amplitude]`.
pub open spec fn sphere_z_s(sph: Sphere, rate_ms: int, time_ms: int) -> int {
    sph.amplitude - fxmul_s(
        sph.amplitude as int,
        sin_milli_s(osc_arg_s(sph.phase_ms as int, rate_ms, time_ms)),
    )
}

/// The Z center of a well-formed sphere never leaves the band
/// `[0, 2 * amplitude]`, whatever the time.
pub proof fn lemma_oscillation_band(sph: Sphere, rate_ms: int, time_ms: int)
    requires
        sph.wf(),
        0 < rate_ms,
    ensures
        0 <= sphere_z_s(sph, rate_ms, time_ms) <= 2 * sph.amplitude,
{
    let arg = osc_arg_s(sph.phase_ms as int, rate_ms, time_ms);
    lemma_sin_milli_bounds(arg);
    let s = sin_milli_s(arg);
    assert(-(sph.amplitude as int) * 1000 <= sph.amplitude as int * s
        <= sph.amplitude as int * 1000) by (nonlinear_arith)
        requires -1000 <= s <= 1000 && sph.amplitude >= 0;
    lemma_tdiv_range(
        sph.amplitude as int * s,
        1000,
        -(sph.amplitude as int),
        sph.amplitude as int,
    );
}

/// Z coordinate of a sphere's center at the given time, executable form.
pub fn sphere_center_z(sph: &Sphere, rate_ms: i128, time_ms: i128) -> (z: i128)
    requires
        sph.wf(),
        0 < rate_ms <= COORD_LIM,
        -TIME_LIM <= time_ms <= TIME_LIM,
    ensures
        z == sphere_z_s(*sph, rate_ms as int, time_ms as int),
        0 <= z <= 2 * sph.amplitude,
{
    proof {
        lemma_oscillation_band(*sph, rate_ms as int, time_ms as int);
    }
    let arg: i128 = tdiv((time_ms + sph.phase_ms) * 1000, rate_ms);
    let s: i128 = sin_milli(arg);
    proof {
        lemma_fxmul_bound(sph.amplitude as int, s as int, COORD_LIM as int, 1000, COORD_LIM as int);
    }
    let off: i128 = fxmul(sph.amplitude, s);
    sph.amplitude - off
}

// ---------------------------------------------------------------------
// Ray construction.

/// X coordinate of the cell's point on the projection plane:
/// `(x - width/2) / width`.
pub open spec fn proj_x_s(sc: Scene, x: int) -> int {
    tdiv_s(x * 1000 - (sc.width as int / 2) * 1000, sc.width as int)
}

/// Z coordinate of the cell's point on the projection plane:
/// `((y - height/2) / height) / aspect + eps`.
pub open spec fn proj_z_s(sc: Scene, y: int) -> int {
    fxdiv_s(tdiv_s(y * 1000 - (sc.height as int / 2) * 1000, sc.height as int), sc.aspect as int)
        + sc.eps_z
}

/// Components of the (unnormalized) ray direction: projection-plane point
/// minus eye point.
pub open spec fn dir_x_s(sc: Scene, x: int) -> int {
    proj_x_s(sc, x) - sc.eye_x
}

pub open spec fn dir_y_s(sc: Scene) -> int {
    sc.proj_y - sc.eye_y
}

pub open spec fn dir_z_s(sc: Scene, y: int) -> int {
    proj_z_s(sc, y) - sc.eye_z
}

/// The ray direction for a cell, executable form.
pub fn ray_dir(sc: &Scene, x: usize, y: usize) -> (d: V3)
    requires
        sc.wf(),
        x < sc.width,
        y < sc.height,
    ensures
        d.x == dir_x_s(*sc, x as int),
        d.y == dir_y_s(*sc),
        d.z == dir_z_s(*sc, y as int),
        -DIR_LIM <= d.x <= DIR_LIM,
        -DIR_LIM <= d.y <= DIR_LIM,
        -DIR_LIM <= d.z <= DIR_LIM,
{
    let hw: i128 = (sc.width / 2) as i128;
    let px: i128 = tdiv((x as i128) * 1000 - hw * 1000, sc.width as i128);
    let hh: i128 = (sc.height / 2) as i128;
    let inner: i128 = tdiv((y as i128) * 1000 - hh * 1000, sc.height as i128);
    proof {
        lemma_fxdiv_bound(inner as int, sc.aspect as int, 2_000_000);
    }
    let pz: i128 = fxdiv(inner, sc.aspect) + sc.eps_z;
    V3 { x: px - sc.eye_x, y: sc.proj_y - sc.eye_y, z: pz - sc.eye_z }
}

// ---------------------------------------------------------------------
// Ray/sphere intersection: the quadratic `a t^2 + b t + c = 0`.

/// Squared length of the ray direction.
pub open spec fn quad_a_s(sc: Scene, x: int, y: int) -> int {
    fxmul_s(dir_x_s(sc, x), dir_x_s(sc, x)) + fxmul_s(dir_y_s(sc), dir_y_s(sc)) + fxmul_s(
        dir_z_s(sc, y),
        dir_z_s(sc, y),
    )
}

/// Linear coefficient: `2 d . (eye - center)` for sphere `i`.
pub open spec fn quad_b_s(sc: Scene, i: int, x: int, y: int, time: int) -> int {
    let sph = sc.spheres@[i];
    let cz = sphere_z_s(sph, sc.rate_ms as int, time);
    2 * fxmul_s(dir_x_s(sc, x), sc.eye_x - sph.center_x) + 2 * fxmul_s(
        dir_y_s(sc),
        sc.eye_y - sph.center_y,
    ) + 2 * fxmul_s(dir_z_s(sc, y), sc.eye_z - cz)
}

/// Constant coefficient:
/// `|center|^2 + |eye|^2 - 2 (center . eye) - radius^2` for sphere `i`.
pub open spec fn quad_c_s(sc: Scene, i: int, time: int) -> int {
    let sph = sc.spheres@[i];
    let cz = sphere_z_s(sph, sc.rate_ms as int, time);
    fxmul_s(sph.center_x as int, sph.center_x as int) + fxmul_s(
        sph.center_y as int,
        sph.center_y as int,
    ) + fxmul_s(cz, cz) + fxmul_s(sc.eye_x as int, sc.eye_x as int) + fxmul_s(
        sc.eye_y as int,
        sc.eye_y as int,
    ) + fxmul_s(sc.eye_z as int, sc.eye_z as int) - 2 * (fxmul_s(
        sph.center_x as int,
        sc.eye_x as int,
    ) + fxmul_s(sph.center_y as int, sc.eye_y as int) + fxmul_s(cz, sc.eye_z as int)) - fxmul_s(
        sc.radius as int,
        sc.radius as int,
    )
}

/// The discriminant `b^2 - 4 a c` of sphere `i` for this cell's ray.
pub open spec fn disc_s(sc: Scene, i: int, x: int, y: int, time: int) -> int {
    fxmul_s(quad_b_s(sc, i, x, y, time), quad_b_s(sc, i, x, y, time)) - 4 * fxmul_s(
        quad_a_s(sc, x, y),
        quad_c_s(sc, i, time),
    )
}

/// The ray hits sphere `i` exactly when the discriminant is nonnegative
/// (a zero discriminant, a tangent ray, counts as a hit) and the ray
/// direction is not degenerate.
pub open spec fn hit_s(sc: Scene, i: int, x: int, y: int, time: int) -> bool {
    quad_a_s(sc, x, y) > 0 && disc_s(sc, i, x, y, time) >= 0
}

/// Index of the first sphere at or after `k` that the ray hits, if any.
/// Spheres are tested in a fixed priority order and the first match wins:
/// this is deliberately not the nearest intersection across spheres, so
/// where spheres overlap along a ray the lower-indexed one shows.
pub open spec fn first_hit_from_s(sc: Scene, x: int, y: int, time: int, k: int) -> Option<int>
    decreases sc.spheres@.len() - k,
{
    if k < 0 || k >= sc.spheres@.len() {
        None
    } else if hit_s(sc, k, x, y, time) {
        Some(k)
    } else {
        first_hit_from_s(sc, x, y, time, k + 1)
    }
}

/// What `first_hit_from_s` returns: the least hit index at or after `k`,
/// or nothing when no sphere from `k` on is hit.
pub proof fn lemma_first_hit_props(sc: Scene, x: int, y: int, time: int, k: int)
    requires
        0 <= k <= sc.spheres@.len(),
    ensures
        (match first_hit_from_s(sc, x, y, time, k) {
            Some(i) => k <= i < sc.spheres@.len() && hit_s(sc, i, x, y, time) && (forall|j: int|
                k <= j < i ==> !hit_s(sc, j, x, y, time)),
            None => forall|j: int| k <= j < sc.spheres@.len() ==> !hit_s(sc, j, x, y, time),
        }),
    decreases sc.spheres@.len() - k,
{
    if k < sc.spheres@.len() && !hit_s(sc, k, x, y, time) {
        lemma_first_hit_props(sc, x, y, time, k + 1);
    }
}

/// A hit at `i` with no hit before it is the first hit.
pub proof fn lemma_first_hit_at(sc: Scene, x: int, y: int, time: int, i: int)
    requires
        0 <= i < sc.spheres@.len(),
        hit_s(sc, i, x, y, time),
        forall|j: int| 0 <= j < i ==> !hit_s(sc, j, x, y, time),
    ensures
        first_hit_from_s(sc, x, y, time, 0) == Some(i),
{
    lemma_first_hit_reach(sc, x, y, time, i, 0);
}

proof fn lemma_first_hit_reach(sc: Scene, x: int, y: int, time: int, i: int, k: int)
    requires
        0 <= k <= i < sc.spheres@.len(),
        hit_s(sc, i, x, y, time),
        forall|j: int| k <= j < i ==> !hit_s(sc, j, x, y, time),
    ensures
        first_hit_from_s(sc, x, y, time, k) == Some(i),
    decreases i - k,
{
    if k < i {
        lemma_first_hit_reach(sc, x, y, time, i, k + 1);
    }
}

// ---------------------------------------------------------------------
// Ground plane and sky.

/// Ray parameter of the intersection with the ground plane `z = -1`:
/// `(eye_z + 1) / dir_z`, truncated.
pub open spec fn plane_t_s(sc: Scene, y: int) -> int {
    tdivg_s((sc.eye_z + 1000) * 1000, dir_z_s(sc, y))
}

/// The ray meets the ground plane in front of the eye: the parameter is
/// defined and strictly positive (`t == 0` is excluded).
pub open spec fn plane_hit_s(sc: Scene, y: int) -> bool {
    dir_z_s(sc, y) != 0 && plane_t_s(sc, y) > 0
}

/// X coordinate of the plane intersection point.
pub open spec fn plane_px_s(sc: Scene, x: int, y: int) -> int {
    sc.eye_x + fxmul_s(plane_t_s(sc, y), dir_x_s(sc, x))
}

/// Y coordinate of the plane intersection point.
pub open spec fn plane_py_s(sc: Scene, x: int, y: int) -> int {
    sc.eye_y + fxmul_s(plane_t_s(sc, y), dir_y_s(sc))
}

/// Whether a world coordinate falls in an even-numbered tile.
pub open spec fn parity_even_s(v: int, tile: int) -> bool {
    tdiv_s(v, tile) % 2 == 0
}

/// Stepping one tile along a nonnegative coordinate flips its tile
/// parity. (For negative coordinates truncated division widens the tile
/// that straddles zero, so the law is stated for nonnegative ones.)
pub proof fn lemma_tile_step_flips(v: int, tile: int)
    requires
        0 <= v,
        0 < tile,
    ensures
        parity_even_s(v + tile, tile) != parity_even_s(v, tile),
{
    lemma_div_plus_one(v, tile);
    let q = tdiv_s(v, tile);
    lemma_fundamental_div_mod(q, 2);
    lemma_mod_bound(q, 2);
    let m = q / 2;
    if q % 2 == 0 {
        lemma_fundamental_div_mod_converse_mod(q + 1, 2, m, 1);
    } else {
        lemma_fundamental_div_mod_converse_mod(q + 1, 2, m + 1, 0);
    }
}

/// On the nonnegative quadrant of the ground plane, stepping one tile in
/// both coordinates keeps the checkerboard shade, and stepping one tile in
/// exactly one coordinate flips it.
pub proof fn lemma_checker_step(px: int, py: int, tile: int)
    requires
        0 <= px,
        0 <= py,
        0 < tile,
    ensures
        (parity_even_s(py + tile, tile) == parity_even_s(px + tile, tile)) == (parity_even_s(
            py,
            tile,
        ) == parity_even_s(px, tile)),
        (parity_even_s(py, tile) == parity_even_s(px + tile, tile)) != (parity_even_s(py, tile)
            == parity_even_s(px, tile)),
{
    lemma_tile_step_flips(px, tile);
    lemma_tile_step_flips(py, tile);
}

/// A checkerboard cell is dark exactly when the two tile parities of the
/// intersection point agree.
pub open spec fn plane_dark_s(sc: Scene, x: int, y: int) -> bool {
    parity_even_s(plane_py_s(sc, x, y), sc.tile as int) == parity_even_s(
        plane_px_s(sc, x, y),
        sc.tile as int,
    )
}

/// The sky gradient for row `y`: red and green are `(y * 15) mod 255`,
/// blue is always full.
pub open spec fn sky_color_s(y: int) -> Rgb {
    Rgb { r: ((y * 15) % 255) as u8, g: ((y * 15) % 255) as u8, b: 255 }
}

/// The color of a dark checkerboard tile.
pub open spec fn plane_dark_color_s() -> Rgb {
    Rgb { r: 10, g: 10, b: 10 }
}

/// The color of a light checkerboard tile.
pub open spec fn plane_light_color_s() -> Rgb {
    Rgb { r: 225, g: 225, b: 225 }
}

// ---------------------------------------------------------------------
// Sphere shading: Phong-style ambient plus diffuse, no specular.

/// Square root of the discriminant, as a fixed-point value.
pub open spec fn sqrt_disc_s(sc: Scene, i: int, x: int, y: int, time: int) -> int {
    isqrt_s(disc_s(sc, i, x, y, time) * 1000)
}

/// Ray parameter of the nearer root `(-b - sqrt(disc)) / (2a)`, clamped to
/// the renderer's working volume.
pub open spec fn ray_t_s(sc: Scene, i: int, x: int, y: int, time: int) -> int {
    clamp_s(
        tdiv_s(
            (-quad_b_s(sc, i, x, y, time) - sqrt_disc_s(sc, i, x, y, time)) * 1000,
            2 * quad_a_s(sc, x, y),
        ),
        T_CLAMP as int,
    )
}

/// The intersection point `eye + t * d`.
pub open spec fn hit_px_s(sc: Scene, i: int, x: int, y: int, time: int) -> int {
    sc.eye_x + fxmul_s(ray_t_s(sc, i, x, y, time), dir_x_s(sc, x))
}

pub open spec fn hit_py_s(sc: Scene, i: int, x: int, y: int, time: int) -> int {
    sc.eye_y + fxmul_s(ray_t_s(sc, i, x, y, time), dir_y_s(sc))
}

pub open spec fn hit_pz_s(sc: Scene, i: int, x: int, y: int, time: int) -> int {
    sc.eye_z + fxmul_s(ray_t_s(sc, i, x, y, time), dir_z_s(sc, y))
}

/// The surface normal `(point - center) / radius`.
pub open spec fn normal_x_s(sc: Scene, i: int, x: int, y: int, time: int) -> int {
    fxdiv_s(hit_px_s(sc, i, x, y, time) - sc.spheres@[i].center_x, sc.radius as int)
}

pub open spec fn normal_y_s(sc: Scene, i: int, x: int, y: int, time: int) -> int {
    fxdiv_s(hit_py_s(sc, i, x, y, time) - sc.spheres@[i].center_y, sc.radius as int)
}

pub open spec fn normal_z_s(sc: Scene, i: int, x: int, y: int, time: int) -> int {
    fxdiv_s(
        hit_pz_s(sc, i, x, y, time) - sphere_z_s(sc.spheres@[i], sc.rate_ms as int, time),
        sc.radius as int,
    )
}

/// The vector from the intersection point toward the light.
pub open spec fn light_vx_s(sc: Scene, i: int, x: int, y: int, time: int) -> int {
    sc.light_x - hit_px_s(sc, i, x, y, time)
}

pub open spec fn light_vy_s(sc: Scene, i: int, x: int, y: int, time: int) -> int {
    sc.light_y - hit_py_s(sc, i, x, y, time)
}

pub open spec fn light_vz_s(sc: Scene, i: int, x: int, y: int, time: int) -> int {
    sc.light_z - hit_pz_s(sc, i, x, y, time)
}

/// Distance from the intersection point to the light.
pub open spec fn light_dist_s(sc: Scene, i: int, x: int, y: int, time: int) -> int {
    isqrt_s(
        (fxmul_s(light_vx_s(sc, i, x, y, time), light_vx_s(sc, i, x, y, time)) + fxmul_s(
            light_vy_s(sc, i, x, y, time),
            light_vy_s(sc, i, x, y, time),
        ) + fxmul_s(light_vz_s(sc, i, x, y, time), light_vz_s(sc, i, x, y, time))) * 1000,
    )
}

/// `cos(theta)`: the normal dotted with the unit vector toward the light;
/// zero when the intersection point coincides with the light.
pub open spec fn cos_theta_s(sc: Scene, i: int, x: int, y: int, time: int) -> int {
    let dist = light_dist_s(sc, i, x, y, time);
    if dist == 0 {
        0
    } else {
        fxmul_s(normal_x_s(sc, i, x, y, time), fxdiv_s(light_vx_s(sc, i, x, y, time), dist))
            + fxmul_s(normal_y_s(sc, i, x, y, time), fxdiv_s(light_vy_s(sc, i, x, y, time), dist))
            + fxmul_s(normal_z_s(sc, i, x, y, time), fxdiv_s(light_vz_s(sc, i, x, y, time), dist))
    }
}

/// One raw shaded channel, before clamping:
/// `ambient * base + (diffuse * cos(theta)) * base`.
pub open spec fn shade_raw_s(ambient: int, diffuse: int, cos_theta: int, base: int) -> int {
    fxmul_s(ambient, base) + fxmul_s(fxmul_s(diffuse, cos_theta), base)
}

/// A raw fixed-point channel clamped to `[0, 1000]` and scaled to an 8-bit
/// value; out-of-range values saturate at 0 or 255, they never wrap.
pub open spec fn clamp_channel_s(raw: int) -> u8 {
    if raw <= 0 {
        0
    } else if raw >= 1000 {
        255
    } else {
        tdiv_s(raw * 255, 1000) as u8
    }
}

/// A raw fixed-point channel turned into an 8-bit value, executable form:
/// saturating, never wrapping.
pub fn clamp_channel(raw: i128) -> (c: u8)
    ensures
        c == clamp_channel_s(raw as int),
        raw <= 0 ==> c == 0,
        raw >= 1000 ==> c == 255,
        0 < raw < 1000 ==> c == tdiv_s(raw * 255, 1000),
{
    if raw <= 0 {
        0
    } else if raw >= 1000 {
        255
    } else {
        proof {
            lemma_tdiv_range(raw as int * 255, 1000, 0, 255);
        }
        tdiv(raw * 255, 1000) as u8
    }
}

/// The shaded color of sphere `i` as seen along this cell's ray.
pub open spec fn sphere_rgb_s(sc: Scene, i: int, x: int, y: int, time: int) -> Rgb {
    let cos = cos_theta_s(sc, i, x, y, time);
    Rgb {
        r: clamp_channel_s(
            shade_raw_s(sc.ambient as int, sc.diffuse as int, cos, sc.spheres@[i].col_r as int),
        ),
        g: clamp_channel_s(
            shade_raw_s(sc.ambient as int, sc.diffuse as int, cos, sc.spheres@[i].col_g as int),
        ),
        b: clamp_channel_s(
            shade_raw_s(sc.ambient as int, sc.diffuse as int, cos, sc.spheres@[i].col_b as int),
        ),
    }
}

/// Whether a world coordinate falls in an even-numbered tile, executable
/// form.
pub fn tile_parity_even(v: i128, tile: i128) -> (r: bool)
    requires
        0 < tile,
        v > i128::MIN,
    ensures
        r == parity_even_s(v as int, tile as int),
{
    let q: i128 = tdiv(v, tile);
    emod(q, 2) == 0
}

/// Whether the checkerboard is dark at a point of the ground plane: the
/// tile parities of the two coordinates agree.
pub fn checker_dark(px: i128, py: i128, tile: i128) -> (r: bool)
    requires
        0 < tile,
        px > i128::MIN,
        py > i128::MIN,
    ensures
        r == (parity_even_s(py as int, tile as int) == parity_even_s(px as int, tile as int)),
{
    let even_y: bool = tile_parity_even(py, tile);
    let even_x: bool = tile_parity_even(px, tile);
    even_y == even_x
}

// ---------------------------------------------------------------------
// The per-cell decision.

/// What a cell resolves to: the first sphere the ray hits, else a dark or
/// light tile of the ground plane, else the sky. Total: every cell gets
/// exactly one of the four.
pub open spec fn decide_s(sc: Scene, x: int, y: int, time: int) -> Decision {
    match first_hit_from_s(sc, x, y, time, 0) {
        Some(i) => Decision::Sphere { idx: i as usize },
        None => if plane_hit_s(sc, y) {
            if plane_dark_s(sc, x, y) {
                Decision::PlaneDark
            } else {
                Decision::PlaneLight
            }
        } else {
            Decision::Sky
        },
    }
}

/// The color one cell resolves to.
pub open spec fn cell_color_s(sc: Scene, x: int, y: int, time: int) -> Rgb {
    match decide_s(sc, x, y, time) {
        Decision::Sphere { idx } => sphere_rgb_s(sc, idx as int, x, y, time),
        Decision::PlaneDark => plane_dark_color_s(),
        Decision::PlaneLight => plane_light_color_s(),
        Decision::Sky => sky_color_s(y),
    }
}

// ---------------------------------------------------------------------
// Laws of the per-cell decision.

/// Every cell resolves to exactly one of the four cases, with nothing
/// unhandled: the first sphere whose discriminant is nonnegative (a zero
/// discriminant counts as a hit), else a dark or light tile when the ray
/// meets the ground plane strictly in front of the eye (`t == 0` is
/// excluded), else the sky; and the cell's color is that case's color.
pub proof fn lemma_one_decision(sc: Scene, x: int, y: int, time: int)
    ensures
        (match decide_s(sc, x, y, time) {
            Decision::Sphere { idx } => idx < sc.spheres@.len() && hit_s(sc, idx as int, x, y, time)
                && (forall|j: int| 0 <= j < idx ==> !hit_s(sc, j, x, y, time)) && cell_color_s(
                sc,
                x,
                y,
                time,
            ) == sphere_rgb_s(sc, idx as int, x, y, time),
            Decision::PlaneDark => (forall|j: int|
                0 <= j < sc.spheres@.len() ==> !hit_s(sc, j, x, y, time)) && plane_hit_s(sc, y)
                && plane_dark_s(sc, x, y) && cell_color_s(sc, x, y, time) == plane_dark_color_s(),
            Decision::PlaneLight => (forall|j: int|
                0 <= j < sc.spheres@.len() ==> !hit_s(sc, j, x, y, time)) && plane_hit_s(sc, y)
                && !plane_dark_s(sc, x, y) && cell_color_s(sc, x, y, time)
                == plane_light_color_s(),
            Decision::Sky => (forall|j: int|
                0 <= j < sc.spheres@.len() ==> !hit_s(sc, j, x, y, time)) && !plane_hit_s(sc, y)
                && cell_color_s(sc, x, y, time) == sky_color_s(y),
        }),
{
    lemma_first_hit_props(sc, x, y, time, 0);
    vstd::std_specs::vec::axiom_spec_len(&sc.spheres);
    match first_hit_from_s(sc, x, y, time, 0) {
        Some(i) => {
            assert(0 <= i < sc.spheres@.len());
            assert(i as usize as int == i);
        },
        None => {},
    }
}

/// A tangent ray (discriminant exactly zero) is a hit, not a miss, and its
/// single intersection parameter is `-b / (2a)`: the two roots coincide.
pub proof fn lemma_tangent_is_hit(sc: Scene, i: int, x: int, y: int, time: int)
    requires
        quad_a_s(sc, x, y) > 0,
        disc_s(sc, i, x, y, time) == 0,
    ensures
        hit_s(sc, i, x, y, time),
        sqrt_disc_s(sc, i, x, y, time) == 0,
        ray_t_s(sc, i, x, y, time) == clamp_s(
            tdiv_s(-quad_b_s(sc, i, x, y, time) * 1000, 2 * quad_a_s(sc, x, y)),
            T_CLAMP as int,
        ),
{
    assert(isqrt_s(0) == 0);
}

/// Wherever a cell resolves to sky, its red and green channels are
/// `(y * 15) mod 255` and its blue channel is full, whatever the time.
pub proof fn lemma_sky_gradient(sc: Scene, x: int, y: int, time: int)
    requires
        decide_s(sc, x, y, time) == Decision::Sky,
    ensures
        cell_color_s(sc, x, y, time) == (Rgb {
            r: ((y * 15) % 255) as u8,
            g: ((y * 15) % 255) as u8,
            b: 255,
        }),
{
}

// ---------------------------------------------------------------------
// Executable shading.

/// Shades the first sphere this cell's ray hits, given the already
/// computed quadratic coefficients.
fn shade_sphere(sc: &Scene, i: usize, x: usize, y: usize, time: i128, d: V3, cz: i128, a: i128, b: i128, disc: i128) -> (c: Rgb)
    requires
        sc.wf(),
        i < sc.spheres@.len(),
        x < sc.width,
        y < sc.height,
        -TIME_LIM <= time <= TIME_LIM,
        d.x == dir_x_s(*sc, x as int),
        d.y == dir_y_s(*sc),
        d.z == dir_z_s(*sc, y as int),
        -DIR_LIM <= d.x <= DIR_LIM,
        -DIR_LIM <= d.y <= DIR_LIM,
        -DIR_LIM <= d.z <= DIR_LIM,
        cz == sphere_z_s(sc.spheres@[i as int], sc.rate_ms as int, time as int),
        0 <= cz <= 2 * COORD_LIM,
        a == quad_a_s(*sc, x as int, y as int),
        0 < a <= 48_000_000_000_000_000,
        b == quad_b_s(*sc, i as int, x as int, y as int, time as int),
        -100_000_000_000_000 <= b <= 100_000_000_000_000,
        disc == disc_s(*sc, i as int, x as int, y as int, time as int),
        0 <= disc <= 50_000_000_000_000_000_000_000_000,
    ensures
        c == sphere_rgb_s(*sc, i as int, x as int, y as int, time as int),
{
    let sph: Sphere = sc.spheres[i];
    let sq: i128 = isqrt(disc * 1000);
    proof {
        assert(sq <= 300_000_000_000_000) by (nonlinear_arith)
            requires 0 <= sq && sq * sq <= 50_000_000_000_000_000_000_000_000_000;
    }
    let traw: i128 = tdiv((-b - sq) * 1000, 2 * a);
    let t: i128 = if traw > T_CLAMP {
        T_CLAMP
    } else if traw < -T_CLAMP {
        -T_CLAMP
    } else {
        traw
    };
    proof {
        assert(t == ray_t_s(*sc, i as int, x as int, y as int, time as int));
        lemma_fxmul_bound(t as int, d.x as int, T_CLAMP as int, DIR_LIM as int, 4_000_000_000_000_000);
        lemma_fxmul_bound(t as int, d.y as int, T_CLAMP as int, DIR_LIM as int, 4_000_000_000_000_000);
        lemma_fxmul_bound(t as int, d.z as int, T_CLAMP as int, DIR_LIM as int, 4_000_000_000_000_000);
    }
    let px: i128 = sc.eye_x + fxmul(t, d.x);
    let py: i128 = sc.eye_y + fxmul(t, d.y);
    let pz: i128 = sc.eye_z + fxmul(t, d.z);
    proof {
        lemma_fxdiv_bound(px as int - sph.center_x as int, sc.radius as int, 6_000_000_000_000_000);
        lemma_fxdiv_bound(py as int - sph.center_y as int, sc.radius as int, 6_000_000_000_000_000);
        lemma_fxdiv_bound(pz as int - cz as int, sc.radius as int, 6_000_000_000_000_000);
    }
    let nx: i128 = fxdiv(px - sph.center_x, sc.radius);
    let ny: i128 = fxdiv(py - sph.center_y, sc.radius);
    let nz: i128 = fxdiv(pz - cz, sc.radius);
    let lvx: i128 = sc.light_x - px;
    let lvy: i128 = sc.light_y - py;
    let lvz: i128 = sc.light_z - pz;
    proof {
        lemma_fxsquare_bound(lvx as int, 6_000_000_000_000_000, 36_000_000_000_000_000_000_000_000_000);
        lemma_fxsquare_bound(lvy as int, 6_000_000_000_000_000, 36_000_000_000_000_000_000_000_000_000);
        lemma_fxsquare_bound(lvz as int, 6_000_000_000_000_000, 36_000_000_000_000_000_000_000_000_000);
    }
    let sumsq: i128 = fxmul(lvx, lvx) + fxmul(lvy, lvy) + fxmul(lvz, lvz);
    let dist: i128 = isqrt(sumsq * 1000);
    let fctr: i128 = if dist == 0 {
        0
    } else {
        proof {
            lemma_fxdiv_bound(lvx as int, dist as int, 6_000_000_000_000_000);
            lemma_fxdiv_bound(lvy as int, dist as int, 6_000_000_000_000_000);
            lemma_fxdiv_bound(lvz as int, dist as int, 6_000_000_000_000_000);
        }
        let lnx: i128 = fxdiv(lvx, dist);
        let lny: i128 = fxdiv(lvy, dist);
        let lnz: i128 = fxdiv(lvz, dist);
        proof {
            lemma_fxmul_bound(nx as int, lnx as int, 6_000_000_000_000_000_000, 6_000_000_000_000_000_000, 36_000_000_000_000_000_000_000_000_000_000_000);
            lemma_fxmul_bound(ny as int, lny as int, 6_000_000_000_000_000_000, 6_000_000_000_000_000_000, 36_000_000_000_000_000_000_000_000_000_000_000);
            lemma_fxmul_bound(nz as int, lnz as int, 6_000_000_000_000_000_000, 6_000_000_000_000_000_000, 36_000_000_000_000_000_000_000_000_000_000_000);
        }
        fxmul(nx, lnx) + fxmul(ny, lny) + fxmul(nz, lnz)
    };
    proof {
        lemma_fxmul_bound(sc.diffuse as int, fctr as int, 1000, 110_000_000_000_000_000_000_000_000_000_000_000, 110_000_000_000_000_000_000_000_000_000_000_000);
    }
    let kd: i128 = fxmul(sc.diffuse, fctr);
    proof {
        lemma_fxmul_bound(sc.ambient as int, sph.col_r as int, 1000, 1000, 1000);
        lemma_fxmul_bound(sc.ambient as int, sph.col_g as int, 1000, 1000, 1000);
        lemma_fxmul_bound(sc.ambient as int, sph.col_b as int, 1000, 1000, 1000);
        lemma_fxmul_bound(kd as int, sph.col_r as int, 110_000_000_000_000_000_000_000_000_000_000_000, 1000, 110_000_000_000_000_000_000_000_000_000_000_000);
        lemma_fxmul_bound(kd as int, sph.col_g as int, 110_000_000_000_000_000_000_000_000_000_000_000, 1000, 110_000_000_000_000_000_000_000_000_000_000_000);
        lemma_fxmul_bound(kd as int, sph.col_b as int, 110_000_000_000_000_000_000_000_000_000_000_000, 1000, 110_000_000_000_000_000_000_000_000_000_000_000);
    }
    let raw_r: i128 = fxmul(sc.ambient, sph.col_r) + fxmul(kd, sph.col_r);
    let raw_g: i128 = fxmul(sc.ambient, sph.col_g) + fxmul(kd, sph.col_g);
    let raw_b: i128 = fxmul(sc.ambient, sph.col_b) + fxmul(kd, sph.col_b);
    Rgb { r: clamp_channel(raw_r), g: clamp_channel(raw_g), b: clamp_channel(raw_b) }
}

// ---------------------------------------------------------------------
// The renderer.

/// The color of one grid cell at the given time: the shaded first sphere
/// hit, a checkerboard tile of the ground plane, or the sky gradient.
pub fn render_cell(sc: &Scene, x: usize, y: usize, time: i128) -> (c: Rgb)
    requires
        sc.wf(),
        x < sc.width,
        y < sc.height,
        -TIME_LIM <= time <= TIME_LIM,
    ensures
        c == cell_color_s(*sc, x as int, y as int, time as int),
{
    let d: V3 = ray_dir(sc, x, y);
    proof {
        lemma_fxsquare_bound(d.x as int, DIR_LIM as int, 16_000_000_000_000_000);
        lemma_fxsquare_bound(d.y as int, DIR_LIM as int, 16_000_000_000_000_000);
        lemma_fxsquare_bound(d.z as int, DIR_LIM as int, 16_000_000_000_000_000);
    }
    let a: i128 = fxmul(d.x, d.x) + fxmul(d.y, d.y) + fxmul(d.z, d.z);
    let n: usize = sc.spheres.len();
    let mut i: usize = 0;
    while i < n
        invariant
            sc.wf(),
            x < sc.width,
            y < sc.height,
            -TIME_LIM <= time <= TIME_LIM,
            n == sc.spheres@.len(),
            i <= n,
            d.x == dir_x_s(*sc, x as int),
            d.y == dir_y_s(*sc),
            d.z == dir_z_s(*sc, y as int),
            -DIR_LIM <= d.x <= DIR_LIM,
            -DIR_LIM <= d.y <= DIR_LIM,
            -DIR_LIM <= d.z <= DIR_LIM,
            a == quad_a_s(*sc, x as int, y as int),
            0 <= a <= 48_000_000_000_000_000,
            forall|j: int| 0 <= j < i ==> !hit_s(*sc, j, x as int, y as int, time as int),
        decreases n - i,
    {
        let sph: Sphere = sc.spheres[i];
        let cz: i128 = sphere_center_z(&sph, sc.rate_ms, time);
        proof {
            lemma_fxmul_bound(d.x as int, sc.eye_x - sph.center_x, DIR_LIM as int, 3_000_000, 12_000_000_000_000);
            lemma_fxmul_bound(d.y as int, sc.eye_y - sph.center_y, DIR_LIM as int, 3_000_000, 12_000_000_000_000);
            lemma_fxmul_bound(d.z as int, sc.eye_z - cz, DIR_LIM as int, 3_000_000, 12_000_000_000_000);
        }
        let b: i128 = 2 * fxmul(d.x, sc.eye_x - sph.center_x) + 2 * fxmul(
            d.y,
            sc.eye_y - sph.center_y,
        ) + 2 * fxmul(d.z, sc.eye_z - cz);
        proof {
            lemma_fxmul_bound(sph.center_x as int, sph.center_x as int, 3_000_000, 3_000_000, 9_000_000_000);
            lemma_fxmul_bound(sph.center_y as int, sph.center_y as int, 3_000_000, 3_000_000, 9_000_000_000);
            lemma_fxmul_bound(cz as int, cz as int, 3_000_000, 3_000_000, 9_000_000_000);
            lemma_fxmul_bound(sc.eye_x as int, sc.eye_x as int, 3_000_000, 3_000_000, 9_000_000_000);
            lemma_fxmul_bound(sc.eye_y as int, sc.eye_y as int, 3_000_000, 3_000_000, 9_000_000_000);
            lemma_fxmul_bound(sc.eye_z as int, sc.eye_z as int, 3_000_000, 3_000_000, 9_000_000_000);
            lemma_fxmul_bound(sph.center_x as int, sc.eye_x as int, 3_000_000, 3_000_000, 9_000_000_000);
            lemma_fxmul_bound(sph.center_y as int, sc.eye_y as int, 3_000_000, 3_000_000, 9_000_000_000);
            lemma_fxmul_bound(cz as int, sc.eye_z as int, 3_000_000, 3_000_000, 9_000_000_000);
            lemma_fxmul_bound(sc.radius as int, sc.radius as int, 3_000_000, 3_000_000, 9_000_000_000);
        }
        let c0: i128 = fxmul(sph.center_x, sph.center_x) + fxmul(sph.center_y, sph.center_y)
            + fxmul(cz, cz) + fxmul(sc.eye_x, sc.eye_x) + fxmul(sc.eye_y, sc.eye_y) + fxmul(
            sc.eye_z,
            sc.eye_z,
        ) - 2 * (fxmul(sph.center_x, sc.eye_x) + fxmul(sph.center_y, sc.eye_y) + fxmul(
            cz,
            sc.eye_z,
        )) - fxmul(sc.radius, sc.radius);
        proof {
            lemma_fxsquare_bound(b as int, 100_000_000_000_000, 10_000_000_000_000_000_000_000_000);
            lemma_fxmul_bound(a as int, c0 as int, 48_000_000_000_000_000, 200_000_000_000, 9_600_000_000_000_000_000_000_000);
        }
        let disc: i128 = fxmul(b, b) - 4 * fxmul(a, c0);
        if a > 0 && disc >= 0 {
            proof {
                lemma_first_hit_at(*sc, x as int, y as int, time as int, i as int);
            }
            return shade_sphere(sc, i, x, y, time, d, cz, a, b, disc);
        }
        i += 1;
    }
    proof {
        lemma_first_hit_props(*sc, x as int, y as int, time as int, 0);
        assert(first_hit_from_s(*sc, x as int, y as int, time as int, 0) is None);
    }
    if d.z != 0 {
        let t: i128 = tdivg((sc.eye_z + 1000) * 1000, d.z);
        if t > 0 {
            proof {
                lemma_fxmul_bound(t as int, d.x as int, 1_100_000_000, DIR_LIM as int, 4_400_000_000_000_000);
                lemma_fxmul_bound(t as int, d.y as int, 1_100_000_000, DIR_LIM as int, 4_400_000_000_000_000);
            }
            let px: i128 = sc.eye_x + fxmul(t, d.x);
            let py: i128 = sc.eye_y + fxmul(t, d.y);
            if checker_dark(px, py, sc.tile) {
                Rgb { r: 10, g: 10, b: 10 }
            } else {
                Rgb { r: 225, g: 225, b: 225 }
            }
        } else {
            Rgb { r: ((y * 15) % 255) as u8, g: ((y * 15) % 255) as u8, b: 255 }
        }
    } else {
        Rgb { r: ((y * 15) % 255) as u8, g: ((y * 15) % 255) as u8, b: 255 }
    }
}

/// One full frame: the grid of cell colors, in row-major order, as the
/// pure function of elapsed time and scene constants that the renderer is.
pub fn render_frame(sc: &Scene, time: i128) -> (frame: Vec<Rgb>)
    requires
        sc.wf(),
        -TIME_LIM <= time <= TIME_LIM,
    ensures
        frame@.len() == sc.width * sc.height,
        forall|k: int|
            0 <= k < frame@.len() ==> frame@[k] == cell_color_s(
                *sc,
                k % (sc.width as int),
                k / (sc.width as int),
                time as int,
            ),
{
    let w: usize = sc.width;
    let h: usize = sc.height;
    let mut frame: Vec<Rgb> = Vec::new();
    let mut y: usize = 0;
    while y < h
        invariant
            sc.wf(),
            w == sc.width,
            h == sc.height,
            -TIME_LIM <= time <= TIME_LIM,
            y <= h,
            frame@.len() == y * w,
            forall|k: int|
                0 <= k < frame@.len() ==> frame@[k] == cell_color_s(
                    *sc,
                    k % (w as int),
                    k / (w as int),
                    time as int,
                ),
        decreases h - y,
    {
        let mut x: usize = 0;
        while x < w
            invariant
                sc.wf(),
                w == sc.width,
                h == sc.height,
                -TIME_LIM <= time <= TIME_LIM,
                y < h,
                x <= w,
                frame@.len() == y * w + x,
                forall|k: int|
                    0 <= k < frame@.len() ==> frame@[k] == cell_color_s(
                        *sc,
                        k % (w as int),
                        k / (w as int),
                        time as int,
                    ),
            decreases w - x,
        {
            let c: Rgb = render_cell(sc, x, y, time);
            proof {
                lemma_fundamental_div_mod_converse_div(
                    (y * w + x) as int,
                    w as int,
                    y as int,
                    x as int,
                );
                lemma_fundamental_div_mod_converse_mod(
                    (y * w + x) as int,
                    w as int,
                    y as int,
                    x as int,
                );
            }
            frame.push(c);
            x += 1;
        }
        proof {
            assert((y + 1) * (w as int) == y * (w as int) + w) by (nonlinear_arith);
        }
        y += 1;
    }
    proof {
        assert(h * w == w * h) by (nonlinear_arith);
    }
    frame
}

} // verus!
