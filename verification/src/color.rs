//! The shading policy's colour arithmetic: debug normal-colouring for hits
//! and the vertical sky gradient for misses.

use vstd::prelude::*;
use crate::num::{
    lemma_sqrt_floor_bounds, lemma_tdiv_bound, lemma_tdiv_exact, lemma_tdiv_ordered,
    lemma_tdiv_shrinks, sqrt_floor, tdiv, SCALE,
};
use crate::vec3::{bounded, in_coord_range, sdot, Vec3, Vec3i};

verus! {

/// A colour: three integer channels, each in `[0, 255]`.
#[derive(Clone, Copy, PartialEq, Eq, Structural, Debug)]
pub struct Color {
    pub r: u8,
    pub g: u8,
    pub b: u8,
}

/// The mathematical view of a colour.
pub struct ColorView {
    pub r: int,
    pub g: int,
    pub b: int,
}

impl View for Color {
    type V = ColorView;

    open spec fn view(&self) -> ColorView {
        ColorView { r: self.r as int, g: self.g as int, b: self.b as int }
    }
}

/// The "horizon" endpoint of the sky gradient.
pub const SKY_HORIZON_R: i128 = 70;

pub const SKY_HORIZON_G: i128 = 100;

pub const SKY_HORIZON_B: i128 = 255;

/// The "zenith" endpoint of the sky gradient is white: 255 per channel.
pub const SKY_ZENITH: i128 = 255;

/// Largest component magnitude `colorize` is sized for; every normal a
/// primitive reports stays well under it.
pub const CHAN_IN_MAX: i128 = 0x1_0000_0000_0000_0000_0000_0000;

/// A channel value forced into `[0, 255]`.
pub open spec fn clamp_channel(v: int) -> int {
    if v < 0 {
        0
    } else if v > 255 {
        255
    } else {
        v
    }
}

/// One channel of the normal-visualisation formula: the component (a raw
/// fixed-point value, nominally in `[-1, 1]`) times `255.999`, truncated
/// toward zero, then clamped to `[0, 255]` — the recommended guard, since
/// the raw product of an out-of-range component would overflow a channel.
pub open spec fn spec_channel(raw: int) -> int {
    clamp_channel(tdiv(raw * 255999, 65536000))
}

/// The colour visualising a normal: each component through `spec_channel`.
pub open spec fn spec_colorize(v: Vec3i) -> ColorView {
    ColorView { r: spec_channel(v.x), g: spec_channel(v.y), b: spec_channel(v.z) }
}

/// The fixed-point length of a direction: the floor square root of its raw
/// squared length (`sdot` carries the square of the scale, so its root
/// carries the scale itself).
pub open spec fn sky_mag(dir: Vec3i) -> int {
    sqrt_floor(sdot(dir, dir) as nat) as int
}

/// The blend factor `0.5 * (1 - y / |direction|)`, in fixed point: 0 for a
/// ray pointing straight up, `SCALE` for one pointing straight down.
pub open spec fn sky_lerp(dir: Vec3i) -> int {
    tdiv(SCALE - tdiv(dir.y * SCALE, sky_mag(dir)), 2)
}

/// A linear blend `(1 - lerp) * hc + lerp * zc` between a horizon channel
/// and a zenith channel, in fixed point.
pub open spec fn sky_channel(lerp: int, hc: int, zc: int) -> int {
    tdiv((SCALE - lerp) * hc + lerp * zc, SCALE as int)
}

/// The sky gradient for a missing ray: blend between the horizon colour
/// and white by the vertical blend factor, independent of the direction's
/// x component.
pub open spec fn spec_sky(dir: Vec3i) -> ColorView {
    ColorView {
        r: sky_channel(sky_lerp(dir), SKY_HORIZON_R as int, SKY_ZENITH as int),
        g: sky_channel(sky_lerp(dir), SKY_HORIZON_G as int, SKY_ZENITH as int),
        b: sky_channel(sky_lerp(dir), SKY_HORIZON_B as int, SKY_ZENITH as int),
    }
}

/// A non-zero direction has a positive fixed-point length, and no
/// component magnitude exceeds it.
pub proof fn lemma_sky_mag(dir: Vec3i)
    requires
        sdot(dir, dir) >= 1,
    ensures
        1 <= sky_mag(dir),
        -sky_mag(dir) <= dir.y <= sky_mag(dir),
{
    let n = sdot(dir, dir) as nat;
    lemma_sqrt_floor_bounds(n);
    let m = sqrt_floor(n);
    assert(1 <= m && -(m as int) <= dir.y <= m as int) by (nonlinear_arith)
        requires
            m * m <= n,
            n < (m + 1) * (m + 1),
            n == dir.x * dir.x + dir.y * dir.y + dir.z * dir.z,
            n >= 1,
    ;
}

/// The blend factor lies in `[0, SCALE]`: the normalised y component lies
/// in `[-1, 1]`, so `0.5 * (1 - y)` lies in `[0, 1]`.
pub proof fn lemma_sky_lerp_in_range(dir: Vec3i)
    requires
        sdot(dir, dir) >= 1,
    ensures
        0 <= sky_lerp(dir) <= SCALE,
{
    lemma_sky_mag(dir);
    let m = sky_mag(dir);
    lemma_tdiv_bound(dir.y * SCALE, m, SCALE as int);
    let yn = tdiv(dir.y * SCALE, m);
    lemma_tdiv_bound(SCALE - yn, 2, SCALE as int);
}

/// Each sky channel lies between its horizon and zenith endpoints: the
/// gradient never overshoots either colour.
pub proof fn lemma_sky_channel_bounds(lerp: int, hc: int, zc: int)
    requires
        0 <= lerp <= SCALE,
        0 <= hc <= zc,
        zc <= 255,
    ensures
        hc <= sky_channel(lerp, hc, zc) <= zc,
{
    let v = (SCALE - lerp) * hc + lerp * zc;
    assert(hc * SCALE <= v <= zc * SCALE) by (nonlinear_arith)
        requires
            0 <= lerp <= SCALE,
            0 <= hc <= zc,
            v == (SCALE - lerp) * hc + lerp * zc,
    ;
    lemma_tdiv_ordered(hc * SCALE, v, SCALE as int);
    lemma_tdiv_ordered(v, zc * SCALE, SCALE as int);
    lemma_tdiv_exact(hc, SCALE as int);
    lemma_tdiv_exact(zc, SCALE as int);
}

/// For any ray that misses everything, the sky colour's three channels lie
/// between the two gradient endpoint colours component-wise.
pub proof fn lemma_sky_color_bounded(dir: Vec3i)
    requires
        sdot(dir, dir) >= 1,
    ensures
        SKY_HORIZON_R <= spec_sky(dir).r <= SKY_ZENITH,
        SKY_HORIZON_G <= spec_sky(dir).g <= SKY_ZENITH,
        SKY_HORIZON_B <= spec_sky(dir).b <= SKY_ZENITH,
{
    lemma_sky_lerp_in_range(dir);
    lemma_sky_channel_bounds(sky_lerp(dir), SKY_HORIZON_R as int, SKY_ZENITH as int);
    lemma_sky_channel_bounds(sky_lerp(dir), SKY_HORIZON_G as int, SKY_ZENITH as int);
    lemma_sky_channel_bounds(sky_lerp(dir), SKY_HORIZON_B as int, SKY_ZENITH as int);
}

/// One executable channel of the normal-visualisation formula.
fn channel(raw: i128) -> (r: u8)
    requires
        -CHAN_IN_MAX <= raw <= CHAN_IN_MAX,
    ensures
        r as int == spec_channel(raw as int),
{
    let scaled = crate::num::div_t(raw * 255999, 65536000);
    if scaled < 0 {
        0
    } else if scaled > 255 {
        255
    } else {
        scaled as u8
    }
}

/// The colour visualising a normal, executable: this is intentionally not
/// physically based lighting; it maps the oriented normal's components to
/// channels for inspection.
pub fn colorize(colorin: &Vec3) -> (r: Color)
    requires
        bounded(colorin@, CHAN_IN_MAX as int),
    ensures
        r@ == spec_colorize(colorin@),
{
    Color { r: channel(colorin.x), g: channel(colorin.y), b: channel(colorin.z) }
}

/// The sky gradient, executable.
pub fn sky(direction: &Vec3) -> (r: Color)
    requires
        in_coord_range(direction@),
        sdot(direction@, direction@) >= 1,
    ensures
        r@ == spec_sky(direction@),
{
    proof {
        crate::vec3::lemma_sdot_fits(direction@, direction@, 0x2000_0000, 0x2000_0000);
        lemma_sky_mag(direction@);
        lemma_sky_lerp_in_range(direction@);
    }
    let sq = direction.dot_raw(direction);
    let mag = crate::num::isqrt_i(sq);
    let yn = crate::num::div_t(direction.y * SCALE, mag);
    proof {
        lemma_tdiv_bound(direction@.y * SCALE, mag as int, SCALE as int);
    }
    let lerp = crate::num::div_t(SCALE - yn, 2);
    proof {
        lemma_tdiv_bound(SCALE - yn, 2, SCALE as int);
        lemma_sky_channel_bounds(lerp as int, SKY_HORIZON_R as int, SKY_ZENITH as int);
        lemma_sky_channel_bounds(lerp as int, SKY_HORIZON_G as int, SKY_ZENITH as int);
        lemma_sky_channel_bounds(lerp as int, SKY_HORIZON_B as int, SKY_ZENITH as int);
    }
    let cr = crate::num::div_t((SCALE - lerp) * SKY_HORIZON_R + lerp * SKY_ZENITH, SCALE);
    let cg = crate::num::div_t((SCALE - lerp) * SKY_HORIZON_G + lerp * SKY_ZENITH, SCALE);
    let cb = crate::num::div_t((SCALE - lerp) * SKY_HORIZON_B + lerp * SKY_ZENITH, SCALE);
    Color { r: cr as u8, g: cg as u8, b: cb as u8 }
}

} // verus!
