//! The animation law: for a target frame timestamp, the three shape
//! parameters of the generated object each oscillate between a low and a
//! high endpoint with period `2 * beat_interval` frames.
//!
//! For a timestamp `ts`, `interval = ts / beat_interval` and
//! `delta = (ts % beat_interval) / beat_interval` in `[0, 1)`. Each
//! parameter is the linear interpolation of its two endpoints at `delta`,
//! with the endpoints swapped on even intervals, which produces the
//! back-and-forth "breathing" motion.
//!
//! All values here are exact rationals: a parameter is `num / denom`, where
//! the endpoints are given in hundredths. Turning the ratio into a float for
//! the geometry kernel is the caller's business; the law itself is exact.

use vstd::prelude::*;

verus! {

/// Low endpoint of the width parameter, in hundredths.
pub const WIDTH_LO: u64 = 50;

/// High endpoint of the width parameter, in hundredths.
pub const WIDTH_HI: u64 = 55;

/// Low endpoint of the thickness parameter, in hundredths.
pub const THICKNESS_LO: u64 = 25;

/// High endpoint of the thickness parameter, in hundredths.
pub const THICKNESS_HI: u64 = 35;

/// Low endpoint of the height parameter, in hundredths.
pub const HEIGHT_LO: u64 = 75;

/// High endpoint of the height parameter, in hundredths.
pub const HEIGHT_HI: u64 = 100;

/// The endpoints above are given in hundredths of a unit.
pub const ENDPOINT_SCALE: u64 = 100;

/// The three shape parameters for one generation job, as exact rationals:
/// each parameter's value is its numerator divided by the common `denom`.
#[derive(Clone, Copy, PartialEq, Eq, Structural, Debug)]
pub struct FlaskParams {
    pub width_num: u64,
    pub thickness_num: u64,
    pub height_num: u64,
    pub denom: u64,
}

/// Which half-period of the oscillation `ts` falls in.
pub open spec fn interval_of(ts: u32, beat: u32) -> int {
    ts as int / beat as int
}

/// On even intervals the endpoints trade places.
pub open spec fn endpoints_swapped(ts: u32, beat: u32) -> bool {
    interval_of(ts, beat) % 2 == 0
}

/// Numerator of the interpolation weight within the current interval;
/// the weight is `delta_num / beat`.
pub open spec fn delta_num(ts: u32, beat: u32) -> int {
    ts as int % beat as int
}

/// Numerator of the linear interpolation `lo + (d/den) * (hi - lo)`,
/// taken over the denominator `den`.
pub open spec fn lerp_num(lo: int, hi: int, d: int, den: int) -> int {
    lo * (den - d) + hi * d
}

/// Numerator of one oscillating parameter at `ts`, over the denominator
/// `ENDPOINT_SCALE * beat`: endpoints swapped on even intervals.
pub open spec fn osc_num(lo: int, hi: int, ts: u32, beat: u32) -> int {
    if endpoints_swapped(ts, beat) {
        lerp_num(hi, lo, delta_num(ts, beat), beat as int)
    } else {
        lerp_num(lo, hi, delta_num(ts, beat), beat as int)
    }
}

/// `p` holds exactly the three parameter values the law gives for `ts`.
pub open spec fn params_match(p: FlaskParams, ts: u32, beat: u32) -> bool {
    &&& p.width_num == osc_num(WIDTH_LO as int, WIDTH_HI as int, ts, beat)
    &&& p.thickness_num == osc_num(THICKNESS_LO as int, THICKNESS_HI as int, ts, beat)
    &&& p.height_num == osc_num(HEIGHT_LO as int, HEIGHT_HI as int, ts, beat)
    &&& p.denom == ENDPOINT_SCALE * beat
}

/// Numerator of one parameter, computed executably.
fn osc_num_exec(lo: u64, hi: u64, ts: u32, beat: u32) -> (n: u64)
    requires
        1 <= beat,
        lo <= ENDPOINT_SCALE,
        hi <= ENDPOINT_SCALE,
    ensures
        n == osc_num(lo as int, hi as int, ts, beat),
{
    let interval: u32 = ts / beat;
    let d: u64 = (ts % beat) as u64;
    let den: u64 = beat as u64;
    let (a, b): (u64, u64) = if interval % 2 == 0 { (hi, lo) } else { (lo, hi) };
    proof {
        assert(d < den);
        assert(a * (den - d) <= ENDPOINT_SCALE * den) by (nonlinear_arith)
            requires a <= ENDPOINT_SCALE, den - d <= den, 0 <= den - d, 0 <= a;
        assert(b * d <= ENDPOINT_SCALE * den) by (nonlinear_arith)
            requires b <= ENDPOINT_SCALE, d < den, 0 <= d, 0 <= b;
        assert(ENDPOINT_SCALE * den <= ENDPOINT_SCALE * 0xffff_ffffu64) by (nonlinear_arith)
            requires den <= 0xffff_ffffu64;
    }
    a * (den - d) + b * d
}

/// The three shape parameters for the generation job targeting frame `ts`.
///
/// The value of each parameter is its numerator over `denom`
/// (`= ENDPOINT_SCALE * beat_interval`), exactly as the law states it.
pub fn shape_params(ts: u32, beat_interval: u32) -> (p: FlaskParams)
    requires
        1 <= beat_interval,
    ensures
        params_match(p, ts, beat_interval),
{
    let width_num = osc_num_exec(WIDTH_LO, WIDTH_HI, ts, beat_interval);
    let thickness_num = osc_num_exec(THICKNESS_LO, THICKNESS_HI, ts, beat_interval);
    let height_num = osc_num_exec(HEIGHT_LO, HEIGHT_HI, ts, beat_interval);
    proof {
        assert(ENDPOINT_SCALE * (beat_interval as u64) <= ENDPOINT_SCALE * 0xffff_ffffu64)
            by (nonlinear_arith)
            requires beat_interval as u64 <= 0xffff_ffffu64;
    }
    FlaskParams {
        width_num,
        thickness_num,
        height_num,
        denom: ENDPOINT_SCALE * (beat_interval as u64),
    }
}

/// The oscillation is symmetric: interpolating from `lo` to `hi` at weight
/// `d/den` gives the same value as interpolating from `hi` to `lo` at the
/// mirrored weight `(den-d)/den`. So the back half of a beat retraces the
/// front half, and in particular both phases agree at the midpoint.
pub proof fn lemma_oscillation_symmetric(lo: int, hi: int, d: int, den: int)
    requires
        0 <= d <= den,
    ensures
        lerp_num(lo, hi, d, den) == lerp_num(hi, lo, den - d, den),
{
    assert(lo * (den - d) + hi * d == hi * (den - (den - d)) + lo * (den - d))
        by (nonlinear_arith);
}

/// At the exact midpoint of a beat the swapped and the unswapped
/// interpolation coincide: with `den == 2 * d` both give `(lo + hi) * d`.
pub proof fn lemma_midpoint_equal(lo: int, hi: int, d: int, den: int)
    requires
        den == 2 * d,
    ensures
        lerp_num(lo, hi, d, den) == lerp_num(hi, lo, d, den),
{
    assert(lo * (2 * d - d) + hi * d == hi * (2 * d - d) + lo * d) by (nonlinear_arith);
}

/// Any two timestamps that land on the midpoint of a beat get the same
/// parameter value, whether their intervals swap the endpoints or not: the
/// oscillation is symmetric about the midpoint.
pub proof fn lemma_osc_midpoint(lo: int, hi: int, ts_a: u32, ts_b: u32, beat: u32)
    requires
        1 <= beat,
        2 * delta_num(ts_a, beat) == beat,
        2 * delta_num(ts_b, beat) == beat,
    ensures
        osc_num(lo, hi, ts_a, beat) == osc_num(lo, hi, ts_b, beat),
{
    lemma_midpoint_equal(lo, hi, delta_num(ts_a, beat), beat as int);
}

} // verus!
