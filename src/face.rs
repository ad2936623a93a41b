use crate::number::Ratio;
use std::collections::hash_map::RandomState;
use std::hash::BuildHasher;
use vstd::prelude::*;

verus! {

/// One corner of a polygon: 0-based indices of its position and, when given,
/// of its texture coordinate and normal.
#[derive(Clone, Copy, Debug, PartialEq, Eq, Structural)]
pub struct Corner {
    pub v: usize,
    pub vt: Option<usize>,
    pub vn: Option<usize>,
}

/// A triangle of the model with its fixed display shade (an entry of the
/// grey palette, `0..SHADES`).
#[derive(Clone, Copy, Debug, PartialEq, Eq, Structural)]
pub struct Face {
    pub p0: Corner,
    pub p1: Corner,
    pub p2: Corner,
    pub shade: u8,
}

/// The number of entries of the grey palette.
pub const SHADES: u8 = 6;

impl Face {
    pub fn new(p0: Corner, p1: Corner, p2: Corner, shade: u8) -> (r: Self)
        ensures
            r == (Face { p0, p1, p2, shade }),
    {
        Face { p0, p1, p2, shade }
    }
}

/// Palette entry `shade` as a grey level in `[0, 1]`: black, four greys, white.
pub open spec fn grey_level(shade: u8) -> Ratio {
    Ratio { num: shade as i128, den: 5 }
}

/// The grey level of palette entry `shade`.
pub fn grey_scale(shade: u8) -> (r: Ratio)
    requires
        shade < SHADES,
    ensures
        r == grey_level(shade),
{
    Ratio { num: shade as i128, den: 5 }
}

/// The fan of a polygon with corners `c`: for each `i` in `1..n-1` the
/// triangle `(c[0], c[i], c[i+1])`; nothing when there are fewer than three corners.
pub open spec fn fan(c: Seq<Corner>) -> Seq<(Corner, Corner, Corner)> {
    if c.len() < 3 {
        Seq::empty()
    } else {
        Seq::new((c.len() - 2) as nat, |i: int| (c[0], c[i + 1], c[i + 2]))
    }
}

/// Splits a polygon into triangles fanned out from its first corner, keeping
/// the corners' order.
pub fn triangulate(c: &[Corner]) -> (r: Vec<(Corner, Corner, Corner)>)
    ensures
        r@ == fan(c@),
{
    let mut r: Vec<(Corner, Corner, Corner)> = Vec::new();
    if c.len() < 3 {
        assert(r@ =~= fan(c@));
        return r;
    }
    let mut i: usize = 1;
    while i < c.len() - 1
        invariant
            c@.len() >= 3,
            1 <= i <= c@.len() - 1,
            r@ =~= fan(c@).take(i - 1),
        decreases c@.len() - i,
    {
        r.push((c[0], c[i], c[i + 1]));
        i = i + 1;
    }
    assert(r@ =~= fan(c@));
    r
}

/// A polygon of `n >= 3` corners gives `n - 2` triangles, each starting at the
/// polygon's first corner and continuing with two consecutive corners.
pub proof fn fan_yields_n_minus_two(c: Seq<Corner>)
    requires
        c.len() >= 3,
    ensures
        fan(c).len() == c.len() - 2,
        forall|i: int|
            0 <= i < c.len() - 2 ==> (#[trigger] fan(c)[i]).0 == c[0] && fan(c)[i].1 == c[i + 1]
                && fan(c)[i].2 == c[i + 2],
{
}

/// A polygon of fewer than three corners gives no triangle.
pub proof fn short_polygon_yields_nothing(c: Seq<Corner>)
    requires
        c.len() < 3,
    ensures
        fan(c).len() == 0,
{
}

/// Odd constants of the shade mixer.
pub const MIX_STEP: u64 = 0x9E37_79B9_7F4A_7C15;

pub const MIX_MUL: u64 = 0xBF58_476D_1CE4_E5B9;

/// The pseudo-random 32 bits drawn for the `k`-th face under `seed`.
pub open spec fn mixed(seed: u64, k: u64) -> u64 {
    seed.wrapping_add(k.wrapping_mul(MIX_STEP)).wrapping_mul(MIX_MUL) >> 32u64
}

/// `random` brought into `[min, max)`.
pub open spec fn in_range(random: u64, min: usize, max: usize) -> usize {
    (min + random % ((max - min) as u64)) as usize
}

/// The palette entry of the `k`-th face loaded under `seed`.
pub open spec fn shade_of(seed: u64, k: u64) -> u8 {
    in_range(mixed(seed, k), 0, SHADES as usize) as u8
}

/// Brings a random number into `[min, max)` by its remainder.
pub fn pick_in_range(random: u64, min: usize, max: usize) -> (r: usize)
    requires
        min < max,
    ensures
        r == in_range(random, min, max),
        min <= r < max,
{
    let span = (max - min) as u64;
    min + (random % span) as usize
}

/// The display shade of the `k`-th face loaded under `seed`.
pub fn pick_shade(seed: u64, k: u64) -> (r: u8)
    ensures
        r == shade_of(seed, k),
        r < SHADES,
{
    let m = seed.wrapping_add(k.wrapping_mul(MIX_STEP)).wrapping_mul(MIX_MUL) >> 32u64;
    pick_in_range(m, 0, 6) as u8
}

/// Relies on `RandomState::new`: a hasher builder with fresh random keys.
#[verifier::external_body]
fn fresh_random_state() -> RandomState {
    RandomState::new()
}

/// Relies on `BuildHasher::hash_one`: the hash of the unit value under the
/// builder's keys, which are random, so nothing is known of it.
#[verifier::external_body]
fn hash_unit(state: &RandomState) -> u64 {
    state.hash_one(())
}

/// A number drawn from the process's random hash keys.
pub fn random_u64() -> u64 {
    let state = fresh_random_state();
    hash_unit(&state)
}

/// A random number in `[min, max)`.
pub fn random_range(min: usize, max: usize) -> (r: usize)
    requires
        min < max,
    ensures
        min <= r < max,
{
    let random = random_u64();
    pick_in_range(random, min, max)
}

} // verus!
