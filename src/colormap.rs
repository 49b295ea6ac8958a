use vstd::prelude::*;

use crate::fixed::ONE;

verus! {

/// An 8-bit RGB colour. Channel level `c` stands for the intensity `c / 255`.
#[derive(Clone, Copy, Debug, PartialEq, Eq, Structural)]
pub struct Rgb {
    pub r: u8,
    pub g: u8,
    pub b: u8,
}

/// Clamps a colormap position to `[0, ONE]`.
pub open spec fn clamp_t(t: int) -> int {
    if t < 0 {
        0
    } else if t > ONE {
        ONE as int
    } else {
        t
    }
}

/// Linear blend of two channel levels at fraction `f / ONE`, rounded down.
pub open spec fn mix(a: u8, b: u8, f: int) -> int {
    (a * (ONE - f) + b * f) / (ONE as int)
}

/// Index of the stop at or below position `t` in a table of `n` stops.
pub open spec fn stop_index(n: int, t: int) -> int {
    (clamp_t(t) * (n - 1)) / (ONE as int)
}

/// Fractional distance, in units of `1 / ONE`, from that stop to the next.
pub open spec fn stop_frac(n: int, t: int) -> int {
    (clamp_t(t) * (n - 1)) % (ONE as int)
}

/// The colour at position `t / ONE` along a table of evenly spaced stops:
/// the position is clamped to `[0, 1]`, scaled onto the stop indices, and
/// each channel is blended linearly between the two bracketing stops.
pub open spec fn interp(stops: Seq<Rgb>, t: int) -> Rgb {
    let k = stop_index(stops.len() as int, t);
    let f = stop_frac(stops.len() as int, t);
    if k + 1 >= stops.len() {
        stops[k]
    } else {
        Rgb {
            r: mix(stops[k].r, stops[k + 1].r, f) as u8,
            g: mix(stops[k].g, stops[k + 1].g, f) as u8,
            b: mix(stops[k].b, stops[k + 1].b, f) as u8,
        }
    }
}

proof fn lemma_mix_bounds(a: u8, b: u8, f: int)
    requires
        0 <= f < ONE,
    ensures
        0 <= mix(a, b, f) <= 255,
        a <= b ==> a <= mix(a, b, f) <= b,
        b <= a ==> b <= mix(a, b, f) <= a,
        f == 0 ==> mix(a, b, f) == a,
{
    let one = ONE as int;
    let lo = if a <= b { a as int } else { b as int };
    let hi = if a <= b { b as int } else { a as int };
    let s = a * (one - f) + b * f;
    assert(lo * one <= s <= hi * one) by (nonlinear_arith)
        requires
            s == a * (one - f) + b * f,
            0 <= f < one,
            lo <= a <= hi,
            lo <= b <= hi,
    ;
    assert(lo <= s / one <= hi) by (nonlinear_arith)
        requires
            lo * one <= s <= hi * one,
            one > 0,
    ;
    if f == 0 {
        assert(s == a * one) by (nonlinear_arith)
            requires
                s == a * (one - f) + b * f,
                f == 0,
        ;
        assert(s / one == a) by (nonlinear_arith)
            requires
                s == a * one,
                one > 0,
        ;
    }
}

proof fn lemma_stop_index_bounds(n: int, t: int)
    requires
        n >= 1,
    ensures
        0 <= stop_index(n, t) < n,
        0 <= stop_frac(n, t) < ONE,
        stop_index(n, t) * ONE + stop_frac(n, t) == clamp_t(t) * (n - 1),
{
    let one = ONE as int;
    let p = clamp_t(t) * (n - 1);
    assert(0 <= p <= one * (n - 1)) by (nonlinear_arith)
        requires
            p == clamp_t(t) * (n - 1),
            0 <= clamp_t(t) <= one,
            n >= 1,
    ;
    assert(0 <= p / one <= n - 1) by (nonlinear_arith)
        requires
            0 <= p <= one * (n - 1),
            one > 0,
    ;
    assert(p == (p / one) * one + p % one) by (nonlinear_arith)
        requires
            one > 0,
    ;
}

/// Both ends of the position range hit a stop exactly: position `0` gives
/// the first stop and position `ONE` the last, for any non-empty table.
pub proof fn lemma_interp_endpoints(stops: Seq<Rgb>)
    requires
        stops.len() >= 1,
    ensures
        interp(stops, 0) == stops[0],
        interp(stops, ONE as int) == stops[stops.len() - 1],
{
    let n = stops.len() as int;
    let one = ONE as int;
    assert(clamp_t(0) == 0);
    assert(0 * (n - 1) == 0);
    assert(stop_index(n, 0) == 0 && stop_frac(n, 0) == 0);
    if n > 1 {
        lemma_mix_bounds(stops[0].r, stops[1].r, 0);
        lemma_mix_bounds(stops[0].g, stops[1].g, 0);
        lemma_mix_bounds(stops[0].b, stops[1].b, 0);
    }
    let p = one * (n - 1);
    assert(p / one == n - 1 && p % one == 0) by (nonlinear_arith)
        requires
            p == one * (n - 1),
            one > 0,
    ;
    assert(stop_index(n, one) == n - 1);
}

/// Colour at position `t` (fixed point, `ONE` is `1.0`) along `stops`; see
/// `interp`. Positions outside `[0, ONE]` are clamped to the nearest end.
pub fn interpolate(stops: &Vec<Rgb>, t: i64) -> (c: Rgb)
    requires
        stops@.len() >= 1,
    ensures
        c == interp(stops@, t as int),
{
    let tc: u128 = if t < 0 {
        0
    } else if t > ONE {
        ONE as u128
    } else {
        t as u128
    };
    let n = stops.len();
    proof {
        let m = (n - 1) as int;
        assert(tc * m <= 0x1_0000 * 0x1_0000_0000_0000_0000) by (nonlinear_arith)
            requires
                0 <= tc <= 0x1_0000,
                0 <= m < 0x1_0000_0000_0000_0000,
        ;
    }
    let p: u128 = tc * ((n - 1) as u128);
    let k = (p / (ONE as u128)) as usize;
    let f = (p % (ONE as u128)) as u64;
    proof {
        lemma_stop_index_bounds(n as int, t as int);
    }
    if k + 1 >= n {
        stops[k]
    } else {
        let a = stops[k];
        let b = stops[k + 1];
        proof {
            lemma_mix_bounds(a.r, b.r, f as int);
            lemma_mix_bounds(a.g, b.g, f as int);
            lemma_mix_bounds(a.b, b.b, f as int);
        }
        Rgb { r: blend(a.r, b.r, f), g: blend(a.g, b.g, f), b: blend(a.b, b.b, f) }
    }
}

fn blend(a: u8, b: u8, f: u64) -> (c: u8)
    requires
        f < ONE,
    ensures
        c == mix(a, b, f as int),
{
    proof {
        lemma_mix_bounds(a, b, f as int);
    }
    let s: u64 = (a as u64) * ((ONE as u64) - f) + (b as u64) * f;
    (s / (ONE as u64)) as u8
}

/// Shorthand for building a colour from three channel levels.
pub open spec fn rgb(r: u8, g: u8, b: u8) -> Rgb {
    Rgb { r, g, b }
}

/// The magnitude colormap: a nine-stop rendition of the perceptually uniform
/// "magma" ramp, from near black through purple and orange to pale yellow.
pub open spec fn magma_stops() -> Seq<Rgb> {
    seq![
        rgb(0, 0, 4),
        rgb(28, 16, 68),
        rgb(79, 18, 123),
        rgb(129, 37, 129),
        rgb(181, 54, 122),
        rgb(229, 80, 100),
        rgb(251, 135, 97),
        rgb(254, 194, 135),
        rgb(252, 253, 191),
    ]
}

/// The cyclic colormap: a nine-stop rendition of the "twilight" ramp, which
/// starts and ends on the same pale grey so that angles wrap without a seam.
pub open spec fn twilight_stops() -> Seq<Rgb> {
    seq![
        rgb(226, 217, 226),
        rgb(158, 187, 201),
        rgb(101, 135, 192),
        rgb(89, 71, 167),
        rgb(47, 20, 52),
        rgb(124, 37, 86),
        rgb(182, 84, 81),
        rgb(211, 160, 140),
        rgb(226, 217, 226),
    ]
}

fn push_rgb(v: &mut Vec<Rgb>, r: u8, g: u8, b: u8)
    ensures
        final(v)@ == old(v)@.push(rgb(r, g, b)),
{
    v.push(Rgb { r, g, b });
}

/// The magnitude colormap table.
pub fn magma() -> (stops: Vec<Rgb>)
    ensures
        stops@ == magma_stops(),
{
    let mut v: Vec<Rgb> = Vec::new();
    push_rgb(&mut v, 0, 0, 4);
    push_rgb(&mut v, 28, 16, 68);
    push_rgb(&mut v, 79, 18, 123);
    push_rgb(&mut v, 129, 37, 129);
    push_rgb(&mut v, 181, 54, 122);
    push_rgb(&mut v, 229, 80, 100);
    push_rgb(&mut v, 251, 135, 97);
    push_rgb(&mut v, 254, 194, 135);
    push_rgb(&mut v, 252, 253, 191);
    assert(v@ =~= magma_stops());
    v
}

/// The cyclic colormap table.
pub fn twilight() -> (stops: Vec<Rgb>)
    ensures
        stops@ == twilight_stops(),
{
    let mut v: Vec<Rgb> = Vec::new();
    push_rgb(&mut v, 226, 217, 226);
    push_rgb(&mut v, 158, 187, 201);
    push_rgb(&mut v, 101, 135, 192);
    push_rgb(&mut v, 89, 71, 167);
    push_rgb(&mut v, 47, 20, 52);
    push_rgb(&mut v, 124, 37, 86);
    push_rgb(&mut v, 182, 84, 81);
    push_rgb(&mut v, 211, 160, 140);
    push_rgb(&mut v, 226, 217, 226);
    assert(v@ =~= twilight_stops());
    v
}

/// The cyclic colormap has no seam: the colours at both ends of the position
/// range, where an angle of `-pi` meets one of `pi`, are the same colour.
pub proof fn lemma_twilight_seamless()
    ensures
        interp(twilight_stops(), 0) == interp(twilight_stops(), ONE as int),
{
    lemma_interp_endpoints(twilight_stops());
}

} // verus!
