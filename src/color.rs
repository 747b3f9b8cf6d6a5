//! Colours in fixed point: each channel counts millionths of full
//! intensity, so `ONE` is 1.0. The background gradient, the gamma step and
//! the 8-bit quantization are exact on this scale.
use vstd::prelude::*;

verus! {

/// Full intensity, and the unit of a direction component: 1.0.
pub const ONE: u64 = 1_000_000;

/// A colour, one fixed-point value per channel.
#[derive(Clone, Copy, Debug, PartialEq, Eq, Structural)]
pub struct Rgb {
    pub r: u64,
    pub g: u64,
    pub b: u64,
}

/// The colour of the sky straight down.
pub open spec fn sky_blue() -> Rgb {
    Rgb { r: 500_000, g: 700_000, b: 1_000_000 }
}

/// Full white.
pub open spec fn white() -> Rgb {
    Rgb { r: ONE, g: ONE, b: ONE }
}

/// One channel of the gradient: white at `y == ONE`, `low` at `y == -ONE`,
/// linear in between.
pub open spec fn blend(low: int, y: int) -> int {
    (ONE as int * (ONE as int + y) + low * (ONE as int - y)) / (2 * ONE as int)
}

/// Background colour for a ray whose unit direction has height `y`.
pub open spec fn sky_spec(y: int) -> Rgb {
    Rgb {
        r: blend(500_000, y) as u64,
        g: blend(700_000, y) as u64,
        b: blend(1_000_000, y) as u64,
    }
}

/// `s` is the square root of `n`, rounded down.
pub open spec fn is_sqrt(s: int, n: int) -> bool {
    0 <= s && s * s <= n < (s + 1) * (s + 1)
}

/// A channel clamped to full intensity.
pub open spec fn saturate(c: int) -> int {
    if c > ONE as int {
        ONE as int
    } else {
        c
    }
}

/// The 8-bit value of a gamma-corrected channel: clamped to one, scaled
/// by 255.999 and truncated.
pub open spec fn quantize_spec(c: int) -> int {
    saturate(c) * 255_999 / 1_000_000_000
}

/// `b` is the byte that a linear channel `c` is stored as: its square root
/// (gamma 2), quantized.
pub open spec fn encodes(c: int, b: int) -> bool {
    exists|g: int| is_sqrt(g, saturate(c) * ONE as int) && #[trigger] quantize_spec(g) == b
}

/// Background colour for a ray whose unit direction has height `y`
/// millionths: sky blue straight down, white straight up, blended
/// linearly in between. Nothing else of the ray matters.
pub fn sky(y: i64) -> (r: Rgb)
    requires
        -(ONE as int) <= y <= ONE as int,
    ensures
        r == sky_spec(y as int),
        r.r <= ONE && r.g <= ONE && r.b == ONE,
{
    let up: u64 = (ONE as i64 + y) as u64;
    let down: u64 = (ONE as i64 - y) as u64;
    assert(ONE * up <= 2 * ONE * ONE) by (nonlinear_arith)
        requires up <= 2 * ONE;
    assert(ONE * down <= 2 * ONE * ONE) by (nonlinear_arith)
        requires down <= 2 * ONE;
    assert(500_000 * down <= ONE * down && 700_000 * down <= ONE * down) by (nonlinear_arith);
    assert(ONE * up + ONE * down == 2 * ONE * ONE) by (nonlinear_arith)
        requires up + down == 2 * ONE;
    let r: u64 = (ONE * up + 500_000 * down) / (2 * ONE);
    let g: u64 = (ONE * up + 700_000 * down) / (2 * ONE);
    let b: u64 = (ONE * up + ONE * down) / (2 * ONE);
    assert(r <= ONE && g <= ONE && b == ONE) by (nonlinear_arith)
        requires
            r == (ONE * up + 500_000 * down) / (2 * ONE),
            g == (ONE * up + 700_000 * down) / (2 * ONE),
            b == (ONE * up + ONE * down) / (2 * ONE),
            ONE * up + ONE * down == 2 * ONE * ONE,
            500_000 * down <= ONE * down,
            700_000 * down <= ONE * down,
            ONE == 1_000_000,
    ;
    Rgb { r, g, b }
}

/// Gamma correction of one channel: the square root of the channel
/// clamped to one, rounded down to a millionth.
pub fn gamma(c: u64) -> (r: u64)
    ensures
        is_sqrt(r as int, saturate(c as int) * ONE as int),
        r <= ONE,
{
    let n: u64 = if c > ONE {
        ONE * ONE
    } else {
        assert(c * ONE <= ONE * ONE) by (nonlinear_arith)
            requires c <= ONE;
        c * ONE
    };
    let mut lo: u64 = 0;
    let mut hi: u64 = ONE + 1;
    while hi - lo > 1
        invariant
            lo < hi <= ONE + 1,
            n <= ONE * ONE,
            n == saturate(c as int) * ONE as int,
            lo * lo <= n < hi * hi,
        decreases hi - lo,
    {
        let mid: u64 = lo + (hi - lo) / 2;
        assert(mid * mid <= (ONE + 1) * (ONE + 1)) by (nonlinear_arith)
            requires mid <= ONE + 1;
        assert((ONE + 1) * (ONE + 1) == 1_000_002_000_001) by (nonlinear_arith);
        if mid * mid <= n {
            lo = mid;
        } else {
            hi = mid;
        }
    }
    lo
}

/// The byte that a gamma-corrected channel is stored as.
pub fn quantize(c: u64) -> (r: u8)
    ensures
        r == quantize_spec(c as int),
{
    let s: u64 = if c > ONE {
        ONE
    } else {
        c
    };
    assert(s * 255_999 <= ONE * 255_999) by (nonlinear_arith)
        requires s <= ONE;
    (s * 255_999 / 1_000_000_000) as u8
}

/// The bytes a linear colour is stored as: each channel gamma corrected,
/// then quantized.
pub fn to_bytes(c: Rgb) -> (r: (u8, u8, u8))
    ensures
        encodes(c.r as int, r.0 as int),
        encodes(c.g as int, r.1 as int),
        encodes(c.b as int, r.2 as int),
{
    let gr: u64 = gamma(c.r);
    let gg: u64 = gamma(c.g);
    let gb: u64 = gamma(c.b);
    let r = (quantize(gr), quantize(gg), quantize(gb));
    assert(quantize_spec(gr as int) == r.0);
    assert(quantize_spec(gg as int) == r.1);
    assert(quantize_spec(gb as int) == r.2);
    r
}

/// Sum of a sequence of channel values.
pub open spec fn total(s: Seq<u64>) -> int
    decreases s.len(),
{
    if s.len() == 0 {
        0
    } else {
        total(s.drop_last()) + s.last()
    }
}

/// Mean of the samples of one pixel, per channel, rounded down.
pub open spec fn mean_spec(s: Seq<Rgb>) -> Rgb {
    Rgb {
        r: (total(s.map_values(|c: Rgb| c.r)) / s.len() as int) as u64,
        g: (total(s.map_values(|c: Rgb| c.g)) / s.len() as int) as u64,
        b: (total(s.map_values(|c: Rgb| c.b)) / s.len() as int) as u64,
    }
}

/// The bytes a pixel is stored as, given its samples in order.
pub open spec fn pixel_encodes(samples: Seq<Rgb>, r: (u8, u8, u8)) -> bool {
    let m = mean_spec(samples);
    encodes(m.r as int, r.0 as int) && encodes(m.g as int, r.1 as int) && encodes(
        m.b as int,
        r.2 as int,
    )
}

proof fn lemma_total_bounded(s: Seq<u64>)
    ensures
        0 <= total(s) <= s.len() * u64::MAX,
    decreases s.len(),
{
    if s.len() > 0 {
        lemma_total_bounded(s.drop_last());
    }
}

/// Mean colour of the samples taken for one pixel.
pub fn mean(samples: &Vec<Rgb>) -> (r: Rgb)
    requires
        0 < samples.len() <= u32::MAX,
    ensures
        r == mean_spec(samples@),
{
    let mut sr: u128 = 0;
    let mut sg: u128 = 0;
    let mut sb: u128 = 0;
    let mut i: usize = 0;
    while i < samples.len()
        invariant
            i <= samples.len() <= u32::MAX,
            sr == total(samples@.take(i as int).map_values(|c: Rgb| c.r)),
            sg == total(samples@.take(i as int).map_values(|c: Rgb| c.g)),
            sb == total(samples@.take(i as int).map_values(|c: Rgb| c.b)),
        decreases samples.len() - i,
    {
        let c = samples[i];
        proof {
            let p = samples@.take(i as int);
            let q = samples@.take(i + 1);
            assert(q.drop_last() =~= p);
            assert(q.map_values(|c: Rgb| c.r).drop_last() =~= p.map_values(|c: Rgb| c.r));
            assert(q.map_values(|c: Rgb| c.g).drop_last() =~= p.map_values(|c: Rgb| c.g));
            assert(q.map_values(|c: Rgb| c.b).drop_last() =~= p.map_values(|c: Rgb| c.b));
            lemma_total_bounded(p.map_values(|c: Rgb| c.r));
            lemma_total_bounded(p.map_values(|c: Rgb| c.g));
            lemma_total_bounded(p.map_values(|c: Rgb| c.b));
            assert(i * u64::MAX + u64::MAX <= u32::MAX * u64::MAX) by (nonlinear_arith)
                requires i < u32::MAX;
            assert(u32::MAX * u64::MAX < u128::MAX);
        }
        sr = sr + c.r as u128;
        sg = sg + c.g as u128;
        sb = sb + c.b as u128;
        i = i + 1;
    }
    assert(samples@.take(samples.len() as int) =~= samples@);
    let n: u128 = samples.len() as u128;
    proof {
        lemma_total_bounded(samples@.map_values(|c: Rgb| c.r));
        lemma_total_bounded(samples@.map_values(|c: Rgb| c.g));
        lemma_total_bounded(samples@.map_values(|c: Rgb| c.b));
        assert(sr / n <= u64::MAX) by (nonlinear_arith)
            requires sr <= n * u64::MAX, n > 0;
        assert(sg / n <= u64::MAX) by (nonlinear_arith)
            requires sg <= n * u64::MAX, n > 0;
        assert(sb / n <= u64::MAX) by (nonlinear_arith)
            requires sb <= n * u64::MAX, n > 0;
    }
    Rgb { r: (sr / n) as u64, g: (sg / n) as u64, b: (sb / n) as u64 }
}

/// The bytes of one pixel from its samples: their mean, gamma corrected
/// and quantized per channel.
pub fn pixel_bytes(samples: &Vec<Rgb>) -> (r: (u8, u8, u8))
    requires
        0 < samples.len() <= u32::MAX,
    ensures
        pixel_encodes(samples@, r),
{
    to_bytes(mean(samples))
}

/// A pixel's bytes depend on its samples alone: rendering again with the
/// same samples stores the same bytes.
pub proof fn lemma_pixel_reproducible(s1: Seq<Rgb>, s2: Seq<Rgb>, b1: (u8, u8, u8), b2: (u8, u8, u8))
    requires
        s1 == s2,
        pixel_encodes(s1, b1),
        pixel_encodes(s2, b2),
    ensures
        b1 == b2,
{
    let m = mean_spec(s1);
    lemma_encoding_unique(m.r as int, b1.0 as int, b2.0 as int);
    lemma_encoding_unique(m.g as int, b1.1 as int, b2.1 as int);
    lemma_encoding_unique(m.b as int, b1.2 as int, b2.2 as int);
}

/// The gradient is sky blue straight down, white straight up, and the
/// mean of the two at the horizon.
pub proof fn lemma_sky_values()
    ensures
        sky_spec(-(ONE as int)) == sky_blue(),
        sky_spec(ONE as int) == white(),
        sky_spec(0) == (Rgb { r: 750_000, g: 850_000, b: 1_000_000 }),
{
    assert(ONE as int == 1_000_000);
    assert(blend(500_000, -1_000_000) == 500_000) by (nonlinear_arith)
        requires ONE as int == 1_000_000;
    assert(blend(700_000, -1_000_000) == 700_000) by (nonlinear_arith)
        requires ONE as int == 1_000_000;
    assert(blend(1_000_000, -1_000_000) == 1_000_000) by (nonlinear_arith)
        requires ONE as int == 1_000_000;
    assert(blend(500_000, 1_000_000) == 1_000_000) by (nonlinear_arith)
        requires ONE as int == 1_000_000;
    assert(blend(700_000, 1_000_000) == 1_000_000) by (nonlinear_arith)
        requires ONE as int == 1_000_000;
    assert(blend(1_000_000, 1_000_000) == 1_000_000) by (nonlinear_arith)
        requires ONE as int == 1_000_000;
    assert(blend(500_000, 0) == 750_000) by (nonlinear_arith)
        requires ONE as int == 1_000_000;
    assert(blend(700_000, 0) == 850_000) by (nonlinear_arith)
        requires ONE as int == 1_000_000;
    assert(blend(1_000_000, 0) == 1_000_000) by (nonlinear_arith)
        requires ONE as int == 1_000_000;
}

/// A pixel that sees only sky straight down is stored as (181, 214, 255),
/// one that sees only sky straight up as (255, 255, 255).
pub proof fn lemma_sky_bytes()
    ensures
        encodes(sky_spec(-(ONE as int)).r as int, 181),
        encodes(sky_spec(-(ONE as int)).g as int, 214),
        encodes(sky_spec(-(ONE as int)).b as int, 255),
        encodes(sky_spec(ONE as int).r as int, 255),
        encodes(sky_spec(ONE as int).g as int, 255),
        encodes(sky_spec(ONE as int).b as int, 255),
{
    lemma_sky_values();
    assert(is_sqrt(707_106, 500_000_000_000int)) by (nonlinear_arith);
    assert(quantize_spec(707_106) == 181) by (nonlinear_arith)
        requires ONE as int == 1_000_000;
    assert(is_sqrt(836_660, 700_000_000_000int)) by (nonlinear_arith);
    assert(quantize_spec(836_660) == 214) by (nonlinear_arith)
        requires ONE as int == 1_000_000;
    assert(is_sqrt(1_000_000, 1_000_000_000_000int)) by (nonlinear_arith);
    assert(quantize_spec(1_000_000) == 255) by (nonlinear_arith)
        requires ONE as int == 1_000_000;
    assert(saturate(500_000) * ONE as int == 500_000_000_000int);
    assert(saturate(700_000) * ONE as int == 700_000_000_000int);
    assert(saturate(1_000_000) * ONE as int == 1_000_000_000_000int);
}

/// A square root rounded down is unique, so each channel has one byte.
pub proof fn lemma_encoding_unique(c: int, b1: int, b2: int)
    requires
        encodes(c, b1),
        encodes(c, b2),
    ensures
        b1 == b2,
{
    let g1 = choose|g: int| is_sqrt(g, saturate(c) * ONE as int) && #[trigger] quantize_spec(g) == b1;
    let g2 = choose|g: int| is_sqrt(g, saturate(c) * ONE as int) && #[trigger] quantize_spec(g) == b2;
    lemma_sqrt_unique(g1, g2, saturate(c) * ONE as int);
}

proof fn lemma_sqrt_unique(a: int, b: int, n: int)
    requires
        is_sqrt(a, n),
        is_sqrt(b, n),
    ensures
        a == b,
{
    if a < b {
        assert((a + 1) * (a + 1) <= b * b) by (nonlinear_arith)
            requires 0 <= a < b;
    } else if b < a {
        assert((b + 1) * (b + 1) <= a * a) by (nonlinear_arith)
            requires 0 <= b < a;
    }
}

} // verus!
