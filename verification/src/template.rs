//! The Gemini sparkle watermark template (48×48 RGBA): built from the
//! captured RGBA bytes of the mark, or, where those are not at hand, a
//! geometric stand-in of the same size and peak opacity.
use vstd::prelude::*;
use crate::WatermarkTemplate;

verus! {

/// Side length of the sparkle mark in pixels.
pub const SPARKLE_SIZE: u32 = 48;

/// Absolute placement geometry for the sparkle (independent of frame size).
#[derive(Clone, Copy, Debug, PartialEq, Eq, Structural)]
pub struct SparkleGeometry {
    pub size_px: u32,
    pub inset_px: u32,
}

/// Inset of the sparkle from the right and bottom edges, in pixels.
pub const SPARKLE_INSET: u32 = 96;

/// Fixed 48px mark, inset 96px from the right and bottom edges.
pub fn sparkle_geometry() -> (g: SparkleGeometry)
    ensures
        g == (SparkleGeometry { size_px: SPARKLE_SIZE, inset_px: SPARKLE_INSET }),
{
    SparkleGeometry { size_px: SPARKLE_SIZE, inset_px: SPARKLE_INSET }
}

/// Peak opacity byte of the sparkle (≈ 0.31).
pub const SPARKLE_PEAK_ALPHA: u32 = 79;

/// Reach of the star's arms along the axes, in half-pixels from the centre.
pub const SPARKLE_ARM: u32 = 48;

/// Bound on `|u|·|v|` (half-pixel offsets from the centre) inside the star's body.
pub const SPARKLE_BODY: u32 = 200;

/// Distance of a pixel centre from the template centre, in half-pixels
/// (always odd, at most 47).
pub open spec fn half_offset(p: int) -> int {
    if 2 * p >= 47 { 2 * p - 47 } else { 47 - 2 * p }
}

/// Opacity byte of the sparkle at `(x, y)`: a four-pointed star whose concave
/// sides follow `|u|·|v| = SPARKLE_BODY` and whose arms reach `SPARKLE_ARM`,
/// fading linearly in both towards zero.
pub open spec fn sparkle_alpha(x: int, y: int) -> int {
    let u = half_offset(x);
    let v = half_offset(y);
    let s = u * v;
    let m = if u >= v { u } else { v };
    if s >= SPARKLE_BODY || m >= SPARKLE_ARM {
        0
    } else {
        (SPARKLE_PEAK_ALPHA * (SPARKLE_BODY - s) * (SPARKLE_ARM - m)) / (SPARKLE_BODY * SPARKLE_ARM) as int
    }
}

/// Byte `i` of the sparkle's RGBA data: white overlay colour, star opacity.
pub open spec fn sparkle_byte(i: int) -> u8 {
    let p = i / 4;
    if i % 4 == 3 {
        sparkle_alpha(p % 48, p / 48) as u8
    } else {
        255
    }
}

proof fn lemma_sparkle_alpha_bounds(x: int, y: int)
    requires
        0 <= x < 48,
        0 <= y < 48,
    ensures
        0 <= sparkle_alpha(x, y) <= SPARKLE_PEAK_ALPHA,
{
    let u = half_offset(x);
    let v = half_offset(y);
    let s = u * v;
    let m = if u >= v { u } else { v };
    assert(u >= 1 && v >= 1);
    assert(s >= 1) by (nonlinear_arith)
        requires u >= 1, v >= 1, s == u * v;
    if !(s >= 200 || m >= 48) {
        let num = 79 * (200 - s) * (48 - m);
        assert(0 <= num <= 79 * 200 * 48) by (nonlinear_arith)
            requires 1 <= s < 200, 1 <= m < 48, num == 79 * (200 - s) * (48 - m);
        assert(num / 9600 <= 79);
    }
}

/// Opacity of the sparkle at `(x, y)`, computed in exact integer arithmetic.
fn sparkle_alpha_at(x: u32, y: u32) -> (a: u8)
    requires
        x < 48,
        y < 48,
    ensures
        a as int == sparkle_alpha(x as int, y as int),
{
    let u: u32 = if 2 * x >= 47 { 2 * x - 47 } else { 47 - 2 * x };
    let v: u32 = if 2 * y >= 47 { 2 * y - 47 } else { 47 - 2 * y };
    assert(u * v <= 47 * 47) by (nonlinear_arith)
        requires u <= 47, v <= 47;
    let s: u32 = u * v;
    let m: u32 = if u >= v { u } else { v };
    proof {
        lemma_sparkle_alpha_bounds(x as int, y as int);
    }
    if s >= SPARKLE_BODY || m >= SPARKLE_ARM {
        0
    } else {
        assert((SPARKLE_PEAK_ALPHA * (SPARKLE_BODY - s)) * (SPARKLE_ARM - m) <= 79 * 200 * 48) by (nonlinear_arith)
            requires s < 200, m < 48;
        let num: u32 = SPARKLE_PEAK_ALPHA * (SPARKLE_BODY - s) * (SPARKLE_ARM - m);
        (num / (SPARKLE_BODY * SPARKLE_ARM)) as u8
    }
}

proof fn lemma_pixel_bytes(x: int, y: int)
    requires
        0 <= x < 48,
        0 <= y < 48,
    ensures
        sparkle_byte((y * 48 + x) * 4) == 255,
        sparkle_byte((y * 48 + x) * 4 + 1) == 255,
        sparkle_byte((y * 48 + x) * 4 + 2) == 255,
        sparkle_byte((y * 48 + x) * 4 + 3) == sparkle_alpha(x, y) as u8,
{
    let p = y * 48 + x;
    assert((p * 4) % 4 == 0 && (p * 4 + 1) % 4 == 1 && (p * 4 + 2) % 4 == 2);
    assert((p * 4 + 3) % 4 == 3 && (p * 4 + 3) / 4 == p);
    assert(p % 48 == x && p / 48 == y);
}

proof fn lemma_seq_new_extend4(before: Seq<u8>, n: int)
    requires
        n >= 0,
        before == Seq::new(n as nat, |i: int| sparkle_byte(i)),
        sparkle_byte(n) == 255,
        sparkle_byte(n + 1) == 255,
        sparkle_byte(n + 2) == 255,
    ensures
        before.push(255).push(255).push(255).push(sparkle_byte(n + 3)) == Seq::new((n + 4) as nat, |i: int| sparkle_byte(i)),
{
    assert(before.push(255).push(255).push(255).push(sparkle_byte(n + 3)) =~= Seq::new((n + 4) as nat, |i: int| sparkle_byte(i)));
}

/// A geometric stand-in for the sparkle: a white four-pointed star of the
/// mark's size (48×48) and peak opacity, computed from `sparkle_alpha`. It is
/// not the captured artwork of the mark; that is built from its RGBA bytes
/// by `sparkle_template_from`.
pub fn sparkle_template() -> (tpl: WatermarkTemplate)
    ensures
        tpl.width == SPARKLE_SIZE,
        tpl.height == SPARKLE_SIZE,
        tpl.wf(),
        tpl.data@ == Seq::new(48 * 48 * 4, |i: int| sparkle_byte(i)),
{
    let mut data: Vec<u8> = Vec::new();
    let mut y: u32 = 0;
    while y < 48
        invariant
            y <= 48,
            data@ == Seq::new((y * 48 * 4) as nat, |i: int| sparkle_byte(i)),
        decreases 48 - y,
    {
        let mut x: u32 = 0;
        while x < 48
            invariant
                y < 48,
                x <= 48,
                data@ == Seq::new(((y * 48 + x) * 4) as nat, |i: int| sparkle_byte(i)),
            decreases 48 - x,
        {
            let a = sparkle_alpha_at(x, y);
            proof {
                lemma_pixel_bytes(x as int, y as int);
            }
            let ghost before = data@;
            data.push(255);
            data.push(255);
            data.push(255);
            data.push(a);
            proof {
                lemma_seq_new_extend4(before, ((y * 48 + x) * 4) as int);
            }
            x = x + 1;
        }
        y = y + 1;
    }
    WatermarkTemplate { width: SPARKLE_SIZE, height: SPARKLE_SIZE, data }
}

/// Every opacity byte of the sparkle is at most its peak (≈ 0.31 opacity).
pub proof fn lemma_sparkle_peak(i: int)
    requires
        0 <= i < 48 * 48,
    ensures
        sparkle_byte(4 * i + 3) <= SPARKLE_PEAK_ALPHA,
{
    assert((4 * i + 3) / 4 == i);
    assert((4 * i + 3) % 4 == 3);
    lemma_sparkle_alpha_bounds(i % 48, i / 48);
}

/// Bytes of one 48×48 RGBA sparkle.
pub const SPARKLE_NBYTES: usize = 9216;

/// The sparkle template from its captured RGBA bytes (straight alpha,
/// row-major): `Some` exactly when they hold 48×48 pixels.
pub fn sparkle_template_from(data: Vec<u8>) -> (r: Option<WatermarkTemplate>)
    ensures
        (r is Some) <==> data@.len() == SPARKLE_SIZE * SPARKLE_SIZE * 4,
        r matches Some(t) ==> t.width == SPARKLE_SIZE && t.height == SPARKLE_SIZE && t.data@ == data@ && t.wf(),
{
    if data.len() != SPARKLE_NBYTES {
        return None;
    }
    Some(WatermarkTemplate { width: SPARKLE_SIZE, height: SPARKLE_SIZE, data })
}

} // verus!
