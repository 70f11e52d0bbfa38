//! Integer geometry of the sparkle search: candidate sizes and placements,
//! margin-padded patches, and the control windows beside a placement.
use vstd::prelude::*;
use crate::mask::{px, lemma_px_bounds, lemma_px_injective};
use crate::blend::{indices, lemma_filter_range};
use crate::WatermarkTemplate;
use vstd::arithmetic::div_mod::{lemma_div_is_ordered, lemma_div_multiples_vanish};

verus! {

/// Half-width of the border kept around a patch so gradients are defined.
pub const PATCH_MARGIN: u32 = 3;

/// Index of channel `c` of pixel `(x, y)` in an RGBA buffer of width `w`.
pub open spec fn px4(w: int, x: int, y: int, c: int) -> int {
    px(w, x, y) * 4 + c
}

/// A channel of a pixel inside a `w × h` RGBA grid indexes inside its bytes.
pub proof fn lemma_px4_bounds(w: int, h: int, x: int, y: int, c: int)
    requires
        0 <= x < w,
        0 <= y < h,
        0 <= c < 4,
    ensures
        0 <= px4(w, x, y, c) < w * h * 4,
{
    lemma_px_bounds(w, h, x, y);
    assert(0 <= px(w, x, y) * 4 + c < w * h * 4) by (nonlinear_arith)
        requires 0 <= px(w, x, y) < w * h, 0 <= c < 4;
}

/// Distinct channels of distinct pixels occupy distinct RGBA bytes.
pub proof fn lemma_px4_injective(w: int, x1: int, y1: int, c1: int, x2: int, y2: int, c2: int)
    requires
        0 <= x1 < w,
        0 <= x2 < w,
        0 <= y1,
        0 <= y2,
        0 <= c1 < 4,
        0 <= c2 < 4,
        px4(w, x1, y1, c1) == px4(w, x2, y2, c2),
    ensures
        x1 == x2 && y1 == y2 && c1 == c2,
{
    assert(px(w, x1, y1) == px(w, x2, y2) && c1 == c2) by (nonlinear_arith)
        requires
            px(w, x1, y1) * 4 + c1 == px(w, x2, y2) * 4 + c2,
            0 <= c1 < 4,
            0 <= c2 < 4;
    lemma_px_injective(w, x1, y1, x2, y2);
}

/// A margin-padded square copy of an image window (RGB copied, alpha opaque).
pub struct Patch {
    pub width: u32,
    pub height: u32,
    pub data: Vec<u8>,
}

/// The window of side `size + 2·PATCH_MARGIN` around a placement at
/// `(at_x, at_y)` lies inside a `img_w × img_h` image.
pub open spec fn window_fits(img_w: int, img_h: int, size: int, at_x: int, at_y: int) -> bool {
    at_x >= PATCH_MARGIN && at_y >= PATCH_MARGIN
        && at_x + size + PATCH_MARGIN <= img_w && at_y + size + PATCH_MARGIN <= img_h
}

/// Patch byte for channel `c` of patch pixel `(x, y)`: the image's RGB at the
/// matching position, alpha fully opaque.
pub open spec fn patch_value(img: Seq<u8>, img_w: int, at_x: int, at_y: int, x: int, y: int, c: int) -> u8 {
    if c == 3 {
        255
    } else {
        img[px4(img_w, at_x - PATCH_MARGIN + x, at_y - PATCH_MARGIN + y, c)]
    }
}

/// Copy a margin-padded window around the template's footprint at
/// `(at_x, at_y)`; `None` when the padded window leaves the image.
pub fn grab(img_w: u32, img_h: u32, img: &[u8], size: u32, at_x: u32, at_y: u32) -> (r: Option<Patch>)
    requires
        img@.len() == img_w * img_h * 4,
        img_w <= i32::MAX,
        img_h <= i32::MAX,
        size + 2 * PATCH_MARGIN <= i32::MAX,
        at_x + size + PATCH_MARGIN <= i32::MAX,
        at_y + size + PATCH_MARGIN <= i32::MAX,
    ensures
        r is Some <==> window_fits(img_w as int, img_h as int, size as int, at_x as int, at_y as int),
        r matches Some(p) ==> {
            &&& p.width == size + 2 * PATCH_MARGIN
            &&& p.height == size + 2 * PATCH_MARGIN
            &&& p.data@.len() == p.width * p.height * 4
            &&& forall|x: int, y: int, c: int|
                0 <= x < p.width && 0 <= y < p.height && 0 <= c < 4 ==> #[trigger] p.data@[px4(p.width as int, x, y, c)]
                    == patch_value(img@, img_w as int, at_x as int, at_y as int, x, y, c)
        },
{
    let m: i32 = PATCH_MARGIN as i32;
    let pw: i32 = size as i32 + m * 2;
    let x0: i32 = at_x as i32 - m;
    let y0: i32 = at_y as i32 - m;
    if x0 < 0 || y0 < 0 || x0 + pw > img_w as i32 || y0 + pw > img_h as i32 {
        return None;
    }
    let pw_u = pw as u32;
    let n = img.len();
    let ghost iw = img_w as int;
    let ghost ih = img_h as int;
    let ghost pn = pw as int;
    assert(pn * pn * 4 <= iw * ih * 4) by (nonlinear_arith)
        requires 0 <= pn <= iw, pn <= ih;
    let mut data = vec![0u8; (pw_u as usize) * (pw_u as usize) * 4];
    let iw_u = img_w as usize;
    let mut y: u32 = 0;
    while y < pw_u
        invariant
            pw_u as int == pn,
            0 <= x0,
            0 <= y0,
            x0 + pn <= iw,
            y0 + pn <= ih,
            iw == img_w,
            ih == img_h,
            iw_u == img_w,
            x0 == at_x - PATCH_MARGIN,
            y0 == at_y - PATCH_MARGIN,
            img@.len() == iw * ih * 4,
            iw * ih * 4 <= usize::MAX,
            data@.len() == pn * pn * 4,
            pn * pn * 4 <= usize::MAX,
            0 <= y <= pn,
            forall|ax: int, ay: int, c: int|
                0 <= ax < pn && 0 <= ay < y && 0 <= c < 4 ==> #[trigger] data@[px4(pn, ax, ay, c)]
                    == patch_value(img@, iw, at_x as int, at_y as int, ax, ay, c),
        decreases pn - y,
    {
        let mut x: u32 = 0;
        while x < pw_u
            invariant
                pw_u as int == pn,
                0 <= x0,
                0 <= y0,
                x0 + pn <= iw,
                y0 + pn <= ih,
                iw == img_w,
                ih == img_h,
                iw_u == img_w,
                x0 == at_x - PATCH_MARGIN,
                y0 == at_y - PATCH_MARGIN,
                img@.len() == iw * ih * 4,
                iw * ih * 4 <= usize::MAX,
                data@.len() == pn * pn * 4,
            pn * pn * 4 <= usize::MAX,
                0 <= y < pn,
                0 <= x <= pn,
                forall|ax: int, ay: int, c: int|
                    0 <= ax < pn && 0 <= ay < pn && 0 <= c < 4 && (ay < y || (ay == y && ax < x))
                        ==> #[trigger] data@[px4(pn, ax, ay, c)]
                        == patch_value(img@, iw, at_x as int, at_y as int, ax, ay, c),
            decreases pn - x,
        {
            let sx = x0 as u32 + x;
            let sy = y0 as u32 + y;
            proof {
                lemma_px4_bounds(iw, ih, sx as int, sy as int, 0);
                lemma_px4_bounds(iw, ih, sx as int, sy as int, 2);
                lemma_px4_bounds(pn, pn, x as int, y as int, 0);
                lemma_px4_bounds(pn, pn, x as int, y as int, 3);
            }
            let si = ((sy as usize) * iw_u + sx as usize) * 4;
            let di = ((y as usize) * (pw_u as usize) + x as usize) * 4;
            let ghost prev = data@;
            data[di] = img[si];
            data[di + 1] = img[si + 1];
            data[di + 2] = img[si + 2];
            data[di + 3] = 255;
            proof {
                assert forall|ax: int, ay: int, c: int|
                    0 <= ax < pn && 0 <= ay < pn && 0 <= c < 4 && (ay < y || (ay == y && ax < x + 1))
                        implies #[trigger] data@[px4(pn, ax, ay, c)]
                        == patch_value(img@, iw, at_x as int, at_y as int, ax, ay, c) by {
                    lemma_px4_bounds(pn, pn, ax, ay, c);
                    if ax == x && ay == y {
                        assert(px4(pn, ax, ay, c) == di + c);
                        assert(px4(iw, at_x - PATCH_MARGIN + ax, at_y - PATCH_MARGIN + ay, c) == si + c);
                    } else {
                        if px4(pn, ax, ay, c) == di || px4(pn, ax, ay, c) == di + 1
                            || px4(pn, ax, ay, c) == di + 2 || px4(pn, ax, ay, c) == di + 3 {
                            let cc = px4(pn, ax, ay, c) - di;
                            lemma_px4_injective(pn, ax, ay, c, x as int, y as int, cc);
                        }
                        assert(data@[px4(pn, ax, ay, c)] == prev[px4(pn, ax, ay, c)]);
                    }
                }
            }
            x = x + 1;
        }
        y = y + 1;
    }
    Some(Patch { width: pw_u, height: pw_u, data })
}

/// Smallest and largest sparkle side tried by the search.
pub const MIN_SIZE: u32 = 42;
pub const MAX_SIZE: u32 = 56;

/// Bounds of the bottom-right inset searched around the expected 96px.
pub const MIN_INSET: u32 = 40;
pub const MAX_INSET: u32 = 116;

/// Canonical inset window, searched first.
pub const CANON_MIN_INSET: u32 = 88;
pub const CANON_MAX_INSET: u32 = 104;

/// Sides tried for an `img_w × img_h` image: `MIN_SIZE`, `MIN_SIZE + step`, …
/// up to `MAX_SIZE`, stopping at the first side above half the shorter edge.
pub open spec fn candidate_sizes_spec(img_w: int, img_h: int, step: int) -> Seq<u32> {
    let edge = if img_w <= img_h { img_w } else { img_h };
    let limit = if MAX_SIZE <= edge / 2 { MAX_SIZE as int } else { (edge / 2) as int };
    let count = if limit < MIN_SIZE { 0 } else { (limit - MIN_SIZE) / step + 1 };
    Seq::new(count as nat, |k: int| (MIN_SIZE + k * step) as u32)
}

/// The sides the search walks, in increasing order (`step` 1 for the
/// silhouette search, 2 for the correlation search).
pub fn candidate_sizes(img_w: u32, img_h: u32, step: u32) -> (r: Vec<u32>)
    requires
        1 <= step,
    ensures
        r@ == candidate_sizes_spec(img_w as int, img_h as int, step as int),
{
    let edge = if img_w <= img_h { img_w } else { img_h };
    let half = edge / 2;
    let ghost limit: int = if MAX_SIZE <= half { MAX_SIZE as int } else { half as int };
    let mut r: Vec<u32> = Vec::new();
    let mut s: u64 = MIN_SIZE as u64;
    let step64 = step as u64;
    let half64 = half as u64;
    let ghost mut k: int = 0;
    while s <= MAX_SIZE as u64 && s <= half64
        invariant
            1 <= step,
            step64 == step,
            half64 == half,
            edge == (if img_w <= img_h { img_w } else { img_h }),
            half == edge / 2,
            limit == (if MAX_SIZE <= half { MAX_SIZE as int } else { half as int }),
            s == MIN_SIZE + k * step,
            0 <= k,
            s <= MAX_SIZE + step,
            k == 0 || MIN_SIZE + (k - 1) * step <= limit,
            r@ == Seq::new(k as nat, |j: int| (MIN_SIZE + j * step) as u32),
        decreases MAX_SIZE + step - s,
    {
        r.push(s as u32);
        proof {
            assert(r@ =~= Seq::new((k + 1) as nat, |j: int| (MIN_SIZE + j * step) as u32));
            assert(MIN_SIZE + (k + 1) * step == MIN_SIZE + k * step + step) by (nonlinear_arith);
            k = k + 1;
        }
        s = s + step64;
    }
    proof {
        if limit >= MIN_SIZE {
            assert(k == (limit - MIN_SIZE) / (step as int) + 1) by (nonlinear_arith)
                requires
                    k == 0 || MIN_SIZE + (k - 1) * step <= limit,
                    MIN_SIZE + k * step > limit,
                    limit >= MIN_SIZE,
                    step >= 1,
                    k >= 0;
        } else {
            assert(k == 0) by (nonlinear_arith)
                requires k == 0 || MIN_SIZE + (k - 1) * step <= limit, limit < MIN_SIZE, k >= 0, step >= 1;
        }
        assert(r@ =~= candidate_sizes_spec(img_w as int, img_h as int, step as int));
    }
    r
}

/// Top-left corner of a `size` mark whose right and bottom margins are
/// `mx` and `my`; `None` when it does not fit in the image.
pub fn placement(img_w: u32, img_h: u32, mx: u32, my: u32, size: u32) -> (r: Option<(u32, u32)>)
    requires
        mx + size <= u32::MAX,
        my + size <= u32::MAX,
    ensures
        r is Some <==> (mx + size <= img_w && my + size <= img_h),
        r matches Some(p) ==> p.0 == img_w - mx - size && p.1 == img_h - my - size,
{
    if img_w < mx + size || img_h < my + size {
        return None;
    }
    Some((img_w - mx - size, img_h - my - size))
}

/// How the right and bottom margins are walked.
#[derive(Clone, Copy, Debug, PartialEq, Eq, Structural)]
pub enum InsetWalk {
    /// Equal margins only: `(m, m)`.
    Diagonal,
    /// Every pair, bottom margin in the outer loop.
    Independent,
}

/// The `(right, bottom)` margin pairs a walk visits, in visiting order.
pub open spec fn inset_pairs_spec(lo: int, hi: int, walk: InsetWalk) -> Seq<(u32, u32)> {
    let n = if hi < lo { 0 } else { hi - lo + 1 };
    match walk {
        InsetWalk::Diagonal => Seq::new(n as nat, |k: int| ((lo + k) as u32, (lo + k) as u32)),
        InsetWalk::Independent => Seq::new((n * n) as nat, |k: int| ((lo + k % n) as u32, (lo + k / n) as u32)),
    }
}

/// Margin pairs `(mx, my)` with both in `lo..=hi`, in the order the search
/// tries them.
pub fn inset_pairs(lo: u32, hi: u32, walk: InsetWalk) -> (r: Vec<(u32, u32)>)
    ensures
        r@ == inset_pairs_spec(lo as int, hi as int, walk),
{
    let mut r: Vec<(u32, u32)> = Vec::new();
    if hi < lo {
        proof {
            assert(r@ =~= inset_pairs_spec(lo as int, hi as int, walk));
        }
        return r;
    }
    let ghost n: int = hi - lo + 1;
    let lo64 = lo as u64;
    let hi64 = hi as u64;
    match walk {
        InsetWalk::Diagonal => {
            let mut ins: u64 = lo64;
            while ins <= hi64
                invariant
                    lo <= ins <= hi + 1,
                    lo64 == lo, hi64 == hi,
                    n == hi - lo + 1,
                    r@ == Seq::new((ins - lo) as nat, |k: int| ((lo + k) as u32, (lo + k) as u32)),
                decreases hi + 1 - ins,
            {
                r.push((ins as u32, ins as u32));
                proof {
                    assert(r@ =~= Seq::new((ins + 1 - lo) as nat, |k: int| ((lo + k) as u32, (lo + k) as u32)));
                }
                ins = ins + 1;
            }
            proof {
                assert(r@ =~= inset_pairs_spec(lo as int, hi as int, walk));
            }
        },
        InsetWalk::Independent => {
            let mut my: u64 = lo64;
            while my <= hi64
                invariant
                    lo <= my <= hi + 1,
                    lo64 == lo, hi64 == hi,
                    n == hi - lo + 1,
                    0 < n,
                    r@ == Seq::new(((my - lo) * n) as nat, |k: int| ((lo + k % n) as u32, (lo + k / n) as u32)),
                decreases hi + 1 - my,
            {
                let mut mx: u64 = lo64;
                while mx <= hi64
                    invariant
                        lo <= my <= hi,
                        lo <= mx <= hi + 1,
                        lo64 == lo, hi64 == hi,
                        n == hi - lo + 1,
                        0 < n,
                        r@ == Seq::new(((my - lo) * n + (mx - lo)) as nat, |k: int| ((lo + k % n) as u32, (lo + k / n) as u32)),
                    decreases hi + 1 - mx,
                {
                    let ghost len: int = (my - lo) * n + (mx - lo);
                    proof {
                        assert(len % n == mx - lo && len / n == my - lo) by (nonlinear_arith)
                            requires len == (my - lo) * n + (mx - lo), 0 <= mx - lo < n, my - lo >= 0, n > 0;
                        assert(len >= 0) by (nonlinear_arith)
                            requires len == (my - lo) * n + (mx - lo), 0 <= mx - lo, my - lo >= 0, n > 0;
                    }
                    r.push((mx as u32, my as u32));
                    proof {
                        assert(r@ =~= Seq::new((len + 1) as nat, |k: int| ((lo + k % n) as u32, (lo + k / n) as u32)));
                    }
                    mx = mx + 1;
                }
                proof {
                    assert((my - lo) * n + n == (my + 1 - lo) * n) by (nonlinear_arith);
                }
                my = my + 1;
            }
            proof {
                assert(r@ =~= inset_pairs_spec(lo as int, hi as int, walk));
            }
        },
    }
    r
}

/// The six control windows beside a placement: left, above and diagonal at
/// `size + 8`, then the same directions at `2 · size`, in that order.
pub open spec fn control_offsets(size: int) -> Seq<(int, int)> {
    let near = size + 8;
    seq![(-near, 0), (0, -near), (-near, -near), (-2 * size, 0), (0, -2 * size), (-2 * size, -2 * size)]
}

/// The control windows of `control_offsets` whose corner stays at
/// non-negative coordinates, in order.
pub open spec fn control_positions_spec(at_x: int, at_y: int, size: int) -> Seq<(u32, u32)> {
    control_offsets(size).filter(control_keep(at_x, at_y)).map_values(control_corner(at_x, at_y))
}

/// An offset keeps the window's corner at non-negative coordinates.
pub open spec fn control_keep(at_x: int, at_y: int) -> spec_fn((int, int)) -> bool {
    |o: (int, int)| at_x + o.0 >= 0 && at_y + o.1 >= 0
}

/// The window corner an offset gives.
pub open spec fn control_corner(at_x: int, at_y: int) -> spec_fn((int, int)) -> (u32, u32) {
    |o: (int, int)| ((at_x + o.0) as u32, (at_y + o.1) as u32)
}

/// Top-left corners of the control windows of a `size` placement at
/// `(at_x, at_y)` that do not start left of or above the image.
pub fn control_positions(at_x: u32, at_y: u32, size: u32) -> (r: Vec<(u32, u32)>)
    requires
        at_x <= i32::MAX,
        at_y <= i32::MAX,
        2 * size + 8 <= i32::MAX,
    ensures
        r@ == control_positions_spec(at_x as int, at_y as int, size as int),
{
    let s = size as i32;
    let near = s + 8;
    let twice = 2 * s;
    let offsets: [(i32, i32); 6] = [(-near, 0), (0, -near), (-near, -near), (-twice, 0), (0, -twice), (-twice, -twice)];
    let ghost offs = control_offsets(size as int);
    let ghost keep = control_keep(at_x as int, at_y as int);
    let ghost conv = control_corner(at_x as int, at_y as int);
    assert(offs.len() == 6);
    let mut r: Vec<(u32, u32)> = Vec::new();
    let mut i: usize = 0;
    while i < 6
        invariant
            0 <= i <= 6,
            at_x <= i32::MAX,
            at_y <= i32::MAX,
            2 * size + 8 <= i32::MAX,
            s == size,
            near == s + 8,
            offs == control_offsets(size as int),
            keep == control_keep(at_x as int, at_y as int),
            conv == control_corner(at_x as int, at_y as int),
            offsets@.len() == 6,
            forall|j: int| 0 <= j < 6 ==> (#[trigger] offsets@[j]).0 as int == offs[j].0 && offsets@[j].1 as int == offs[j].1,
            r@ == offs.subrange(0, i as int).filter(keep).map_values(conv),
        decreases 6 - i,
    {
        let (ox, oy) = offsets[i];
        let x = at_x as i32 + ox;
        let y = at_y as i32 + oy;
        let ghost sub = offs.subrange(0, i as int);
        let ghost nxt = offs.subrange(0, i + 1);
        let ghost o = offs[i as int];
        proof {
            reveal_with_fuel(Seq::<_>::filter, 1);
            assert(nxt.drop_last() =~= sub);
            assert(nxt.last() == o);
            assert(nxt.filter(keep) == (if keep(o) { sub.filter(keep).push(o) } else { sub.filter(keep) }));
            assert(sub.filter(keep).push(o).map_values(conv) =~= sub.filter(keep).map_values(conv).push(conv(o)));
            assert(offsets@[i as int].0 as int == o.0 && offsets@[i as int].1 as int == o.1);
            assert(x as int == at_x + o.0 && y as int == at_y + o.1);
            assert(keep(o) == !(x < 0 || y < 0));
        }
        if !(x < 0 || y < 0) {
            r.push((x as u32, y as u32));
            assert(conv(o) == (x as u32, y as u32));
        }
        i = i + 1;
    }
    proof {
        assert(offs.subrange(0, 6) =~= offs);
    }
    r
}

/// How far a placement is from the diagonal: `|right margin − bottom margin|`,
/// used to break ties between equally good candidates.
pub fn placement_skew(img_w: u32, img_h: u32, x: u32, y: u32, size: u32) -> (d: u32)
    requires
        x + size <= img_w,
        y + size <= img_h,
        img_w - x - size <= i32::MAX,
        img_h - y - size <= i32::MAX,
    ensures
        d as int == (if img_w - x - size >= img_h - y - size { (img_w - x - size) - (img_h - y - size) }
            else { (img_h - y - size) - (img_w - x - size) }),
{
    let a = (img_w - x - size) as i32;
    let b = (img_h - y - size) as i32;
    let diff = a - b;
    if diff >= 0 { diff as u32 } else { (b - a) as u32 }
}

/// Lower source tap of output pixel `i` when `src_len` pixels are resampled
/// to `dst_len` with pixel centres aligned: the floor of
/// `(i + ½)·src_len/dst_len − ½`, clamped to `0..src_len`.
pub open spec fn tap_lo(src_len: int, dst_len: int, i: int) -> int {
    let t = ((2 * i + 1) * src_len - dst_len) / (2 * dst_len);
    if t < 0 { 0 } else if t > src_len - 1 { src_len - 1 } else { t }
}

/// The two source pixels that bilinear resampling blends for output pixel
/// `i`: the lower tap and its right (or lower) neighbour, both clamped.
pub fn bilinear_taps(src_len: u32, dst_len: u32, i: u32) -> (r: (u32, u32))
    requires
        src_len >= 1,
        dst_len >= 1,
    ensures
        r.0 == tap_lo(src_len as int, dst_len as int, i as int),
        r.1 == (if r.0 + 1 < src_len { r.0 + 1 } else { src_len - 1 }),
{
    assert((2 * i + 1) * src_len <= 0x3_0000_0000 * 0x1_0000_0000) by (nonlinear_arith)
        requires i <= u32::MAX, src_len <= u32::MAX;
    let num: u128 = (2 * i as u128 + 1) * src_len as u128;
    let d: u128 = dst_len as u128;
    let lo: u32 = if num < d {
        proof {
            let n = (2 * i + 1) * src_len - dst_len;
            assert(n / (2 * dst_len as int) < 0) by (nonlinear_arith)
                requires n < 0, dst_len >= 1;
        }
        0
    } else {
        let q = (num - d) / (2 * d);
        if q > (src_len - 1) as u128 { src_len - 1 } else { q as u32 }
    };
    let hi = if lo + 1 < src_len { lo + 1 } else { src_len - 1 };
    (lo, hi)
}

/// Lower taps stay inside the source and never move backwards as the output
/// pixel advances; resampling to the same length samples each pixel itself.
pub proof fn lemma_taps_ordered(src_len: int, dst_len: int, i: int, j: int)
    requires
        src_len >= 1,
        dst_len >= 1,
        0 <= i <= j,
    ensures
        0 <= tap_lo(src_len, dst_len, i) < src_len,
        tap_lo(src_len, dst_len, i) <= tap_lo(src_len, dst_len, j),
        src_len == dst_len && i < src_len ==> tap_lo(src_len, dst_len, i) == i,
{
    let d = 2 * dst_len;
    let a = (2 * i + 1) * src_len - dst_len;
    let b = (2 * j + 1) * src_len - dst_len;
    assert(a <= b) by (nonlinear_arith)
        requires a == (2 * i + 1) * src_len - dst_len, b == (2 * j + 1) * src_len - dst_len, i <= j, src_len >= 1;
    lemma_div_is_ordered(a, b, d);
    if src_len == dst_len && i < src_len {
        assert(a == i * d) by (nonlinear_arith)
            requires a == (2 * i + 1) * src_len - dst_len, src_len == dst_len, d == 2 * dst_len;
        lemma_div_multiples_vanish(i, d);
        assert(d * i == i * d) by (nonlinear_arith);
    }
}

/// Opacity byte of template pixel `(x, y)` (square template of side `s`).
pub open spec fn tpl_alpha(t: Seq<u8>, s: int, x: int, y: int) -> int {
    t[px4(s, x, y, 3)] as int
}

/// Squared central-difference gradient of the template opacity at `(x, y)`.
pub open spec fn alpha_grad2(t: Seq<u8>, s: int, x: int, y: int) -> int {
    let ax = tpl_alpha(t, s, x + 1, y) - tpl_alpha(t, s, x - 1, y);
    let ay = tpl_alpha(t, s, x, y + 1) - tpl_alpha(t, s, x, y - 1);
    ax * ax + ay * ay
}

/// Squared central-difference gradient of channel `c` of a patch at `(x, y)`.
pub open spec fn channel_grad2(d: Seq<u8>, pw: int, x: int, y: int, c: int) -> int {
    let gx = d[px4(pw, x + 1, y, c)] as int - d[px4(pw, x - 1, y, c)] as int;
    let gy = d[px4(pw, x, y + 1, c)] as int - d[px4(pw, x, y - 1, c)] as int;
    gx * gx + gy * gy
}

/// RGB gradient energy of a patch at `(x, y)`.
pub open spec fn patch_grad2(d: Seq<u8>, pw: int, x: int, y: int) -> int {
    channel_grad2(d, pw, x, y, 0) + channel_grad2(d, pw, x, y, 1) + channel_grad2(d, pw, x, y, 2)
}

/// Interior template pixel `k` (row-major over `1..s−1` squared) lies on the
/// silhouette: its opacity gradient has magnitude at least 8.
pub open spec fn on_silhouette(t: Seq<u8>, s: int) -> spec_fn(int) -> bool {
    |k: int| alpha_grad2(t, s, 1 + k % (s - 2), 1 + k / (s - 2)) >= 64
}

/// The pair (squared opacity gradient, patch RGB gradient energy) of
/// interior template pixel `k`, the patch read `PATCH_MARGIN` further in.
pub open spec fn silhouette_term(t: Seq<u8>, s: int, d: Seq<u8>, pw: int) -> spec_fn(int) -> (u32, u32) {
    |k: int| {
        let x = 1 + k % (s - 2);
        let y = 1 + k / (s - 2);
        (alpha_grad2(t, s, x, y) as u32, patch_grad2(d, pw, x + PATCH_MARGIN, y + PATCH_MARGIN) as u32)
    }
}

/// All silhouette terms of a side-`s` template over a padded patch, in scan order.
pub open spec fn silhouette_terms_spec(t: Seq<u8>, s: int, d: Seq<u8>, pw: int) -> Seq<(u32, u32)> {
    let n = if s >= 2 { (s - 2) * (s - 2) } else { 0 };
    indices(n as nat).filter(on_silhouette(t, s)).map_values(silhouette_term(t, s, d, pw))
}

/// The integer terms of the silhouette edge energy of `patch` under `tpl`:
/// for each interior template pixel whose opacity gradient has magnitude at
/// least 8, the squared gradient (its weight is the square root) and the RGB
/// gradient energy of the patch under it.
pub fn silhouette_terms(patch: &Patch, tpl: &WatermarkTemplate) -> (r: Vec<(u32, u32)>)
    requires
        tpl.width >= 1,
        tpl.width == tpl.height,
        tpl.wf(),
        patch.width == tpl.width + 2 * PATCH_MARGIN,
        patch.data@.len() == patch.width * patch.width * 4,
        patch.width * patch.width * 4 <= usize::MAX,
    ensures
        r@ == silhouette_terms_spec(tpl.data@, tpl.width as int, patch.data@, patch.width as int),
{
    let s = tpl.width as usize;
    let pw = patch.width as usize;
    let m: usize = PATCH_MARGIN as usize;
    let ghost sn = s as int;
    let ghost pn = pw as int;
    let ghost t = tpl.data@;
    let ghost d = patch.data@;
    let ghost keep = on_silhouette(t, sn);
    let ghost term = silhouette_term(t, sn, d, pn);
    let tl = tpl.data.len();
    let dl = patch.data.len();
    let mut r: Vec<(u32, u32)> = Vec::new();
    if s < 2 {
        proof {
            reveal_with_fuel(Seq::<_>::filter, 1);
            assert(indices(0).filter(keep) =~= Seq::<int>::empty());
            assert(r@ =~= silhouette_terms_spec(t, sn, d, pn));
        }
        return r;
    }
    let ghost q = sn - 2;
    proof {
        reveal_with_fuel(Seq::<_>::filter, 1);
        assert(indices(0).filter(keep) =~= Seq::<int>::empty());
        assert(indices(0).filter(keep).map_values(term) =~= r@);
    }
    let mut ty: usize = 1;
    while ty < s - 1
        invariant
            2 <= s,
            sn == s, pn == pw, q == sn - 2, m == PATCH_MARGIN,
            pn == sn + 6,
            t == tpl.data@, d == patch.data@,
            t.len() == sn * sn * 4,
            d.len() == pn * pn * 4,
            pn * pn * 4 <= usize::MAX,
            sn * sn * 4 <= usize::MAX,
            keep == on_silhouette(t, sn),
            term == silhouette_term(t, sn, d, pn),
            1 <= ty <= s - 1,
            r@ == indices(((ty - 1) * q) as nat).filter(keep).map_values(term),
        decreases s - 1 - ty,
    {
        let mut tx: usize = 1;
        while tx < s - 1
            invariant
                2 <= s,
                sn == s, pn == pw, q == sn - 2, m == PATCH_MARGIN,
                pn == sn + 6,
                t == tpl.data@, d == patch.data@,
                t.len() == sn * sn * 4,
                d.len() == pn * pn * 4,
                pn * pn * 4 <= usize::MAX,
                sn * sn * 4 <= usize::MAX,
                keep == on_silhouette(t, sn),
                term == silhouette_term(t, sn, d, pn),
                1 <= ty < s - 1,
                1 <= tx <= s - 1,
                r@ == indices(((ty - 1) * q + tx - 1) as nat).filter(keep).map_values(term),
            decreases s - 1 - tx,
        {
            let ghost k: int = (ty - 1) * q + tx - 1;
            let ghost sub = indices(k as nat);
            let ghost nxt = indices((k + 1) as nat);
            proof {
                assert(k % q == tx - 1 && k / q == ty - 1) by (nonlinear_arith)
                    requires k == (ty - 1) * q + tx - 1, 0 <= tx - 1 < q, ty - 1 >= 0;
                assert(k >= 0) by (nonlinear_arith) requires k == (ty - 1) * q + tx - 1, tx >= 1, ty >= 1, q >= 1;
                reveal_with_fuel(Seq::<_>::filter, 1);
                assert(nxt.drop_last() =~= sub);
                assert(nxt.last() == k);
                let f = sub.filter(keep);
                assert(nxt.filter(keep) == (if keep(k) { f.push(k) } else { f }));
                assert(f.push(k).map_values(term) =~= f.map_values(term).push(term(k)));
                lemma_px4_bounds(sn, sn, tx + 1, ty as int, 3);
                lemma_px4_bounds(sn, sn, tx - 1, ty as int, 3);
                lemma_px4_bounds(sn, sn, tx as int, ty + 1, 3);
                lemma_px4_bounds(sn, sn, tx as int, ty - 1, 3);
            }
            let a_r = tpl.data[((ty * s) + tx + 1) * 4 + 3] as i32;
            let a_l = tpl.data[((ty * s) + tx - 1) * 4 + 3] as i32;
            let a_d = tpl.data[(((ty + 1) * s) + tx) * 4 + 3] as i32;
            let a_u = tpl.data[(((ty - 1) * s) + tx) * 4 + 3] as i32;
            let ax = a_r - a_l;
            let ay = a_d - a_u;
            assert(ax * ax <= 65025 && ay * ay <= 65025) by (nonlinear_arith)
                requires -255 <= ax <= 255, -255 <= ay <= 255;
            assert(ax * ax >= 0 && ay * ay >= 0) by (nonlinear_arith);
            let w2 = ax * ax + ay * ay;
            if w2 >= 64 {
                let px_ = tx + m;
                let py_ = ty + m;
                proof {
                    lemma_px4_bounds(pn, pn, px_ + 1, py_ as int, 0);
                    lemma_px4_bounds(pn, pn, px_ + 1, py_ as int, 2);
                    lemma_px4_bounds(pn, pn, px_ - 1, py_ as int, 0);
                    lemma_px4_bounds(pn, pn, px_ as int, py_ + 1, 0);
                    lemma_px4_bounds(pn, pn, px_ as int, py_ + 1, 2);
                    lemma_px4_bounds(pn, pn, px_ as int, py_ - 1, 0);
                    assert(px4(pn, px_ as int, py_ - 1, 0) == ((py_ * pw) + px_) * 4 - pw * 4) by (nonlinear_arith)
                        requires pn == pw, py_ >= 1;
                    assert(px4(pn, px_ as int, py_ + 1, 0) == ((py_ * pw) + px_) * 4 + pw * 4) by (nonlinear_arith)
                        requires pn == pw;
                }
                let i = ((py_ * pw) + px_) * 4;
                let mut g: i32 = 0;
                let mut c: usize = 0;
                while c < 3
                    invariant
                        0 <= c <= 3,
                        i == px4(pn, px_ as int, py_ as int, 0),
                        i + 4 + 2 < d.len(),
                        i + pw * 4 + 2 < d.len(),
                        i >= pw * 4,
                        i >= 4,
                        d.len() <= usize::MAX,
                        pn == pw,
                        d == patch.data@,
                        px4(pn, px_ as int, py_ - 1, 0) == i - pw * 4,
                        px4(pn, px_ as int, py_ + 1, 0) == i + pw * 4,
                        g == (if c >= 1 { channel_grad2(d, pn, px_ as int, py_ as int, 0) } else { 0 })
                            + (if c >= 2 { channel_grad2(d, pn, px_ as int, py_ as int, 1) } else { 0 })
                            + (if c >= 3 { channel_grad2(d, pn, px_ as int, py_ as int, 2) } else { 0 }),
                        0 <= g <= c * 130050,
                    decreases 3 - c,
                {
                    let gx = patch.data[i + 4 + c] as i32 - patch.data[i - 4 + c] as i32;
                    let gy = patch.data[i + pw * 4 + c] as i32 - patch.data[i - pw * 4 + c] as i32;
                    assert(gx * gx <= 65025 && gy * gy <= 65025) by (nonlinear_arith)
                        requires -255 <= gx <= 255, -255 <= gy <= 255;
                    assert(gx * gx >= 0 && gy * gy >= 0) by (nonlinear_arith);
                    g = g + (gx * gx + gy * gy);
                    c = c + 1;
                }
                proof {
                    assert(ax * ax + ay * ay == alpha_grad2(t, sn, tx as int, ty as int));
                    assert(keep(k));
                    assert(term(k) == (w2 as u32, g as u32));
                }
                r.push((w2 as u32, g as u32));
            } else {
                proof {
                    assert(!keep(k));
                }
            }
            tx = tx + 1;
        }
        proof {
            assert((ty - 1) * q + (s - 1) - 1 == (ty + 1 - 1) * q) by (nonlinear_arith)
                requires q == s - 2;
        }
        ty = ty + 1;
    }
    proof {
        assert((sn - 2 - 1 + 1) * q == q * q) by (nonlinear_arith) requires q == sn - 2;
    }
    r
}

/// Each silhouette term is read at one interior template pixel `(x, y)`
/// (returned): its weight is the squared central-difference gradient of the
/// template's opacity there, at least 64, and its energy is the patch's edge
/// energy `PATCH_MARGIN` further in — the squared horizontal and vertical
/// central differences summed over the red, green and blue channels.
pub proof fn lemma_silhouette_term_energy(t: Seq<u8>, s: int, d: Seq<u8>, pw: int, i: int) -> (xy: (int, int))
    requires
        0 <= i < silhouette_terms_spec(t, s, d, pw).len(),
    ensures
        1 <= xy.0 < s - 1,
        1 <= xy.1 < s - 1,
        ({
            let (x, y) = xy;
            let a = |ax: int, ay: int| t[(ay * s + ax) * 4 + 3] as int;
            let gx = a(x + 1, y) - a(x - 1, y);
            let gy = a(x, y + 1) - a(x, y - 1);
            &&& silhouette_terms_spec(t, s, d, pw)[i].0 as int == gx * gx + gy * gy
            &&& gx * gx + gy * gy >= 64
        }),
        ({
            let (px, py) = (xy.0 + 3, xy.1 + 3);
            let b = |bx: int, by: int, c: int| d[(by * pw + bx) * 4 + c] as int;
            let e = |c: int| (b(px + 1, py, c) - b(px - 1, py, c)) * (b(px + 1, py, c) - b(px - 1, py, c))
                + (b(px, py + 1, c) - b(px, py - 1, c)) * (b(px, py + 1, c) - b(px, py - 1, c));
            silhouette_terms_spec(t, s, d, pw)[i].1 as int == e(0) + e(1) + e(2)
        }),
{
    let n: int = if s >= 2 { (s - 2) * (s - 2) } else { 0 };
    let keep = on_silhouette(t, s);
    lemma_filter_range(n as nat, keep);
    let f = indices(n as nat).filter(keep);
    let k = f[i];
    assert(0 <= k < n);
    assert(s >= 3) by (nonlinear_arith) requires 0 <= k < n, n == (if s >= 2 { (s - 2) * (s - 2) } else { 0 });
    let w = s - 2;
    let x = 1 + k % w;
    let y = 1 + k / w;
    assert(0 <= k % w < w) by (nonlinear_arith) requires w > 0;
    assert(0 <= k / w < w) by (nonlinear_arith) requires w > 0, 0 <= k < w * w, n == w * w;
    let ag = alpha_grad2(t, s, x, y);
    let pg = patch_grad2(d, pw, x + PATCH_MARGIN, y + PATCH_MARGIN);
    let t0 = tpl_alpha(t, s, x + 1, y) - tpl_alpha(t, s, x - 1, y);
    let t1 = tpl_alpha(t, s, x, y + 1) - tpl_alpha(t, s, x, y - 1);
    assert(0 <= t0 * t0 <= 65025 && 0 <= t1 * t1 <= 65025) by (nonlinear_arith)
        requires -255 <= t0 <= 255, -255 <= t1 <= 255;
    assert forall|c: int| 0 <= #[trigger] channel_grad2(d, pw, x + PATCH_MARGIN, y + PATCH_MARGIN, c) <= 130050 by {
        let X = x + PATCH_MARGIN;
        let Y = y + PATCH_MARGIN;
        let g0 = d[px4(pw, X + 1, Y, c)] as int - d[px4(pw, X - 1, Y, c)] as int;
        let g1 = d[px4(pw, X, Y + 1, c)] as int - d[px4(pw, X, Y - 1, c)] as int;
        assert(0 <= g0 * g0 + g1 * g1 <= 130050) by (nonlinear_arith)
            requires -255 <= g0 <= 255, -255 <= g1 <= 255;
    }
    assert(0 <= pg <= 390150);
    assert(silhouette_terms_spec(t, s, d, pw)[i] == silhouette_term(t, s, d, pw)(k));
    (x, y)
}

} // verus!
