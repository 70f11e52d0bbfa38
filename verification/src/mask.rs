//! Binary mask dilation on row-major `w × h` grids.
use vstd::prelude::*;

verus! {

/// Row-major index of `(x, y)` in a grid of width `w`.
pub open spec fn px(w: int, x: int, y: int) -> int {
    y * w + x
}

/// `(sx, sy)` lies in the `(2r+1) × (2r+1)` square centred on `(x, y)`.
pub open spec fn near(sx: int, sy: int, x: int, y: int, r: int) -> bool {
    x - r <= sx <= x + r && y - r <= sy <= y + r
}

/// Some set pixel of `seed` lies within the square of radius `r` around `(x, y)`.
pub open spec fn dilated_at(seed: Seq<bool>, w: int, h: int, r: int, x: int, y: int) -> bool {
    exists|sx: int, sy: int|
        0 <= sx < w && 0 <= sy < h && #[trigger] seed[px(w, sx, sy)] && near(sx, sy, x, y, r)
}

/// The value a radius-`r` square dilation gives at `(x, y)`: the seed itself
/// when `r <= 0`.
pub open spec fn dilate_value(seed: Seq<bool>, w: int, h: int, r: int, x: int, y: int) -> bool {
    if r <= 0 {
        seed[px(w, x, y)]
    } else {
        dilated_at(seed, w, h, r, x, y)
    }
}

/// The value a 3×3 dilation gives at `(x, y)`: some in-bounds pixel of the
/// 3×3 neighbourhood (the pixel itself included) is set.
pub open spec fn dilate3_value(src: Seq<bool>, w: int, h: int, x: int, y: int) -> bool {
    exists|dx: int, dy: int|
        -1 <= dx <= 1 && -1 <= dy <= 1 && 0 <= x + dx < w && 0 <= y + dy < h
            && #[trigger] src[px(w, x + dx, y + dy)]
}

/// A pixel inside a `w × h` grid has a row-major index inside the grid.
pub proof fn lemma_px_bounds(w: int, h: int, x: int, y: int)
    requires
        0 <= x < w,
        0 <= y < h,
    ensures
        0 <= px(w, x, y) < w * h,
        px(w, x, y) + 1 <= w * h,
{
    assert(0 <= y * w + x < w * h) by (nonlinear_arith)
        requires 0 <= x < w, 0 <= y < h;
}

/// Distinct pixels of a `w`-wide grid have distinct row-major indices.
pub proof fn lemma_px_injective(w: int, x1: int, y1: int, x2: int, y2: int)
    requires
        0 <= x1 < w,
        0 <= x2 < w,
        0 <= y1,
        0 <= y2,
        px(w, x1, y1) == px(w, x2, y2),
    ensures
        x1 == x2,
        y1 == y2,
{
    assert(y1 == y2) by (nonlinear_arith)
        requires 0 <= x1 < w, 0 <= x2 < w, y1 * w + x1 == y2 * w + x2, 0 <= y1, 0 <= y2;
}

/// Seed pixels with row-major position before `(cx, cy)` that lie near `(x, y)`.
spec fn seen(seed: Seq<bool>, w: int, h: int, r: int, cy: int, cx: int, x: int, y: int) -> bool {
    exists|sx: int, sy: int|
        0 <= sx < w && 0 <= sy < h && (sy < cy || (sy == cy && sx < cx))
            && #[trigger] seed[px(w, sx, sy)] && near(sx, sy, x, y, r)
}

/// Square dilation of `seed` (`w × h`, row-major) by radius `r`: every set
/// pixel sets all pixels within `r` in both axes. `r <= 0` returns the seed.
pub fn dilate_mask(seed: &[bool], w: usize, h: usize, r: i32) -> (out: Vec<bool>)
    requires
        seed@.len() == w * h,
        r > 0 ==> w <= i32::MAX && h <= i32::MAX,
        r > 0 ==> forall|x: int, y: int|
            0 <= x < w && 0 <= y < h && #[trigger] seed@[px(w as int, x, y)] ==> x + r <= i32::MAX && y + r <= i32::MAX,
    ensures
        out@.len() == w * h,
        forall|x: int, y: int|
            0 <= x < w && 0 <= y < h ==> #[trigger] out@[px(w as int, x, y)]
                == dilate_value(seed@, w as int, h as int, r as int, x, y),
{
    let mut out = vstd::slice::slice_to_vec(seed);
    let n = seed.len();
    if r <= 0 {
        return out;
    }
    let wi = w as i32;
    let hi = h as i32;
    let ghost sd = seed@;
    let ghost wn = w as int;
    let ghost hn = h as int;
    let ghost rn = r as int;
    let mut y: i32 = 0;
    while y < hi
        invariant
            0 <= y <= hi,
            wi as int == wn,
            hi as int == hn,
            r as int == rn,
            rn > 0,
            wn <= i32::MAX,
            hn <= i32::MAX,
            sd == seed@,
            sd.len() == wn * hn,
            wn * hn <= usize::MAX,
            out@.len() == wn * hn,
            wn == w,
            hn == h,
            forall|x: int, yy: int|
                0 <= x < wn && 0 <= yy < hn ==> #[trigger] out@[px(wn, x, yy)]
                    == (sd[px(wn, x, yy)] || seen(sd, wn, hn, rn, y as int, 0, x, yy)),
        decreases hi - y,
    {
        let mut x: i32 = 0;
        while x < wi
            invariant
                0 <= y < hi,
                0 <= x <= wi,
                wi as int == wn,
                hi as int == hn,
                r as int == rn,
                rn > 0,
                wn <= i32::MAX,
                hn <= i32::MAX,
                sd == seed@,
                sd.len() == wn * hn,
                wn * hn <= usize::MAX,
                out@.len() == wn * hn,
                wn == w,
                hn == h,
                forall|xx: int, yy: int|
                    0 <= xx < wn && 0 <= yy < hn ==> #[trigger] out@[px(wn, xx, yy)]
                        == (sd[px(wn, xx, yy)] || seen(sd, wn, hn, rn, y as int, x as int, xx, yy)),
            decreases wi - x,
        {
            proof {
                lemma_px_bounds(wn, hn, x as int, y as int);
            }
            let si = y as usize * w + x as usize;
            if seed[si] {
                let mut dy: i64 = -(r as i64);
                while dy <= r as i64
                    invariant
                        0 <= y < hi,
                        0 <= x < wi,
                        -rn <= dy <= rn + 1,
                        wi as int == wn,
                        hi as int == hn,
                        r as int == rn,
                        rn > 0,
                        wn <= i32::MAX,
                        hn <= i32::MAX,
                        sd == seed@,
                        sd.len() == wn * hn,
                        wn * hn <= usize::MAX,
                        out@.len() == wn * hn,
                        wn == w,
                        hn == h,
                        sd[px(wn, x as int, y as int)],
                        forall|xx: int, yy: int|
                            0 <= xx < wn && 0 <= yy < hn ==> #[trigger] out@[px(wn, xx, yy)]
                                == (sd[px(wn, xx, yy)] || seen(sd, wn, hn, rn, y as int, x as int, xx, yy)
                                || (near(x as int, y as int, xx, yy, rn) && yy - y < dy)),
                    decreases rn + 1 - dy,
                {
                    let mut dx: i64 = -(r as i64);
                    while dx <= r as i64
                        invariant
                            0 <= y < hi,
                            0 <= x < wi,
                            -rn <= dy <= rn,
                            -rn <= dx <= rn + 1,
                            wi as int == wn,
                            hi as int == hn,
                            r as int == rn,
                            rn > 0,
                            wn <= i32::MAX,
                            hn <= i32::MAX,
                            sd == seed@,
                            sd.len() == wn * hn,
                            wn * hn <= usize::MAX,
                            out@.len() == wn * hn,
                            wn == w,
                            hn == h,
                            sd[px(wn, x as int, y as int)],
                            forall|xx: int, yy: int|
                                0 <= xx < wn && 0 <= yy < hn ==> #[trigger] out@[px(wn, xx, yy)]
                                    == (sd[px(wn, xx, yy)] || seen(sd, wn, hn, rn, y as int, x as int, xx, yy)
                                    || (near(x as int, y as int, xx, yy, rn) && (yy - y < dy
                                    || (yy - y == dy && xx - x < dx)))),
                        decreases rn + 1 - dx,
                    {
                        let yy = y as i64 + dy;
                        let xx = x as i64 + dx;
                        if !(yy < 0 || xx < 0 || yy >= hi as i64 || xx >= wi as i64) {
                            proof {
                                lemma_px_bounds(wn, hn, xx as int, yy as int);
                            }
                            let k = yy as usize * w + xx as usize;
                            let ghost prev = out@;
                            out[k] = true;
                            proof {
                                assert forall|ax: int, ay: int|
                                    0 <= ax < wn && 0 <= ay < hn implies #[trigger] out@[px(wn, ax, ay)]
                                        == (sd[px(wn, ax, ay)] || seen(sd, wn, hn, rn, y as int, x as int, ax, ay)
                                        || (near(x as int, y as int, ax, ay, rn) && (ay - y < dy
                                        || (ay - y == dy && ax - x < dx + 1)))) by {
                                    lemma_px_bounds(wn, hn, ax, ay);
                                    if px(wn, ax, ay) == k {
                                        lemma_px_injective(wn, ax, ay, xx as int, yy as int);
                                    } else {
                                        assert(out@[px(wn, ax, ay)] == prev[px(wn, ax, ay)]);
                                        if ax == xx && ay == yy {
                                        }
                                    }
                                }
                            }
                        }
                        dx = dx + 1;
                    }
                    dy = dy + 1;
                }
                proof {
                    assert forall|ax: int, ay: int|
                        0 <= ax < wn && 0 <= ay < hn implies #[trigger] out@[px(wn, ax, ay)]
                            == (sd[px(wn, ax, ay)] || seen(sd, wn, hn, rn, y as int, x + 1, ax, ay)) by {
                        if near(x as int, y as int, ax, ay, rn) {
                            assert(near(x as int, y as int, ax, ay, rn) && ay - y < dy);
                            assert(sd[px(wn, x as int, y as int)]);
                        }
                        if seen(sd, wn, hn, rn, y as int, x + 1, ax, ay) {
                            let (sx, sy) = choose|sx: int, sy: int|
                                0 <= sx < wn && 0 <= sy < hn && (sy < y || (sy == y && sx < x + 1))
                                    && #[trigger] sd[px(wn, sx, sy)] && near(sx, sy, ax, ay, rn);
                            if !(sy == y && sx == x) {
                                assert(sd[px(wn, sx, sy)]);
                            }
                        }
                    }
                }
            } else {
                proof {
                    assert forall|ax: int, ay: int|
                        0 <= ax < wn && 0 <= ay < hn implies #[trigger] out@[px(wn, ax, ay)]
                            == (sd[px(wn, ax, ay)] || seen(sd, wn, hn, rn, y as int, x + 1, ax, ay)) by {
                        if seen(sd, wn, hn, rn, y as int, x + 1, ax, ay) {
                            let (sx, sy) = choose|sx: int, sy: int|
                                0 <= sx < wn && 0 <= sy < hn && (sy < y || (sy == y && sx < x + 1))
                                    && #[trigger] sd[px(wn, sx, sy)] && near(sx, sy, ax, ay, rn);
                            assert(sd[px(wn, sx, sy)]);
                        }
                    }
                }
            }
            x = x + 1;
        }
        proof {
            assert forall|ax: int, ay: int|
                0 <= ax < wn && 0 <= ay < hn implies #[trigger] out@[px(wn, ax, ay)]
                    == (sd[px(wn, ax, ay)] || seen(sd, wn, hn, rn, y + 1, 0, ax, ay)) by {
                if seen(sd, wn, hn, rn, y + 1, 0, ax, ay) {
                    let (sx, sy) = choose|sx: int, sy: int|
                        0 <= sx < wn && 0 <= sy < hn && (sy < y + 1 || (sy == y + 1 && sx < 0))
                            && #[trigger] sd[px(wn, sx, sy)] && near(sx, sy, ax, ay, rn);
                    assert(sd[px(wn, sx, sy)]);
                }
                if seen(sd, wn, hn, rn, y as int, x as int, ax, ay) {
                    let (sx, sy) = choose|sx: int, sy: int|
                        0 <= sx < wn && 0 <= sy < hn && (sy < y || (sy == y && sx < x))
                            && #[trigger] sd[px(wn, sx, sy)] && near(sx, sy, ax, ay, rn);
                    assert(sd[px(wn, sx, sy)]);
                }
            }
        }
        y = y + 1;
    }
    proof {
        assert forall|ax: int, ay: int|
            0 <= ax < wn && 0 <= ay < hn implies #[trigger] out@[px(wn, ax, ay)]
                == dilate_value(sd, wn, hn, rn, ax, ay) by {
            if sd[px(wn, ax, ay)] {
                assert(near(ax, ay, ax, ay, rn));
            }
            if seen(sd, wn, hn, rn, y as int, 0, ax, ay) {
                let (sx, sy) = choose|sx: int, sy: int|
                    0 <= sx < wn && 0 <= sy < hn && (sy < y || (sy == y && sx < 0))
                        && #[trigger] sd[px(wn, sx, sy)] && near(sx, sy, ax, ay, rn);
                assert(sd[px(wn, sx, sy)]);
            }
            if dilated_at(sd, wn, hn, rn, ax, ay) {
                let (sx, sy) = choose|sx: int, sy: int|
                    0 <= sx < wn && 0 <= sy < hn && #[trigger] sd[px(wn, sx, sy)] && near(sx, sy, ax, ay, rn);
                assert(sd[px(wn, sx, sy)]);
            }
        }
    }
    out
}

/// In-place 3×3 dilation of `mask` (`mw × mh`, row-major): a pixel is set
/// afterwards when any in-bounds pixel of its 3×3 neighbourhood was set before.
pub fn dilate_mask_3x3(mask: &mut [bool], mw: usize, mh: usize)
    requires
        old(mask)@.len() == mw * mh,
        mw <= i32::MAX,
        mh <= i32::MAX,
    ensures
        final(mask)@.len() == mw * mh,
        forall|x: int, y: int|
            0 <= x < mw && 0 <= y < mh ==> #[trigger] final(mask)@[px(mw as int, x, y)]
                == dilate3_value(old(mask)@, mw as int, mh as int, x, y),
{
    let src = vstd::slice::slice_to_vec(mask);
    let n = mask.len();
    let ghost sd = src@;
    let ghost wn = mw as int;
    let ghost hn = mh as int;
    let mut y: usize = 0;
    while y < mh
        invariant
            0 <= y <= mh,
            sd == src@,
            sd == old(mask)@,
            sd.len() == wn * hn,
            mask@.len() == wn * hn,
            wn * hn <= usize::MAX,
            wn == mw,
            hn == mh,
            mw <= i32::MAX,
            mh <= i32::MAX,
            forall|ax: int, ay: int|
                0 <= ax < wn && 0 <= ay < hn ==> #[trigger] mask@[px(wn, ax, ay)]
                    == if ay < y { dilate3_value(sd, wn, hn, ax, ay) } else { sd[px(wn, ax, ay)] },
        decreases mh - y,
    {
        let mut x: usize = 0;
        while x < mw
            invariant
                0 <= y < mh,
                0 <= x <= mw,
                sd == src@,
                sd == old(mask)@,
                sd.len() == wn * hn,
                mask@.len() == wn * hn,
                wn * hn <= usize::MAX,
                wn == mw,
                hn == mh,
                mw <= i32::MAX,
                mh <= i32::MAX,
                forall|ax: int, ay: int|
                    0 <= ax < wn && 0 <= ay < hn ==> #[trigger] mask@[px(wn, ax, ay)]
                        == if ay < y || (ay == y && ax < x) { dilate3_value(sd, wn, hn, ax, ay) }
                           else { sd[px(wn, ax, ay)] },
            decreases mw - x,
        {
            let mut on = false;
            let mut dy: i32 = -1;
            while dy <= 1
                invariant
                    0 <= y < mh,
                    0 <= x < mw,
                    -1 <= dy <= 2,
                    sd == src@,
                    src@.len() == wn * hn,
                    wn * hn <= usize::MAX,
                    wn == mw,
                    hn == mh,
                    mw <= i32::MAX,
                    mh <= i32::MAX,
                    on == exists|ddx: int, ddy: int|
                        -1 <= ddx <= 1 && -1 <= ddy < dy && 0 <= x + ddx < wn && 0 <= y + ddy < hn
                            && #[trigger] sd[px(wn, x + ddx, y + ddy)],
                decreases 2 - dy,
            {
                let mut dx: i32 = -1;
                while dx <= 1
                    invariant
                        0 <= y < mh,
                        0 <= x < mw,
                        -1 <= dy <= 1,
                        -1 <= dx <= 2,
                        sd == src@,
                        src@.len() == wn * hn,
                        wn * hn <= usize::MAX,
                        wn == mw,
                        hn == mh,
                        mw <= i32::MAX,
                        mh <= i32::MAX,
                        on == exists|ddx: int, ddy: int|
                            -1 <= ddx <= 1 && 0 <= x + ddx < wn && 0 <= y + ddy < hn
                                && (-1 <= ddy < dy || (ddy == dy && ddx < dx))
                                && #[trigger] sd[px(wn, x + ddx, y + ddy)],
                    decreases 2 - dx,
                {
                    let yy = y as i32 + dy;
                    let xx = x as i32 + dx;
                    if !(yy < 0 || xx < 0 || yy as usize >= mh || xx as usize >= mw) {
                        proof {
                            lemma_px_bounds(wn, hn, xx as int, yy as int);
                        }
                        if src[yy as usize * mw + xx as usize] {
                            on = true;
                        }
                    }
                    dx = dx + 1;
                }
                dy = dy + 1;
            }
            proof {
                lemma_px_bounds(wn, hn, x as int, y as int);
            }
            let ghost prev = mask@;
            mask[y * mw + x] = on;
            proof {
                assert forall|ax: int, ay: int|
                    0 <= ax < wn && 0 <= ay < hn implies #[trigger] mask@[px(wn, ax, ay)]
                        == if ay < y || (ay == y && ax < x + 1) { dilate3_value(sd, wn, hn, ax, ay) }
                           else { sd[px(wn, ax, ay)] } by {
                    lemma_px_bounds(wn, hn, ax, ay);
                    if px(wn, ax, ay) == px(wn, x as int, y as int) {
                        lemma_px_injective(wn, ax, ay, x as int, y as int);
                    } else {
                        assert(mask@[px(wn, ax, ay)] == prev[px(wn, ax, ay)]);
                    }
                }
            }
            x = x + 1;
        }
        y = y + 1;
    }
}

/// A 3×3 dilation is the square dilation of radius 1.
pub proof fn lemma_dilate3_is_radius_one(seed: Seq<bool>, w: int, h: int, x: int, y: int)
    requires
        0 <= x < w,
        0 <= y < h,
    ensures
        dilate3_value(seed, w, h, x, y) == dilate_value(seed, w, h, 1, x, y),
{
    if dilate3_value(seed, w, h, x, y) {
        let (dx, dy) = choose|dx: int, dy: int|
            -1 <= dx <= 1 && -1 <= dy <= 1 && 0 <= x + dx < w && 0 <= y + dy < h
                && #[trigger] seed[px(w, x + dx, y + dy)];
        assert(seed[px(w, x + dx, y + dy)] && near(x + dx, y + dy, x, y, 1));
    }
    if dilated_at(seed, w, h, 1, x, y) {
        let (sx, sy) = choose|sx: int, sy: int|
            0 <= sx < w && 0 <= sy < h && #[trigger] seed[px(w, sx, sy)] && near(sx, sy, x, y, 1);
        assert(seed[px(w, x + (sx - x), y + (sy - y))]);
    }
}

/// Dilation never clears a pixel: every set seed pixel stays set.
pub proof fn lemma_dilate_extensive(seed: Seq<bool>, w: int, h: int, r: int, x: int, y: int)
    requires
        0 <= x < w,
        0 <= y < h,
        seed[px(w, x, y)],
    ensures
        dilate_value(seed, w, h, r, x, y),
{
    if r > 0 {
        assert(seed[px(w, x, y)] && near(x, y, x, y, r));
    }
}

/// A larger radius sets a superset of pixels.
pub proof fn lemma_dilate_monotone(seed: Seq<bool>, w: int, h: int, r1: int, r2: int, x: int, y: int)
    requires
        0 <= x < w,
        0 <= y < h,
        r1 <= r2,
        dilate_value(seed, w, h, r1, x, y),
    ensures
        dilate_value(seed, w, h, r2, x, y),
{
    if r1 <= 0 {
        lemma_dilate_extensive(seed, w, h, r2, x, y);
    } else {
        let (sx, sy) = choose|sx: int, sy: int|
            0 <= sx < w && 0 <= sy < h && #[trigger] seed[px(w, sx, sy)] && near(sx, sy, x, y, r1);
        assert(seed[px(w, sx, sy)] && near(sx, sy, x, y, r2));
    }
}

} // verus!
