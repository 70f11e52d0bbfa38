//! The region that residual inpainting fills after reverse-blending: a padded
//! window around the mark, seeded where the template has any opacity.
use vstd::prelude::*;
use crate::WatermarkTemplate;
use crate::mask::{px, lemma_px_bounds, lemma_px_injective, dilate_mask, dilate_value};
use crate::detect::{px4, lemma_px4_bounds};
use crate::fill::{px3, fill_local_median, filled_value};
use crate::window::{window_rgb, window_rgb_at, write_window_rgb, written_at};
use vstd::arithmetic::div_mod::{lemma_fundamental_div_mod, lemma_fundamental_div_mod_converse};

verus! {

/// Template opacity byte from which a pixel seeds the inpaint mask.
pub const INPAINT_ALPHA: u8 = 1;
/// Radius of the smooth-background fill.
pub const INPAINT_RADIUS: i32 = 4;
/// Wide pad and dilation on smooth backgrounds, so the glow is not used as fill source.
pub const INPAINT_PAD_SMOOTH: i32 = 10;
pub const INPAINT_DILATE_SMOOTH: i32 = 4;
/// Tight pad and dilation on busy texture, so the fill does not smear a blob.
pub const INPAINT_PAD_BUSY: i32 = 3;
pub const INPAINT_DILATE_BUSY: i32 = 1;

/// Pad around the mark and dilation radius of the inpaint mask, by texture.
pub fn inpaint_pad_and_dilate(busy: bool) -> (r: (i32, i32))
    ensures
        r == (if busy { (INPAINT_PAD_BUSY, INPAINT_DILATE_BUSY) } else { (INPAINT_PAD_SMOOTH, INPAINT_DILATE_SMOOTH) }),
{
    let pad = if busy { INPAINT_PAD_BUSY } else { INPAINT_PAD_SMOOTH };
    let dilate = if busy { INPAINT_DILATE_BUSY } else { INPAINT_DILATE_SMOOTH };
    (pad, dilate)
}

/// Whether window pixel `(rx, ry)` seeds the inpaint mask: it lies in the
/// image and on a template pixel of opacity at least `INPAINT_ALPHA`.
pub open spec fn seeds(tpl: WatermarkTemplate, at_x: int, at_y: int, pad: int, img_w: int, img_h: int, rx: int, ry: int) -> bool {
    let x = at_x - pad + rx;
    let y = at_y - pad + ry;
    let tx = rx - pad;
    let ty = ry - pad;
    &&& 0 <= x < img_w
    &&& 0 <= y < img_h
    &&& 0 <= tx < tpl.width
    &&& 0 <= ty < tpl.height
    &&& tpl.data@[px4(tpl.width as int, tx, ty, 3)] >= INPAINT_ALPHA
}

/// The seed of the inpaint mask over the window of `tpl.width + 2·pad` by
/// `tpl.height + 2·pad` pixels whose corner is `pad` left of and above the
/// mark at `(at_x, at_y)`, and whether any pixel is seeded.
pub fn inpaint_seed(tpl: &WatermarkTemplate, at_x: u32, at_y: u32, pad: i32, img_w: u32, img_h: u32)
    -> (r: (Vec<bool>, bool))
    requires
        tpl.wf(),
        0 <= pad,
        tpl.width + 2 * pad <= i32::MAX,
        tpl.height + 2 * pad <= i32::MAX,
        at_x + tpl.width + pad <= i32::MAX,
        at_y + tpl.height + pad <= i32::MAX,
        img_w <= i32::MAX,
        img_h <= i32::MAX,
        (tpl.width + 2 * pad) * (tpl.height + 2 * pad) <= usize::MAX,
    ensures
        r.0@.len() == (tpl.width + 2 * pad) * (tpl.height + 2 * pad),
        forall|rx: int, ry: int|
            0 <= rx < tpl.width + 2 * pad && 0 <= ry < tpl.height + 2 * pad ==>
                #[trigger] r.0@[px(tpl.width + 2 * pad, rx, ry)]
                == seeds(*tpl, at_x as int, at_y as int, pad as int, img_w as int, img_h as int, rx, ry),
        r.1 == exists|rx: int, ry: int|
            0 <= rx < tpl.width + 2 * pad && 0 <= ry < tpl.height + 2 * pad &&
                #[trigger] seeds(*tpl, at_x as int, at_y as int, pad as int, img_w as int, img_h as int, rx, ry),
{
    let tw = tpl.width as i32;
    let th = tpl.height as i32;
    let rw = tw + pad * 2;
    let rh = th + pad * 2;
    let x0 = at_x as i32 - pad;
    let y0 = at_y as i32 - pad;
    let img_wi = img_w as i32;
    let img_hi = img_h as i32;
    let rw_u = rw as usize;
    let rh_u = rh as usize;
    let ghost rwn = rw as int;
    let ghost rhn = rh as int;
    let ghost t = *tpl;
    let ghost ax = at_x as int;
    let ghost ay = at_y as int;
    let ghost pn = pad as int;
    let dlen = tpl.data.len();
    let mut seed = vec![false; rw_u * rh_u];
    let mut any = false;
    proof {
        assert forall|qx: int, qy: int| 0 <= qx < rwn && 0 <= qy < rhn implies #[trigger] seed@[px(rwn, qx, qy)] == false by {
            lemma_px_bounds(rwn, rhn, qx, qy);
        }
    }
    let mut ry: i32 = 0;
    while ry < rh
        invariant
            t == *tpl,
            t.wf(),
            rwn == rw, rhn == rh,
            rw == tw + pad * 2, rh == th + pad * 2,
            tw == tpl.width, th == tpl.height,
            rw_u == rw, rh_u == rh,
            x0 == at_x - pad, y0 == at_y - pad,
            img_wi == img_w, img_hi == img_h,
            ax == at_x, ay == at_y, pn == pad,
            0 <= pad,
            at_x + tpl.width + pad <= i32::MAX,
            at_y + tpl.height + pad <= i32::MAX,
            rwn * rhn <= usize::MAX,
            t.width * t.height * 4 <= usize::MAX,
            seed@.len() == rwn * rhn,
            0 <= ry <= rh,
            forall|qx: int, qy: int|
                0 <= qx < rwn && 0 <= qy < rhn ==> #[trigger] seed@[px(rwn, qx, qy)]
                    == (qy < ry && seeds(t, ax, ay, pn, img_w as int, img_h as int, qx, qy)),
            any == exists|qx: int, qy: int|
                0 <= qx < rwn && 0 <= qy < ry && #[trigger] seeds(t, ax, ay, pn, img_w as int, img_h as int, qx, qy),
        decreases rh - ry,
    {
        let y = y0 + ry;
        let mut rx: i32 = 0;
        while rx < rw
            invariant
                t == *tpl,
                t.wf(),
                rwn == rw, rhn == rh,
                rw == tw + pad * 2, rh == th + pad * 2,
                tw == tpl.width, th == tpl.height,
                rw_u == rw, rh_u == rh,
                x0 == at_x - pad, y0 == at_y - pad,
                img_wi == img_w, img_hi == img_h,
                ax == at_x, ay == at_y, pn == pad,
                y == y0 + ry,
                0 <= pad,
                at_x + tpl.width + pad <= i32::MAX,
                at_y + tpl.height + pad <= i32::MAX,
                rwn * rhn <= usize::MAX,
            t.width * t.height * 4 <= usize::MAX,
                seed@.len() == rwn * rhn,
                0 <= ry < rh,
                0 <= rx <= rw,
                forall|qx: int, qy: int|
                    0 <= qx < rwn && 0 <= qy < rhn ==> #[trigger] seed@[px(rwn, qx, qy)]
                        == ((qy < ry || (qy == ry && qx < rx)) && seeds(t, ax, ay, pn, img_w as int, img_h as int, qx, qy)),
                any == exists|qx: int, qy: int|
                    0 <= qx < rwn && 0 <= qy < rhn && (qy < ry || (qy == ry && qx < rx))
                        && #[trigger] seeds(t, ax, ay, pn, img_w as int, img_h as int, qx, qy),
            decreases rw - rx,
        {
            let x = x0 + rx;
            let ghost prev_any = any;
            let ghost prev = seed@;
            let mut hit = false;
            if !(y < 0 || y >= img_hi || x < 0 || x >= img_wi) {
                let tx = rx - pad;
                let ty = ry - pad;
                if tx >= 0 && ty >= 0 && tx < tw && ty < th {
                    proof {
                        lemma_px4_bounds(tw as int, th as int, tx as int, ty as int, 3);
                    }
                    let a = tpl.data[(ty as usize * tw as usize + tx as usize) * 4 + 3];
                    if a >= INPAINT_ALPHA {
                        proof {
                            lemma_px_bounds(rwn, rhn, rx as int, ry as int);
                        }
                        seed[ry as usize * rw_u + rx as usize] = true;
                        any = true;
                        hit = true;
                    }
                }
            }
            proof {
                assert(hit == seeds(t, ax, ay, pn, img_w as int, img_h as int, rx as int, ry as int));
                assert forall|qx: int, qy: int|
                    0 <= qx < rwn && 0 <= qy < rhn implies #[trigger] seed@[px(rwn, qx, qy)]
                        == ((qy < ry || (qy == ry && qx < rx + 1)) && seeds(t, ax, ay, pn, img_w as int, img_h as int, qx, qy)) by {
                    lemma_px_bounds(rwn, rhn, qx, qy);
                    if hit && px(rwn, qx, qy) == px(rwn, rx as int, ry as int) {
                        lemma_px_injective(rwn, qx, qy, rx as int, ry as int);
                    }
                    if !(qx == rx && qy == ry) && hit {
                        if px(rwn, qx, qy) == px(rwn, rx as int, ry as int) {
                            lemma_px_injective(rwn, qx, qy, rx as int, ry as int);
                        }
                        assert(seed@[px(rwn, qx, qy)] == prev[px(rwn, qx, qy)]);
                    }
                }
                if any && !hit {
                    let (qx, qy) = choose|qx: int, qy: int|
                        0 <= qx < rwn && 0 <= qy < rhn && (qy < ry || (qy == ry && qx < rx))
                            && #[trigger] seeds(t, ax, ay, pn, img_w as int, img_h as int, qx, qy);
                    assert(seeds(t, ax, ay, pn, img_w as int, img_h as int, qx, qy));
                }
                if hit {
                    assert(seeds(t, ax, ay, pn, img_w as int, img_h as int, rx as int, ry as int));
                }
            }
            rx = rx + 1;
        }
        proof {
            if any {
                let (qx, qy) = choose|qx: int, qy: int|
                    0 <= qx < rwn && 0 <= qy < rhn && (qy < ry || (qy == ry && qx < rx))
                        && #[trigger] seeds(t, ax, ay, pn, img_w as int, img_h as int, qx, qy);
                assert(seeds(t, ax, ay, pn, img_w as int, img_h as int, qx, qy));
            }
        }
        ry = ry + 1;
    }
    (seed, any)
}

/// Radius of the busy-texture median fill.
pub const MEDIAN_RADIUS: i32 = 6;

/// Width of the busy-texture window around a template.
pub open spec fn busy_w(tpl: WatermarkTemplate) -> int {
    tpl.width + 2 * INPAINT_PAD_BUSY
}

/// Height of the busy-texture window around a template.
pub open spec fn busy_h(tpl: WatermarkTemplate) -> int {
    tpl.height + 2 * INPAINT_PAD_BUSY
}

/// The busy window's seed grid, row-major.
pub open spec fn busy_seed(tpl: WatermarkTemplate, at_x: int, at_y: int, img_w: int, img_h: int) -> Seq<bool> {
    let rw = busy_w(tpl);
    Seq::new((rw * busy_h(tpl)) as nat, |k: int| seeds(tpl, at_x, at_y, INPAINT_PAD_BUSY as int, img_w, img_h, k % rw, k / rw))
}

/// The busy window's fill mask: the seed grid dilated by `INPAINT_DILATE_BUSY`.
pub open spec fn busy_mask(tpl: WatermarkTemplate, at_x: int, at_y: int, img_w: int, img_h: int) -> Seq<bool> {
    let rw = busy_w(tpl);
    let rh = busy_h(tpl);
    Seq::new((rw * rh) as nat, |k: int|
        dilate_value(busy_seed(tpl, at_x, at_y, img_w, img_h), rw, rh, INPAINT_DILATE_BUSY as int, k % rw, k / rw))
}

/// The busy window's colours read from the image.
pub open spec fn busy_window(data: Seq<u8>, img_w: int, img_h: int, tpl: WatermarkTemplate, at_x: int, at_y: int) -> Seq<u8> {
    let rw = busy_w(tpl);
    let rh = busy_h(tpl);
    Seq::new((rw * rh * 3) as nat, |k: int|
        window_rgb_at(data, img_w, img_h, at_x - INPAINT_PAD_BUSY, at_y - INPAINT_PAD_BUSY, (k / 3) % rw, (k / 3) / rw, k % 3))
}

/// The busy window's colours after the median fill of its masked pixels.
pub open spec fn busy_fill(data: Seq<u8>, img_w: int, img_h: int, tpl: WatermarkTemplate, at_x: int, at_y: int) -> Seq<u8> {
    let rw = busy_w(tpl);
    let rh = busy_h(tpl);
    Seq::new((rw * rh * 3) as nat, |k: int|
        filled_value(busy_window(data, img_w, img_h, tpl, at_x, at_y), busy_mask(tpl, at_x, at_y, img_w, img_h),
            rw, rh, MEDIAN_RADIUS as int, (k / 3) % rw, (k / 3) / rw, k % 3))
}

/// Row-major index `k` of a `w`-wide grid is pixel `(k % w, k / w)`.
proof fn lemma_grid(w: int, h: int, k: int)
    requires
        w > 0,
        0 <= k < w * h,
    ensures
        k == px(w, k % w, k / w),
        0 <= k % w < w,
        0 <= k / w < h,
{
    lemma_fundamental_div_mod(k, w);
    assert(0 <= k % w < w) by (nonlinear_arith) requires w > 0;
    let q = k / w;
    assert(q * w == w * q) by (nonlinear_arith);
    assert(0 <= q < h) by (nonlinear_arith)
        requires k == w * q + k % w, 0 <= k % w < w, 0 <= k < w * h, w > 0;
}

/// Pixel `(x, y)` of a `w`-wide grid has row-major index `y·w + x`.
proof fn lemma_grid_of(w: int, x: int, y: int)
    requires
        0 <= x < w,
        0 <= y,
    ensures
        px(w, x, y) % w == x,
        px(w, x, y) / w == y,
{
    lemma_fundamental_div_mod_converse(px(w, x, y), w, y, x);
}

/// Byte `k` of a `w`-wide RGB grid is channel `k % 3` of pixel `k / 3`.
proof fn lemma_grid3(w: int, h: int, k: int)
    requires
        w > 0,
        0 <= k < w * h * 3,
    ensures
        k == px3(w, (k / 3) % w, (k / 3) / w, k % 3),
        0 <= (k / 3) % w < w,
        0 <= (k / 3) / w < h,
        0 <= k % 3 < 3,
{
    lemma_fundamental_div_mod(k, 3);
    let p = k / 3;
    assert(0 <= p < w * h) by (nonlinear_arith)
        requires k == 3 * p + k % 3, 0 <= k % 3 < 3, 0 <= k < w * h * 3;
    lemma_grid(w, h, p);
}

/// Fill the leftover mark on busy texture: seed the padded window from the
/// template, dilate the seed, replace each masked pixel by the median of
/// its unmasked neighbours, and write the masked pixels back. Returns
/// whether any pixel was seeded (nothing changes when none was).
pub fn fill_busy_residual(data: &mut [u8], img_w: u32, img_h: u32, tpl: &WatermarkTemplate, at_x: u32, at_y: u32)
    -> (any: bool)
    requires
        old(data)@.len() == img_w * img_h * 4,
        tpl.wf(),
        tpl.width + 2 * INPAINT_PAD_BUSY + 2 * MEDIAN_RADIUS + 1 <= i32::MAX,
        tpl.height + 2 * INPAINT_PAD_BUSY + 2 * MEDIAN_RADIUS + 1 <= i32::MAX,
        at_x + tpl.width + INPAINT_PAD_BUSY <= i32::MAX,
        at_y + tpl.height + INPAINT_PAD_BUSY <= i32::MAX,
        img_w <= i32::MAX,
        img_h <= i32::MAX,
        busy_w(*tpl) * busy_h(*tpl) * 3 <= usize::MAX,
    ensures
        final(data)@.len() == old(data)@.len(),
        any == exists|rx: int, ry: int|
            0 <= rx < busy_w(*tpl) && 0 <= ry < busy_h(*tpl)
                && #[trigger] seeds(*tpl, at_x as int, at_y as int, INPAINT_PAD_BUSY as int, img_w as int, img_h as int, rx, ry),
        forall|x: int, y: int, c: int|
            0 <= x < img_w && 0 <= y < img_h && 0 <= c < 4 ==> #[trigger] final(data)@[px4(img_w as int, x, y, c)]
                == written_at(old(data)@, img_w as int, at_x - INPAINT_PAD_BUSY, at_y - INPAINT_PAD_BUSY,
                    busy_w(*tpl), busy_h(*tpl),
                    busy_mask(*tpl, at_x as int, at_y as int, img_w as int, img_h as int),
                    busy_fill(old(data)@, img_w as int, img_h as int, *tpl, at_x as int, at_y as int), x, y, c),
{
    let ghost t = *tpl;
    let ghost d0 = data@;
    let ghost ax = at_x as int;
    let ghost ay = at_y as int;
    let ghost iw = img_w as int;
    let ghost ih = img_h as int;
    let ghost rwn = busy_w(t);
    let ghost rhn = busy_h(t);
    let (pad, dilate) = inpaint_pad_and_dilate(true);
    let rw: u32 = tpl.width + 2 * pad as u32;
    let rh: u32 = tpl.height + 2 * pad as u32;
    assert(rw * rh <= usize::MAX) by (nonlinear_arith)
        requires rw * rh * 3 <= usize::MAX, rw >= 0, rh >= 0;
    let rw_u = rw as usize;
    let rh_u = rh as usize;
    let (seed, any) = inpaint_seed(tpl, at_x, at_y, pad, img_w, img_h);
    proof {
        assert forall|k: int| 0 <= k < rwn * rhn implies #[trigger] seed@[k] == busy_seed(t, ax, ay, iw, ih)[k] by {
            lemma_grid(rwn, rhn, k);
            assert(seed@[px(rwn, k % rwn, k / rwn)] == seeds(t, ax, ay, pad as int, iw, ih, k % rwn, k / rwn));
        }
        assert(seed@ =~= busy_seed(t, ax, ay, iw, ih));
    }
    if !any {
        proof {
            assert forall|x: int, y: int, c: int|
                0 <= x < iw && 0 <= y < ih && 0 <= c < 4 implies #[trigger] data@[px4(iw, x, y, c)]
                    == written_at(d0, iw, ax - pad, ay - pad, rwn, rhn, busy_mask(t, ax, ay, iw, ih),
                        busy_fill(d0, iw, ih, t, ax, ay), x, y, c) by {
                let rx = x - (ax - pad);
                let ry = y - (ay - pad);
                if 0 <= rx < rwn && 0 <= ry < rhn {
                    lemma_px_bounds(rwn, rhn, rx, ry);
                    lemma_grid_of(rwn, rx, ry);
                    if busy_mask(t, ax, ay, iw, ih)[px(rwn, rx, ry)] {
                        let (sx, sy) = choose|sx: int, sy: int|
                            0 <= sx < rwn && 0 <= sy < rhn && #[trigger] busy_seed(t, ax, ay, iw, ih)[px(rwn, sx, sy)]
                                && crate::mask::near(sx, sy, rx, ry, dilate as int);
                        lemma_px_bounds(rwn, rhn, sx, sy);
                        lemma_grid_of(rwn, sx, sy);
                        assert(seeds(t, ax, ay, pad as int, iw, ih, sx, sy));
                    }
                }
            }
        }
        return false;
    }
    let mask = dilate_mask(seed.as_slice(), rw_u, rh_u, dilate);
    proof {
        assert forall|k: int| 0 <= k < rwn * rhn implies #[trigger] mask@[k] == busy_mask(t, ax, ay, iw, ih)[k] by {
            lemma_grid(rwn, rhn, k);
            assert(mask@[px(rwn, k % rwn, k / rwn)]
                == dilate_value(seed@, rwn, rhn, dilate as int, k % rwn, k / rwn));
        }
        assert(mask@ =~= busy_mask(t, ax, ay, iw, ih));
    }
    let x0 = at_x as i64 - pad as i64;
    let y0 = at_y as i64 - pad as i64;
    let mut roi = window_rgb(data, img_w, img_h, x0, y0, rw, rh);
    proof {
        assert forall|k: int| 0 <= k < rwn * rhn * 3 implies #[trigger] roi@[k] == busy_window(d0, iw, ih, t, ax, ay)[k] by {
            lemma_grid3(rwn, rhn, k);
            assert(roi@[px3(rwn, (k / 3) % rwn, (k / 3) / rwn, k % 3)]
                == window_rgb_at(d0, iw, ih, x0 as int, y0 as int, (k / 3) % rwn, (k / 3) / rwn, k % 3));
        }
        assert(roi@ =~= busy_window(d0, iw, ih, t, ax, ay));
    }
    fill_local_median(roi.as_mut_slice(), mask.as_slice(), rw_u, rh_u, MEDIAN_RADIUS);
    proof {
        assert forall|k: int| 0 <= k < rwn * rhn * 3 implies #[trigger] roi@[k] == busy_fill(d0, iw, ih, t, ax, ay)[k] by {
            lemma_grid3(rwn, rhn, k);
            assert(roi@[px3(rwn, (k / 3) % rwn, (k / 3) / rwn, k % 3)]
                == filled_value(busy_window(d0, iw, ih, t, ax, ay), mask@, rwn, rhn, MEDIAN_RADIUS as int,
                    (k / 3) % rwn, (k / 3) / rwn, k % 3));
        }
        assert(roi@ =~= busy_fill(d0, iw, ih, t, ax, ay));
    }
    write_window_rgb(data, img_w, img_h, x0, y0, rw, rh, mask.as_slice(), roi.as_slice());
    true
}

} // verus!
