//! Rectangular windows of an RGBA image: reading a window's colours or flags
//! out, and writing chosen window pixels back. A window's corner may lie
//! outside the image; pixels that fall outside read as zero and are never
//! written.
use vstd::prelude::*;
use crate::mask::{px, lemma_px_bounds, lemma_px_injective};
use crate::detect::{px4, lemma_px4_bounds, lemma_px4_injective};
use crate::fill::{px3, lemma_px3_bounds, lemma_px3_injective};

verus! {

/// Window pixel `(rx, ry)` of a window whose corner is image pixel
/// `(x0, y0)` lies inside the `w × h` image.
pub open spec fn in_image(w: int, h: int, x0: int, y0: int, rx: int, ry: int) -> bool {
    0 <= x0 + rx < w && 0 <= y0 + ry < h
}

/// Channel `c` of window pixel `(rx, ry)`: the image's channel where the
/// pixel lies inside the image, else 0.
pub open spec fn window_rgb_at(data: Seq<u8>, w: int, h: int, x0: int, y0: int, rx: int, ry: int, c: int) -> u8 {
    if in_image(w, h, x0, y0, rx, ry) { data[px4(w, x0 + rx, y0 + ry, c)] } else { 0 }
}

/// Corner coordinates small enough that window arithmetic cannot overflow.
pub open spec fn corner_ok(x0: i64, y0: i64) -> bool {
    -0x1_0000_0000 <= x0 <= 0x1_0000_0000 && -0x1_0000_0000 <= y0 <= 0x1_0000_0000
}

/// Window pixel `(rx, ry)` has been visited by a row-major walk that is at
/// `(cx, cy)`.
pub open spec fn visited(rx: int, ry: int, cx: int, cy: int) -> bool {
    ry < cy || (ry == cy && rx < cx)
}

/// The RGB colours of the `rw × rh` window whose corner is image pixel
/// `(x0, y0)`, three bytes per pixel in row-major order.
pub fn window_rgb(data: &[u8], img_w: u32, img_h: u32, x0: i64, y0: i64, rw: u32, rh: u32) -> (r: Vec<u8>)
    requires
        data@.len() == img_w * img_h * 4,
        rw * rh * 3 <= usize::MAX,
        corner_ok(x0, y0),
    ensures
        r@.len() == rw * rh * 3,
        forall|rx: int, ry: int, c: int|
            0 <= rx < rw && 0 <= ry < rh && 0 <= c < 3 ==> #[trigger] r@[px3(rw as int, rx, ry, c)]
                == window_rgb_at(data@, img_w as int, img_h as int, x0 as int, y0 as int, rx, ry, c),
{
    let ghost wn = rw as int;
    let ghost hn = rh as int;
    let ghost d = data@;
    let ghost iw = img_w as int;
    let ghost ih = img_h as int;
    let n = rw as usize * rh as usize * 3;
    let dlen = data.len();
    let mut r: Vec<u8> = vec![0u8; n];
    proof {
        assert forall|qx: int, qy: int, c: int|
            0 <= qx < wn && 0 <= qy < hn && 0 <= c < 3 implies #[trigger] r@[px3(wn, qx, qy, c)] == 0u8 by {
            lemma_px3_bounds(wn, hn, qx, qy, c);
        }
    }
    let mut ry: u32 = 0;
    while ry < rh
        invariant
            wn == rw, hn == rh, d == data@, iw == img_w, ih == img_h,
            data@.len() == img_w * img_h * 4,
            dlen == data@.len(),
            wn * hn * 3 <= usize::MAX,
            corner_ok(x0, y0),
            r@.len() == wn * hn * 3,
            0 <= ry <= rh,
            forall|qx: int, qy: int, c: int|
                0 <= qx < wn && 0 <= qy < hn && 0 <= c < 3 ==> #[trigger] r@[px3(wn, qx, qy, c)]
                    == (if qy < ry { window_rgb_at(d, iw, ih, x0 as int, y0 as int, qx, qy, c) } else { 0u8 }),
        decreases rh - ry,
    {
        let mut rx: u32 = 0;
        while rx < rw
            invariant
                wn == rw, hn == rh, d == data@, iw == img_w, ih == img_h,
                data@.len() == img_w * img_h * 4,
                dlen == data@.len(),
                wn * hn * 3 <= usize::MAX,
                corner_ok(x0, y0),
                r@.len() == wn * hn * 3,
                0 <= ry < rh,
                0 <= rx <= rw,
                forall|qx: int, qy: int, c: int|
                    0 <= qx < wn && 0 <= qy < hn && 0 <= c < 3 ==> #[trigger] r@[px3(wn, qx, qy, c)]
                        == (if visited(qx, qy, rx as int, ry as int) {
                            window_rgb_at(d, iw, ih, x0 as int, y0 as int, qx, qy, c)
                        } else {
                            0u8
                        }),
            decreases rw - rx,
        {
            let x = x0 + rx as i64;
            let y = y0 + ry as i64;
            let ghost prev = r@;
            if 0 <= x && x < img_w as i64 && 0 <= y && y < img_h as i64 {
                proof {
                    lemma_px4_bounds(iw, ih, x as int, y as int, 0);
                    lemma_px4_bounds(iw, ih, x as int, y as int, 3);
                    lemma_px3_bounds(wn, hn, rx as int, ry as int, 0);
                    lemma_px3_bounds(wn, hn, rx as int, ry as int, 2);
                    assert(y * img_w <= (img_h - 1) * img_w) by (nonlinear_arith)
                        requires 0 <= y < img_h;
                    assert(ry * rw <= (rh - 1) * rw) by (nonlinear_arith)
                        requires 0 <= ry < rh;
                }
                let ii = (y as usize * img_w as usize + x as usize) * 4;
                let oi = (ry as usize * rw as usize + rx as usize) * 3;
                r.set(oi, data[ii]);
                r.set(oi + 1, data[ii + 1]);
                r.set(oi + 2, data[ii + 2]);
            }
            proof {
                assert forall|qx: int, qy: int, c: int|
                    0 <= qx < wn && 0 <= qy < hn && 0 <= c < 3 implies #[trigger] r@[px3(wn, qx, qy, c)]
                        == (if visited(qx, qy, rx + 1, ry as int) {
                            window_rgb_at(d, iw, ih, x0 as int, y0 as int, qx, qy, c)
                        } else {
                            0u8
                        }) by {
                    lemma_px3_bounds(wn, hn, qx, qy, c);
                    if !(qx == rx && qy == ry) {
                        if px3(wn, qx, qy, c) == px3(wn, rx as int, ry as int, 0)
                            || px3(wn, qx, qy, c) == px3(wn, rx as int, ry as int, 1)
                            || px3(wn, qx, qy, c) == px3(wn, rx as int, ry as int, 2) {
                            if px3(wn, qx, qy, c) == px3(wn, rx as int, ry as int, 0) {
                                lemma_px3_injective(wn, qx, qy, c, rx as int, ry as int, 0);
                            } else if px3(wn, qx, qy, c) == px3(wn, rx as int, ry as int, 1) {
                                lemma_px3_injective(wn, qx, qy, c, rx as int, ry as int, 1);
                            } else {
                                lemma_px3_injective(wn, qx, qy, c, rx as int, ry as int, 2);
                            }
                        }
                        assert(r@[px3(wn, qx, qy, c)] == prev[px3(wn, qx, qy, c)]);
                    }
                }
            }
            rx = rx + 1;
        }
        ry = ry + 1;
    }
    r
}

/// Channel `c` of image pixel `(x, y)` once the masked pixels of the
/// `rw × rh` window at `(x0, y0)` have been written from `rgb`: the window's
/// colour for the three colour channels of a masked window pixel, else the
/// old byte (alpha is never written).
pub open spec fn written_at(
    old: Seq<u8>, w: int, x0: int, y0: int, rw: int, rh: int, mask: Seq<bool>, rgb: Seq<u8>,
    x: int, y: int, c: int,
) -> u8 {
    let rx = x - x0;
    let ry = y - y0;
    if c < 3 && 0 <= rx < rw && 0 <= ry < rh && mask[px(rw, rx, ry)] {
        rgb[px3(rw, rx, ry, c)]
    } else {
        old[px4(w, x, y, c)]
    }
}

/// Write the colours of the masked pixels of the `rw × rh` window at
/// `(x0, y0)` back into the image; pixels outside the image are skipped.
pub fn write_window_rgb(
    data: &mut [u8], img_w: u32, img_h: u32, x0: i64, y0: i64, rw: u32, rh: u32,
    mask: &[bool], rgb: &[u8],
)
    requires
        old(data)@.len() == img_w * img_h * 4,
        mask@.len() == rw * rh,
        rgb@.len() == rw * rh * 3,
        corner_ok(x0, y0),
    ensures
        final(data)@.len() == old(data)@.len(),
        forall|x: int, y: int, c: int|
            0 <= x < img_w && 0 <= y < img_h && 0 <= c < 4 ==> #[trigger] final(data)@[px4(img_w as int, x, y, c)]
                == written_at(old(data)@, img_w as int, x0 as int, y0 as int, rw as int, rh as int, mask@, rgb@, x, y, c),
{
    let ghost wn = rw as int;
    let ghost hn = rh as int;
    let ghost d0 = data@;
    let ghost iw = img_w as int;
    let ghost ih = img_h as int;
    let ghost m = mask@;
    let ghost g = rgb@;
    let dlen = data.len();
    let mlen = mask.len();
    let glen = rgb.len();
    let mut ry: u32 = 0;
    while ry < rh
        invariant
            wn == rw, hn == rh, iw == img_w, ih == img_h, m == mask@, g == rgb@,
            d0.len() == img_w * img_h * 4,
            data@.len() == d0.len(),
            dlen == data@.len(),
            mlen == mask@.len(), glen == rgb@.len(),
            mask@.len() == rw * rh,
            rgb@.len() == rw * rh * 3,
            corner_ok(x0, y0),
            0 <= ry <= rh,
            forall|x: int, y: int, c: int|
                0 <= x < iw && 0 <= y < ih && 0 <= c < 4 ==> #[trigger] data@[px4(iw, x, y, c)]
                    == (if visited(x - x0, y - y0, 0, ry as int) {
                        written_at(d0, iw, x0 as int, y0 as int, wn, hn, m, g, x, y, c)
                    } else {
                        d0[px4(iw, x, y, c)]
                    }),
        decreases rh - ry,
    {
        let mut rx: u32 = 0;
        while rx < rw
            invariant
                wn == rw, hn == rh, iw == img_w, ih == img_h, m == mask@, g == rgb@,
                d0.len() == img_w * img_h * 4,
                data@.len() == d0.len(),
                dlen == data@.len(),
                mlen == mask@.len(), glen == rgb@.len(),
                mask@.len() == rw * rh,
                rgb@.len() == rw * rh * 3,
                corner_ok(x0, y0),
                0 <= ry < rh,
                0 <= rx <= rw,
                forall|x: int, y: int, c: int|
                    0 <= x < iw && 0 <= y < ih && 0 <= c < 4 ==> #[trigger] data@[px4(iw, x, y, c)]
                        == (if 0 <= x - x0 < wn && visited(x - x0, y - y0, rx as int, ry as int) {
                            written_at(d0, iw, x0 as int, y0 as int, wn, hn, m, g, x, y, c)
                        } else {
                            d0[px4(iw, x, y, c)]
                        }),
            decreases rw - rx,
        {
            let x = x0 + rx as i64;
            let y = y0 + ry as i64;
            let ghost prev = data@;
            proof {
                lemma_px_bounds(wn, hn, rx as int, ry as int);
                assert(ry * rw <= (rh - 1) * rw) by (nonlinear_arith)
                    requires 0 <= ry < rh;
            }
            let k = ry as usize * rw as usize + rx as usize;
            if mask[k] && 0 <= x && x < img_w as i64 && 0 <= y && y < img_h as i64 {
                proof {
                    lemma_px4_bounds(iw, ih, x as int, y as int, 3);
                    lemma_px3_bounds(wn, hn, rx as int, ry as int, 2);
                    assert(y * img_w <= (img_h - 1) * img_w) by (nonlinear_arith)
                        requires 0 <= y < img_h;
                }
                let ii = (y as usize * img_w as usize + x as usize) * 4;
                let oi = k * 3;
                data[ii] = rgb[oi];
                data[ii + 1] = rgb[oi + 1];
                data[ii + 2] = rgb[oi + 2];
            }
            proof {
                assert forall|qx: int, qy: int, c: int|
                    0 <= qx < iw && 0 <= qy < ih && 0 <= c < 4 implies #[trigger] data@[px4(iw, qx, qy, c)]
                        == (if 0 <= qx - x0 < wn && visited(qx - x0, qy - y0, rx + 1, ry as int) {
                            written_at(d0, iw, x0 as int, y0 as int, wn, hn, m, g, qx, qy, c)
                        } else {
                            d0[px4(iw, qx, qy, c)]
                        }) by {
                    lemma_px4_bounds(iw, ih, qx, qy, c);
                    if qx == x && qy == y {
                        assert(qx - x0 == rx && qy - y0 == ry);
                    } else {
                        if 0 <= x < iw && 0 <= y < ih {
                            if px4(iw, qx, qy, c) == px4(iw, x as int, y as int, 0) {
                                lemma_px4_injective(iw, qx, qy, c, x as int, y as int, 0);
                            }
                            if px4(iw, qx, qy, c) == px4(iw, x as int, y as int, 1) {
                                lemma_px4_injective(iw, qx, qy, c, x as int, y as int, 1);
                            }
                            if px4(iw, qx, qy, c) == px4(iw, x as int, y as int, 2) {
                                lemma_px4_injective(iw, qx, qy, c, x as int, y as int, 2);
                            }
                        }
                        assert(data@[px4(iw, qx, qy, c)] == prev[px4(iw, qx, qy, c)]);
                    }
                }
            }
            rx = rx + 1;
        }
        proof {
            assert forall|x: int, y: int, c: int|
                0 <= x < iw && 0 <= y < ih && 0 <= c < 4 implies #[trigger] data@[px4(iw, x, y, c)]
                    == (if visited(x - x0, y - y0, 0, ry + 1) {
                        written_at(d0, iw, x0 as int, y0 as int, wn, hn, m, g, x, y, c)
                    } else {
                        d0[px4(iw, x, y, c)]
                    }) by {
                if visited(x - x0, y - y0, 0, ry + 1) && !(0 <= x - x0 < wn && visited(x - x0, y - y0, rx as int, ry as int)) {
                    // Outside the window's columns, or in an earlier row: nothing is written there.
                    if !(0 <= x - x0 < wn) {
                        assert(written_at(d0, iw, x0 as int, y0 as int, wn, hn, m, g, x, y, c) == d0[px4(iw, x, y, c)]);
                    }
                }
            }
        }
        ry = ry + 1;
    }
    proof {
        assert forall|x: int, y: int, c: int|
            0 <= x < iw && 0 <= y < ih && 0 <= c < 4 implies #[trigger] data@[px4(iw, x, y, c)]
                == written_at(d0, iw, x0 as int, y0 as int, wn, hn, m, g, x, y, c) by {
            if !visited(x - x0, y - y0, 0, ry as int) {
                assert(!(0 <= y - y0 < hn));
            }
        }
    }
}

/// Window pixel `(rx, ry)` is flagged: the per-pixel mask covers the whole
/// `w × h` image and is non-zero at the image pixel under it.
pub open spec fn window_flag_at(mask: Seq<u8>, w: int, h: int, x0: int, y0: int, rx: int, ry: int) -> bool {
    &&& mask.len() == w * h
    &&& in_image(w, h, x0, y0, rx, ry)
    &&& mask[px(w, x0 + rx, y0 + ry)] != 0
}

/// The flags of the `rw × rh` window at `(x0, y0)` read from a per-pixel
/// image mask; all clear when the mask does not match the image size.
pub fn window_flags(mask: &[u8], img_w: u32, img_h: u32, x0: i64, y0: i64, rw: u32, rh: u32) -> (r: Vec<bool>)
    requires
        rw * rh <= usize::MAX,
        corner_ok(x0, y0),
    ensures
        r@.len() == rw * rh,
        forall|rx: int, ry: int|
            0 <= rx < rw && 0 <= ry < rh ==> #[trigger] r@[px(rw as int, rx, ry)]
                == window_flag_at(mask@, img_w as int, img_h as int, x0 as int, y0 as int, rx, ry),
{
    let ghost wn = rw as int;
    let ghost hn = rh as int;
    let ghost mk = mask@;
    let ghost iw = img_w as int;
    let ghost ih = img_h as int;
    let n = rw as usize * rh as usize;
    let mut r: Vec<bool> = vec![false; n];
    proof {
        assert forall|qx: int, qy: int| 0 <= qx < wn && 0 <= qy < hn implies #[trigger] r@[px(wn, qx, qy)] == false by {
            lemma_px_bounds(wn, hn, qx, qy);
        }
    }
    let mlen = mask.len();
    let full = match (img_w as usize).checked_mul(img_h as usize) {
        Some(p) => mlen == p,
        None => false,
    };
    if !full {
        return r;
    }
    let mut ry: u32 = 0;
    while ry < rh
        invariant
            wn == rw, hn == rh, mk == mask@, iw == img_w, ih == img_h,
            mask@.len() == img_w * img_h,
            mlen == mask@.len(),
            wn * hn <= usize::MAX,
            corner_ok(x0, y0),
            r@.len() == wn * hn,
            0 <= ry <= rh,
            forall|qx: int, qy: int|
                0 <= qx < wn && 0 <= qy < hn ==> #[trigger] r@[px(wn, qx, qy)]
                    == (qy < ry && window_flag_at(mk, iw, ih, x0 as int, y0 as int, qx, qy)),
        decreases rh - ry,
    {
        let mut rx: u32 = 0;
        while rx < rw
            invariant
                wn == rw, hn == rh, mk == mask@, iw == img_w, ih == img_h,
                mask@.len() == img_w * img_h,
                mlen == mask@.len(),
                wn * hn <= usize::MAX,
                corner_ok(x0, y0),
                r@.len() == wn * hn,
                0 <= ry < rh,
                0 <= rx <= rw,
                forall|qx: int, qy: int|
                    0 <= qx < wn && 0 <= qy < hn ==> #[trigger] r@[px(wn, qx, qy)]
                        == (visited(qx, qy, rx as int, ry as int) && window_flag_at(mk, iw, ih, x0 as int, y0 as int, qx, qy)),
            decreases rw - rx,
        {
            let x = x0 + rx as i64;
            let y = y0 + ry as i64;
            let ghost prev = r@;
            if 0 <= x && x < img_w as i64 && 0 <= y && y < img_h as i64 {
                proof {
                    lemma_px_bounds(iw, ih, x as int, y as int);
                    lemma_px_bounds(wn, hn, rx as int, ry as int);
                    assert(y * img_w <= (img_h - 1) * img_w) by (nonlinear_arith)
                        requires 0 <= y < img_h;
                    assert(ry * rw <= (rh - 1) * rw) by (nonlinear_arith)
                        requires 0 <= ry < rh;
                }
                if mask[y as usize * img_w as usize + x as usize] != 0 {
                    r.set(ry as usize * rw as usize + rx as usize, true);
                }
            }
            proof {
                assert forall|qx: int, qy: int|
                    0 <= qx < wn && 0 <= qy < hn implies #[trigger] r@[px(wn, qx, qy)]
                        == (visited(qx, qy, rx + 1, ry as int) && window_flag_at(mk, iw, ih, x0 as int, y0 as int, qx, qy)) by {
                    lemma_px_bounds(wn, hn, qx, qy);
                    if !(qx == rx && qy == ry) {
                        if px(wn, qx, qy) == px(wn, rx as int, ry as int) {
                            lemma_px_injective(wn, qx, qy, rx as int, ry as int);
                        }
                        assert(r@[px(wn, qx, qy)] == prev[px(wn, qx, qy)]);
                    }
                }
            }
            rx = rx + 1;
        }
        ry = ry + 1;
    }
    r
}

/// Writing a window's own colours back, under any mask, leaves every byte
/// of the image as it was.
pub proof fn lemma_write_back_own_colours_is_identity(
    data: Seq<u8>, w: int, h: int, x0: int, y0: int, rw: int, rh: int, mask: Seq<bool>, rgb: Seq<u8>,
    x: int, y: int, c: int,
)
    requires
        data.len() == w * h * 4,
        0 <= x < w,
        0 <= y < h,
        0 <= c < 4,
        rgb.len() == rw * rh * 3,
        forall|rx: int, ry: int, k: int| 0 <= rx < rw && 0 <= ry < rh && 0 <= k < 3 ==>
            #[trigger] rgb[px3(rw, rx, ry, k)] == window_rgb_at(data, w, h, x0, y0, rx, ry, k),
    ensures
        written_at(data, w, x0, y0, rw, rh, mask, rgb, x, y, c) == data[px4(w, x, y, c)],
{
    let rx = x - x0;
    let ry = y - y0;
    if c < 3 && 0 <= rx < rw && 0 <= ry < rh && mask[px(rw, rx, ry)] {
        assert(rgb[px3(rw, rx, ry, c)] == window_rgb_at(data, w, h, x0, y0, rx, ry, c));
    }
}

/// A write-back changes only the colour channels of masked window pixels:
/// the alpha channel, pixels outside the window and unmasked pixels keep
/// their bytes.
pub proof fn lemma_write_back_touches_only_masked_colour(
    data: Seq<u8>, w: int, x0: int, y0: int, rw: int, rh: int, mask: Seq<bool>, rgb: Seq<u8>,
    x: int, y: int, c: int,
)
    requires
        written_at(data, w, x0, y0, rw, rh, mask, rgb, x, y, c) != data[px4(w, x, y, c)],
    ensures
        c < 3,
        0 <= x - x0 < rw,
        0 <= y - y0 < rh,
        mask[px(rw, x - x0, y - y0)],
{
}

} // verus!
