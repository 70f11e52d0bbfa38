//! Footprint of a template placed on an image: which template pixels land on
//! which image pixels. Reverse alpha-blending walks exactly these pairs.
use vstd::prelude::*;
use crate::mask::{px, lemma_px_bounds, lemma_px_injective};
use vstd::arithmetic::div_mod::lemma_fundamental_div_mod;

verus! {

/// A template pixel and the image pixel it lands on (row-major pixel indices).
#[derive(Clone, Copy, Debug, PartialEq, Eq, Structural)]
pub struct FootprintCell {
    pub tpl_index: usize,
    pub img_index: usize,
}

/// Template pixel `k` (row-major, width `tw`) placed at `(at_x, at_y)` lands
/// inside the `iw × ih` image.
pub open spec fn lands_inside(tw: int, iw: int, ih: int, at_x: int, at_y: int) -> spec_fn(int) -> bool {
    |k: int| 0 <= at_x + k % tw < iw && 0 <= at_y + k / tw < ih
}

/// The cell of template pixel `k`.
pub open spec fn cell_of(tw: int, iw: int, at_x: int, at_y: int) -> spec_fn(int) -> FootprintCell {
    |k: int| FootprintCell { tpl_index: k as usize, img_index: px(iw, at_x + k % tw, at_y + k / tw) as usize }
}

/// The indices `0, 1, …, n − 1`.
pub open spec fn indices(n: nat) -> Seq<int> {
    Seq::new(n, |k: int| k)
}

/// All template pixels in row-major order that land inside the image, with
/// the image pixel each lands on.
pub open spec fn footprint_spec(iw: int, ih: int, tw: int, th: int, at_x: int, at_y: int) -> Seq<FootprintCell> {
    indices((tw * th) as nat).filter(lands_inside(tw, iw, ih, at_x, at_y))
        .map_values(cell_of(tw, iw, at_x, at_y))
}

/// The footprint of a `tpl_w × tpl_h` template whose top-left corner sits at
/// `(at_x, at_y)` on an `img_w × img_h` image (the corner may lie outside).
pub fn footprint(img_w: u32, img_h: u32, tpl_w: u32, tpl_h: u32, at_x: i32, at_y: i32) -> (r: Vec<FootprintCell>)
    requires
        tpl_w <= i32::MAX,
        tpl_h <= i32::MAX,
        at_x + tpl_w <= i32::MAX,
        at_y + tpl_h <= i32::MAX,
        tpl_w * tpl_h <= usize::MAX,
        img_w * img_h <= usize::MAX,
    ensures
        r@ == footprint_spec(img_w as int, img_h as int, tpl_w as int, tpl_h as int, at_x as int, at_y as int),
        forall|i: int| 0 <= i < r@.len() ==> (#[trigger] r@[i]).tpl_index < tpl_w * tpl_h
            && r@[i].img_index < img_w * img_h,
{
    let ghost tw = tpl_w as int;
    let ghost th = tpl_h as int;
    let ghost iw = img_w as int;
    let ghost ih = img_h as int;
    let ghost keep = lands_inside(tw, iw, ih, at_x as int, at_y as int);
    let ghost cell = cell_of(tw, iw, at_x as int, at_y as int);
    let mut r: Vec<FootprintCell> = Vec::new();
    let mut ty: u32 = 0;
    while ty < tpl_h
        invariant
            0 <= ty <= th,
            tw == tpl_w,
            th == tpl_h,
            iw == img_w,
            ih == img_h,
            keep == lands_inside(tw, iw, ih, at_x as int, at_y as int),
            cell == cell_of(tw, iw, at_x as int, at_y as int),
            tpl_w <= i32::MAX,
            tpl_h <= i32::MAX,
            at_x + tpl_w <= i32::MAX,
            at_y + tpl_h <= i32::MAX,
            tw * th <= usize::MAX,
            iw * ih <= usize::MAX,
            r@ == indices((ty * tw) as nat).filter(keep).map_values(cell),
            forall|i: int| 0 <= i < r@.len() ==> (#[trigger] r@[i]).tpl_index < tw * th && r@[i].img_index < iw * ih,
        decreases th - ty,
    {
        let mut tx: u32 = 0;
        while tx < tpl_w
            invariant
                0 <= ty < th,
                0 <= tx <= tw,
                tw == tpl_w,
                th == tpl_h,
                iw == img_w,
                ih == img_h,
                keep == lands_inside(tw, iw, ih, at_x as int, at_y as int),
                cell == cell_of(tw, iw, at_x as int, at_y as int),
                tpl_w <= i32::MAX,
                tpl_h <= i32::MAX,
                at_x + tpl_w <= i32::MAX,
                at_y + tpl_h <= i32::MAX,
                tw * th <= usize::MAX,
                iw * ih <= usize::MAX,
                r@ == indices((ty * tw + tx) as nat).filter(keep).map_values(cell),
                forall|i: int| 0 <= i < r@.len() ==> (#[trigger] r@[i]).tpl_index < tw * th && r@[i].img_index < iw * ih,
            decreases tw - tx,
        {
            let y = at_y + ty as i32;
            let x = at_x + tx as i32;
            let ghost k: int = ty * tw + tx;
            let ghost sub = indices(k as nat);
            let ghost nxt = indices((k + 1) as nat);
            proof {
                assert(k % tw == tx && k / tw == ty) by (nonlinear_arith)
                    requires k == ty * tw + tx, 0 <= tx < tw, ty >= 0;
                lemma_px_bounds(tw, th, tx as int, ty as int);
                reveal_with_fuel(Seq::<_>::filter, 1);
                assert(nxt.drop_last() =~= sub);
                assert(nxt.last() == k);
                assert(nxt.filter(keep) == (if keep(k) { sub.filter(keep).push(k) } else { sub.filter(keep) }));
                assert(sub.filter(keep).push(k).map_values(cell) =~= sub.filter(keep).map_values(cell).push(cell(k)));
                assert(keep(k) == (0 <= x < iw && 0 <= y < ih));
            }
            if y >= 0 && (y as u32) < img_h && x >= 0 && (x as u32) < img_w {
                proof {
                    lemma_px_bounds(iw, ih, x as int, y as int);
                }
                let c = FootprintCell {
                    tpl_index: ty as usize * tpl_w as usize + tx as usize,
                    img_index: y as usize * img_w as usize + x as usize,
                };
                r.push(c);
                proof {
                    assert(cell(k) == c);
                }
            }
            proof {
                assert((ty * tw + tx + 1) as nat == (k + 1) as nat);
            }
            tx = tx + 1;
        }
        proof {
            assert(ty * tw + tw == (ty + 1) * tw) by (nonlinear_arith);
        }
        ty = ty + 1;
    }
    proof {
        assert(th * tw == tw * th) by (nonlinear_arith);
        assert(indices((th * tw) as nat) =~= indices((tw * th) as nat));
    }
    r
}

/// Filtering `0..n` keeps a strictly increasing run of kept indices below `n`,
/// and keeps all of `0..n` when every index passes.
pub(crate) proof fn lemma_filter_range(n: nat, keep: spec_fn(int) -> bool)
    ensures
        forall|i: int, j: int| 0 <= i < j < indices(n).filter(keep).len() ==>
            #[trigger] indices(n).filter(keep)[i] < #[trigger] indices(n).filter(keep)[j],
        forall|i: int| 0 <= i < indices(n).filter(keep).len() ==>
            0 <= #[trigger] indices(n).filter(keep)[i] < n && keep(indices(n).filter(keep)[i]),
        (forall|k: int| 0 <= k < n ==> #[trigger] keep(k)) ==> indices(n).filter(keep) == indices(n),
    decreases n,
{
    reveal_with_fuel(Seq::<_>::filter, 1);
    let s = indices(n);
    if n > 0 {
        let p = indices((n - 1) as nat);
        lemma_filter_range((n - 1) as nat, keep);
        assert(s.drop_last() =~= p);
        if forall|k: int| 0 <= k < n ==> #[trigger] keep(k) {
            assert(forall|k: int| 0 <= k < n - 1 ==> #[trigger] keep(k));
            assert(s.filter(keep) =~= s);
        }
    } else {
        assert(s.filter(keep) =~= s);
    }
}

/// Each image pixel receives at most one template pixel, so a footprint can
/// be processed pixel by pixel in any order.
pub proof fn lemma_footprint_injective(iw: int, ih: int, tw: int, th: int, at_x: int, at_y: int, i: int, j: int)
    requires
        tw >= 1,
        th >= 0,
        iw * ih <= usize::MAX,
        tw * th <= usize::MAX,
        0 <= i < j < footprint_spec(iw, ih, tw, th, at_x, at_y).len(),
    ensures
        footprint_spec(iw, ih, tw, th, at_x, at_y)[i].img_index != footprint_spec(iw, ih, tw, th, at_x, at_y)[j].img_index,
        footprint_spec(iw, ih, tw, th, at_x, at_y)[i].tpl_index < footprint_spec(iw, ih, tw, th, at_x, at_y)[j].tpl_index,
{
    let keep = lands_inside(tw, iw, ih, at_x, at_y);
    let f = indices((tw * th) as nat).filter(keep);
    lemma_filter_range((tw * th) as nat, keep);
    let k1 = f[i];
    let k2 = f[j];
    assert(k1 < k2);
    assert(keep(k1) && keep(k2));
    lemma_fundamental_div_mod(k1, tw);
    lemma_fundamental_div_mod(k2, tw);
    let x1 = at_x + k1 % tw;
    let y1 = at_y + k1 / tw;
    let x2 = at_x + k2 % tw;
    let y2 = at_y + k2 / tw;
    lemma_px_bounds(iw, ih, x1, y1);
    lemma_px_bounds(iw, ih, x2, y2);
    if px(iw, x1, y1) == px(iw, x2, y2) {
        lemma_px_injective(iw, x1, y1, x2, y2);
        assert(k1 == k2);
    }
}

/// A template placed wholly inside the image covers exactly its own pixels:
/// template pixel `k` lands on image pixel `(at_x + k mod tw, at_y + k div tw)`.
pub proof fn lemma_footprint_inside(iw: int, ih: int, tw: int, th: int, at_x: int, at_y: int)
    requires
        tw >= 1,
        th >= 0,
        0 <= at_x,
        at_x + tw <= iw,
        0 <= at_y,
        at_y + th <= ih,
    ensures
        footprint_spec(iw, ih, tw, th, at_x, at_y).len() == tw * th,
        forall|k: int| 0 <= k < tw * th ==> #[trigger] footprint_spec(iw, ih, tw, th, at_x, at_y)[k]
            == cell_of(tw, iw, at_x, at_y)(k),
{
    let keep = lands_inside(tw, iw, ih, at_x, at_y);
    assert forall|k: int| 0 <= k < tw * th implies #[trigger] keep(k) by {
        lemma_fundamental_div_mod(k, tw);
        assert(0 <= k % tw < tw);
        assert(k / tw < th) by (nonlinear_arith) requires 0 <= k < tw * th, tw >= 1, k == tw * (k / tw) + k % tw, 0 <= k % tw;
        assert(k / tw >= 0) by (nonlinear_arith) requires 0 <= k, tw >= 1;
    }
    assert(tw * th >= 0) by (nonlinear_arith) requires tw >= 1, th >= 0;
    lemma_filter_range((tw * th) as nat, keep);
}

} // verus!
