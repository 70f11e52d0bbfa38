//! Local-median fill of masked pixels on busy texture: each masked pixel
//! takes, per channel, the median of the unmasked pixels around it.
use vstd::prelude::*;
use vstd::relations::{sorted_by, total_ordering};
use vstd::seq_lib::{lemma_sorted_unique, to_multiset_insert, to_multiset_build};
use crate::mask::{px, lemma_px_bounds, lemma_px_injective};
use crate::blend::indices;

verus! {

/// The usual order on bytes.
pub open spec fn byte_leq() -> spec_fn(u8, u8) -> bool {
    |a: u8, b: u8| a <= b
}

/// Byte order is a total order.
pub proof fn lemma_byte_leq_total()
    ensures
        total_ordering(byte_leq()),
{
}

/// The median of a non-empty sequence of bytes: the element at position
/// `len / 2` of its sorted order (the upper median for even lengths).
pub open spec fn median_spec(s: Seq<u8>) -> u8 {
    s.sort_by(byte_leq())[(s.len() / 2) as int]
}

/// A sorted copy of `v` (same elements, ascending).
pub fn sorted_bytes(v: &Vec<u8>) -> (r: Vec<u8>)
    ensures
        r@ == v@.sort_by(byte_leq()),
{
    let mut out: Vec<u8> = Vec::new();
    let mut i: usize = 0;
    assert(v@.subrange(0, 0) =~= out@);
    while i < v.len()
        invariant
            0 <= i <= v.len(),
            sorted_by(out@, byte_leq()),
            out@.to_multiset() == v@.subrange(0, i as int).to_multiset(),
            out@.len() == i,
        decreases v.len() - i,
    {
        let x = v[i];
        let mut j: usize = 0;
        while j < out.len() && out[j] <= x
            invariant
                0 <= j <= out@.len(),
                forall|k: int| 0 <= k < j ==> out@[k] <= x,
            decreases out@.len() - j,
        {
            j = j + 1;
        }
        let ghost before = out@;
        out.insert(j, x);
        proof {
            to_multiset_insert(before, j as int, x);
            assert(v@.subrange(0, i + 1) =~= v@.subrange(0, i as int).push(x));
            to_multiset_build(v@.subrange(0, i as int), x);
            assert(forall|k: int| j <= k < before.len() ==> before[k] > x) by {
                if j < before.len() {
                    assert(before[j as int] > x);
                    assert forall|k: int| j <= k < before.len() implies before[k] > x by {
                        assert(byte_leq()(before[j as int], before[k]) || k == j);
                    }
                }
            }
            assert forall|a: int, b: int| 0 <= a < b < out@.len() implies #[trigger] byte_leq()(out@[a], out@[b]) by {
                if b < j {
                    assert(byte_leq()(before[a], before[b]));
                } else if a < j && b == j {
                } else if a < j {
                    assert(byte_leq()(before[a], before[b - 1]));
                } else if a == j {
                } else {
                    assert(byte_leq()(before[a - 1], before[b - 1]));
                }
            }
        }
        i = i + 1;
    }
    proof {
        assert(v@.subrange(0, v@.len() as int) =~= v@);
        lemma_byte_leq_total();
        v@.lemma_sort_by_ensures(byte_leq());
        lemma_sorted_unique(out@, v@.sort_by(byte_leq()), byte_leq());
    }
    out
}

/// The median (element `len / 2` of the sorted order) of a non-empty vector.
pub fn median_byte(v: &Vec<u8>) -> (m: u8)
    requires
        v@.len() > 0,
    ensures
        m == median_spec(v@),
{
    let s = sorted_bytes(v);
    proof {
        lemma_byte_leq_total();
        v@.lemma_sort_by_ensures(byte_leq());
        assert(s@.to_multiset().len() == v@.to_multiset().len());
        vstd::seq_lib::to_multiset_len(s@);
        vstd::seq_lib::to_multiset_len(v@);
    }
    s[v.len() / 2]
}

/// Index of channel `c` of pixel `(x, y)` in an RGB buffer of width `w`.
pub open spec fn px3(w: int, x: int, y: int, c: int) -> int {
    px(w, x, y) * 3 + c
}

/// A channel of a pixel inside a `w × h` RGB grid indexes inside its bytes.
pub proof fn lemma_px3_bounds(w: int, h: int, x: int, y: int, c: int)
    requires
        0 <= x < w,
        0 <= y < h,
        0 <= c < 3,
    ensures
        0 <= px3(w, x, y, c) < w * h * 3,
{
    lemma_px_bounds(w, h, x, y);
    assert(0 <= px(w, x, y) * 3 + c < w * h * 3) by (nonlinear_arith)
        requires 0 <= px(w, x, y) < w * h, 0 <= c < 3;
}

/// Distinct channels of distinct pixels occupy distinct RGB bytes.
pub proof fn lemma_px3_injective(w: int, x1: int, y1: int, c1: int, x2: int, y2: int, c2: int)
    requires
        0 <= x1 < w,
        0 <= x2 < w,
        0 <= y1,
        0 <= y2,
        0 <= c1 < 3,
        0 <= c2 < 3,
        px3(w, x1, y1, c1) == px3(w, x2, y2, c2),
    ensures
        x1 == x2 && y1 == y2 && c1 == c2,
{
    assert(px(w, x1, y1) == px(w, x2, y2) && c1 == c2) by (nonlinear_arith)
        requires
            px(w, x1, y1) * 3 + c1 == px(w, x2, y2) * 3 + c2,
            0 <= c1 < 3,
            0 <= c2 < 3;
    lemma_px_injective(w, x1, y1, x2, y2);
}

/// Number of offsets in the `(2r+1) × (2r+1)` window (none for `r < 0`).
pub open spec fn window_len(r: int) -> nat {
    if r < 0 { 0 } else { ((2 * r + 1) * (2 * r + 1)) as nat }
}

/// Column of window offset `k` around `(x, y)` (row-major from `(x − r, y − r)`).
pub open spec fn win_x(r: int, x: int, k: int) -> int {
    x + k % (2 * r + 1) - r
}

/// Row of window offset `k` around `(x, y)`.
pub open spec fn win_y(r: int, y: int, k: int) -> int {
    y + k / (2 * r + 1) - r
}

/// Window offset `k` is a source: inside the grid and not masked.
pub open spec fn source_ok(mask: Seq<bool>, mw: int, mh: int, r: int, x: int, y: int) -> spec_fn(int) -> bool {
    |k: int| 0 <= win_x(r, x, k) < mw && 0 <= win_y(r, y, k) < mh && !mask[px(mw, win_x(r, x, k), win_y(r, y, k))]
}

/// Channel `c` of the pixel at window offset `k`.
pub open spec fn source_value(src: Seq<u8>, mw: int, r: int, x: int, y: int, c: int) -> spec_fn(int) -> u8 {
    |k: int| src[px3(mw, win_x(r, x, k), win_y(r, y, k), c)]
}

/// Channel `c` of the unmasked pixels within `r` of `(x, y)`, in scan order.
pub open spec fn sources(src: Seq<u8>, mask: Seq<bool>, mw: int, mh: int, r: int, x: int, y: int, c: int) -> Seq<u8> {
    indices(window_len(r)).filter(source_ok(mask, mw, mh, r, x, y)).map_values(source_value(src, mw, r, x, y, c))
}

/// Channel `c` of pixel `(x, y)` after the fill: the median of its sources
/// when it is masked and has any, else unchanged.
pub open spec fn filled_value(src: Seq<u8>, mask: Seq<bool>, mw: int, mh: int, r: int, x: int, y: int, c: int) -> u8 {
    if mask[px(mw, x, y)] && sources(src, mask, mw, mh, r, x, y, 0).len() > 0 {
        median_spec(sources(src, mask, mw, mh, r, x, y, c))
    } else {
        src[px3(mw, x, y, c)]
    }
}

/// The three channels of the sources of `(x, y)`.
fn gather(src: &Vec<u8>, mask: &[bool], mw: usize, mh: usize, rad: i32, x: i32, y: i32)
    -> (r: (Vec<u8>, Vec<u8>, Vec<u8>))
    requires
        src@.len() == mw * mh * 3,
        mask@.len() == mw * mh,
        0 <= x < mw,
        0 <= y < mh,
        0 <= rad,
        mw + 2 * rad + 1 <= i32::MAX,
        mh + 2 * rad + 1 <= i32::MAX,
    ensures
        r.0@ == sources(src@, mask@, mw as int, mh as int, rad as int, x as int, y as int, 0),
        r.1@ == sources(src@, mask@, mw as int, mh as int, rad as int, x as int, y as int, 1),
        r.2@ == sources(src@, mask@, mw as int, mh as int, rad as int, x as int, y as int, 2),
{
    let ghost rn = rad as int;
    let ghost kk = 2 * rn + 1;
    let ghost wn = mw as int;
    let ghost hn = mh as int;
    let ghost ok = source_ok(mask@, wn, hn, rn, x as int, y as int);
    let ghost v0 = source_value(src@, wn, rn, x as int, y as int, 0);
    let ghost v1 = source_value(src@, wn, rn, x as int, y as int, 1);
    let ghost v2 = source_value(src@, wn, rn, x as int, y as int, 2);
    let n3 = src.len();
    let mut rs: Vec<u8> = Vec::new();
    let mut gs: Vec<u8> = Vec::new();
    let mut bs: Vec<u8> = Vec::new();
    let mw_i = mw as i32;
    let mh_i = mh as i32;
    let mut dy: i32 = -rad;
    proof {
        reveal_with_fuel(Seq::<_>::filter, 1);
        assert(dy + rn == 0);
        assert((dy + rn) * kk == 0) by (nonlinear_arith) requires dy + rn == 0;
        assert(indices(0).filter(ok) =~= Seq::<int>::empty());
        assert(indices(0).filter(ok).map_values(v0) =~= rs@);
        assert(indices(0).filter(ok).map_values(v1) =~= gs@);
        assert(indices(0).filter(ok).map_values(v2) =~= bs@);
    }
    while dy <= rad
        invariant
            -rn <= dy <= rn + 1,
            rn == rad, kk == 2 * rn + 1, wn == mw, hn == mh,
            mw_i == mw, mh_i == mh,
            0 <= rad,
            0 <= x < mw,
            0 <= y < mh,
            mw + 2 * rad + 1 <= i32::MAX,
            mh + 2 * rad + 1 <= i32::MAX,
            src@.len() == wn * hn * 3,
            wn * hn * 3 <= usize::MAX,
            mask@.len() == wn * hn,
            ok == source_ok(mask@, wn, hn, rn, x as int, y as int),
            v0 == source_value(src@, wn, rn, x as int, y as int, 0),
            v1 == source_value(src@, wn, rn, x as int, y as int, 1),
            v2 == source_value(src@, wn, rn, x as int, y as int, 2),
            rs@ == indices(((dy + rn) * kk) as nat).filter(ok).map_values(v0),
            gs@ == indices(((dy + rn) * kk) as nat).filter(ok).map_values(v1),
            bs@ == indices(((dy + rn) * kk) as nat).filter(ok).map_values(v2),
        decreases rn + 1 - dy,
    {
        let mut dx: i32 = -rad;
        while dx <= rad
            invariant
                -rn <= dy <= rn,
                -rn <= dx <= rn + 1,
                rn == rad, kk == 2 * rn + 1, wn == mw, hn == mh,
                mw_i == mw, mh_i == mh,
                0 <= rad,
                0 <= x < mw,
                0 <= y < mh,
                mw + 2 * rad + 1 <= i32::MAX,
                mh + 2 * rad + 1 <= i32::MAX,
                src@.len() == wn * hn * 3,
                wn * hn * 3 <= usize::MAX,
                mask@.len() == wn * hn,
                ok == source_ok(mask@, wn, hn, rn, x as int, y as int),
                v0 == source_value(src@, wn, rn, x as int, y as int, 0),
                v1 == source_value(src@, wn, rn, x as int, y as int, 1),
                v2 == source_value(src@, wn, rn, x as int, y as int, 2),
                rs@ == indices(((dy + rn) * kk + dx + rn) as nat).filter(ok).map_values(v0),
                gs@ == indices(((dy + rn) * kk + dx + rn) as nat).filter(ok).map_values(v1),
                bs@ == indices(((dy + rn) * kk + dx + rn) as nat).filter(ok).map_values(v2),
            decreases rn + 1 - dx,
        {
            let yy = y + dy;
            let xx = x + dx;
            let ghost k: int = (dy + rn) * kk + dx + rn;
            let ghost sub = indices(k as nat);
            let ghost nxt = indices((k + 1) as nat);
            proof {
                assert(k % kk == dx + rn && k / kk == dy + rn) by (nonlinear_arith)
                    requires k == (dy + rn) * kk + dx + rn, 0 <= dx + rn < kk, dy + rn >= 0;
                assert(k >= 0) by (nonlinear_arith) requires k == (dy + rn) * kk + dx + rn, 0 <= dx + rn, dy + rn >= 0, kk >= 1;
                assert(win_x(rn, x as int, k) == xx && win_y(rn, y as int, k) == yy);
                reveal_with_fuel(Seq::<_>::filter, 1);
                assert(nxt.drop_last() =~= sub);
                assert(nxt.last() == k);
                let f = sub.filter(ok);
                assert(nxt.filter(ok) == (if ok(k) { f.push(k) } else { f }));
                assert(f.push(k).map_values(v0) =~= f.map_values(v0).push(v0(k)));
                assert(f.push(k).map_values(v1) =~= f.map_values(v1).push(v1(k)));
                assert(f.push(k).map_values(v2) =~= f.map_values(v2).push(v2(k)));
            }
            if !(yy < 0 || xx < 0 || yy >= mh_i || xx >= mw_i) {
                proof {
                    lemma_px_bounds(wn, hn, xx as int, yy as int);
                    lemma_px3_bounds(wn, hn, xx as int, yy as int, 0);
                    lemma_px3_bounds(wn, hn, xx as int, yy as int, 2);
                }
                let j = yy as usize * mw + xx as usize;
                if !mask[j] {
                    let o = j * 3;
                    rs.push(src[o]);
                    gs.push(src[o + 1]);
                    bs.push(src[o + 2]);
                }
            }
            dx = dx + 1;
        }
        proof {
            assert((dy + rn) * kk + rn + 1 + rn == (dy + 1 + rn) * kk) by (nonlinear_arith)
                requires kk == 2 * rn + 1;
        }
        dy = dy + 1;
    }
    proof {
        assert((rn + 1 + rn) * kk == window_len(rn)) by (nonlinear_arith)
            requires kk == 2 * rn + 1, rn >= 0;
    }
    (rs, gs, bs)
}

/// Replace each masked pixel of `roi` (`mw × mh` RGB) by the per-channel
/// median of the unmasked pixels within `rad` of it, read from the values
/// before the fill; masked pixels without such neighbours keep their value.
pub fn fill_local_median(roi: &mut [u8], mask: &[bool], mw: usize, mh: usize, rad: i32)
    requires
        old(roi)@.len() == mw * mh * 3,
        mask@.len() == mw * mh,
        0 <= rad,
        mw + 2 * rad + 1 <= i32::MAX,
        mh + 2 * rad + 1 <= i32::MAX,
    ensures
        final(roi)@.len() == mw * mh * 3,
        forall|x: int, y: int, c: int| 0 <= x < mw && 0 <= y < mh && 0 <= c < 3 ==>
            #[trigger] final(roi)@[px3(mw as int, x, y, c)]
            == filled_value(old(roi)@, mask@, mw as int, mh as int, rad as int, x, y, c),
{
    let src = vstd::slice::slice_to_vec(roi);
    let n3 = roi.len();
    let ghost sd = src@;
    let ghost wn = mw as int;
    let ghost hn = mh as int;
    let ghost rn = rad as int;
    let mw_i = mw as i32;
    let mh_i = mh as i32;
    let mut y: i32 = 0;
    while y < mh_i
        invariant
            0 <= y <= mh,
            mw_i == mw, mh_i == mh, wn == mw, hn == mh, rn == rad,
            0 <= rad,
            mw + 2 * rad + 1 <= i32::MAX,
            mh + 2 * rad + 1 <= i32::MAX,
            sd == src@,
            sd == old(roi)@,
            sd.len() == wn * hn * 3,
            roi@.len() == wn * hn * 3,
            wn * hn * 3 <= usize::MAX,
            mask@.len() == wn * hn,
            forall|ax: int, ay: int, c: int| 0 <= ax < wn && 0 <= ay < hn && 0 <= c < 3 ==>
                #[trigger] roi@[px3(wn, ax, ay, c)]
                == if ay < y { filled_value(sd, mask@, wn, hn, rn, ax, ay, c) } else { sd[px3(wn, ax, ay, c)] },
        decreases mh - y,
    {
        let mut x: i32 = 0;
        while x < mw_i
            invariant
                0 <= y < mh,
                0 <= x <= mw,
                mw_i == mw, mh_i == mh, wn == mw, hn == mh, rn == rad,
                0 <= rad,
                mw + 2 * rad + 1 <= i32::MAX,
                mh + 2 * rad + 1 <= i32::MAX,
                sd == src@,
                sd == old(roi)@,
                sd.len() == wn * hn * 3,
                roi@.len() == wn * hn * 3,
                wn * hn * 3 <= usize::MAX,
                mask@.len() == wn * hn,
                forall|ax: int, ay: int, c: int| 0 <= ax < wn && 0 <= ay < hn && 0 <= c < 3 ==>
                    #[trigger] roi@[px3(wn, ax, ay, c)]
                    == if ay < y || (ay == y && ax < x) { filled_value(sd, mask@, wn, hn, rn, ax, ay, c) }
                       else { sd[px3(wn, ax, ay, c)] },
            decreases mw - x,
        {
            proof {
                lemma_px_bounds(wn, hn, x as int, y as int);
                lemma_px3_bounds(wn, hn, x as int, y as int, 0);
                lemma_px3_bounds(wn, hn, x as int, y as int, 2);
            }
            let p = y as usize * mw + x as usize;
            let ghost prev = roi@;
            if mask[p] {
                let (rs, gs, bs) = gather(&src, mask, mw, mh, rad, x, y);
                if rs.len() > 0 {
                    let o = p * 3;
                    let mr = median_byte(&rs);
                    let mg = median_byte(&gs);
                    let mb = median_byte(&bs);
                    roi[o] = mr;
                    roi[o + 1] = mg;
                    roi[o + 2] = mb;
                }
            }
            proof {
                assert forall|ax: int, ay: int, c: int| 0 <= ax < wn && 0 <= ay < hn && 0 <= c < 3 implies
                    #[trigger] roi@[px3(wn, ax, ay, c)]
                    == if ay < y || (ay == y && ax < x + 1) { filled_value(sd, mask@, wn, hn, rn, ax, ay, c) }
                       else { sd[px3(wn, ax, ay, c)] } by {
                    lemma_px3_bounds(wn, hn, ax, ay, c);
                    if ax == x && ay == y {
                        assert(px3(wn, ax, ay, c) == p * 3 + c);
                        assert(sources(sd, mask@, wn, hn, rn, ax, ay, 0).len() == sources(sd, mask@, wn, hn, rn, ax, ay, c).len());
                    } else {
                        if px3(wn, ax, ay, c) == p * 3 || px3(wn, ax, ay, c) == p * 3 + 1 || px3(wn, ax, ay, c) == p * 3 + 2 {
                            let cc = px3(wn, ax, ay, c) - p * 3;
                            lemma_px3_injective(wn, ax, ay, c, x as int, y as int, cc);
                        }
                        assert(roi@[px3(wn, ax, ay, c)] == prev[px3(wn, ax, ay, c)]);
                    }
                }
            }
            x = x + 1;
        }
        y = y + 1;
    }
}

/// The median of a non-empty sequence is one of its elements.
pub proof fn lemma_median_is_element(s: Seq<u8>)
    requires
        s.len() > 0,
    ensures
        s.contains(median_spec(s)),
{
    lemma_byte_leq_total();
    s.lemma_sort_by_ensures(byte_leq());
    let t = s.sort_by(byte_leq());
    vstd::seq_lib::to_multiset_len(s);
    vstd::seq_lib::to_multiset_len(t);
    assert(t.contains(t[(s.len() / 2) as int]));
}

/// A filled pixel takes a colour value that one of its unmasked neighbours has.
pub proof fn lemma_fill_uses_neighbour_values(src: Seq<u8>, mask: Seq<bool>, mw: int, mh: int, r: int, x: int, y: int, c: int)
    requires
        mask[px(mw, x, y)],
        sources(src, mask, mw, mh, r, x, y, 0).len() > 0,
    ensures
        sources(src, mask, mw, mh, r, x, y, c).contains(filled_value(src, mask, mw, mh, r, x, y, c)),
{
    lemma_median_is_element(sources(src, mask, mw, mh, r, x, y, c));
}

/// How many elements of `s` are below `m`.
pub open spec fn count_below(s: Seq<u8>, m: u8) -> nat
    decreases s.len(),
{
    if s.len() == 0 { 0 } else { count_below(s.drop_last(), m) + if s.last() < m { 1nat } else { 0nat } }
}

/// How many elements of `s` are above `m`.
pub open spec fn count_above(s: Seq<u8>, m: u8) -> nat
    decreases s.len(),
{
    if s.len() == 0 { 0 } else { count_above(s.drop_last(), m) + if s.last() > m { 1nat } else { 0nat } }
}

proof fn lemma_counts_le_len(s: Seq<u8>, m: u8)
    ensures
        count_below(s, m) <= s.len(),
        count_above(s, m) <= s.len(),
    decreases s.len(),
{
    if s.len() > 0 {
        lemma_counts_le_len(s.drop_last(), m);
    }
}

/// Removing element `i` takes its own contribution out of each count.
proof fn lemma_counts_remove(s: Seq<u8>, i: int, m: u8)
    requires
        0 <= i < s.len(),
    ensures
        count_below(s, m) == count_below(s.remove(i), m) + if s[i] < m { 1nat } else { 0nat },
        count_above(s, m) == count_above(s.remove(i), m) + if s[i] > m { 1nat } else { 0nat },
    decreases s.len(),
{
    if i == s.len() - 1 {
        assert(s.remove(i) =~= s.drop_last());
    } else {
        lemma_counts_remove(s.drop_last(), i, m);
        assert(s.remove(i).drop_last() =~= s.drop_last().remove(i));
        assert(s.remove(i).last() == s.last());
    }
}

/// Sequences with the same elements have the same counts.
proof fn lemma_counts_permutation(a: Seq<u8>, b: Seq<u8>, m: u8)
    requires
        a.to_multiset() == b.to_multiset(),
    ensures
        count_below(a, m) == count_below(b, m),
        count_above(a, m) == count_above(b, m),
    decreases a.len(),
{
    broadcast use vstd::seq_lib::group_to_multiset_ensures;
    vstd::seq_lib::to_multiset_len(a);
    vstd::seq_lib::to_multiset_len(b);
    if a.len() > 0 {
        let x = a.last();
        assert(a.to_multiset().count(x) > 0) by {
            assert(a.contains(x)) by { assert(a[a.len() - 1] == x); }
        }
        assert(b.contains(x));
        let i = b.index_of(x);
        vstd::seq_lib::to_multiset_remove(b, i);
        vstd::seq_lib::to_multiset_remove(a, a.len() - 1);
        assert(a.remove(a.len() - 1) =~= a.drop_last());
        lemma_counts_permutation(a.drop_last(), b.remove(i), m);
        lemma_counts_remove(b, i, m);
    }
}

/// In a sorted run whose elements from position `k` on are at least `m`,
/// at most `k` elements are below `m`.
proof fn lemma_sorted_below(t: Seq<u8>, m: u8, k: int)
    requires
        0 <= k,
        forall|j: int| k <= j < t.len() ==> t[j] >= m,
    ensures
        count_below(t, m) <= k,
    decreases t.len(),
{
    lemma_counts_le_len(t, m);
    if t.len() > k {
        lemma_sorted_below(t.drop_last(), m, k);
    }
}

/// In a run whose elements before position `p` are at most `m`, at most
/// `len − p` elements are above `m`.
proof fn lemma_sorted_above(t: Seq<u8>, m: u8, p: int)
    requires
        0 <= p,
        forall|j: int| 0 <= j < p && j < t.len() ==> t[j] <= m,
    ensures
        count_above(t, m) <= if t.len() >= p { t.len() - p } else { 0 },
    decreases t.len(),
{
    if t.len() > 0 {
        lemma_sorted_above(t.drop_last(), m, p);
    }
}

/// The median splits its sequence: at most `len / 2` elements lie below it
/// and at most `(len − 1) / 2` above it, and it is one of the elements.
pub proof fn lemma_median_splits(s: Seq<u8>)
    requires
        s.len() > 0,
    ensures
        count_below(s, median_spec(s)) <= s.len() / 2,
        count_above(s, median_spec(s)) <= (s.len() - 1) / 2,
        s.contains(median_spec(s)),
{
    lemma_median_is_element(s);
    lemma_byte_leq_total();
    s.lemma_sort_by_ensures(byte_leq());
    let t = s.sort_by(byte_leq());
    vstd::seq_lib::to_multiset_len(s);
    vstd::seq_lib::to_multiset_len(t);
    let k = s.len() / 2;
    let m = t[k as int];
    assert(m == median_spec(s));
    assert forall|j: int| k <= j < t.len() implies t[j] >= m by {
        if j > k {
            assert(byte_leq()(t[k as int], t[j]));
        }
    }
    assert forall|j: int| 0 <= j < k + 1 && j < t.len() implies t[j] <= m by {
        if j < k {
            assert(byte_leq()(t[j], t[k as int]));
        }
    }
    lemma_sorted_below(t, m, k as int);
    lemma_sorted_above(t, m, (k + 1) as int);
    lemma_counts_permutation(s, t, m);
}

/// A filled masked pixel takes, per channel, a median of its unmasked
/// neighbours: one of their values, with at most half of them below it and
/// at most half of the rest above it.
pub proof fn lemma_fill_is_neighbour_median(src: Seq<u8>, mask: Seq<bool>, mw: int, mh: int, r: int, x: int, y: int, c: int)
    requires
        mask[px(mw, x, y)],
        sources(src, mask, mw, mh, r, x, y, 0).len() > 0,
    ensures
        ({
            let s = sources(src, mask, mw, mh, r, x, y, c);
            let v = filled_value(src, mask, mw, mh, r, x, y, c);
            &&& s.contains(v)
            &&& count_below(s, v) <= s.len() / 2
            &&& count_above(s, v) <= (s.len() - 1) / 2
        }),
{
    let s = sources(src, mask, mw, mh, r, x, y, c);
    assert(s.len() == sources(src, mask, mw, mh, r, x, y, 0).len());
    lemma_median_splits(s);
}

} // verus!
