//! Greedy merging of a 2-D mask into same-valued rectangles, shared by the
//! face-list converter and the voxel mesher.
//!
//! The mask is stored row-major: cell `(u, v)` is at `u + v * u_size`. Rows are
//! scanned in increasing `v`, each row in increasing `u`. At the first
//! uncovered cell holding a value, a rectangle starts; it extends along U over
//! the following cells with the same value, then along V over the following
//! rows whose cells under that span all hold the same value. The covered cells
//! are cleared and the scan resumes after the rectangle's span.

use vstd::prelude::*;

verus! {

/// A merged rectangle: corner `(u, v)`, extent `w` along U and `h` along V,
/// and the mask value it covers.
#[derive(Clone, Copy, Debug, PartialEq, Eq, Structural)]
pub struct MaskRect {
    pub u: u32,
    pub v: u32,
    pub w: u32,
    pub h: u32,
    pub value: u8,
}

pub open spec fn rect_view(r: MaskRect) -> (int, int, int, int, u8) {
    (r.u as int, r.v as int, r.w as int, r.h as int, r.value)
}

pub open spec fn mask_at(m: Seq<Option<u8>>, us: int, u: int, v: int) -> Option<u8> {
    m[u + v * us]
}

/// Length of the run of cells holding `t` in row `v`, starting at `u` and
/// already known to be at least `w` long.
pub open spec fn run_len(m: Seq<Option<u8>>, us: int, u: int, v: int, t: u8, w: int) -> int
    decreases us - (u + w),
{
    if u + w < us && mask_at(m, us, u + w, v) == Some(t) {
        run_len(m, us, u, v, t, w + 1)
    } else {
        w
    }
}

/// The `w` cells of row `v` starting at `u` all hold `t`.
pub open spec fn row_matches(m: Seq<Option<u8>>, us: int, u: int, v: int, w: int, t: u8) -> bool {
    forall|du: int| 0 <= du < w ==> #[trigger] mask_at(m, us, u + du, v) == Some(t)
}

/// Number of rows, starting at `v` and already known to be at least `h`, whose
/// span `u..u+w` holds `t`.
pub open spec fn ext_len(m: Seq<Option<u8>>, us: int, vs: int, u: int, v: int, w: int, t: u8, h: int) -> int
    decreases vs - (v + h),
{
    if v + h < vs && row_matches(m, us, u, v + h, w, t) {
        ext_len(m, us, vs, u, v, w, t, h + 1)
    } else {
        h
    }
}

/// The mask position `i` lies in the rectangle.
pub open spec fn in_rect(us: int, i: int, u: int, v: int, w: int, h: int) -> bool {
    u <= i % us < u + w && v <= i / us < v + h
}

/// The mask with the rectangle's cells cleared.
pub open spec fn clear_rect(m: Seq<Option<u8>>, us: int, u: int, v: int, w: int, h: int) -> Seq<Option<u8>> {
    Seq::new(m.len(), |i: int| if in_rect(us, i, u, v, w, h) { None } else { m[i] })
}

pub proof fn lemma_run_len_bounds(m: Seq<Option<u8>>, us: int, u: int, v: int, t: u8, w: int)
    requires
        1 <= w,
        u + w <= us,
    ensures
        w <= run_len(m, us, u, v, t, w) <= us - u,
    decreases us - (u + w),
{
    if u + w < us && mask_at(m, us, u + w, v) == Some(t) {
        lemma_run_len_bounds(m, us, u, v, t, w + 1);
    }
}

pub proof fn lemma_ext_len_bounds(m: Seq<Option<u8>>, us: int, vs: int, u: int, v: int, w: int, t: u8, h: int)
    requires
        1 <= h,
        v + h <= vs,
    ensures
        h <= ext_len(m, us, vs, u, v, w, t, h) <= vs - v,
    decreases vs - (v + h),
{
    if v + h < vs && row_matches(m, us, u, v + h, w, t) {
        lemma_ext_len_bounds(m, us, vs, u, v, w, t, h + 1);
    }
}

/// The rectangles of the greedy scan of `m`, resuming at cell `(u, v)`.
pub open spec fn greedy_scan(m: Seq<Option<u8>>, us: int, vs: int, u: int, v: int) -> Seq<(int, int, int, int, u8)>
    decreases vs - v, us - u,
{
    if v >= vs || v < 0 || u < 0 {
        Seq::empty()
    } else if u >= us {
        greedy_scan(m, us, vs, 0, v + 1)
    } else {
        match mask_at(m, us, u, v) {
            None => greedy_scan(m, us, vs, u + 1, v),
            Some(t) => {
                let w = run_len(m, us, u, v, t, 1);
                let h = ext_len(m, us, vs, u, v, w, t, 1);
                proof {
                    lemma_run_len_bounds(m, us, u, v, t, 1);
                }
                seq![(u, v, w, h, t)] + greedy_scan(clear_rect(m, us, u, v, w, h), us, vs, u + w, v)
            },
        }
    }
}

/// A rectangle lies within the mask and covers at least one cell.
pub open spec fn rect_in_mask(r: (int, int, int, int, u8), us: int, vs: int) -> bool {
    &&& 0 <= r.0 && 1 <= r.2 && r.0 + r.2 <= us
    &&& 0 <= r.1 && 1 <= r.3 && r.1 + r.3 <= vs
}

/// Every rectangle of a scan lies within the mask.
pub proof fn lemma_scan_in_mask(m: Seq<Option<u8>>, us: int, vs: int, u: int, v: int)
    ensures
        forall|i: int| 0 <= i < greedy_scan(m, us, vs, u, v).len() ==> rect_in_mask(#[trigger] greedy_scan(m, us, vs, u, v)[i], us, vs),
    decreases vs - v, us - u,
{
    if v >= vs || v < 0 || u < 0 {
    } else if u >= us {
        lemma_scan_in_mask(m, us, vs, 0, v + 1);
        assert(greedy_scan(m, us, vs, u, v) == greedy_scan(m, us, vs, 0, v + 1));
    } else {
        match mask_at(m, us, u, v) {
            None => {
                lemma_scan_in_mask(m, us, vs, u + 1, v);
                assert(greedy_scan(m, us, vs, u, v) == greedy_scan(m, us, vs, u + 1, v));
            },
            Some(t) => {
                let w = run_len(m, us, u, v, t, 1);
                let h = ext_len(m, us, vs, u, v, w, t, 1);
                lemma_run_len_bounds(m, us, u, v, t, 1);
                lemma_ext_len_bounds(m, us, vs, u, v, w, t, 1);
                let m2 = clear_rect(m, us, u, v, w, h);
                lemma_scan_in_mask(m2, us, vs, u + w, v);
                let rest = greedy_scan(m2, us, vs, u + w, v);
                let all = greedy_scan(m, us, vs, u, v);
                assert(all == seq![(u, v, w, h, t)] + rest);
                assert forall|i: int| 0 <= i < all.len() implies rect_in_mask(#[trigger] all[i], us, vs) by {
                    if i > 0 {
                        assert(all[i] == rest[i - 1]);
                    }
                }
            },
        }
    }
}

/// Cell `(x, y)` lies in the rectangle.
pub open spec fn covers_cell(r: (int, int, int, int, u8), x: int, y: int) -> bool {
    r.0 <= x < r.0 + r.2 && r.1 <= y < r.1 + r.3
}

/// Every cell of every rectangle holds the rectangle's value in the mask.
pub open spec fn rects_sound(m: Seq<Option<u8>>, us: int, rects: Seq<(int, int, int, int, u8)>) -> bool {
    forall|i: int, x: int, y: int|
        0 <= i < rects.len() && #[trigger] covers_cell(rects[i], x, y) ==> mask_at(m, us, x, y) == Some(rects[i].4)
}

/// No cell lies in two rectangles.
pub open spec fn rects_disjoint(rects: Seq<(int, int, int, int, u8)>) -> bool {
    forall|i: int, j: int, x: int, y: int|
        0 <= i < j < rects.len() ==> !(#[trigger] covers_cell(rects[i], x, y) && #[trigger] covers_cell(rects[j], x, y))
}

/// Some rectangle holds cell `(x, y)`.
pub open spec fn covered(rects: Seq<(int, int, int, int, u8)>, x: int, y: int) -> bool {
    exists|i: int| 0 <= i < rects.len() && #[trigger] covers_cell(rects[i], x, y)
}

proof fn lemma_run_matches(m: Seq<Option<u8>>, us: int, u: int, v: int, t: u8, w: int)
    requires
        1 <= w,
        u + w <= us,
        row_matches(m, us, u, v, w, t),
    ensures
        row_matches(m, us, u, v, run_len(m, us, u, v, t, w), t),
    decreases us - (u + w),
{
    if u + w < us && mask_at(m, us, u + w, v) == Some(t) {
        assert(row_matches(m, us, u, v, w + 1, t)) by {
            assert forall|du: int| 0 <= du < w + 1 implies #[trigger] mask_at(m, us, u + du, v) == Some(t) by {
                if du < w {
                    assert(mask_at(m, us, u + du, v) == Some(t));
                }
            }
        }
        lemma_run_matches(m, us, u, v, t, w + 1);
    }
}

proof fn lemma_ext_matches(m: Seq<Option<u8>>, us: int, vs: int, u: int, v: int, w: int, t: u8, h: int)
    requires
        1 <= h,
        v + h <= vs,
        forall|dv: int| 0 <= dv < h ==> #[trigger] row_matches(m, us, u, v + dv, w, t),
    ensures
        forall|dv: int| 0 <= dv < ext_len(m, us, vs, u, v, w, t, h) ==> #[trigger] row_matches(m, us, u, v + dv, w, t),
    decreases vs - (v + h),
{
    if v + h < vs && row_matches(m, us, u, v + h, w, t) {
        assert forall|dv: int| 0 <= dv < h + 1 implies #[trigger] row_matches(m, us, u, v + dv, w, t) by {
            if dv < h {
                assert(row_matches(m, us, u, v + dv, w, t));
            }
        }
        lemma_ext_matches(m, us, vs, u, v, w, t, h + 1);
    }
}

/// The scan from `(u, v)` yields rectangles that hold their value in the
/// mask, that do not overlap, and that cover every filled cell from `(u, v)`
/// on in row-major order.
pub proof fn lemma_scan_partition(m: Seq<Option<u8>>, us: int, vs: int, u: int, v: int)
    requires
        us >= 1,
        vs >= 0,
        m.len() == us * vs,
        0 <= u <= us,
        0 <= v,
    ensures
        rects_sound(m, us, greedy_scan(m, us, vs, u, v)),
        rects_disjoint(greedy_scan(m, us, vs, u, v)),
        forall|x: int, y: int|
            0 <= x < us && 0 <= y < vs && x + y * us >= u + v * us && #[trigger] mask_at(m, us, x, y) is Some
                ==> covered(greedy_scan(m, us, vs, u, v), x, y),
    decreases vs - v, us - u,
{
    let all = greedy_scan(m, us, vs, u, v);
    if v >= vs {
        assert forall|x: int, y: int|
            0 <= x < us && 0 <= y < vs && x + y * us >= u + v * us && #[trigger] mask_at(m, us, x, y) is Some
                implies covered(all, x, y) by {
            assert(x + y * us < u + v * us) by (nonlinear_arith)
                requires
                    0 <= x < us,
                    0 <= y < vs,
                    vs <= v,
                    0 <= u,
            ;
        }
    } else if u >= us {
        lemma_scan_partition(m, us, vs, 0, v + 1);
        assert(all == greedy_scan(m, us, vs, 0, v + 1));
        assert(u + v * us == 0 + (v + 1) * us) by (nonlinear_arith)
            requires
                u == us,
        ;
    } else {
        match mask_at(m, us, u, v) {
            None => {
                lemma_scan_partition(m, us, vs, u + 1, v);
                assert(all == greedy_scan(m, us, vs, u + 1, v));
                assert forall|x: int, y: int|
                    0 <= x < us && 0 <= y < vs && x + y * us >= u + v * us && #[trigger] mask_at(m, us, x, y) is Some
                        implies covered(all, x, y) by {
                    if x + y * us == u + v * us {
                        lemma_mask_index(us, vs, x, y);
                        lemma_mask_index(us, vs, u, v);
                    }
                }
            },
            Some(t) => {
                let w = run_len(m, us, u, v, t, 1);
                let h = ext_len(m, us, vs, u, v, w, t, 1);
                lemma_run_len_bounds(m, us, u, v, t, 1);
                lemma_ext_len_bounds(m, us, vs, u, v, w, t, 1);
                assert(row_matches(m, us, u, v, 1, t)) by {
                    assert forall|du: int| 0 <= du < 1 implies #[trigger] mask_at(m, us, u + du, v) == Some(t) by {
                        assert(du == 0);
                    }
                }
                lemma_run_matches(m, us, u, v, t, 1);
                assert forall|dv: int| 0 <= dv < 1 implies #[trigger] row_matches(m, us, u, v + dv, w, t) by {
                    assert(dv == 0);
                }
                lemma_ext_matches(m, us, vs, u, v, w, t, 1);
                let m2 = clear_rect(m, us, u, v, w, h);
                lemma_scan_partition(m2, us, vs, u + w, v);
                let rest = greedy_scan(m2, us, vs, u + w, v);
                let r0 = (u, v, w, h, t);
                assert(all == seq![r0] + rest);
                // Cells of the mask: cleared inside the first rectangle, unchanged outside.
                assert forall|x: int, y: int| 0 <= x < us && 0 <= y < vs implies #[trigger] mask_at(m2, us, x, y) == if covers_cell(r0, x, y) {
                    None
                } else {
                    mask_at(m, us, x, y)
                } by {
                    lemma_mask_index(us, vs, x, y);
                }
                lemma_scan_in_mask(m2, us, vs, u + w, v);
                // Soundness.
                assert forall|i: int, x: int, y: int| 0 <= i < all.len() && #[trigger] covers_cell(all[i], x, y) implies mask_at(m, us, x, y)
                    == Some(all[i].4) by {
                    if i == 0 {
                        assert(row_matches(m, us, u, v + (y - v), w, t));
                        assert(mask_at(m, us, u + (x - u), v + (y - v)) == Some(t));
                    } else {
                        assert(all[i] == rest[i - 1]);
                        assert(rect_in_mask(rest[i - 1], us, vs));
                        assert(mask_at(m2, us, x, y) == Some(rest[i - 1].4));
                    }
                }
                // Disjointness.
                assert forall|i: int, j: int, x: int, y: int| 0 <= i < j < all.len() implies !(#[trigger] covers_cell(all[i], x, y)
                    && #[trigger] covers_cell(all[j], x, y)) by {
                    assert(all[j] == rest[j - 1]);
                    if i == 0 {
                        if covers_cell(all[j], x, y) {
                            assert(rect_in_mask(rest[j - 1], us, vs));
                            assert(mask_at(m2, us, x, y) == Some(rest[j - 1].4));
                        }
                    } else {
                        assert(all[i] == rest[i - 1]);
                    }
                }
                // Coverage.
                assert forall|x: int, y: int|
                    0 <= x < us && 0 <= y < vs && x + y * us >= u + v * us && #[trigger] mask_at(m, us, x, y) is Some
                        implies covered(all, x, y) by {
                    if covers_cell(r0, x, y) {
                        assert(covers_cell(all[0], x, y));
                    } else {
                        assert(mask_at(m2, us, x, y) is Some);
                        assert(x + y * us >= u + w + v * us) by (nonlinear_arith)
                            requires
                                0 <= x < us,
                                0 <= y,
                                0 <= u,
                                x + y * us >= u + v * us,
                                !(u <= x < u + w && v <= y < v + h),
                                h >= 1,
                                u + w <= us,
                        ;
                        let i = choose|i: int| 0 <= i < rest.len() && #[trigger] covers_cell(rest[i], x, y);
                        assert(all[i + 1] == rest[i]);
                        assert(covers_cell(all[i + 1], x, y));
                    }
                }
            },
        }
    }
}

/// The greedy merge of a mask partitions its filled cells: the rectangles
/// hold their value in the mask, never overlap, and every filled cell lies
/// in one of them.
pub proof fn law_greedy_partition(m: Seq<Option<u8>>, us: int, vs: int)
    requires
        us >= 1,
        vs >= 0,
        m.len() == us * vs,
    ensures
        rects_sound(m, us, greedy_scan(m, us, vs, 0, 0)),
        rects_disjoint(greedy_scan(m, us, vs, 0, 0)),
        forall|x: int, y: int|
            0 <= x < us && 0 <= y < vs && #[trigger] mask_at(m, us, x, y) is Some ==> covered(greedy_scan(m, us, vs, 0, 0), x, y),
{
    lemma_scan_partition(m, us, vs, 0, 0);
    assert forall|x: int, y: int| 0 <= x < us && 0 <= y < vs && #[trigger] mask_at(m, us, x, y) is Some implies covered(
        greedy_scan(m, us, vs, 0, 0),
        x,
        y,
    ) by {
        assert(x + y * us >= 0) by (nonlinear_arith)
            requires
                0 <= x,
                0 <= y,
                0 <= us,
        ;
    }
}

/// Rectangle `j` of a full scan lies within the mask.
pub proof fn lemma_rect_extent(m: Seq<Option<u8>>, us: int, vs: int, j: int)
    requires
        0 <= j < greedy_scan(m, us, vs, 0, 0).len(),
    ensures
        rect_in_mask(greedy_scan(m, us, vs, 0, 0)[j], us, vs),
{
    lemma_scan_in_mask(m, us, vs, 0, 0);
}

/// Row-major position of `(u, v)` and its inverse.
pub proof fn lemma_mask_index(us: int, vs: int, u: int, v: int)
    requires
        0 <= u < us,
        0 <= v < vs,
    ensures
        0 <= u + v * us < us * vs,
        (u + v * us) % us == u,
        (u + v * us) / us == v,
{
    assert(0 <= v * us) by (nonlinear_arith)
        requires
            0 <= v,
            0 <= us,
    ;
    assert(u + v * us < us * vs) by (nonlinear_arith)
        requires
            0 <= u < us,
            0 <= v < vs,
    ;
    vstd::arithmetic::div_mod::lemma_fundamental_div_mod_converse(u + v * us, us, v, u);
}

/// Cell `i` holds `t`.
fn cell_is(mask: &Vec<Option<u8>>, i: usize, t: u8) -> (r: bool)
    requires
        i < mask@.len(),
    ensures
        r == (mask@[i as int] == Some(t)),
{
    match mask[i] {
        Some(x) => x == t,
        None => false,
    }
}

/// The run of `t` starting at `(u, v)` continues past its first `w` cells.
fn run_continues(mask: &Vec<Option<u8>>, u_size: u32, v_size: u32, u: u32, v: u32, w: u32, t: u8) -> (r: bool)
    requires
        mask@.len() == u_size * v_size,
        u_size * v_size <= u32::MAX,
        u + w <= u_size,
        v < v_size,
    ensures
        r == (u + w < u_size && mask_at(mask@, u_size as int, u + w, v as int) == Some(t)),
{
    if u + w < u_size {
        proof {
            lemma_mask_index(u_size as int, v_size as int, (u + w) as int, v as int);
        }
        cell_is(mask, ((u + w) + v * u_size) as usize, t)
    } else {
        false
    }
}

/// The `w` cells of row `v` starting at `u` all hold `t`.
fn row_holds(mask: &Vec<Option<u8>>, u_size: u32, v_size: u32, u: u32, v: u32, w: u32, t: u8) -> (r: bool)
    requires
        mask@.len() == u_size * v_size,
        u_size * v_size <= u32::MAX,
        u + w <= u_size,
        v < v_size,
    ensures
        r == row_matches(mask@, u_size as int, u as int, v as int, w as int, t),
{
    let mut du: u32 = 0;
    while du < w
        invariant
            mask@.len() == u_size * v_size,
            u_size * v_size <= u32::MAX,
            u + w <= u_size,
            v < v_size,
            0 <= du <= w,
            forall|k: int| 0 <= k < du ==> #[trigger] mask_at(mask@, u_size as int, u + k, v as int) == Some(t),
        decreases w - du,
    {
        proof {
            lemma_mask_index(u_size as int, v_size as int, (u + du) as int, v as int);
        }
        if !cell_is(mask, ((u + du) + v * u_size) as usize, t) {
            assert(mask_at(mask@, u_size as int, u + du, v as int) != Some(t));
            return false;
        }
        du = du + 1;
    }
    true
}

/// Clear the cells of the rectangle.
fn clear_cells(mask: &mut Vec<Option<u8>>, u_size: u32, v_size: u32, u: u32, v: u32, w: u32, h: u32)
    requires
        old(mask)@.len() == u_size * v_size,
        u_size * v_size <= u32::MAX,
        u + w <= u_size,
        v + h <= v_size,
    ensures
        final(mask)@ == clear_rect(old(mask)@, u_size as int, u as int, v as int, w as int, h as int),
{
    let ghost m0 = mask@;
    let ghost us = u_size as int;
    let mut dv: u32 = 0;
    while dv < h
        invariant
            mask@.len() == m0.len(),
            m0.len() == u_size * v_size,
            u_size * v_size <= u32::MAX,
            u + w <= u_size,
            v + h <= v_size,
            0 <= dv <= h,
            us == u_size,
            mask@ == clear_rect(m0, us, u as int, v as int, w as int, dv as int),
        decreases h - dv,
    {
        let mut du: u32 = 0;
        while du < w
            invariant
                mask@.len() == m0.len(),
                m0.len() == u_size * v_size,
                u_size * v_size <= u32::MAX,
                u + w <= u_size,
                v + h <= v_size,
                0 <= dv < h,
                0 <= du <= w,
                us == u_size,
                forall|i: int|
                    0 <= i < m0.len() ==> #[trigger] mask@[i] == if in_rect(us, i, u as int, v as int, w as int, dv as int)
                        || (i / us == v + dv && u <= i % us < u + du) {
                        None
                    } else {
                        m0[i]
                    },
            decreases w - du,
        {
            proof {
                lemma_mask_index(us, v_size as int, (u + du) as int, (v + dv) as int);
            }
            let idx = ((u + du) + (v + dv) * u_size) as usize;
            let ghost before = mask@;
            mask.set(idx, None);
            proof {
                assert forall|i: int| 0 <= i < m0.len() implies #[trigger] mask@[i] == if in_rect(us, i, u as int, v as int, w as int, dv as int)
                    || (i / us == v + dv && u <= i % us < u + du + 1) {
                    None
                } else {
                    m0[i]
                } by {
                    if i / us == v + dv && i % us == u + du {
                        vstd::arithmetic::div_mod::lemma_fundamental_div_mod(i, us);
                        let q = i / us;
                        let r = i % us;
                        assert(us * q + r == r + q * us) by (nonlinear_arith);
                        assert(i == idx);
                    }
                    if i == idx {
                        assert(i / us == v + dv && i % us == u + du);
                    }
                }
            }
            du = du + 1;
        }
        proof {
            assert(mask@ =~= clear_rect(m0, us, u as int, v as int, w as int, dv + 1));
        }
        dv = dv + 1;
    }
}

/// Greedily merge the mask into rectangles of equal value.
pub fn greedy_merge(mask: Vec<Option<u8>>, u_size: u32, v_size: u32) -> (rects: Vec<MaskRect>)
    requires
        mask@.len() == u_size * v_size,
        u_size * v_size <= u32::MAX,
    ensures
        rects@.map_values(|r: MaskRect| rect_view(r)) == greedy_scan(mask@, u_size as int, v_size as int, 0, 0),
{
    let ghost us = u_size as int;
    let ghost vs = v_size as int;
    let ghost total = greedy_scan(mask@, us, vs, 0, 0);
    let mut mask = mask;
    let mut rects: Vec<MaskRect> = Vec::new();
    let mut v: u32 = 0;
    while v < v_size
        invariant
            us == u_size,
            vs == v_size,
            mask@.len() == u_size * v_size,
            u_size * v_size <= u32::MAX,
            0 <= v <= v_size,
            rects@.map_values(|r: MaskRect| rect_view(r)) + greedy_scan(mask@, us, vs, 0, v as int) == total,
        decreases v_size - v,
    {
        let mut u: u32 = 0;
        while u < u_size
            invariant
                us == u_size,
                vs == v_size,
                mask@.len() == u_size * v_size,
                u_size * v_size <= u32::MAX,
                0 <= v < v_size,
                0 <= u <= u_size,
                rects@.map_values(|r: MaskRect| rect_view(r)) + greedy_scan(mask@, us, vs, u as int, v as int) == total,
            decreases u_size - u,
        {
            proof {
                lemma_mask_index(us, vs, u as int, v as int);
            }
            let here = mask[(u + v * u_size) as usize];
            match here {
                None => {
                    u = u + 1;
                },
                Some(target) => {
                    let ghost m = mask@;
                    let mut w: u32 = 1;
                    proof {
                        lemma_run_len_bounds(m, us, u as int, v as int, target, 1);
                    }
                    while run_continues(&mask, u_size, v_size, u, v, w, target)
                        invariant
                            mask@ == m,
                            m.len() == u_size * v_size,
                            u_size * v_size <= u32::MAX,
                            us == u_size,
                            vs == v_size,
                            0 <= v < v_size,
                            1 <= w,
                            u + w <= u_size,
                            run_len(m, us, u as int, v as int, target, w as int) == run_len(
                                m,
                                us,
                                u as int,
                                v as int,
                                target,
                                1,
                            ),
                        decreases u_size - u - w,
                    {
                        w = w + 1;
                    }
                    let mut h: u32 = 1;
                    while v + h < v_size && row_holds(&mask, u_size, v_size, u, v + h, w, target)
                        invariant
                            mask@ == m,
                            m.len() == u_size * v_size,
                            u_size * v_size <= u32::MAX,
                            us == u_size,
                            vs == v_size,
                            0 <= v < v_size,
                            1 <= h,
                            v + h <= v_size,
                            u + w <= u_size,
                            ext_len(m, us, vs, u as int, v as int, w as int, target, h as int) == ext_len(
                                m,
                                us,
                                vs,
                                u as int,
                                v as int,
                                w as int,
                                target,
                                1,
                            ),
                        decreases v_size - v - h,
                    {
                        h = h + 1;
                    }
                    let ghost prev = rects@.map_values(|r: MaskRect| rect_view(r));
                    rects.push(MaskRect { u, v, w, h, value: target });
                    clear_cells(&mut mask, u_size, v_size, u, v, w, h);
                    proof {
                        assert(rects@.map_values(|r: MaskRect| rect_view(r)) =~= prev.push(
                            (u as int, v as int, w as int, h as int, target),
                        ));
                        assert(greedy_scan(m, us, vs, u as int, v as int) == seq![(u as int, v as int, w as int, h as int, target)]
                            + greedy_scan(mask@, us, vs, (u + w) as int, v as int));
                        assert(prev.push((u as int, v as int, w as int, h as int, target)) + greedy_scan(
                            mask@,
                            us,
                            vs,
                            (u + w) as int,
                            v as int,
                        ) =~= prev + (seq![(u as int, v as int, w as int, h as int, target)] + greedy_scan(
                            mask@,
                            us,
                            vs,
                            (u + w) as int,
                            v as int,
                        )));
                    }
                    u = u + w;
                },
            }
        }
        v = v + 1;
    }
    proof {
        assert(rects@.map_values(|r: MaskRect| rect_view(r)) =~= rects@.map_values(|r: MaskRect| rect_view(r)) + Seq::<(int, int, int, int, u8)>::empty());
    }
    rects
}

} // verus!
