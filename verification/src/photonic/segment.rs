//! Wiring of `OpticalSegment`, the shared optical core of every
//! waveguide-like device: its `2·wpc·N` bundle wires (input block, then
//! output block), one branch row per driven field wire, the drive's control
//! terminals, and the per-channel propagation equations
//!
//! ```text
//!   out.re = c·in.re + s·in.im        in.re_bw = c·out.re_bw + s·out.im_bw
//!   out.im = −s·in.re + c·in.im       in.im_bw = −s·out.re_bw + c·out.im_bw
//! ```
//!
//! with `c`, `s` the channel's transmission computed by the device physics.
//! In delay mode the couplings are dropped (the outputs are driven from
//! the delay-line history on the right-hand side). When the drive supplies
//! voltage sensitivities, the Newton cross-terms `∂out/∂V` are stamped into
//! the control columns.

use vstd::prelude::*;
use crate::device::{NodeId, bind_contiguous, bound_from, copy_nodes, unbound_rows};
use crate::mna::{cell_has, lemma_cell_concat, lemma_opt_stamp_has, Coef, Stamp, lemma_concat_has, lemma_eq_has, opt_stamp, potential_eq_stamps, push_opt, row_couples, stamp_potential_eq};

verus! {

/// Branch rows per channel: one per driven field wire — all wires but λ,
/// which is resolved before the solve and has no equation.
pub open spec fn segment_bpc(wpc: int) -> int {
    wpc - 1
}

/// The couplings of one field equation, or none in delay mode.
pub open spec fn couplings<T>(delay: bool, ins: Seq<(NodeId, Coef<T>)>) -> Seq<(NodeId, Coef<T>)> {
    if delay { Seq::empty() } else { ins }
}

/// The Newton cross-terms of channel `k` for control terminals `0 .. m`:
/// `−∂out_re/∂V` on the `re` row and `−∂out_im/∂V` on the `im` row, in every
/// non-ground control column.
pub open spec fn cross_stamps<T>(
    branches: Seq<Option<usize>>,
    ctrl: Seq<NodeId>,
    g: Seq<(T, T)>,
    bpc: int,
    k: int,
    m: int,
) -> Seq<Stamp<T>>
    decreases m,
{
    if m <= 0 {
        Seq::empty()
    } else {
        let i = m - 1;
        let nc = ctrl.len() as int;
        cross_stamps(branches, ctrl, g, bpc, k, i) + match ctrl[i] {
            Some(cn) => (match branches[bpc * k] {
                Some(j) => seq![Stamp { row: j, col: cn, coef: Coef::Neg(g[k * nc + i].0) }],
                None => Seq::empty(),
            }) + (match branches[bpc * k + 1] {
                Some(j) => seq![Stamp { row: j, col: cn, coef: Coef::Neg(g[k * nc + i].1) }],
                None => Seq::empty(),
            }),
            None => Seq::empty(),
        }
    }
}

/// The forward field equations of channel `k`.
pub open spec fn segment_fw_stamps<T>(
    nodes: Seq<NodeId>,
    branches: Seq<Option<usize>>,
    wpc: int,
    n: int,
    ck: T,
    sk: T,
    delay: bool,
    k: int,
) -> Seq<Stamp<T>> {
    let bpc = segment_bpc(wpc);
    let ob = wpc * n;
    let (in_re, in_im) = (nodes[wpc * k], nodes[wpc * k + 1]);
    potential_eq_stamps(branches, bpc * k, nodes[ob + wpc * k],
        couplings(delay, seq![(in_re, Coef::Neg(ck)), (in_im, Coef::Neg(sk))]))
        + potential_eq_stamps(branches, bpc * k + 1, nodes[ob + wpc * k + 1],
        couplings(delay, seq![(in_re, Coef::Pos(sk)), (in_im, Coef::Neg(ck))]))
}

/// The backward field equations of channel `k` (bidirectional only).
pub open spec fn segment_bw_stamps<T>(
    nodes: Seq<NodeId>,
    branches: Seq<Option<usize>>,
    wpc: int,
    n: int,
    ck: T,
    sk: T,
    delay: bool,
    k: int,
) -> Seq<Stamp<T>> {
    let bpc = segment_bpc(wpc);
    let ob = wpc * n;
    let (out_re_bw, out_im_bw) = (nodes[ob + wpc * k + 2], nodes[ob + wpc * k + 3]);
    if wpc == 5 {
        potential_eq_stamps(branches, bpc * k + 2, nodes[wpc * k + 2],
            couplings(delay, seq![(out_re_bw, Coef::Neg(ck)), (out_im_bw, Coef::Neg(sk))]))
            + potential_eq_stamps(branches, bpc * k + 3, nodes[wpc * k + 3],
            couplings(delay, seq![(out_re_bw, Coef::Pos(sk)), (out_im_bw, Coef::Neg(ck))]))
    } else {
        Seq::empty()
    }
}

/// The stamps of channel `k`: forward equations, Newton cross-terms (when
/// armed), backward equations.
pub open spec fn segment_channel_stamps<T>(
    nodes: Seq<NodeId>,
    branches: Seq<Option<usize>>,
    ctrl: Seq<NodeId>,
    wpc: int,
    n: int,
    c: Seq<T>,
    s: Seq<T>,
    g: Option<Seq<(T, T)>>,
    delay: bool,
    k: int,
) -> Seq<Stamp<T>> {
    segment_fw_stamps(nodes, branches, wpc, n, c[k], s[k], delay, k)
        + match g {
            Some(gs) => cross_stamps(branches, ctrl, gs, segment_bpc(wpc), k, ctrl.len() as int),
            None => Seq::empty(),
        }
        + segment_bw_stamps(nodes, branches, wpc, n, c[k], s[k], delay, k)
}

/// The stamps of channels `0 .. k`.
pub open spec fn segment_stamps<T>(
    nodes: Seq<NodeId>,
    branches: Seq<Option<usize>>,
    ctrl: Seq<NodeId>,
    wpc: int,
    n: int,
    c: Seq<T>,
    s: Seq<T>,
    g: Option<Seq<(T, T)>>,
    delay: bool,
    k: int,
) -> Seq<Stamp<T>>
    decreases k,
{
    if k <= 0 {
        Seq::empty()
    } else {
        segment_stamps(nodes, branches, ctrl, wpc, n, c, s, g, delay, k - 1)
            + segment_channel_stamps(nodes, branches, ctrl, wpc, n, c, s, g, delay, k - 1)
    }
}

/// Whatever channel `k`'s own stamps hold, the stamps of channels `0 .. m`
/// hold, for `k < m`.
proof fn lemma_segment_has<T>(
    nodes: Seq<NodeId>, branches: Seq<Option<usize>>, ctrl: Seq<NodeId>, wpc: int, n: int,
    c: Seq<T>, s: Seq<T>, g: Option<Seq<(T, T)>>, delay: bool, m: int, k: int, x: Stamp<T>,
)
    requires
        0 <= k < m,
        segment_channel_stamps(nodes, branches, ctrl, wpc, n, c, s, g, delay, k).contains(x),
    ensures
        segment_stamps(nodes, branches, ctrl, wpc, n, c, s, g, delay, m).contains(x),
    decreases m,
{
    let pre = segment_stamps(nodes, branches, ctrl, wpc, n, c, s, g, delay, m - 1);
    let ch = segment_channel_stamps(nodes, branches, ctrl, wpc, n, c, s, g, delay, m - 1);
    assert(segment_stamps(nodes, branches, ctrl, wpc, n, c, s, g, delay, m) == pre + ch);
    if k < m - 1 {
        lemma_segment_has(nodes, branches, ctrl, wpc, n, c, s, g, delay, m - 1, k, x);
    }
    lemma_concat_has(pre, ch, x);
}

proof fn lemma_segment_row_0<T>(
    nodes: Seq<NodeId>,
    branches: Seq<Option<usize>>,
    ctrl: Seq<NodeId>,
    wpc: int,
    n: int,
    c: Seq<T>,
    s: Seq<T>,
    g: Option<Seq<(T, T)>>,
    k: int,
)
    requires
        wpc == 3 || wpc == 5,
        0 <= k < n,
        branches.len() == segment_bpc(wpc) * n,
    ensures
        row_couples(segment_stamps(nodes, branches, ctrl, wpc, n, c, s, g, false, n), branches[(wpc - 1) * k], nodes[wpc * n + wpc * k], nodes[wpc * k], Coef::Neg(c[k])),
        row_couples(segment_stamps(nodes, branches, ctrl, wpc, n, c, s, g, false, n), branches[(wpc - 1) * k], nodes[wpc * n + wpc * k], nodes[wpc * k + 1], Coef::Neg(s[k])),
{
    let bpc = segment_bpc(wpc);
    let ob = wpc * n;
    assert(bpc * k + bpc <= bpc * n) by (nonlinear_arith) requires 0 <= k < n, bpc >= 2;
    {
        let ins = seq![(nodes[wpc * k], Coef::Neg(c[k])), (nodes[wpc * k + 1], Coef::Neg(s[k]))];
        if let (Some(j), Some(o)) = (branches[bpc * k], nodes[ob + wpc * k]) {
            lemma_eq_has(branches, bpc * k, nodes[ob + wpc * k], ins, j, o);
            let e = potential_eq_stamps(branches, bpc * k, nodes[ob + wpc * k], ins);
            lemma_seg_part_has(nodes, branches, ctrl, wpc, n, c, s, g, k, 0, Stamp { row: j, col: o, coef: Coef::One });
            if let Some(i) = nodes[wpc * k] {
                assert(ins[0].0 == Some(i) && ins[0].1 == Coef::Neg(c[k]));
                assert(e.contains(Stamp { row: j, col: i, coef: Coef::Neg(c[k]) }));
                lemma_seg_part_has(nodes, branches, ctrl, wpc, n, c, s, g, k, 0, Stamp { row: j, col: i, coef: Coef::Neg(c[k]) });
            }
            if let Some(i) = nodes[wpc * k + 1] {
                assert(ins[1].0 == Some(i) && ins[1].1 == Coef::Neg(s[k]));
                assert(e.contains(Stamp { row: j, col: i, coef: Coef::Neg(s[k]) }));
                lemma_seg_part_has(nodes, branches, ctrl, wpc, n, c, s, g, k, 0, Stamp { row: j, col: i, coef: Coef::Neg(s[k]) });
            }
        }
    }
}

proof fn lemma_segment_row_1<T>(
    nodes: Seq<NodeId>,
    branches: Seq<Option<usize>>,
    ctrl: Seq<NodeId>,
    wpc: int,
    n: int,
    c: Seq<T>,
    s: Seq<T>,
    g: Option<Seq<(T, T)>>,
    k: int,
)
    requires
        wpc == 3 || wpc == 5,
        0 <= k < n,
        branches.len() == segment_bpc(wpc) * n,
    ensures
        row_couples(segment_stamps(nodes, branches, ctrl, wpc, n, c, s, g, false, n), branches[(wpc - 1) * k + 1], nodes[wpc * n + wpc * k + 1], nodes[wpc * k], Coef::Pos(s[k])),
        row_couples(segment_stamps(nodes, branches, ctrl, wpc, n, c, s, g, false, n), branches[(wpc - 1) * k + 1], nodes[wpc * n + wpc * k + 1], nodes[wpc * k + 1], Coef::Neg(c[k])),
{
    let bpc = segment_bpc(wpc);
    let ob = wpc * n;
    assert(bpc * k + bpc <= bpc * n) by (nonlinear_arith) requires 0 <= k < n, bpc >= 2;
    {
        let ins = seq![(nodes[wpc * k], Coef::Pos(s[k])), (nodes[wpc * k + 1], Coef::Neg(c[k]))];
        if let (Some(j), Some(o)) = (branches[bpc * k + 1], nodes[ob + wpc * k + 1]) {
            lemma_eq_has(branches, bpc * k + 1, nodes[ob + wpc * k + 1], ins, j, o);
            let e = potential_eq_stamps(branches, bpc * k + 1, nodes[ob + wpc * k + 1], ins);
            lemma_seg_part_has(nodes, branches, ctrl, wpc, n, c, s, g, k, 1, Stamp { row: j, col: o, coef: Coef::One });
            if let Some(i) = nodes[wpc * k] {
                assert(ins[0].0 == Some(i) && ins[0].1 == Coef::Pos(s[k]));
                assert(e.contains(Stamp { row: j, col: i, coef: Coef::Pos(s[k]) }));
                lemma_seg_part_has(nodes, branches, ctrl, wpc, n, c, s, g, k, 1, Stamp { row: j, col: i, coef: Coef::Pos(s[k]) });
            }
            if let Some(i) = nodes[wpc * k + 1] {
                assert(ins[1].0 == Some(i) && ins[1].1 == Coef::Neg(c[k]));
                assert(e.contains(Stamp { row: j, col: i, coef: Coef::Neg(c[k]) }));
                lemma_seg_part_has(nodes, branches, ctrl, wpc, n, c, s, g, k, 1, Stamp { row: j, col: i, coef: Coef::Neg(c[k]) });
            }
        }
    }
}

proof fn lemma_segment_row_2<T>(
    nodes: Seq<NodeId>,
    branches: Seq<Option<usize>>,
    ctrl: Seq<NodeId>,
    wpc: int,
    n: int,
    c: Seq<T>,
    s: Seq<T>,
    g: Option<Seq<(T, T)>>,
    k: int,
)
    requires
        wpc == 3 || wpc == 5,
        0 <= k < n,
        branches.len() == segment_bpc(wpc) * n,
        wpc == 5,
    ensures
        row_couples(segment_stamps(nodes, branches, ctrl, wpc, n, c, s, g, false, n), branches[(wpc - 1) * k + 2], nodes[wpc * k + 2], nodes[wpc * n + wpc * k + 2], Coef::Neg(c[k])),
        row_couples(segment_stamps(nodes, branches, ctrl, wpc, n, c, s, g, false, n), branches[(wpc - 1) * k + 2], nodes[wpc * k + 2], nodes[wpc * n + wpc * k + 3], Coef::Neg(s[k])),
{
    let bpc = segment_bpc(wpc);
    let ob = wpc * n;
    assert(bpc * k + bpc <= bpc * n) by (nonlinear_arith) requires 0 <= k < n, bpc >= 2;
    {
        let ins = seq![(nodes[ob + wpc * k + 2], Coef::Neg(c[k])), (nodes[ob + wpc * k + 3], Coef::Neg(s[k]))];
        if let (Some(j), Some(o)) = (branches[bpc * k + 2], nodes[wpc * k + 2]) {
            lemma_eq_has(branches, bpc * k + 2, nodes[wpc * k + 2], ins, j, o);
            let e = potential_eq_stamps(branches, bpc * k + 2, nodes[wpc * k + 2], ins);
            lemma_seg_part_has(nodes, branches, ctrl, wpc, n, c, s, g, k, 2, Stamp { row: j, col: o, coef: Coef::One });
            if let Some(i) = nodes[ob + wpc * k + 2] {
                assert(ins[0].0 == Some(i) && ins[0].1 == Coef::Neg(c[k]));
                assert(e.contains(Stamp { row: j, col: i, coef: Coef::Neg(c[k]) }));
                lemma_seg_part_has(nodes, branches, ctrl, wpc, n, c, s, g, k, 2, Stamp { row: j, col: i, coef: Coef::Neg(c[k]) });
            }
            if let Some(i) = nodes[ob + wpc * k + 3] {
                assert(ins[1].0 == Some(i) && ins[1].1 == Coef::Neg(s[k]));
                assert(e.contains(Stamp { row: j, col: i, coef: Coef::Neg(s[k]) }));
                lemma_seg_part_has(nodes, branches, ctrl, wpc, n, c, s, g, k, 2, Stamp { row: j, col: i, coef: Coef::Neg(s[k]) });
            }
        }
    }
}

proof fn lemma_segment_row_3<T>(
    nodes: Seq<NodeId>,
    branches: Seq<Option<usize>>,
    ctrl: Seq<NodeId>,
    wpc: int,
    n: int,
    c: Seq<T>,
    s: Seq<T>,
    g: Option<Seq<(T, T)>>,
    k: int,
)
    requires
        wpc == 3 || wpc == 5,
        0 <= k < n,
        branches.len() == segment_bpc(wpc) * n,
        wpc == 5,
    ensures
        row_couples(segment_stamps(nodes, branches, ctrl, wpc, n, c, s, g, false, n), branches[(wpc - 1) * k + 3], nodes[wpc * k + 3], nodes[wpc * n + wpc * k + 2], Coef::Pos(s[k])),
        row_couples(segment_stamps(nodes, branches, ctrl, wpc, n, c, s, g, false, n), branches[(wpc - 1) * k + 3], nodes[wpc * k + 3], nodes[wpc * n + wpc * k + 3], Coef::Neg(c[k])),
{
    let bpc = segment_bpc(wpc);
    let ob = wpc * n;
    assert(bpc * k + bpc <= bpc * n) by (nonlinear_arith) requires 0 <= k < n, bpc >= 2;
    {
        let ins = seq![(nodes[ob + wpc * k + 2], Coef::Pos(s[k])), (nodes[ob + wpc * k + 3], Coef::Neg(c[k]))];
        if let (Some(j), Some(o)) = (branches[bpc * k + 3], nodes[wpc * k + 3]) {
            lemma_eq_has(branches, bpc * k + 3, nodes[wpc * k + 3], ins, j, o);
            let e = potential_eq_stamps(branches, bpc * k + 3, nodes[wpc * k + 3], ins);
            lemma_seg_part_has(nodes, branches, ctrl, wpc, n, c, s, g, k, 3, Stamp { row: j, col: o, coef: Coef::One });
            if let Some(i) = nodes[ob + wpc * k + 2] {
                assert(ins[0].0 == Some(i) && ins[0].1 == Coef::Pos(s[k]));
                assert(e.contains(Stamp { row: j, col: i, coef: Coef::Pos(s[k]) }));
                lemma_seg_part_has(nodes, branches, ctrl, wpc, n, c, s, g, k, 3, Stamp { row: j, col: i, coef: Coef::Pos(s[k]) });
            }
            if let Some(i) = nodes[ob + wpc * k + 3] {
                assert(ins[1].0 == Some(i) && ins[1].1 == Coef::Neg(c[k]));
                assert(e.contains(Stamp { row: j, col: i, coef: Coef::Neg(c[k]) }));
                lemma_seg_part_has(nodes, branches, ctrl, wpc, n, c, s, g, k, 3, Stamp { row: j, col: i, coef: Coef::Neg(c[k]) });
            }
        }
    }
}

/// What equation `r` of channel `k` (re, im, then the backward pair) stamps,
/// the whole segment stamps (outside delay mode).
proof fn lemma_seg_part_has<T>(
    nodes: Seq<NodeId>, branches: Seq<Option<usize>>, ctrl: Seq<NodeId>, wpc: int, n: int,
    c: Seq<T>, s: Seq<T>, g: Option<Seq<(T, T)>>, k: int, r: int, x: Stamp<T>,
)
    requires
        0 <= k < n,
        0 <= r < 4,
        r >= 2 ==> wpc == 5,
        ({
            let bpc = segment_bpc(wpc);
            let ob = wpc * n;
            let (b, o, i0, i1) = if r < 2 { (bpc * k + r, ob + wpc * k + r, wpc * k, wpc * k + 1) }
                else { (bpc * k + r, wpc * k + r, ob + wpc * k + 2, ob + wpc * k + 3) };
            let ins = if r % 2 == 0 { seq![(nodes[i0], Coef::Neg(c[k])), (nodes[i1], Coef::Neg(s[k]))] }
                else { seq![(nodes[i0], Coef::Pos(s[k])), (nodes[i1], Coef::Neg(c[k]))] };
            potential_eq_stamps(branches, b, nodes[o], ins).contains(x)
        }),
    ensures
        segment_stamps(nodes, branches, ctrl, wpc, n, c, s, g, false, n).contains(x),
{
    let bpc = segment_bpc(wpc);
    let ob = wpc * n;
    let (in_re, in_im) = (nodes[wpc * k], nodes[wpc * k + 1]);
    let (o_re, o_im) = (nodes[ob + wpc * k + 2], nodes[ob + wpc * k + 3]);
    let e0 = potential_eq_stamps(branches, bpc * k, nodes[ob + wpc * k], seq![(in_re, Coef::Neg(c[k])), (in_im, Coef::Neg(s[k]))]);
    let e1 = potential_eq_stamps(branches, bpc * k + 1, nodes[ob + wpc * k + 1], seq![(in_re, Coef::Pos(s[k])), (in_im, Coef::Neg(c[k]))]);
    let e2 = potential_eq_stamps(branches, bpc * k + 2, nodes[wpc * k + 2], seq![(o_re, Coef::Neg(c[k])), (o_im, Coef::Neg(s[k]))]);
    let e3 = potential_eq_stamps(branches, bpc * k + 3, nodes[wpc * k + 3], seq![(o_re, Coef::Pos(s[k])), (o_im, Coef::Neg(c[k]))]);
    let fw = segment_fw_stamps(nodes, branches, wpc, n, c[k], s[k], false, k);
    let bw = segment_bw_stamps(nodes, branches, wpc, n, c[k], s[k], false, k);
    let cr = match g {
        Some(gs) => cross_stamps(branches, ctrl, gs, segment_bpc(wpc), k, ctrl.len() as int),
        None => Seq::empty(),
    };
    assert(fw == e0 + e1);
    assert(segment_channel_stamps(nodes, branches, ctrl, wpc, n, c, s, g, false, k) == fw + cr + bw);
    if r < 2 {
        lemma_concat_has(e0, e1, x);
        lemma_concat_has(fw, cr, x);
        lemma_concat_has(fw + cr, bw, x);
    } else {
        assert(bw == e2 + e3);
        lemma_concat_has(e2, e3, x);
        lemma_concat_has(fw + cr, bw, x);
    }
    lemma_segment_has(nodes, branches, ctrl, wpc, n, c, s, g, false, n, k, x);
}
/// Each channel propagates with its own transmission: outside delay mode,
/// channel `k`'s forward re equation (branch slot `(wpc − 1)·k`, driving
/// output wire `wpc·n + wpc·k`) takes `−c[k]` on its input re wire
/// `wpc·k` and `−s[k]` on its input im wire, and its im equation (the next
/// slot, driving the output im wire) `+s[k]` and `−c[k]`. Under
/// bidirectional propagation (`wpc = 5`) the backward pair, on the next two
/// slots, drives the input's backward wires from the output's with the same
/// `c[k]`, `s[k]`. Other channels' transmissions play no part.
pub proof fn lemma_segment_channel_transmission<T>(
    nodes: Seq<NodeId>,
    branches: Seq<Option<usize>>,
    ctrl: Seq<NodeId>,
    wpc: int,
    n: int,
    c: Seq<T>,
    s: Seq<T>,
    g: Option<Seq<(T, T)>>,
    k: int,
)
    requires
        wpc == 3 || wpc == 5,
        0 <= k < n,
        branches.len() == segment_bpc(wpc) * n,
    ensures
        ({
            let st = segment_stamps(nodes, branches, ctrl, wpc, n, c, s, g, false, n);
            &&& row_couples(st, branches[(wpc - 1) * k], nodes[wpc * n + wpc * k], nodes[wpc * k], Coef::Neg(c[k]))
            &&& row_couples(st, branches[(wpc - 1) * k], nodes[wpc * n + wpc * k], nodes[wpc * k + 1], Coef::Neg(s[k]))
            &&& row_couples(st, branches[(wpc - 1) * k + 1], nodes[wpc * n + wpc * k + 1], nodes[wpc * k], Coef::Pos(s[k]))
            &&& row_couples(st, branches[(wpc - 1) * k + 1], nodes[wpc * n + wpc * k + 1], nodes[wpc * k + 1], Coef::Neg(c[k]))
        }),
        wpc == 5 ==> ({
            let st = segment_stamps(nodes, branches, ctrl, wpc, n, c, s, g, false, n);
            &&& row_couples(st, branches[(wpc - 1) * k + 2], nodes[wpc * k + 2], nodes[wpc * n + wpc * k + 2], Coef::Neg(c[k]))
            &&& row_couples(st, branches[(wpc - 1) * k + 2], nodes[wpc * k + 2], nodes[wpc * n + wpc * k + 3], Coef::Neg(s[k]))
            &&& row_couples(st, branches[(wpc - 1) * k + 3], nodes[wpc * k + 3], nodes[wpc * n + wpc * k + 2], Coef::Pos(s[k]))
            &&& row_couples(st, branches[(wpc - 1) * k + 3], nodes[wpc * k + 3], nodes[wpc * n + wpc * k + 3], Coef::Neg(c[k]))
        }),
{
    lemma_segment_row_0(nodes, branches, ctrl, wpc, n, c, s, g, k);
    lemma_segment_row_1(nodes, branches, ctrl, wpc, n, c, s, g, k);
    if wpc == 5 {
        lemma_segment_row_2(nodes, branches, ctrl, wpc, n, c, s, g, k);
    }
    if wpc == 5 {
        lemma_segment_row_3(nodes, branches, ctrl, wpc, n, c, s, g, k);
    }
}

/// The couplings of channel `k` that delay mode drops from the field
/// equations, each on its row and input column (both non-ground), in the
/// order `stamp` writes them: `re` row then `im` row, forward then backward.
pub open spec fn ac_channel_stamps<T>(
    nodes: Seq<NodeId>,
    branches: Seq<Option<usize>>,
    wpc: int,
    n: int,
    ck: T,
    sk: T,
    k: int,
) -> Seq<Stamp<T>> {
    let bpc = segment_bpc(wpc);
    let ob = wpc * n;
    let (in_re, in_im) = (nodes[wpc * k], nodes[wpc * k + 1]);
    let (r_re, r_im) = (branches[bpc * k], branches[bpc * k + 1]);
    opt_stamp(r_re, in_re, Coef::Neg(ck)) + opt_stamp(r_re, in_im, Coef::Neg(sk))
        + opt_stamp(r_im, in_re, Coef::Pos(sk)) + opt_stamp(r_im, in_im, Coef::Neg(ck))
        + if wpc == 5 {
        let (bw_re, bw_im) = (nodes[ob + wpc * k + 2], nodes[ob + wpc * k + 3]);
        let (rb_re, rb_im) = (branches[bpc * k + 2], branches[bpc * k + 3]);
        opt_stamp(rb_re, bw_re, Coef::Neg(ck)) + opt_stamp(rb_re, bw_im, Coef::Neg(sk))
            + opt_stamp(rb_im, bw_re, Coef::Pos(sk)) + opt_stamp(rb_im, bw_im, Coef::Neg(ck))
    } else {
        Seq::empty()
    }
}

fn push_ac_pair<T: Copy>(v: &mut Vec<Stamp<T>>, r_re: Option<usize>, r_im: Option<usize>, a: NodeId, b: NodeId, ck: T, sk: T)
    ensures
        final(v)@ == old(v)@ + (opt_stamp(r_re, a, Coef::Neg(ck)) + opt_stamp(r_re, b, Coef::Neg(sk))
            + opt_stamp(r_im, a, Coef::Pos(sk)) + opt_stamp(r_im, b, Coef::Neg(ck))),
{
    let ghost before = v@;
    push_opt(v, r_re, a, Coef::Neg(ck));
    push_opt(v, r_re, b, Coef::Neg(sk));
    push_opt(v, r_im, a, Coef::Pos(sk));
    push_opt(v, r_im, b, Coef::Neg(ck));
    assert(v@ =~= before + (opt_stamp(r_re, a, Coef::Neg(ck)) + opt_stamp(r_re, b, Coef::Neg(sk))
        + opt_stamp(r_im, a, Coef::Pos(sk)) + opt_stamp(r_im, b, Coef::Neg(ck))));
}

/// The dropped couplings of channels `0 .. k`.
pub open spec fn ac_stamps_upto<T>(
    nodes: Seq<NodeId>,
    branches: Seq<Option<usize>>,
    wpc: int,
    n: int,
    c: Seq<T>,
    s: Seq<T>,
    k: int,
) -> Seq<Stamp<T>>
    decreases k,
{
    if k <= 0 {
        Seq::empty()
    } else {
        ac_stamps_upto(nodes, branches, wpc, n, c, s, k - 1) + ac_channel_stamps(nodes, branches, wpc, n, c[k - 1], s[k - 1], k - 1)
    }
}

/// The `(from, to)` λ routes of a segment: channel `k`'s input λ wire to its
/// output λ wire.
pub open spec fn segment_lambda_routes(wpc: int, n: int) -> Seq<(usize, usize)> {
    Seq::new(n as nat, |k: int| ((wpc * k + wpc - 1) as usize, (wpc * n + wpc * k + wpc - 1) as usize))
}

pub struct SegmentPorts {
    n_channels: usize,
    /// Smallest optical wire count that would have been usable, recorded
    /// when `setup_instance` is handed one it cannot use.
    min_wires: Option<usize>,
    wpc: usize,
    nodes: Vec<NodeId>,
    branches: Vec<Option<usize>>,
    ctrl_nodes: Vec<NodeId>,
}

impl SegmentPorts {
    pub closed spec fn channels(&self) -> nat {
        self.n_channels as nat
    }

    pub closed spec fn wires(&self) -> nat {
        self.wpc as nat
    }

    pub closed spec fn min_wires(&self) -> Option<usize> {
        self.min_wires
    }

    pub closed spec fn nodes(&self) -> Seq<NodeId> {
        self.nodes@
    }

    pub closed spec fn branches(&self) -> Seq<Option<usize>> {
        self.branches@
    }

    pub closed spec fn ctrl_nodes(&self) -> Seq<NodeId> {
        self.ctrl_nodes@
    }

    /// Either unconfigured, or holding `2·wpc·n` bundle wires and
    /// `(wpc − 1)·n` branch rows.
    pub open spec fn wf(&self) -> bool {
        ||| self.channels() == 0 && self.nodes().len() == 0 && self.branches().len() == 0
        ||| self.channels() > 0 && self.wires() >= 1 && self.nodes().len() == 2 * self.wires() * self.channels()
            && self.branches().len() == segment_bpc(self.wires() as int) * self.channels()
    }

    pub fn new() -> (s: Self)
        ensures
            s.wf(),
            s.channels() == 0,
            s.wires() == 3,
            s.min_wires() == None::<usize>,
            s.nodes() == Seq::<NodeId>::empty(),
            s.branches() == Seq::<Option<usize>>::empty(),
            s.ctrl_nodes() == Seq::<NodeId>::empty(),
    {
        SegmentPorts {
            n_channels: 0,
            min_wires: None,
            wpc: 3,
            nodes: Vec::new(),
            branches: Vec::new(),
            ctrl_nodes: Vec::new(),
        }
    }

    pub fn n_channels(&self) -> (r: usize)
        ensures
            r == self.channels(),
    {
        self.n_channels
    }

    pub fn wpc(&self) -> (r: usize)
        ensures
            r == self.wires(),
    {
        self.wpc
    }

    /// Auxiliary branch rows per channel: one per driven field wire.
    pub fn bpc(wpc: usize) -> (r: usize)
        requires
            wpc >= 1,
        ensures
            r == segment_bpc(wpc as int),
    {
        wpc - 1
    }

    /// Record the simulation's wires-per-channel. Only an unconfigured
    /// segment may change width.
    pub fn setup_model(&mut self, wires_per_channel: usize)
        requires
            old(self).wf(),
            old(self).channels() == 0,
        ensures
            final(self).wf(),
            final(self).wires() == wires_per_channel,
            final(self).channels() == 0,
            final(self).min_wires() == old(self).min_wires(),
            final(self).nodes() == old(self).nodes(),
            final(self).branches() == old(self).branches(),
            final(self).ctrl_nodes() == old(self).ctrl_nodes(),
    {
        self.wpc = wires_per_channel;
    }

    /// Bind the segment to its `2·wpc·N` optical bundle wires (input block,
    /// then output block). A count that is not a positive multiple of
    /// `2·wpc` leaves the segment unconfigured, recording `2·wpc` as the
    /// smallest usable count.
    pub fn setup_instance(&mut self, optical_terminals: &[NodeId], wires_per_channel: usize)
        requires
            old(self).wf(),
            2 * wires_per_channel <= usize::MAX,
        ensures
            final(self).wf(),
            final(self).wires() == wires_per_channel,
            final(self).ctrl_nodes() == old(self).ctrl_nodes(),
            ({
                let len = optical_terminals@.len() as int;
                let stride = 2 * wires_per_channel as int;
                if len == 0 || stride == 0 || len % stride != 0 {
                    &&& final(self).min_wires() == Some(stride as usize)
                    &&& final(self).channels() == 0
                    &&& final(self).nodes() == Seq::<NodeId>::empty()
                    &&& final(self).branches() == Seq::<Option<usize>>::empty()
                } else {
                    &&& final(self).min_wires() == None::<usize>
                    &&& final(self).channels() == len / stride
                    &&& final(self).nodes() == optical_terminals@
                    &&& final(self).branches() == Seq::new(
                        ((wires_per_channel - 1) * (len / stride)) as nat,
                        |i: int| None::<usize>,
                    )
                }
            }),
    {
        let wpc = wires_per_channel;
        self.wpc = wpc;
        let stride = 2 * wpc;
        let len = optical_terminals.len();
        if len == 0 || stride == 0 || len % stride != 0 {
            self.min_wires = Some(stride);
            self.n_channels = 0;
            self.nodes = Vec::new();
            self.branches = Vec::new();
            return;
        }
        self.min_wires = None;
        let n = len / stride;
        proof {
            assert(len == stride * n && n >= 1) by (nonlinear_arith)
                requires stride > 0, len > 0, len % stride == 0, n == len / stride;
            assert((wpc - 1) * n <= len) by (nonlinear_arith)
                requires len == stride * n, stride == 2 * wpc, wpc >= 1;
        }
        self.n_channels = n;
        self.nodes = copy_nodes(optical_terminals);
        self.branches = unbound_rows((wpc - 1) * n);
        assert(self.branches@ =~= Seq::new(((wires_per_channel - 1) * (len / stride)) as nat, |i: int| None::<usize>));
    }

    /// Declare the drive's electrical terminals, whose columns receive the
    /// Newton cross-terms.
    pub fn set_control_nodes(&mut self, nodes: &[NodeId])
        ensures
            final(self).ctrl_nodes() == nodes@,
            final(self).channels() == old(self).channels(),
            final(self).wires() == old(self).wires(),
            final(self).min_wires() == old(self).min_wires(),
            final(self).nodes() == old(self).nodes(),
            final(self).branches() == old(self).branches(),
    {
        self.ctrl_nodes = copy_nodes(nodes);
    }

    /// `(from, to)` terminal pairs carrying a wavelength label through the
    /// segment: channel `k`'s input λ wire to its output λ wire.
    pub fn lambda_routing(&self) -> (v: Vec<(usize, usize)>)
        requires
            self.wf(),
        ensures
            v@ == segment_lambda_routes(self.wires() as int, self.channels() as int),
    {
        let n = self.n_channels;
        let wpc = self.wpc;
        let total = self.nodes.len();
        let mut v: Vec<(usize, usize)> = Vec::new();
        let mut k: usize = 0;
        while k < n
            invariant
                k <= n,
                n == self.channels(),
                wpc == self.wires(),
                self.wf(),
                total == self.nodes().len(),
                v@ == segment_lambda_routes(wpc as int, n as int).take(k as int),
            decreases n - k,
        {
            let lam = wpc - 1;
            assert(wpc * k + wpc <= wpc * n && 2 * wpc * n == wpc * n + wpc * n) by (nonlinear_arith)
                requires k < n, wpc >= 1;
            let out_base = wpc * n;
            v.push((wpc * k + lam, out_base + wpc * k + lam));
            assert(v@ =~= segment_lambda_routes(wpc as int, n as int).take(k + 1));
            k = k + 1;
        }
        assert(segment_lambda_routes(wpc as int, n as int).take(n as int) =~= segment_lambda_routes(wpc as int, n as int));
        v
    }

    /// Number of optical bundle wires this segment occupies (`2·wpc·N`), or
    /// the smallest count that would have worked after a refused setup.
    pub fn num_optical_wires(&self) -> (r: usize)
        requires
            self.wf(),
        ensures
            r == match self.min_wires() {
                Some(m) => m as int,
                None => (2 * self.wires() * self.channels()) as int,
            },
    {
        if let Some(min) = self.min_wires {
            return min;
        }
        if self.n_channels == 0 {
            assert(2 * self.wires() * self.channels() == 0) by (nonlinear_arith)
                requires self.channels() == 0;
            return 0;
        }
        let _len = self.nodes.len();
        assert(2 * self.wires() <= 2 * self.wires() * self.channels()) by (nonlinear_arith)
            requires self.channels() >= 1;
        2 * self.wpc * self.n_channels
    }

    /// Number of auxiliary branch rows this segment needs.
    pub fn num_aux_branches(&self) -> (r: usize)
        ensures
            r == self.branches().len(),
    {
        self.branches.len()
    }

    /// Bind the auxiliary branch rows to a contiguous block starting at
    /// `first_idx`.
    pub fn bind_branches(&mut self, first_idx: usize)
        requires
            first_idx + old(self).branches().len() <= usize::MAX,
        ensures
            final(self).branches().len() == old(self).branches().len(),
            bound_from(final(self).branches(), first_idx as int),
            final(self).channels() == old(self).channels(),
            final(self).wires() == old(self).wires(),
            final(self).min_wires() == old(self).min_wires(),
            final(self).nodes() == old(self).nodes(),
            final(self).ctrl_nodes() == old(self).ctrl_nodes(),
    {
        bind_contiguous(&mut self.branches, first_idx);
    }

    /// Control columns whose `∂out/∂V` the segment does not stamp because no
    /// sensitivities are armed: every non-ground control terminal, in order;
    /// none when they are armed.
    pub fn unstamped_control_columns(&self, sens_armed: bool) -> (v: Vec<usize>)
        ensures
            sens_armed ==> v@ == Seq::<usize>::empty(),
            !sens_armed ==> v@ == grounded_free(self.ctrl_nodes()),
    {
        let mut v: Vec<usize> = Vec::new();
        if sens_armed {
            return v;
        }
        let mut i: usize = 0;
        while i < self.ctrl_nodes.len()
            invariant
                i <= self.ctrl_nodes().len(),
                v@ == grounded_free(self.ctrl_nodes().take(i as int)),
            decreases self.ctrl_nodes().len() - i,
        {
            assert(self.ctrl_nodes().take(i + 1).drop_last() =~= self.ctrl_nodes().take(i as int));
            if let Some(c) = self.ctrl_nodes[i] {
                v.push(c);
            }
            i = i + 1;
        }
        assert(self.ctrl_nodes().take(self.ctrl_nodes().len() as int) =~= self.ctrl_nodes());
        v
    }

    /// Number of delayed source amplitudes per channel: forward re/im, plus
    /// backward re/im under bidirectional propagation.
    pub fn vals_per_channel(&self) -> (r: usize)
        ensures
            r == if self.wires() == 5 { 4int } else { 2 },
    {
        if self.wpc == 5 {
            4
        } else {
            2
        }
    }

    /// Stamp the per-channel optical branch equations with transmissions
    /// `c[k]`, `s[k]`; with sensitivities `g[k·nc + i] = (∂out_re/∂V_i,
    /// ∂out_im/∂V_i)` when the drive armed them; couplings dropped in delay
    /// mode.
    pub fn stamp<T: Copy>(
        &self,
        mat: &mut Vec<Stamp<T>>,
        c: &[T],
        s: &[T],
        g: Option<&[(T, T)]>,
        delay_active: bool,
    )
        requires
            self.wf(),
            self.wires() >= 3,
            c@.len() >= self.channels(),
            s@.len() >= self.channels(),
            g matches Some(gs) ==> gs@.len() == self.channels() * self.ctrl_nodes().len(),
        ensures
            final(mat)@ == old(mat)@ + segment_stamps(
                self.nodes(),
                self.branches(),
                self.ctrl_nodes(),
                self.wires() as int,
                self.channels() as int,
                c@,
                s@,
                match g { Some(gs) => Some(gs@), None => None },
                delay_active,
                self.channels() as int,
            ),
    {
        let ghost gv = match g { Some(gs) => Some(gs@), None => None::<Seq<(T, T)>> };
        let ghost start = mat@;
        let n = self.n_channels;
        let mut k: usize = 0;
        while k < n
            invariant
                k <= n,
                n == self.channels(),
                self.wf(),
                self.wires() >= 3,
                c@.len() >= n,
                s@.len() >= n,
                g matches Some(gs) ==> gs@.len() == n * self.ctrl_nodes().len(),
                gv == (match g { Some(gs) => Some(gs@), None => None::<Seq<(T, T)>> }),
                mat@ == start + segment_stamps(self.nodes(), self.branches(), self.ctrl_nodes(),
                    self.wires() as int, n as int, c@, s@, gv, delay_active, k as int),
            decreases n - k,
        {
            self.stamp_channel(mat, c, s, g, delay_active, k);
            k = k + 1;
        }
    }

    fn stamp_channel<T: Copy>(
        &self,
        mat: &mut Vec<Stamp<T>>,
        c: &[T],
        s: &[T],
        g: Option<&[(T, T)]>,
        delay_active: bool,
        k: usize,
    )
        requires
            self.wf(),
            self.wires() >= 3,
            k < self.channels(),
            c@.len() >= self.channels(),
            s@.len() >= self.channels(),
            g matches Some(gs) ==> gs@.len() == self.channels() * self.ctrl_nodes().len(),
        ensures
            final(mat)@ == old(mat)@ + segment_channel_stamps(
                self.nodes(),
                self.branches(),
                self.ctrl_nodes(),
                self.wires() as int,
                self.channels() as int,
                c@,
                s@,
                match g { Some(gs) => Some(gs@), None => None },
                delay_active,
                k as int,
            ),
    {
        let ghost start = mat@;
        let ck = c[k];
        let sk = s[k];
        self.stamp_fw(mat, ck, sk, delay_active, k);
        let ghost after_fw = mat@;
        // Newton cross-terms: c and s are functions of the control voltage.
        if let Some(gs) = g {
            self.stamp_cross(mat, gs, k);
        }
        let ghost after_cross = mat@;
        self.stamp_bw(mat, ck, sk, delay_active, k);
        assert(mat@ =~= start + segment_channel_stamps(self.nodes(), self.branches(), self.ctrl_nodes(),
            self.wires() as int, self.channels() as int, c@, s@, match g { Some(gs) => Some(gs@), None => None },
            delay_active, k as int));
    }

    fn stamp_fw<T: Copy>(&self, mat: &mut Vec<Stamp<T>>, ck: T, sk: T, delay_active: bool, k: usize)
        requires
            self.wf(),
            self.wires() >= 3,
            k < self.channels(),
        ensures
            final(mat)@ == old(mat)@ + segment_fw_stamps(self.nodes(), self.branches(), self.wires() as int,
                self.channels() as int, ck, sk, delay_active, k as int),
    {
        let n = self.n_channels;
        let wpc = self.wpc;
        let bpc = wpc - 1;
        let _len = self.nodes.len();
        let _nb = self.branches.len();
        assert(wpc * k + wpc <= wpc * n && 2 * wpc * n == wpc * n + wpc * n) by (nonlinear_arith)
            requires k < n, wpc >= 2;
        assert(bpc * k + bpc <= bpc * n) by (nonlinear_arith) requires k < n, bpc >= 2;
        let out_base = wpc * n;
        let in_re_fw = self.nodes[wpc * k];
        let in_im_fw = self.nodes[wpc * k + 1];
        let out_re_fw = self.nodes[out_base + wpc * k];
        let out_im_fw = self.nodes[out_base + wpc * k + 1];
        if delay_active {
            let none: [(NodeId, Coef<T>); 0] = [];
            assert(none@ =~= couplings(delay_active, seq![(in_re_fw, Coef::Neg(ck)), (in_im_fw, Coef::Neg(sk))]));
            stamp_potential_eq(mat, &self.branches, bpc * k, out_re_fw, &none);
            assert(none@ =~= couplings(delay_active, seq![(in_re_fw, Coef::Pos(sk)), (in_im_fw, Coef::Neg(ck))]));
            stamp_potential_eq(mat, &self.branches, bpc * k + 1, out_im_fw, &none);
        } else {
            let re_ins = [(in_re_fw, Coef::Neg(ck)), (in_im_fw, Coef::Neg(sk))];
            let im_ins = [(in_re_fw, Coef::Pos(sk)), (in_im_fw, Coef::Neg(ck))];
            assert(re_ins@ =~= couplings(delay_active, seq![(in_re_fw, Coef::Neg(ck)), (in_im_fw, Coef::Neg(sk))]));
            stamp_potential_eq(mat, &self.branches, bpc * k, out_re_fw, &re_ins);
            assert(im_ins@ =~= couplings(delay_active, seq![(in_re_fw, Coef::Pos(sk)), (in_im_fw, Coef::Neg(ck))]));
            stamp_potential_eq(mat, &self.branches, bpc * k + 1, out_im_fw, &im_ins);
        }
    }

    fn stamp_cross<T: Copy>(&self, mat: &mut Vec<Stamp<T>>, gs: &[(T, T)], k: usize)
        requires
            self.wf(),
            self.wires() >= 3,
            k < self.channels(),
            gs@.len() == self.channels() * self.ctrl_nodes().len(),
        ensures
            final(mat)@ == old(mat)@ + cross_stamps(self.branches(), self.ctrl_nodes(), gs@,
                segment_bpc(self.wires() as int), k as int, self.ctrl_nodes().len() as int),
    {
        let n = self.n_channels;
        let bpc = self.wpc - 1;
        let nb = self.branches.len();
        assert(bpc * k + bpc <= bpc * n) by (nonlinear_arith) requires k < n, bpc >= 2;
        let nc = self.ctrl_nodes.len();
        let glen = gs.len();
        assert(k * nc + nc <= n * nc) by (nonlinear_arith) requires k < n;
        let ghost start = mat@;
        let mut i: usize = 0;
        while i < nc
            invariant
                i <= nc,
                nc == self.ctrl_nodes().len(),
                k < n,
                n == self.channels(),
                bpc == segment_bpc(self.wires() as int),
                bpc * k + 1 < self.branches().len(),
                nb == self.branches().len(),
                gs@.len() == n * nc,
                glen == gs@.len(),
                k * nc + nc <= n * nc,
                mat@ == start + cross_stamps(self.branches(), self.ctrl_nodes(), gs@, bpc as int, k as int, i as int),
            decreases nc - i,
        {
            if let Some(cn) = self.ctrl_nodes[i] {
                let (g_re, g_im) = gs[k * nc + i];
                if let Some(j) = self.branches[bpc * k] {
                    mat.push(Stamp { row: j, col: cn, coef: Coef::Neg(g_re) });
                }
                if let Some(j) = self.branches[bpc * k + 1] {
                    mat.push(Stamp { row: j, col: cn, coef: Coef::Neg(g_im) });
                }
            }
            assert(mat@ =~= start + cross_stamps(self.branches(), self.ctrl_nodes(), gs@, bpc as int, k as int, i + 1));
            i = i + 1;
        }
    }

    fn stamp_bw<T: Copy>(&self, mat: &mut Vec<Stamp<T>>, ck: T, sk: T, delay_active: bool, k: usize)
        requires
            self.wf(),
            self.wires() >= 3,
            k < self.channels(),
        ensures
            final(mat)@ == old(mat)@ + segment_bw_stamps(self.nodes(), self.branches(), self.wires() as int,
                self.channels() as int, ck, sk, delay_active, k as int),
    {
        let n = self.n_channels;
        let wpc = self.wpc;
        if wpc != 5 {
            assert(mat@ =~= old(mat)@ + segment_bw_stamps(self.nodes(), self.branches(), wpc as int, n as int,
                ck, sk, delay_active, k as int));
            return;
        }
        let bpc = wpc - 1;
        let _len = self.nodes.len();
        let _nb = self.branches.len();
        assert(wpc * k + wpc <= wpc * n && 2 * wpc * n == wpc * n + wpc * n) by (nonlinear_arith)
            requires k < n, wpc >= 2;
        assert(bpc * k + bpc <= bpc * n) by (nonlinear_arith) requires k < n, bpc >= 2;
        let out_base = wpc * n;
        let in_re_bw = self.nodes[wpc * k + 2];
        let in_im_bw = self.nodes[wpc * k + 3];
        let out_re_bw = self.nodes[out_base + wpc * k + 2];
        let out_im_bw = self.nodes[out_base + wpc * k + 3];
        if delay_active {
            let none: [(NodeId, Coef<T>); 0] = [];
            assert(none@ =~= couplings(delay_active, seq![(out_re_bw, Coef::Neg(ck)), (out_im_bw, Coef::Neg(sk))]));
            stamp_potential_eq(mat, &self.branches, bpc * k + 2, in_re_bw, &none);
            assert(none@ =~= couplings(delay_active, seq![(out_re_bw, Coef::Pos(sk)), (out_im_bw, Coef::Neg(ck))]));
            stamp_potential_eq(mat, &self.branches, bpc * k + 3, in_im_bw, &none);
        } else {
            let re_ins = [(out_re_bw, Coef::Neg(ck)), (out_im_bw, Coef::Neg(sk))];
            let im_ins = [(out_re_bw, Coef::Pos(sk)), (out_im_bw, Coef::Neg(ck))];
            assert(re_ins@ =~= couplings(delay_active, seq![(out_re_bw, Coef::Neg(ck)), (out_im_bw, Coef::Neg(sk))]));
            stamp_potential_eq(mat, &self.branches, bpc * k + 2, in_re_bw, &re_ins);
            assert(im_ins@ =~= couplings(delay_active, seq![(out_re_bw, Coef::Pos(sk)), (out_im_bw, Coef::Neg(ck))]));
            stamp_potential_eq(mat, &self.branches, bpc * k + 3, in_im_bw, &im_ins);
        }
    }

    fn push_ac_channel<T: Copy>(&self, v: &mut Vec<Stamp<T>>, ck: T, sk: T, k: usize)
        requires
            self.wf(),
            self.wires() >= 3,
            k < self.channels(),
        ensures
            final(v)@ == old(v)@ + ac_channel_stamps(self.nodes(), self.branches(), self.wires() as int,
                self.channels() as int, ck, sk, k as int),
    {
        let n = self.n_channels;
        let wpc = self.wpc;
        let bpc = wpc - 1;
        let _len = self.nodes.len();
        let _nb = self.branches.len();
        assert(wpc * k + wpc <= wpc * n && 2 * wpc * n == wpc * n + wpc * n) by (nonlinear_arith)
            requires k < n, wpc >= 2;
        assert(bpc * k + bpc <= bpc * n) by (nonlinear_arith) requires k < n, bpc >= 2;
        let ghost before = v@;
        push_ac_pair(v, self.branches[bpc * k], self.branches[bpc * k + 1], self.nodes[wpc * k],
            self.nodes[wpc * k + 1], ck, sk);
        if wpc == 5 {
            let out_base = wpc * n;
            push_ac_pair(v, self.branches[bpc * k + 2], self.branches[bpc * k + 3],
                self.nodes[out_base + wpc * k + 2], self.nodes[out_base + wpc * k + 3], ck, sk);
        }
        assert(v@ =~= before + ac_channel_stamps(self.nodes(), self.branches(), wpc as int, n as int, ck, sk, k as int));
    }

    /// The small-signal couplings of delay mode: the entries the field
    /// equations drop while the delay line drives the outputs, which a
    /// frequency sweep adds back scaled by the delay's phasor. Empty when
    /// the delay is not engaged.
    pub fn ac_couplings<T: Copy>(&self, c: &[T], s: &[T], delay_active: bool) -> (v: Vec<Stamp<T>>)
        requires
            self.wf(),
            self.wires() >= 3,
            c@.len() >= self.channels(),
            s@.len() >= self.channels(),
        ensures
            !delay_active ==> v@ == Seq::<Stamp<T>>::empty(),
            delay_active ==> v@ == ac_stamps_upto(self.nodes(), self.branches(), self.wires() as int,
                self.channels() as int, c@, s@, self.channels() as int),
    {
        let mut v: Vec<Stamp<T>> = Vec::new();
        if !delay_active {
            return v;
        }
        let n = self.n_channels;
        let wpc = self.wpc;
        let bpc = wpc - 1;
        let _len = self.nodes.len();
        let _nb = self.branches.len();
        let mut k: usize = 0;
        while k < n
            invariant
                self.wf(),
                self.wires() >= 3,
                n == self.channels(),
                wpc == self.wires(),
                bpc == wpc - 1,
                _len == self.nodes().len(),
                _nb == self.branches().len(),
                c@.len() >= n,
                s@.len() >= n,
                k <= n,
                v@ == ac_stamps_upto(self.nodes(), self.branches(), wpc as int, n as int, c@, s@, k as int),
            decreases n - k,
        {
            assert(wpc * k + wpc <= wpc * n && 2 * wpc * n == wpc * n + wpc * n) by (nonlinear_arith)
                requires k < n, wpc >= 2;
            assert(bpc * k + bpc <= bpc * n) by (nonlinear_arith) requires k < n, bpc >= 2;
            self.push_ac_channel(&mut v, c[k], s[k], k);
            k = k + 1;
        }
        v
    }
}

/// The non-ground node indices of `nodes`, in order.
pub open spec fn grounded_free(nodes: Seq<NodeId>) -> Seq<usize>
    decreases nodes.len(),
{
    if nodes.len() == 0 {
        Seq::empty()
    } else {
        grounded_free(nodes.drop_last()) + match nodes.last() {
            Some(c) => seq![c],
            None => Seq::empty(),
        }
    }
}


/// What channel `k`'s dropped couplings hold, those of channels `0 .. m`
/// hold, for `k < m`.
proof fn lemma_ac_upto_has<T>(
    nodes: Seq<NodeId>, branches: Seq<Option<usize>>, wpc: int, n: int, c: Seq<T>, s: Seq<T>,
    m: int, k: int, row: NodeId, col: NodeId, coef: Coef<T>,
)
    requires
        0 <= k < m,
        cell_has(ac_channel_stamps(nodes, branches, wpc, n, c[k], s[k], k), row, col, coef),
    ensures
        cell_has(ac_stamps_upto(nodes, branches, wpc, n, c, s, m), row, col, coef),
    decreases m,
{
    if k < m - 1 {
        lemma_ac_upto_has(nodes, branches, wpc, n, c, s, m - 1, k, row, col, coef);
    }
    lemma_cell_concat(ac_stamps_upto(nodes, branches, wpc, n, c, s, m - 1),
        ac_channel_stamps(nodes, branches, wpc, n, c[m - 1], s[m - 1], m - 1), row, col, coef);
}

/// Four optional stamps: each lands where it says.
proof fn lemma_four_have<T>(ra: NodeId, ca: NodeId, ka: Coef<T>, rb: NodeId, cb: NodeId, kb: Coef<T>,
    rc: NodeId, cc: NodeId, kc: Coef<T>, rd: NodeId, cd: NodeId, kd: Coef<T>)
    ensures
        ({
            let st = opt_stamp(ra, ca, ka) + opt_stamp(rb, cb, kb) + opt_stamp(rc, cc, kc) + opt_stamp(rd, cd, kd);
            &&& cell_has(st, ra, ca, ka)
            &&& cell_has(st, rb, cb, kb)
            &&& cell_has(st, rc, cc, kc)
            &&& cell_has(st, rd, cd, kd)
        }),
{
    let (a, b, c, d) = (opt_stamp(ra, ca, ka), opt_stamp(rb, cb, kb), opt_stamp(rc, cc, kc), opt_stamp(rd, cd, kd));
    lemma_opt_stamp_has(ra, ca, ka);
    lemma_opt_stamp_has(rb, cb, kb);
    lemma_opt_stamp_has(rc, cc, kc);
    lemma_opt_stamp_has(rd, cd, kd);
    lemma_cell_concat(a, b, ra, ca, ka);
    lemma_cell_concat(a + b, c, ra, ca, ka);
    lemma_cell_concat(a + b + c, d, ra, ca, ka);
    lemma_cell_concat(a, b, rb, cb, kb);
    lemma_cell_concat(a + b, c, rb, cb, kb);
    lemma_cell_concat(a + b + c, d, rb, cb, kb);
    lemma_cell_concat(a + b, c, rc, cc, kc);
    lemma_cell_concat(a + b + c, d, rc, cc, kc);
    lemma_cell_concat(a + b + c, d, rd, cd, kd);
}

/// The couplings delay mode drops are each channel's own: channel `k`'s re
/// row (slot `(wpc − 1)·k`) holds `−c[k]` at its input re wire and `−s[k]`
/// at its input im wire, its im row `+s[k]` and `−c[k]`, and under
/// bidirectional propagation its backward rows (slots `+ 2`, `+ 3`) the same
/// at the output's backward wires.
pub proof fn lemma_ac_couplings_per_channel<T>(
    nodes: Seq<NodeId>, branches: Seq<Option<usize>>, wpc: int, n: int, c: Seq<T>, s: Seq<T>, k: int,
)
    requires
        0 <= k < n,
    ensures
        ({
            let st = ac_stamps_upto(nodes, branches, wpc, n, c, s, n);
            let (r_re, r_im) = (branches[(wpc - 1) * k], branches[(wpc - 1) * k + 1]);
            &&& cell_has(st, r_re, nodes[wpc * k], Coef::Neg(c[k]))
            &&& cell_has(st, r_re, nodes[wpc * k + 1], Coef::Neg(s[k]))
            &&& cell_has(st, r_im, nodes[wpc * k], Coef::Pos(s[k]))
            &&& cell_has(st, r_im, nodes[wpc * k + 1], Coef::Neg(c[k]))
        }),
        wpc == 5 ==> ({
            let st = ac_stamps_upto(nodes, branches, wpc, n, c, s, n);
            let (r_re, r_im) = (branches[(wpc - 1) * k + 2], branches[(wpc - 1) * k + 3]);
            &&& cell_has(st, r_re, nodes[wpc * n + wpc * k + 2], Coef::Neg(c[k]))
            &&& cell_has(st, r_re, nodes[wpc * n + wpc * k + 3], Coef::Neg(s[k]))
            &&& cell_has(st, r_im, nodes[wpc * n + wpc * k + 2], Coef::Pos(s[k]))
            &&& cell_has(st, r_im, nodes[wpc * n + wpc * k + 3], Coef::Neg(c[k]))
        }),
{
    let bpc = segment_bpc(wpc);
    let ob = wpc * n;
    let (in_re, in_im) = (nodes[wpc * k], nodes[wpc * k + 1]);
    let (r_re, r_im) = (branches[bpc * k], branches[bpc * k + 1]);
    let fw = opt_stamp(r_re, in_re, Coef::Neg(c[k])) + opt_stamp(r_re, in_im, Coef::Neg(s[k]))
        + opt_stamp(r_im, in_re, Coef::Pos(s[k])) + opt_stamp(r_im, in_im, Coef::Neg(c[k]));
    let (bw_re, bw_im) = (nodes[ob + wpc * k + 2], nodes[ob + wpc * k + 3]);
    let (rb_re, rb_im) = (branches[bpc * k + 2], branches[bpc * k + 3]);
    let bwp = opt_stamp(rb_re, bw_re, Coef::Neg(c[k])) + opt_stamp(rb_re, bw_im, Coef::Neg(s[k]))
        + opt_stamp(rb_im, bw_re, Coef::Pos(s[k])) + opt_stamp(rb_im, bw_im, Coef::Neg(c[k]));
    let bw: Seq<Stamp<T>> = if wpc == 5 { bwp } else { Seq::empty() };
    assert(ac_channel_stamps(nodes, branches, wpc, n, c[k], s[k], k) == fw + bw);
    lemma_four_have(r_re, in_re, Coef::Neg(c[k]), r_re, in_im, Coef::Neg(s[k]), r_im, in_re, Coef::Pos(s[k]), r_im, in_im, Coef::Neg(c[k]));
    let cells = seq![(r_re, in_re, Coef::Neg(c[k])), (r_re, in_im, Coef::Neg(s[k])), (r_im, in_re, Coef::Pos(s[k])), (r_im, in_im, Coef::Neg(c[k]))];
    assert forall|q: int| 0 <= q < 4 implies #[trigger] cell_has(ac_stamps_upto(nodes, branches, wpc, n, c, s, n), cells[q].0, cells[q].1, cells[q].2) by {
        lemma_cell_concat(fw, bw, cells[q].0, cells[q].1, cells[q].2);
        lemma_ac_upto_has(nodes, branches, wpc, n, c, s, n, k, cells[q].0, cells[q].1, cells[q].2);
    }
    assert(cell_has(ac_stamps_upto(nodes, branches, wpc, n, c, s, n), cells[0].0, cells[0].1, cells[0].2));
    assert(cell_has(ac_stamps_upto(nodes, branches, wpc, n, c, s, n), cells[1].0, cells[1].1, cells[1].2));
    assert(cell_has(ac_stamps_upto(nodes, branches, wpc, n, c, s, n), cells[2].0, cells[2].1, cells[2].2));
    assert(cell_has(ac_stamps_upto(nodes, branches, wpc, n, c, s, n), cells[3].0, cells[3].1, cells[3].2));
    if wpc == 5 {
        lemma_four_have(rb_re, bw_re, Coef::Neg(c[k]), rb_re, bw_im, Coef::Neg(s[k]), rb_im, bw_re, Coef::Pos(s[k]), rb_im, bw_im, Coef::Neg(c[k]));
        let bcells = seq![(rb_re, bw_re, Coef::Neg(c[k])), (rb_re, bw_im, Coef::Neg(s[k])), (rb_im, bw_re, Coef::Pos(s[k])), (rb_im, bw_im, Coef::Neg(c[k]))];
        assert forall|q: int| 0 <= q < 4 implies #[trigger] cell_has(ac_stamps_upto(nodes, branches, wpc, n, c, s, n), bcells[q].0, bcells[q].1, bcells[q].2) by {
            lemma_cell_concat(fw, bw, bcells[q].0, bcells[q].1, bcells[q].2);
            lemma_ac_upto_has(nodes, branches, wpc, n, c, s, n, k, bcells[q].0, bcells[q].1, bcells[q].2);
        }
        assert(cell_has(ac_stamps_upto(nodes, branches, wpc, n, c, s, n), bcells[0].0, bcells[0].1, bcells[0].2));
        assert(cell_has(ac_stamps_upto(nodes, branches, wpc, n, c, s, n), bcells[1].0, bcells[1].1, bcells[1].2));
        assert(cell_has(ac_stamps_upto(nodes, branches, wpc, n, c, s, n), bcells[2].0, bcells[2].1, bcells[2].2));
        assert(cell_has(ac_stamps_upto(nodes, branches, wpc, n, c, s, n), bcells[3].0, bcells[3].1, bcells[3].2));
    }
}

/// What the first `m` controls' cross-terms of channel `k` hold, the whole
/// list of its cross-terms holds.
proof fn lemma_cross_has<T>(branches: Seq<Option<usize>>, ctrl: Seq<NodeId>, g: Seq<(T, T)>, bpc: int, k: int, m: int, i: int)
    requires
        0 <= i < m,
    ensures
        cell_has(cross_stamps(branches, ctrl, g, bpc, k, m), branches[bpc * k], ctrl[i], Coef::Neg(g[k * ctrl.len() + i].0)),
        cell_has(cross_stamps(branches, ctrl, g, bpc, k, m), branches[bpc * k + 1], ctrl[i], Coef::Neg(g[k * ctrl.len() + i].1)),
    decreases m,
{
    let nc = ctrl.len() as int;
    let pre = cross_stamps(branches, ctrl, g, bpc, k, m - 1);
    let re_row = branches[bpc * k];
    let im_row = branches[bpc * k + 1];
    let a = Coef::Neg(g[k * nc + i].0);
    let b = Coef::Neg(g[k * nc + i].1);
    if i < m - 1 {
        lemma_cross_has(branches, ctrl, g, bpc, k, m - 1, i);
        let last = cross_stamps(branches, ctrl, g, bpc, k, m).subrange(pre.len() as int, cross_stamps(branches, ctrl, g, bpc, k, m).len() as int);
        assert(cross_stamps(branches, ctrl, g, bpc, k, m) == pre + last);
        lemma_cell_concat(pre, last, re_row, ctrl[i], a);
        lemma_cell_concat(pre, last, im_row, ctrl[i], b);
    } else if let Some(cn) = ctrl[i] {
        let x: Seq<Stamp<T>> = match re_row { Some(j) => seq![Stamp { row: j, col: cn, coef: a }], None => Seq::empty() };
        let y: Seq<Stamp<T>> = match im_row { Some(j) => seq![Stamp { row: j, col: cn, coef: b }], None => Seq::empty() };
        assert(cross_stamps(branches, ctrl, g, bpc, k, m) == pre + (x + y));
        if let Some(j) = re_row {
            assert(x[0] == Stamp { row: j, col: cn, coef: a });
            lemma_concat_has(x, y, Stamp { row: j, col: cn, coef: a });
            lemma_concat_has(pre, x + y, Stamp { row: j, col: cn, coef: a });
        }
        if let Some(j) = im_row {
            assert(y[0] == Stamp { row: j, col: cn, coef: b });
            lemma_concat_has(x, y, Stamp { row: j, col: cn, coef: b });
            lemma_concat_has(pre, x + y, Stamp { row: j, col: cn, coef: b });
        }
    }
}

/// The Newton cross-terms are channel `k`'s own sensitivities: with the
/// drive's sensitivities armed, channel `k`'s re row holds `−∂out_re/∂V_i`
/// (`g[k·nc + i].0`) in control column `i` and its im row `−∂out_im/∂V_i`
/// (`g[k·nc + i].1`), for every control terminal `i`, in or out of delay
/// mode.
pub proof fn lemma_segment_cross_terms<T>(
    nodes: Seq<NodeId>, branches: Seq<Option<usize>>, ctrl: Seq<NodeId>, wpc: int, n: int,
    c: Seq<T>, s: Seq<T>, g: Seq<(T, T)>, delay: bool, k: int, i: int,
)
    requires
        0 <= k < n,
        0 <= i < ctrl.len(),
    ensures
        cell_has(segment_stamps(nodes, branches, ctrl, wpc, n, c, s, Some(g), delay, n),
            branches[(wpc - 1) * k], ctrl[i], Coef::Neg(g[k * ctrl.len() + i].0)),
        cell_has(segment_stamps(nodes, branches, ctrl, wpc, n, c, s, Some(g), delay, n),
            branches[(wpc - 1) * k + 1], ctrl[i], Coef::Neg(g[k * ctrl.len() + i].1)),
{
    let bpc = segment_bpc(wpc);
    lemma_cross_has(branches, ctrl, g, bpc, k, ctrl.len() as int, i);
    let fw = segment_fw_stamps(nodes, branches, wpc, n, c[k], s[k], delay, k);
    let cr = cross_stamps(branches, ctrl, g, bpc, k, ctrl.len() as int);
    let bw = segment_bw_stamps(nodes, branches, wpc, n, c[k], s[k], delay, k);
    let ch = segment_channel_stamps(nodes, branches, ctrl, wpc, n, c, s, Some(g), delay, k);
    assert(ch == fw + cr + bw);
    let cells = seq![(branches[bpc * k], ctrl[i], Coef::Neg(g[k * ctrl.len() + i].0)),
        (branches[bpc * k + 1], ctrl[i], Coef::Neg(g[k * ctrl.len() + i].1))];
    assert forall|q: int| 0 <= q < 2 implies #[trigger] cell_has(segment_stamps(nodes, branches, ctrl, wpc, n, c, s, Some(g), delay, n), cells[q].0, cells[q].1, cells[q].2) by {
        lemma_cell_concat(fw, cr, cells[q].0, cells[q].1, cells[q].2);
        lemma_cell_concat(fw + cr, bw, cells[q].0, cells[q].1, cells[q].2);
        if let (Some(r), Some(col)) = (cells[q].0, cells[q].1) {
            lemma_segment_has(nodes, branches, ctrl, wpc, n, c, s, Some(g), delay, n, k, Stamp { row: r, col: col, coef: cells[q].2 });
        }
    }
    assert(cell_has(segment_stamps(nodes, branches, ctrl, wpc, n, c, s, Some(g), delay, n), cells[0].0, cells[0].1, cells[0].2));
    assert(cell_has(segment_stamps(nodes, branches, ctrl, wpc, n, c, s, Some(g), delay, n), cells[1].0, cells[1].1, cells[1].2));
}

} // verus!
