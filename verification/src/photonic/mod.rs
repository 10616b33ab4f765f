//! Native photonic devices. Every optical port is a bundle of `wpc` wires
//! per WDM channel: `[re, im, λ]` under unidirectional propagation or
//! `[re_fw, im_fw, re_bw, im_bw, λ]` under bidirectional propagation.

pub mod active;
pub mod awgr;
pub mod bundle;
pub mod circulator;
pub mod coupler;
pub mod drive;
pub mod detector;
pub mod facet;
pub mod grating;
pub mod keys;
pub mod laser;
pub mod segment;
pub mod shifter;
pub mod mzm;
pub mod names;
pub mod spectrum;
pub mod splitter;
pub mod table;

use vstd::prelude::*;
use crate::device::NodeId;
use crate::mna::{lemma_rows_couple, row_couples, resistor_stamps, branch_slots_exact, lemma_block_slots, lemma_rows_stamps_empty, Coef, Row, Stamp, blocked, lemma_blocked, lin_row, rows_stamps, stamp_lin_row};

pub use crate::mna::stamp_potential_eq;
pub use crate::mna::stamp_resistor;
pub use circulator::NativeCirculator;

verus! {

/// Branch rows per channel of a rotation stage: re, im and λ, plus the two
/// backward field rows under bidirectional propagation.
pub open spec fn rotation_bpc(wpc: int) -> int {
    if wpc == 5 { 5 } else { 3 }
}

/// Equation `r` of channel `k` of a rotation stage whose input bundle is the
/// first `wpc·n` terminals and output bundle the next `wpc·n`:
///
/// ```text
///   out.re = c·in.re + s·in.im        in.re_bw = c·out.re_bw + s·out.im_bw
///   out.im = −s·in.re + c·in.im       in.im_bw = −s·out.re_bw + c·out.im_bw
///   out.λ  = in.λ
/// ```
///
/// (written as `V(out) + Σ k·V(in) = 0`, so every coupling is negated).
pub open spec fn rotation_row<T>(nodes: Seq<NodeId>, wpc: int, n: int, c: Seq<T>, s: Seq<T>, k: int, r: int) -> Row<T> {
    let bpc = rotation_bpc(wpc);
    let ob = wpc * n;
    let (ck, sk) = (c[k], s[k]);
    if r == 0 {
        lin_row(nodes, bpc * k, ob + wpc * k, seq![((wpc * k) as usize, Coef::Neg(ck)), ((wpc * k + 1) as usize, Coef::Neg(sk))])
    } else if r == 1 {
        lin_row(nodes, bpc * k + 1, ob + wpc * k + 1, seq![((wpc * k) as usize, Coef::Pos(sk)), ((wpc * k + 1) as usize, Coef::Neg(ck))])
    } else if r == 2 {
        lin_row(nodes, bpc * k + bpc - 1, ob + wpc * k + wpc - 1, seq![((wpc * k + wpc - 1) as usize, Coef::NegOne)])
    } else if r == 3 {
        lin_row(nodes, bpc * k + 2, wpc * k + 2, seq![((ob + wpc * k + 2) as usize, Coef::Neg(ck)), ((ob + wpc * k + 3) as usize, Coef::Neg(sk))])
    } else {
        lin_row(nodes, bpc * k + 3, wpc * k + 3, seq![((ob + wpc * k + 2) as usize, Coef::Pos(sk)), ((ob + wpc * k + 3) as usize, Coef::Neg(ck))])
    }
}

/// The equations of an `n`-channel rotation stage, channel after channel.
pub open spec fn rotation_rows<T>(nodes: Seq<NodeId>, wpc: int, n: int, c: Seq<T>, s: Seq<T>) -> Seq<Row<T>> {
    blocked(rotation_bpc(wpc) as nat, n as nat, |k: int, r: int| rotation_row(nodes, wpc, n, c, s, k, r))
}

proof fn lemma_pos_bounds(wpc: int, n: int, k: int)
    requires
        2 <= wpc,
        0 <= k < n,
    ensures
        wpc * k + wpc <= wpc * n,
        0 <= wpc * k,
        rotation_bpc(wpc) * k + rotation_bpc(wpc) <= rotation_bpc(wpc) * n,
{
    assert(wpc * k + wpc <= wpc * n) by (nonlinear_arith) requires 0 <= k < n, 2 <= wpc;
    assert(0 <= wpc * k) by (nonlinear_arith) requires 0 <= k, 2 <= wpc;
    let b = rotation_bpc(wpc);
    assert(b * k + b <= b * n) by (nonlinear_arith) requires 0 <= k < n, b == 3 || b == 5;
}

/// Stamp the equations of channel `k` of a rotation stage.
#[verifier::rlimit(60)]
fn stamp_rotation_channel<T: Copy>(
    mat: &mut Vec<Stamp<T>>,
    nodes: &[NodeId],
    branches: &[Option<usize>],
    n: usize,
    wpc: usize,
    c: T,
    s: T,
    k: usize,
    Ghost(c_seq): Ghost<Seq<T>>,
    Ghost(s_seq): Ghost<Seq<T>>,
    Ghost(start): Ghost<Seq<Stamp<T>>>,
)
    requires
        2 <= wpc,
        k < n,
        nodes@.len() >= 2 * wpc * n,
        branches@.len() == rotation_bpc(wpc as int) * n,
        c_seq.len() >= n,
        s_seq.len() >= n,
        c == c_seq[k as int],
        s == s_seq[k as int],
        old(mat)@ == start + rows_stamps(
            branches@,
            rotation_rows(nodes@, wpc as int, n as int, c_seq, s_seq).take(rotation_bpc(wpc as int) * k),
        ),
    ensures
        final(mat)@ == start + rows_stamps(
            branches@,
            rotation_rows(nodes@, wpc as int, n as int, c_seq, s_seq).take(rotation_bpc(wpc as int) * (k + 1)),
        ),
{
    let ghost rows = rotation_rows(nodes@, wpc as int, n as int, c_seq, s_seq);
    let ghost f = |k: int, r: int| rotation_row(nodes@, wpc as int, n as int, c_seq, s_seq, k, r);
    assert(rows == blocked(rotation_bpc(wpc as int) as nat, n as nat, f));
    proof { lemma_pos_bounds(wpc as int, n as int, k as int); }
    let _total = nodes.len();
    let _nb = branches.len();
    assert(2 * wpc * n == wpc * n + wpc * n) by (nonlinear_arith);
    let bpc: usize = if wpc == 5 { 5 } else { 3 };
    let lam = wpc - 1;
    let out_base = wpc * n;
    let i0 = wpc * k;
    let o0 = out_base + wpc * k;
    let b = bpc * k;
    proof { lemma_blocked(bpc as nat, n as nat, f, k as int, 0); }
    let ins0 = [(i0, Coef::Neg(c)), (i0 + 1, Coef::Neg(s))];
    assert(ins0@ =~= seq![((wpc * k) as usize, Coef::Neg(c)), ((wpc * k + 1) as usize, Coef::Neg(s))]);
    stamp_lin_row(mat, branches, nodes, Ghost(rows), Ghost(start), b, b, o0, &ins0);
    proof { lemma_blocked(bpc as nat, n as nat, f, k as int, 1); }
    let ins1 = [(i0, Coef::Pos(s)), (i0 + 1, Coef::Neg(c))];
    assert(ins1@ =~= seq![((wpc * k) as usize, Coef::Pos(s)), ((wpc * k + 1) as usize, Coef::Neg(c))]);
    stamp_lin_row(mat, branches, nodes, Ghost(rows), Ghost(start), b + 1, b + 1, o0 + 1, &ins1);
    proof { lemma_blocked(bpc as nat, n as nat, f, k as int, 2); }
    let ins2 = [(i0 + lam, Coef::NegOne)];
    assert(ins2@ =~= seq![((wpc * k + wpc - 1) as usize, Coef::<T>::NegOne)]);
    stamp_lin_row(mat, branches, nodes, Ghost(rows), Ghost(start), b + 2, b + (bpc - 1), o0 + lam, &ins2);
    if wpc == 5 {
        proof { lemma_blocked(bpc as nat, n as nat, f, k as int, 3); }
        let ins3 = [(o0 + 2, Coef::Neg(c)), (o0 + 3, Coef::Neg(s))];
        assert(ins3@ =~= seq![((out_base + wpc * k + 2) as usize, Coef::Neg(c)), ((out_base + wpc * k + 3) as usize, Coef::Neg(s))]);
        stamp_lin_row(mat, branches, nodes, Ghost(rows), Ghost(start), b + 3, b + 2, i0 + 2, &ins3);
        proof { lemma_blocked(bpc as nat, n as nat, f, k as int, 4); }
        let ins4 = [(o0 + 2, Coef::Pos(s)), (o0 + 3, Coef::Neg(c))];
        assert(ins4@ =~= seq![((out_base + wpc * k + 2) as usize, Coef::Pos(s)), ((out_base + wpc * k + 3) as usize, Coef::Neg(c))]);
        stamp_lin_row(mat, branches, nodes, Ghost(rows), Ghost(start), b + 4, b + 3, i0 + 3, &ins4);
    }
}

/// Stamp the per-channel optical equations of a rotation stage (a PN or
/// thermal phase shifter's optics, or a passive waveguide) that has already
/// computed `c_cached[k]`, `s_cached[k]` per channel. Layout: input bundle
/// (`wpc·n` wires), output bundle (`wpc·n`), anything else after.
pub fn stamp_pn_optical<T: Copy>(
    mat: &mut Vec<Stamp<T>>,
    nodes: &[NodeId],
    branches: &[Option<usize>],
    n: usize,
    wpc: usize,
    c_cached: &[T],
    s_cached: &[T],
)
    requires
        2 <= wpc,
        nodes@.len() >= 2 * wpc * n,
        branches@.len() == rotation_bpc(wpc as int) * n,
        c_cached@.len() >= n,
        s_cached@.len() >= n,
    ensures
        final(mat)@ == old(mat)@ + rows_stamps(
            branches@,
            rotation_rows(nodes@, wpc as int, n as int, c_cached@, s_cached@),
        ),
{
    let ghost rows = rotation_rows(nodes@, wpc as int, n as int, c_cached@, s_cached@);
    let ghost start = mat@;
    let ghost bpc = rotation_bpc(wpc as int);
    assert(rows.take(0) =~= Seq::<Row<T>>::empty());
    proof { lemma_rows_stamps_empty(branches@, rows.take(0)); }
    assert(start + Seq::<Stamp<T>>::empty() =~= start);
    let mut k: usize = 0;
    while k < n
        invariant
            k <= n,
            2 <= wpc,
            nodes@.len() >= 2 * wpc * n,
            branches@.len() == bpc * n,
            bpc == rotation_bpc(wpc as int),
            c_cached@.len() >= n,
            s_cached@.len() >= n,
            rows == rotation_rows(nodes@, wpc as int, n as int, c_cached@, s_cached@),
            rows.len() == bpc * n,
            mat@ == start + rows_stamps(branches@, rows.take(bpc * k)),
        decreases n - k,
    {
        stamp_rotation_channel(mat, nodes, branches, n, wpc, c_cached[k], s_cached[k], k,
            Ghost(c_cached@), Ghost(s_cached@), Ghost(start));
        k = k + 1;
    }
    assert(rows.take(bpc * n) =~= rows);
}


/// The in-channel slot of a rotation stage's `r`-th equation: re, im, λ in
/// the order stamped, λ's row being the channel's last, then the backward
/// pair.
pub open spec fn rotation_slot(wpc: int, r: int) -> int {
    if wpc == 5 {
        if r == 2 { 4 } else if r >= 3 { r - 1 } else { r }
    } else {
        r
    }
}

/// Each of a rotation stage's `bpc·n` branch rows carries exactly one
/// equation.
pub proof fn lemma_rotation_slots<T>(nodes: Seq<NodeId>, wpc: int, n: nat, c: Seq<T>, s: Seq<T>)
    ensures
        rotation_rows(nodes, wpc, n as int, c, s).len() == rotation_bpc(wpc) * n,
        branch_slots_exact(rotation_rows(nodes, wpc, n as int, c, s)),
{
    let rows = rotation_rows(nodes, wpc, n as int, c, s);
    let per = rotation_bpc(wpc);
    let sigma = |r: int| rotation_slot(wpc, r);
    assert forall|i: int| 0 <= i < rows.len() implies #[trigger] rows[i].0 == per * (i / per) + sigma(i % per) by {
        assert(0 <= i % per < per) by (nonlinear_arith) requires per > 0, 0 <= i;
    }
    lemma_block_slots(rows, per, n as int, sigma);
}


/// Full Jacobian stamp of a PN + heater phase shifter: the junction
/// conductance `g_pn` across the first electrical pair, the heater conductance `g_heater` across the second, then the
/// per-channel optics. The electrical terminals follow the `2·wpc·n`
/// optical wires.
pub fn stamp_pn_ths_jacobian<T: Copy>(
    mat: &mut Vec<Stamp<T>>,
    nodes: &[NodeId],
    branches: &[Option<usize>],
    n: usize,
    wpc: usize,
    g_pn: T,
    g_heater: T,
    c_cached: &[T],
    s_cached: &[T],
)
    requires
        2 <= wpc,
        nodes@.len() >= 2 * wpc * n + 4,
        branches@.len() == rotation_bpc(wpc as int) * n,
        c_cached@.len() >= n,
        s_cached@.len() >= n,
    ensures
        ({
            let e = 2 * wpc * n;
            final(mat)@ == old(mat)@
                + resistor_stamps(nodes@[e], nodes@[e + 1], g_pn)
                + resistor_stamps(nodes@[e + 2], nodes@[e + 3], g_heater)
                + rows_stamps(branches@, rotation_rows(nodes@, wpc as int, n as int, c_cached@, s_cached@))
        }),
{
    let len = nodes.len();
    assert(wpc * n + wpc * n == 2 * wpc * n) by (nonlinear_arith);
    let wn = wpc * n;
    let elec = wn + wn;
    assert(elec + 3 < len);
    stamp_resistor(mat, nodes[elec], nodes[elec + 1], g_pn);
    stamp_resistor(mat, nodes[elec + 2], nodes[elec + 3], g_heater);
    stamp_pn_optical(mat, nodes, branches, n, wpc, c_cached, s_cached);
}

proof fn lemma_rotation_row_0<T>(nodes: Seq<NodeId>, branches: Seq<Option<usize>>, wpc: int, n: int, c: Seq<T>, s: Seq<T>, k: int)
    requires
        wpc == 3 || wpc == 5,
        0 <= k < n,
        nodes.len() >= 2 * wpc * n,
        2 * wpc * n <= usize::MAX,
        branches.len() == rotation_bpc(wpc) * n,
    ensures
        row_couples(rows_stamps(branches, rotation_rows(nodes, wpc, n, c, s)), branches[rotation_bpc(wpc) * k], nodes[wpc * n + wpc * k], nodes[wpc * k], Coef::Neg(c[k])),
        row_couples(rows_stamps(branches, rotation_rows(nodes, wpc, n, c, s)), branches[rotation_bpc(wpc) * k], nodes[wpc * n + wpc * k], nodes[wpc * k + 1], Coef::Neg(s[k])),
{
    let rows = rotation_rows(nodes, wpc, n, c, s);
    let f = |k: int, r: int| rotation_row(nodes, wpc, n, c, s, k, r);
    assert(rows == blocked((rotation_bpc(wpc)) as nat, n as nat, f));
    assert((rotation_bpc(wpc)) * k + (rotation_bpc(wpc)) <= (rotation_bpc(wpc)) * n && 0 <= (rotation_bpc(wpc)) * k) by (nonlinear_arith) requires 0 <= k < n, (rotation_bpc(wpc)) >= 1;
    assert(wpc * k + wpc <= wpc * n && 0 <= wpc * k) by (nonlinear_arith) requires 0 <= k < n, 2 <= wpc;
    assert(2 * wpc * n == wpc * n + wpc * n) by (nonlinear_arith);
    lemma_blocked((rotation_bpc(wpc)) as nat, n as nat, f, k, 0);
    lemma_rows_couple(branches, rows, rotation_bpc(wpc) * k + 0, 0);
    lemma_rows_couple(branches, rows, rotation_bpc(wpc) * k + 0, 1);
}

proof fn lemma_rotation_row_1<T>(nodes: Seq<NodeId>, branches: Seq<Option<usize>>, wpc: int, n: int, c: Seq<T>, s: Seq<T>, k: int)
    requires
        wpc == 3 || wpc == 5,
        0 <= k < n,
        nodes.len() >= 2 * wpc * n,
        2 * wpc * n <= usize::MAX,
        branches.len() == rotation_bpc(wpc) * n,
    ensures
        row_couples(rows_stamps(branches, rotation_rows(nodes, wpc, n, c, s)), branches[rotation_bpc(wpc) * k + 1], nodes[wpc * n + wpc * k + 1], nodes[wpc * k], Coef::Pos(s[k])),
        row_couples(rows_stamps(branches, rotation_rows(nodes, wpc, n, c, s)), branches[rotation_bpc(wpc) * k + 1], nodes[wpc * n + wpc * k + 1], nodes[wpc * k + 1], Coef::Neg(c[k])),
{
    let rows = rotation_rows(nodes, wpc, n, c, s);
    let f = |k: int, r: int| rotation_row(nodes, wpc, n, c, s, k, r);
    assert(rows == blocked((rotation_bpc(wpc)) as nat, n as nat, f));
    assert((rotation_bpc(wpc)) * k + (rotation_bpc(wpc)) <= (rotation_bpc(wpc)) * n && 0 <= (rotation_bpc(wpc)) * k) by (nonlinear_arith) requires 0 <= k < n, (rotation_bpc(wpc)) >= 1;
    assert(wpc * k + wpc <= wpc * n && 0 <= wpc * k) by (nonlinear_arith) requires 0 <= k < n, 2 <= wpc;
    assert(2 * wpc * n == wpc * n + wpc * n) by (nonlinear_arith);
    lemma_blocked((rotation_bpc(wpc)) as nat, n as nat, f, k, 1);
    lemma_rows_couple(branches, rows, rotation_bpc(wpc) * k + 1, 0);
    lemma_rows_couple(branches, rows, rotation_bpc(wpc) * k + 1, 1);
}

proof fn lemma_rotation_row_2<T>(nodes: Seq<NodeId>, branches: Seq<Option<usize>>, wpc: int, n: int, c: Seq<T>, s: Seq<T>, k: int)
    requires
        wpc == 3 || wpc == 5,
        0 <= k < n,
        nodes.len() >= 2 * wpc * n,
        2 * wpc * n <= usize::MAX,
        branches.len() == rotation_bpc(wpc) * n,
    ensures
        row_couples(rows_stamps(branches, rotation_rows(nodes, wpc, n, c, s)), branches[rotation_bpc(wpc) * k + rotation_bpc(wpc) - 1], nodes[wpc * n + wpc * k + wpc - 1], nodes[wpc * k + wpc - 1], Coef::NegOne),
{
    let rows = rotation_rows(nodes, wpc, n, c, s);
    let f = |k: int, r: int| rotation_row(nodes, wpc, n, c, s, k, r);
    assert(rows == blocked((rotation_bpc(wpc)) as nat, n as nat, f));
    assert((rotation_bpc(wpc)) * k + (rotation_bpc(wpc)) <= (rotation_bpc(wpc)) * n && 0 <= (rotation_bpc(wpc)) * k) by (nonlinear_arith) requires 0 <= k < n, (rotation_bpc(wpc)) >= 1;
    assert(wpc * k + wpc <= wpc * n && 0 <= wpc * k) by (nonlinear_arith) requires 0 <= k < n, 2 <= wpc;
    assert(2 * wpc * n == wpc * n + wpc * n) by (nonlinear_arith);
    lemma_blocked((rotation_bpc(wpc)) as nat, n as nat, f, k, 2);
    lemma_rows_couple(branches, rows, rotation_bpc(wpc) * k + 2, 0);
}

proof fn lemma_rotation_row_3<T>(nodes: Seq<NodeId>, branches: Seq<Option<usize>>, wpc: int, n: int, c: Seq<T>, s: Seq<T>, k: int)
    requires
        wpc == 3 || wpc == 5,
        0 <= k < n,
        nodes.len() >= 2 * wpc * n,
        2 * wpc * n <= usize::MAX,
        branches.len() == rotation_bpc(wpc) * n,
        wpc == 5,
    ensures
        row_couples(rows_stamps(branches, rotation_rows(nodes, wpc, n, c, s)), branches[rotation_bpc(wpc) * k + 2], nodes[wpc * k + 2], nodes[wpc * n + wpc * k + 2], Coef::Neg(c[k])),
        row_couples(rows_stamps(branches, rotation_rows(nodes, wpc, n, c, s)), branches[rotation_bpc(wpc) * k + 2], nodes[wpc * k + 2], nodes[wpc * n + wpc * k + 3], Coef::Neg(s[k])),
{
    let rows = rotation_rows(nodes, wpc, n, c, s);
    let f = |k: int, r: int| rotation_row(nodes, wpc, n, c, s, k, r);
    assert(rows == blocked((rotation_bpc(wpc)) as nat, n as nat, f));
    assert((rotation_bpc(wpc)) * k + (rotation_bpc(wpc)) <= (rotation_bpc(wpc)) * n && 0 <= (rotation_bpc(wpc)) * k) by (nonlinear_arith) requires 0 <= k < n, (rotation_bpc(wpc)) >= 1;
    assert(wpc * k + wpc <= wpc * n && 0 <= wpc * k) by (nonlinear_arith) requires 0 <= k < n, 2 <= wpc;
    assert(2 * wpc * n == wpc * n + wpc * n) by (nonlinear_arith);
    lemma_blocked((rotation_bpc(wpc)) as nat, n as nat, f, k, 3);
    lemma_rows_couple(branches, rows, rotation_bpc(wpc) * k + 3, 0);
    lemma_rows_couple(branches, rows, rotation_bpc(wpc) * k + 3, 1);
}

proof fn lemma_rotation_row_4<T>(nodes: Seq<NodeId>, branches: Seq<Option<usize>>, wpc: int, n: int, c: Seq<T>, s: Seq<T>, k: int)
    requires
        wpc == 3 || wpc == 5,
        0 <= k < n,
        nodes.len() >= 2 * wpc * n,
        2 * wpc * n <= usize::MAX,
        branches.len() == rotation_bpc(wpc) * n,
        wpc == 5,
    ensures
        row_couples(rows_stamps(branches, rotation_rows(nodes, wpc, n, c, s)), branches[rotation_bpc(wpc) * k + 3], nodes[wpc * k + 3], nodes[wpc * n + wpc * k + 2], Coef::Pos(s[k])),
        row_couples(rows_stamps(branches, rotation_rows(nodes, wpc, n, c, s)), branches[rotation_bpc(wpc) * k + 3], nodes[wpc * k + 3], nodes[wpc * n + wpc * k + 3], Coef::Neg(c[k])),
{
    let rows = rotation_rows(nodes, wpc, n, c, s);
    let f = |k: int, r: int| rotation_row(nodes, wpc, n, c, s, k, r);
    assert(rows == blocked((rotation_bpc(wpc)) as nat, n as nat, f));
    assert((rotation_bpc(wpc)) * k + (rotation_bpc(wpc)) <= (rotation_bpc(wpc)) * n && 0 <= (rotation_bpc(wpc)) * k) by (nonlinear_arith) requires 0 <= k < n, (rotation_bpc(wpc)) >= 1;
    assert(wpc * k + wpc <= wpc * n && 0 <= wpc * k) by (nonlinear_arith) requires 0 <= k < n, 2 <= wpc;
    assert(2 * wpc * n == wpc * n + wpc * n) by (nonlinear_arith);
    lemma_blocked((rotation_bpc(wpc)) as nat, n as nat, f, k, 4);
    lemma_rows_couple(branches, rows, rotation_bpc(wpc) * k + 4, 0);
    lemma_rows_couple(branches, rows, rotation_bpc(wpc) * k + 4, 1);
}

/// Each channel of a rotation stage turns its own field by its own
/// transmission: channel `k`'s output re wire (`wpc·n + wpc·k`) is driven
/// on branch slot `bpc·k` by `−c[k]` on the input re wire `wpc·k` and
/// `−s[k]` on the input im wire, its output im wire on the next slot by
/// `+s[k]` and `−c[k]`, and its output λ (on the channel's last slot)
/// copies the input λ. Under bidirectional propagation the backward pair
/// (slots `bpc·k + 2`, `+ 3`) drives the input's backward wires from the
/// output's with the same `c[k]`, `s[k]`.
pub proof fn lemma_rotation_channel_transmission<T>(nodes: Seq<NodeId>, branches: Seq<Option<usize>>, wpc: int, n: int, c: Seq<T>, s: Seq<T>, k: int)
    requires
        wpc == 3 || wpc == 5,
        0 <= k < n,
        nodes.len() >= 2 * wpc * n,
        2 * wpc * n <= usize::MAX,
        branches.len() == rotation_bpc(wpc) * n,
    ensures
        row_couples(rows_stamps(branches, rotation_rows(nodes, wpc, n, c, s)), branches[rotation_bpc(wpc) * k], nodes[wpc * n + wpc * k], nodes[wpc * k], Coef::Neg(c[k])),
        row_couples(rows_stamps(branches, rotation_rows(nodes, wpc, n, c, s)), branches[rotation_bpc(wpc) * k], nodes[wpc * n + wpc * k], nodes[wpc * k + 1], Coef::Neg(s[k])),
        row_couples(rows_stamps(branches, rotation_rows(nodes, wpc, n, c, s)), branches[rotation_bpc(wpc) * k + 1], nodes[wpc * n + wpc * k + 1], nodes[wpc * k], Coef::Pos(s[k])),
        row_couples(rows_stamps(branches, rotation_rows(nodes, wpc, n, c, s)), branches[rotation_bpc(wpc) * k + 1], nodes[wpc * n + wpc * k + 1], nodes[wpc * k + 1], Coef::Neg(c[k])),
        row_couples(rows_stamps(branches, rotation_rows(nodes, wpc, n, c, s)), branches[rotation_bpc(wpc) * k + rotation_bpc(wpc) - 1], nodes[wpc * n + wpc * k + wpc - 1], nodes[wpc * k + wpc - 1], Coef::NegOne),
        wpc == 5 ==> row_couples(rows_stamps(branches, rotation_rows(nodes, wpc, n, c, s)), branches[rotation_bpc(wpc) * k + 2], nodes[wpc * k + 2], nodes[wpc * n + wpc * k + 2], Coef::Neg(c[k])),
        wpc == 5 ==> row_couples(rows_stamps(branches, rotation_rows(nodes, wpc, n, c, s)), branches[rotation_bpc(wpc) * k + 2], nodes[wpc * k + 2], nodes[wpc * n + wpc * k + 3], Coef::Neg(s[k])),
        wpc == 5 ==> row_couples(rows_stamps(branches, rotation_rows(nodes, wpc, n, c, s)), branches[rotation_bpc(wpc) * k + 3], nodes[wpc * k + 3], nodes[wpc * n + wpc * k + 2], Coef::Pos(s[k])),
        wpc == 5 ==> row_couples(rows_stamps(branches, rotation_rows(nodes, wpc, n, c, s)), branches[rotation_bpc(wpc) * k + 3], nodes[wpc * k + 3], nodes[wpc * n + wpc * k + 3], Coef::Neg(c[k])),
{
    lemma_rotation_row_0(nodes, branches, wpc, n, c, s, k);
    lemma_rotation_row_1(nodes, branches, wpc, n, c, s, k);
    lemma_rotation_row_2(nodes, branches, wpc, n, c, s, k);
    if wpc == 5 {
        lemma_rotation_row_3(nodes, branches, wpc, n, c, s, k);
    }
    if wpc == 5 {
        lemma_rotation_row_4(nodes, branches, wpc, n, c, s, k);
    }
}

} // verus!
