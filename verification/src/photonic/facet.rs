//! Single-port facet: the forward field arriving at the port is reflected
//! back into it with field coefficient `ρ·e^(−jφ)`, `ρ = √R`. Only under
//! bidirectional propagation is there a backward wire to drive; otherwise
//! the facet is a pure terminator with no equations at all.

use vstd::prelude::*;
use crate::device::NodeId;
use crate::mna::{lemma_rows_couple, row_couples, branch_slots_exact, lemma_block_slots, lemma_rows_stamps_empty, Coef, Row, Stamp, blocked, lemma_blocked, lin_row, rows_stamps, stamp_lin_row};
use crate::photonic::bundle::BundlePorts;

verus! {

/// Branch rows per channel: `re_bw` and `im_bw` when bidirectional, none
/// otherwise.
pub open spec fn facet_bpc(wpc: int) -> int {
    if wpc == 5 { 2 } else { 0 }
}

/// Branch rows per channel of a facet: the reflected pair under
/// bidirectional propagation, none otherwise.
pub fn facet_branches(wpc: usize) -> (r: usize)
    ensures
        r == facet_bpc(wpc as int),
{
    if wpc == 5 { 2 } else { 0 }
}

/// Equation `r` of channel `k`: `A_bw = ρ·e^(−jφ)·A_fw` with
/// `c = ρ·cos φ`, `s = ρ·sin φ`:
///
/// ```text
///   re_bw = c·re_fw + s·im_fw
///   im_bw = −s·re_fw + c·im_fw
/// ```
pub open spec fn facet_row<T>(nodes: Seq<NodeId>, wpc: int, c: T, s: T, k: int, r: int) -> Row<T> {
    let base = wpc * k;
    if r == 0 {
        lin_row(nodes, 2 * k, base + 2, seq![(base as usize, Coef::Neg(c)), ((base + 1) as usize, Coef::Neg(s))])
    } else {
        lin_row(nodes, 2 * k + 1, base + 3, seq![(base as usize, Coef::Pos(s)), ((base + 1) as usize, Coef::Neg(c))])
    }
}

/// The facet's equations: none when it has no branch rows.
pub open spec fn facet_rows<T>(nodes: Seq<NodeId>, wpc: int, n: int, nbranches: int, c: T, s: T) -> Seq<Row<T>> {
    if nbranches == 0 {
        Seq::empty()
    } else {
        blocked(2, n as nat, |k: int, r: int| facet_row(nodes, wpc, c, s, k, r))
    }
}

/// Stamp the reflection equations of every channel.
pub fn load_facet_jacobian<T: Copy>(ports: &BundlePorts, c: T, s: T, mat: &mut Vec<Stamp<T>>)
    requires
        ports.wf(),
        ports.ports() == 1,
        ports.wpc() >= 1,
        ports.branches().len() == facet_bpc(ports.wpc() as int) * ports.n_channels(),
    ensures
        final(mat)@ == old(mat)@ + rows_stamps(
            ports.branches(),
            facet_rows(ports.nodes(), ports.wpc() as int, ports.n_channels() as int,
                ports.branches().len() as int, c, s),
        ),
{
    let n = ports.n_channels_exec();
    let wpc = ports.wpc_exec();
    let nodes = ports.nodes_slice();
    let branches = ports.branches_slice();
    let ghost rows = facet_rows(nodes@, wpc as int, n as int, branches@.len() as int, c, s);
    let ghost start = mat@;
    if branches.len() == 0 {
        proof { lemma_rows_stamps_empty(branches@, rows); }
        assert(start + Seq::<Stamp<T>>::empty() =~= start);
        return;
    }
    assert(wpc == 5);
    let ghost f = |k: int, r: int| facet_row(nodes@, wpc as int, c, s, k, r);
    assert(rows == blocked(2, n as nat, f));
    assert(ports.ports() * ports.wpc() * ports.n_channels() == wpc * n) by (nonlinear_arith)
        requires ports.ports() == 1, wpc == ports.wpc(), n == ports.n_channels();
    let total = nodes.len();
    assert(rows.take(0) =~= Seq::<Row<T>>::empty());
    proof { lemma_rows_stamps_empty(branches@, rows.take(0)); }
    assert(start + Seq::<Stamp<T>>::empty() =~= start);
    let mut k: usize = 0;
    while k < n
        invariant
            k <= n,
            wpc == 5,
            total == nodes@.len(),
            total >= wpc * n,
            branches@.len() == 2 * n,
            rows == blocked(2, n as nat, f),
            f == (|k: int, r: int| facet_row(nodes@, wpc as int, c, s, k, r)),
            rows.len() == 2 * n,
            mat@ == start + rows_stamps(branches@, rows.take(2 * k)),
        decreases n - k,
    {
        assert(wpc * k + wpc <= wpc * n) by (nonlinear_arith) requires k < n, wpc == 5;
        let base = wpc * k;
        proof { lemma_blocked(2, n as nat, f, k as int, 0); }
        let ins = [(base, Coef::Neg(c)), (base + 1, Coef::Neg(s))];
        assert(ins@ =~= seq![(base, Coef::Neg(c)), ((base + 1) as usize, Coef::Neg(s))]);
        stamp_lin_row(mat, branches, nodes, Ghost(rows), Ghost(start), 2 * k, 2 * k, base + 2, &ins);
        proof { lemma_blocked(2, n as nat, f, k as int, 1); }
        let ins = [(base, Coef::Pos(s)), (base + 1, Coef::Neg(c))];
        assert(ins@ =~= seq![(base, Coef::Pos(s)), ((base + 1) as usize, Coef::Neg(c))]);
        stamp_lin_row(mat, branches, nodes, Ghost(rows), Ghost(start), 2 * k + 1, 2 * k + 1, base + 3, &ins);
        k = k + 1;
    }
    assert(rows.take(2 * n) =~= rows);
}


/// Each of the facet's branch rows carries exactly one equation: `2·n` of
/// them when bidirectional, none otherwise.
pub proof fn lemma_facet_slots<T>(nodes: Seq<NodeId>, wpc: int, n: nat, c: T, s: T)
    ensures
        facet_rows(nodes, wpc, n as int, facet_bpc(wpc) * n, c, s).len() == facet_bpc(wpc) * n,
        branch_slots_exact(facet_rows(nodes, wpc, n as int, facet_bpc(wpc) * n, c, s)),
{
    let rows = facet_rows(nodes, wpc, n as int, facet_bpc(wpc) * n, c, s);
    if facet_bpc(wpc) * n != 0 {
        assert forall|i: int| 0 <= i < rows.len() implies #[trigger] rows[i].0 == 2 * (i / 2) + (|r: int| r)(i % 2) by {
        }
        lemma_block_slots(rows, 2, n as int, |r: int| r);
    }
}

proof fn lemma_facet_row_0<T>(nodes: Seq<NodeId>, branches: Seq<Option<usize>>, wpc: int, n: int, nbranches: int, c: T, s: T, k: int)
    requires
        wpc == 5,
        0 <= k < n,
        nbranches != 0,
        nodes.len() >= wpc * n,
        wpc * n <= usize::MAX,
        branches.len() == 2 * n,
    ensures
        row_couples(rows_stamps(branches, facet_rows(nodes, wpc, n, nbranches, c, s)), branches[2 * k], nodes[wpc * k + 2], nodes[wpc * k], Coef::Neg(c)),
        row_couples(rows_stamps(branches, facet_rows(nodes, wpc, n, nbranches, c, s)), branches[2 * k], nodes[wpc * k + 2], nodes[wpc * k + 1], Coef::Neg(s)),
{
    let rows = facet_rows(nodes, wpc, n, nbranches, c, s);
    let f = |k: int, r: int| facet_row(nodes, wpc, c, s, k, r);
    assert(rows == blocked((2) as nat, n as nat, f));
    assert((2) * k + (2) <= (2) * n && 0 <= (2) * k) by (nonlinear_arith) requires 0 <= k < n, (2) >= 1;
    assert(wpc * k + wpc <= wpc * n && 0 <= wpc * k) by (nonlinear_arith) requires 0 <= k < n, 2 <= wpc;
    lemma_blocked((2) as nat, n as nat, f, k, 0);
    lemma_rows_couple(branches, rows, 2 * k + 0, 0);
    lemma_rows_couple(branches, rows, 2 * k + 0, 1);
}

proof fn lemma_facet_row_1<T>(nodes: Seq<NodeId>, branches: Seq<Option<usize>>, wpc: int, n: int, nbranches: int, c: T, s: T, k: int)
    requires
        wpc == 5,
        0 <= k < n,
        nbranches != 0,
        nodes.len() >= wpc * n,
        wpc * n <= usize::MAX,
        branches.len() == 2 * n,
    ensures
        row_couples(rows_stamps(branches, facet_rows(nodes, wpc, n, nbranches, c, s)), branches[2 * k + 1], nodes[wpc * k + 3], nodes[wpc * k], Coef::Pos(s)),
        row_couples(rows_stamps(branches, facet_rows(nodes, wpc, n, nbranches, c, s)), branches[2 * k + 1], nodes[wpc * k + 3], nodes[wpc * k + 1], Coef::Neg(c)),
{
    let rows = facet_rows(nodes, wpc, n, nbranches, c, s);
    let f = |k: int, r: int| facet_row(nodes, wpc, c, s, k, r);
    assert(rows == blocked((2) as nat, n as nat, f));
    assert((2) * k + (2) <= (2) * n && 0 <= (2) * k) by (nonlinear_arith) requires 0 <= k < n, (2) >= 1;
    assert(wpc * k + wpc <= wpc * n && 0 <= wpc * k) by (nonlinear_arith) requires 0 <= k < n, 2 <= wpc;
    lemma_blocked((2) as nat, n as nat, f, k, 1);
    lemma_rows_couple(branches, rows, 2 * k + 1, 0);
    lemma_rows_couple(branches, rows, 2 * k + 1, 1);
}

/// The facet reflects each channel's forward field back into its own
/// backward wires: on slot `2·k` the backward re wire (`wpc·k + 2`) takes
/// `c` times the forward re wire (`wpc·k`) plus `s` times the forward im,
/// and on slot `2·k + 1` the backward im wire takes `−s` times the forward
/// re plus `c` times the forward im.
pub proof fn lemma_facet_reflection<T>(nodes: Seq<NodeId>, branches: Seq<Option<usize>>, wpc: int, n: int, nbranches: int, c: T, s: T, k: int)
    requires
        wpc == 5,
        0 <= k < n,
        nbranches != 0,
        nodes.len() >= wpc * n,
        wpc * n <= usize::MAX,
        branches.len() == 2 * n,
    ensures
        row_couples(rows_stamps(branches, facet_rows(nodes, wpc, n, nbranches, c, s)), branches[2 * k], nodes[wpc * k + 2], nodes[wpc * k], Coef::Neg(c)),
        row_couples(rows_stamps(branches, facet_rows(nodes, wpc, n, nbranches, c, s)), branches[2 * k], nodes[wpc * k + 2], nodes[wpc * k + 1], Coef::Neg(s)),
        row_couples(rows_stamps(branches, facet_rows(nodes, wpc, n, nbranches, c, s)), branches[2 * k + 1], nodes[wpc * k + 3], nodes[wpc * k], Coef::Pos(s)),
        row_couples(rows_stamps(branches, facet_rows(nodes, wpc, n, nbranches, c, s)), branches[2 * k + 1], nodes[wpc * k + 3], nodes[wpc * k + 1], Coef::Neg(c)),
{
    lemma_facet_row_0(nodes, branches, wpc, n, nbranches, c, s, k);
    lemma_facet_row_1(nodes, branches, wpc, n, nbranches, c, s, k);
}

} // verus!
