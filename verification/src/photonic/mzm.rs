//! Attenuator stages: a wavelength-flat field transmission `t` on every
//! channel, as used by the Mach–Zehnder modulator (whose `t` follows its
//! drive voltage) and the grating coupler (a fixed insertion loss).

use vstd::prelude::*;
use crate::device::NodeId;
use crate::mna::{lemma_rows_couple, row_couples, branch_slots_exact, lemma_block_slots, lemma_rows_stamps_empty, Coef, Row, Stamp, blocked, lemma_blocked, lin_row, rows_stamps, stamp_lin_row};
use crate::photonic::bundle::{BundlePorts, bundle_pos};

verus! {

/// Branch rows per channel: `re`, `im`, optionally λ, and the backward pair
/// under bidirectional propagation.
pub open spec fn attenuator_bpc(wpc: int, with_lambda: bool) -> int {
    (if with_lambda { 1int } else { 0 }) + 2 + (if wpc == 5 { 2int } else { 0 })
}

/// Branch rows per channel of an attenuator stage (with or without its λ
/// row).
pub fn attenuator_branches(wpc: usize, with_lambda: bool) -> (r: usize)
    ensures
        r == attenuator_bpc(wpc as int, with_lambda),
{
    (if with_lambda { 1 } else { 0 }) + 2 + (if wpc == 5 { 2 } else { 0 })
}

/// Equation `r` of channel `k` of an attenuator from port 0 to port 1:
///
/// ```text
///   out.re = t·in.re       in.re_bw = t·out.re_bw
///   out.im = t·in.im       in.im_bw = t·out.im_bw
///   out.λ  = in.λ          (when `with_lambda`)
/// ```
pub open spec fn attenuator_row<T>(nodes: Seq<NodeId>, wpc: int, n: int, t: T, with_lambda: bool, k: int, r: int) -> Row<T> {
    let bpc = attenuator_bpc(wpc, with_lambda);
    let first_bw = if with_lambda { 3int } else { 2 };
    if r == 0 {
        lin_row(nodes, bpc * k, bundle_pos(wpc, n, 1, k, 0), seq![(bundle_pos(wpc, n, 0, k, 0) as usize, Coef::Neg(t))])
    } else if r == 1 {
        lin_row(nodes, bpc * k + 1, bundle_pos(wpc, n, 1, k, 1), seq![(bundle_pos(wpc, n, 0, k, 1) as usize, Coef::Neg(t))])
    } else if r == 2 && with_lambda {
        lin_row(nodes, bpc * k + bpc - 1, bundle_pos(wpc, n, 1, k, wpc - 1), seq![(bundle_pos(wpc, n, 0, k, wpc - 1) as usize, Coef::NegOne)])
    } else if r == first_bw {
        lin_row(nodes, bpc * k + 2, bundle_pos(wpc, n, 0, k, 2), seq![(bundle_pos(wpc, n, 1, k, 2) as usize, Coef::Neg(t))])
    } else {
        lin_row(nodes, bpc * k + 3, bundle_pos(wpc, n, 0, k, 3), seq![(bundle_pos(wpc, n, 1, k, 3) as usize, Coef::Neg(t))])
    }
}

pub open spec fn attenuator_rows<T>(nodes: Seq<NodeId>, wpc: int, n: int, t: T, with_lambda: bool) -> Seq<Row<T>> {
    blocked(attenuator_bpc(wpc, with_lambda) as nat, n as nat, |k: int, r: int| attenuator_row(nodes, wpc, n, t, with_lambda, k, r))
}

#[verifier::rlimit(60)]
fn stamp_attenuator_channel<T: Copy>(
    mat: &mut Vec<Stamp<T>>,
    nodes: &[NodeId],
    branches: &[Option<usize>],
    n: usize,
    wpc: usize,
    t: T,
    with_lambda: bool,
    k: usize,
    Ghost(start): Ghost<Seq<Stamp<T>>>,
)
    requires
        2 <= wpc,
        k < n,
        nodes@.len() >= 2 * wpc * n,
        branches@.len() == attenuator_bpc(wpc as int, with_lambda) * n,
        old(mat)@ == start + rows_stamps(
            branches@,
            attenuator_rows(nodes@, wpc as int, n as int, t, with_lambda).take(attenuator_bpc(wpc as int, with_lambda) * k),
        ),
    ensures
        final(mat)@ == start + rows_stamps(
            branches@,
            attenuator_rows(nodes@, wpc as int, n as int, t, with_lambda).take(attenuator_bpc(wpc as int, with_lambda) * (k + 1)),
        ),
{
    let ghost rows = attenuator_rows(nodes@, wpc as int, n as int, t, with_lambda);
    let ghost f = |k: int, r: int| attenuator_row(nodes@, wpc as int, n as int, t, with_lambda, k, r);
    let ghost bpcs = attenuator_bpc(wpc as int, with_lambda);
    assert(rows == blocked(bpcs as nat, n as nat, f));
    let _total = nodes.len();
    let _nb = branches.len();
    assert(wpc * k + wpc <= wpc * n && 0 <= wpc * k) by (nonlinear_arith) requires k < n, 2 <= wpc;
    assert(2 * wpc * n == wpc * n + wpc * n) by (nonlinear_arith);
    assert(bpcs * k + bpcs <= bpcs * n) by (nonlinear_arith) requires k < n, 2 <= bpcs;
    assert(wpc * n * 1 == wpc * n && wpc * n * 0 == 0) by (nonlinear_arith);
    let bpc: usize = (if with_lambda { 1 } else { 0 }) + 2 + (if wpc == 5 { 2 } else { 0 });
    let lam = wpc - 1;
    let i0 = wpc * k;
    let o0 = wpc * n + wpc * k;
    let b = bpc * k;
    let mut m = b;
    proof { lemma_blocked(bpc as nat, n as nat, f, k as int, 0); }
    let ins = [(i0, Coef::Neg(t))];
    assert(ins@ =~= seq![(i0, Coef::Neg(t))]);
    stamp_lin_row(mat, branches, nodes, Ghost(rows), Ghost(start), m, b, o0, &ins);
    proof { lemma_blocked(bpc as nat, n as nat, f, k as int, 1); }
    let ins = [(i0 + 1, Coef::Neg(t))];
    assert(ins@ =~= seq![((i0 + 1) as usize, Coef::Neg(t))]);
    stamp_lin_row(mat, branches, nodes, Ghost(rows), Ghost(start), m + 1, b + 1, o0 + 1, &ins);
    m = m + 2;
    if with_lambda {
        proof { lemma_blocked(bpc as nat, n as nat, f, k as int, 2); }
        let ins = [(i0 + lam, Coef::NegOne)];
        assert(ins@ =~= seq![((i0 + lam) as usize, Coef::<T>::NegOne)]);
        stamp_lin_row(mat, branches, nodes, Ghost(rows), Ghost(start), m, b + (bpc - 1), o0 + lam, &ins);
        m = m + 1;
    }
    if wpc == 5 {
        proof { lemma_blocked(bpc as nat, n as nat, f, k as int, (m - b) as int); }
        let ins = [(o0 + 2, Coef::Neg(t))];
        assert(ins@ =~= seq![((o0 + 2) as usize, Coef::Neg(t))]);
        stamp_lin_row(mat, branches, nodes, Ghost(rows), Ghost(start), m, b + 2, i0 + 2, &ins);
        proof { lemma_blocked(bpc as nat, n as nat, f, k as int, (m + 1 - b) as int); }
        let ins = [(o0 + 3, Coef::Neg(t))];
        assert(ins@ =~= seq![((o0 + 3) as usize, Coef::Neg(t))]);
        stamp_lin_row(mat, branches, nodes, Ghost(rows), Ghost(start), m + 1, b + 3, i0 + 3, &ins);
    }
}

/// Stamp an attenuator with field transmission `t` from the input bundle
/// (first `wpc·n` terminals) to the output bundle (next `wpc·n`).
pub fn stamp_attenuator<T: Copy>(
    mat: &mut Vec<Stamp<T>>,
    nodes: &[NodeId],
    branches: &[Option<usize>],
    n: usize,
    wpc: usize,
    t: T,
    with_lambda: bool,
)
    requires
        2 <= wpc,
        nodes@.len() >= 2 * wpc * n,
        branches@.len() == attenuator_bpc(wpc as int, with_lambda) * n,
    ensures
        final(mat)@ == old(mat)@ + rows_stamps(branches@, attenuator_rows(nodes@, wpc as int, n as int, t, with_lambda)),
{
    let ghost rows = attenuator_rows(nodes@, wpc as int, n as int, t, with_lambda);
    let ghost start = mat@;
    let ghost bpc = attenuator_bpc(wpc as int, with_lambda);
    assert(rows.take(0) =~= Seq::<Row<T>>::empty());
    proof { lemma_rows_stamps_empty(branches@, rows.take(0)); }
    assert(start + Seq::<Stamp<T>>::empty() =~= start);
    let mut k: usize = 0;
    while k < n
        invariant
            k <= n,
            2 <= wpc,
            nodes@.len() >= 2 * wpc * n,
            branches@.len() == bpc * n,
            bpc == attenuator_bpc(wpc as int, with_lambda),
            rows == attenuator_rows(nodes@, wpc as int, n as int, t, with_lambda),
            rows.len() == bpc * n,
            mat@ == start + rows_stamps(branches@, rows.take(bpc * k)),
        decreases n - k,
    {
        stamp_attenuator_channel(mat, nodes, branches, n, wpc, t, with_lambda, k, Ghost(start));
        k = k + 1;
    }
    assert(rows.take(bpc * n) =~= rows);
}

/// The modulator's Jacobian: an attenuator with its λ row, `t` being the
/// field transmission at the present drive voltage.
pub fn load_mzm_jacobian<T: Copy>(ports: &BundlePorts, t: T, mat: &mut Vec<Stamp<T>>)
    requires
        ports.wf(),
        ports.ports() == 2,
        ports.wpc() >= 2,
        ports.branches().len() == attenuator_bpc(ports.wpc() as int, true) * ports.n_channels(),
    ensures
        final(mat)@ == old(mat)@ + rows_stamps(
            ports.branches(),
            attenuator_rows(ports.nodes(), ports.wpc() as int, ports.n_channels() as int, t, true),
        ),
{
    let n = ports.n_channels_exec();
    let wpc = ports.wpc_exec();
    assert(2 * wpc * n == 2 * (wpc * n)) by (nonlinear_arith);
    assert(ports.ports() * ports.wpc() * ports.n_channels() == 2 * (wpc * n)) by (nonlinear_arith)
        requires ports.ports() == 2, wpc == ports.wpc(), n == ports.n_channels();
    stamp_attenuator(mat, ports.nodes_slice(), ports.branches_slice(), n, wpc, t, true);
}


/// The in-channel slot of an attenuator's `r`-th equation.
pub open spec fn attenuator_slot(wpc: int, with_lambda: bool, r: int) -> int {
    if with_lambda && wpc == 5 {
        if r == 2 { 4 } else if r >= 3 { r - 1 } else { r }
    } else {
        r
    }
}

/// Each of an attenuator's `bpc·n` branch rows carries exactly one
/// equation.
pub proof fn lemma_attenuator_slots<T>(nodes: Seq<NodeId>, wpc: int, n: nat, t: T, with_lambda: bool)
    ensures
        attenuator_rows(nodes, wpc, n as int, t, with_lambda).len() == attenuator_bpc(wpc, with_lambda) * n,
        branch_slots_exact(attenuator_rows(nodes, wpc, n as int, t, with_lambda)),
{
    let rows = attenuator_rows(nodes, wpc, n as int, t, with_lambda);
    let per = attenuator_bpc(wpc, with_lambda);
    let sigma = |r: int| attenuator_slot(wpc, with_lambda, r);
    assert forall|i: int| 0 <= i < rows.len() implies #[trigger] rows[i].0 == per * (i / per) + sigma(i % per) by {
        assert(0 <= i % per < per) by (nonlinear_arith) requires per > 0, 0 <= i;
    }
    lemma_block_slots(rows, per, n as int, sigma);
}

proof fn lemma_attenuator_row_0<T>(nodes: Seq<NodeId>, branches: Seq<Option<usize>>, wpc: int, n: int, t: T, with_lambda: bool, k: int)
    requires
        wpc == 3 || wpc == 5,
        0 <= k < n,
        nodes.len() >= 2 * wpc * n,
        2 * wpc * n <= usize::MAX,
        branches.len() == attenuator_bpc(wpc, with_lambda) * n,
    ensures
        row_couples(rows_stamps(branches, attenuator_rows(nodes, wpc, n, t, with_lambda)), branches[attenuator_bpc(wpc, with_lambda) * k], nodes[wpc * n * 1 + wpc * k + 0], nodes[wpc * n * 0 + wpc * k + 0], Coef::Neg(t)),
{
    let rows = attenuator_rows(nodes, wpc, n, t, with_lambda);
    let f = |k: int, r: int| attenuator_row(nodes, wpc, n, t, with_lambda, k, r);
    assert(rows == blocked((attenuator_bpc(wpc, with_lambda)) as nat, n as nat, f));
    assert((attenuator_bpc(wpc, with_lambda)) * k + (attenuator_bpc(wpc, with_lambda)) <= (attenuator_bpc(wpc, with_lambda)) * n && 0 <= (attenuator_bpc(wpc, with_lambda)) * k) by (nonlinear_arith) requires 0 <= k < n, (attenuator_bpc(wpc, with_lambda)) >= 1;
    assert(wpc * k + wpc <= wpc * n && 0 <= wpc * k) by (nonlinear_arith) requires 0 <= k < n, 2 <= wpc;
    assert(wpc * n * 0 == 0 && wpc * n * 1 == wpc * n && 2 * wpc * n == 2 * (wpc * n)) by (nonlinear_arith);
    lemma_blocked((attenuator_bpc(wpc, with_lambda)) as nat, n as nat, f, k, 0);
    lemma_rows_couple(branches, rows, attenuator_bpc(wpc, with_lambda) * k + 0, 0);
}

proof fn lemma_attenuator_row_1<T>(nodes: Seq<NodeId>, branches: Seq<Option<usize>>, wpc: int, n: int, t: T, with_lambda: bool, k: int)
    requires
        wpc == 3 || wpc == 5,
        0 <= k < n,
        nodes.len() >= 2 * wpc * n,
        2 * wpc * n <= usize::MAX,
        branches.len() == attenuator_bpc(wpc, with_lambda) * n,
    ensures
        row_couples(rows_stamps(branches, attenuator_rows(nodes, wpc, n, t, with_lambda)), branches[attenuator_bpc(wpc, with_lambda) * k + 1], nodes[wpc * n * 1 + wpc * k + 1], nodes[wpc * n * 0 + wpc * k + 1], Coef::Neg(t)),
{
    let rows = attenuator_rows(nodes, wpc, n, t, with_lambda);
    let f = |k: int, r: int| attenuator_row(nodes, wpc, n, t, with_lambda, k, r);
    assert(rows == blocked((attenuator_bpc(wpc, with_lambda)) as nat, n as nat, f));
    assert((attenuator_bpc(wpc, with_lambda)) * k + (attenuator_bpc(wpc, with_lambda)) <= (attenuator_bpc(wpc, with_lambda)) * n && 0 <= (attenuator_bpc(wpc, with_lambda)) * k) by (nonlinear_arith) requires 0 <= k < n, (attenuator_bpc(wpc, with_lambda)) >= 1;
    assert(wpc * k + wpc <= wpc * n && 0 <= wpc * k) by (nonlinear_arith) requires 0 <= k < n, 2 <= wpc;
    assert(wpc * n * 0 == 0 && wpc * n * 1 == wpc * n && 2 * wpc * n == 2 * (wpc * n)) by (nonlinear_arith);
    lemma_blocked((attenuator_bpc(wpc, with_lambda)) as nat, n as nat, f, k, 1);
    lemma_rows_couple(branches, rows, attenuator_bpc(wpc, with_lambda) * k + 1, 0);
}

proof fn lemma_attenuator_row_lambda<T>(nodes: Seq<NodeId>, branches: Seq<Option<usize>>, wpc: int, n: int, t: T, with_lambda: bool, k: int)
    requires
        wpc == 3 || wpc == 5,
        0 <= k < n,
        nodes.len() >= 2 * wpc * n,
        2 * wpc * n <= usize::MAX,
        branches.len() == attenuator_bpc(wpc, with_lambda) * n,
        with_lambda,
    ensures
        row_couples(rows_stamps(branches, attenuator_rows(nodes, wpc, n, t, with_lambda)), branches[attenuator_bpc(wpc, with_lambda) * k + attenuator_bpc(wpc, with_lambda) - 1], nodes[wpc * n * 1 + wpc * k + wpc - 1], nodes[wpc * n * 0 + wpc * k + wpc - 1], Coef::NegOne),
{
    let rows = attenuator_rows(nodes, wpc, n, t, with_lambda);
    let f = |k: int, r: int| attenuator_row(nodes, wpc, n, t, with_lambda, k, r);
    assert(rows == blocked((attenuator_bpc(wpc, with_lambda)) as nat, n as nat, f));
    assert((attenuator_bpc(wpc, with_lambda)) * k + (attenuator_bpc(wpc, with_lambda)) <= (attenuator_bpc(wpc, with_lambda)) * n && 0 <= (attenuator_bpc(wpc, with_lambda)) * k) by (nonlinear_arith) requires 0 <= k < n, (attenuator_bpc(wpc, with_lambda)) >= 1;
    assert(wpc * k + wpc <= wpc * n && 0 <= wpc * k) by (nonlinear_arith) requires 0 <= k < n, 2 <= wpc;
    assert(wpc * n * 0 == 0 && wpc * n * 1 == wpc * n && 2 * wpc * n == 2 * (wpc * n)) by (nonlinear_arith);
    lemma_blocked((attenuator_bpc(wpc, with_lambda)) as nat, n as nat, f, k, 2);
    lemma_rows_couple(branches, rows, attenuator_bpc(wpc, with_lambda) * k + 2, 0);
}

proof fn lemma_attenuator_row_bw_re<T>(nodes: Seq<NodeId>, branches: Seq<Option<usize>>, wpc: int, n: int, t: T, with_lambda: bool, k: int)
    requires
        wpc == 3 || wpc == 5,
        0 <= k < n,
        nodes.len() >= 2 * wpc * n,
        2 * wpc * n <= usize::MAX,
        branches.len() == attenuator_bpc(wpc, with_lambda) * n,
        wpc == 5,
    ensures
        row_couples(rows_stamps(branches, attenuator_rows(nodes, wpc, n, t, with_lambda)), branches[attenuator_bpc(wpc, with_lambda) * k + 2], nodes[wpc * n * 0 + wpc * k + 2], nodes[wpc * n * 1 + wpc * k + 2], Coef::Neg(t)),
{
    let rows = attenuator_rows(nodes, wpc, n, t, with_lambda);
    let f = |k: int, r: int| attenuator_row(nodes, wpc, n, t, with_lambda, k, r);
    assert(rows == blocked((attenuator_bpc(wpc, with_lambda)) as nat, n as nat, f));
    assert((attenuator_bpc(wpc, with_lambda)) * k + (attenuator_bpc(wpc, with_lambda)) <= (attenuator_bpc(wpc, with_lambda)) * n && 0 <= (attenuator_bpc(wpc, with_lambda)) * k) by (nonlinear_arith) requires 0 <= k < n, (attenuator_bpc(wpc, with_lambda)) >= 1;
    assert(wpc * k + wpc <= wpc * n && 0 <= wpc * k) by (nonlinear_arith) requires 0 <= k < n, 2 <= wpc;
    assert(wpc * n * 0 == 0 && wpc * n * 1 == wpc * n && 2 * wpc * n == 2 * (wpc * n)) by (nonlinear_arith);
    lemma_blocked((attenuator_bpc(wpc, with_lambda)) as nat, n as nat, f, k, (if with_lambda { 3int } else { 2 }));
    lemma_rows_couple(branches, rows, attenuator_bpc(wpc, with_lambda) * k + (if with_lambda { 3int } else { 2 }), 0);
}

proof fn lemma_attenuator_row_bw_im<T>(nodes: Seq<NodeId>, branches: Seq<Option<usize>>, wpc: int, n: int, t: T, with_lambda: bool, k: int)
    requires
        wpc == 3 || wpc == 5,
        0 <= k < n,
        nodes.len() >= 2 * wpc * n,
        2 * wpc * n <= usize::MAX,
        branches.len() == attenuator_bpc(wpc, with_lambda) * n,
        wpc == 5,
    ensures
        row_couples(rows_stamps(branches, attenuator_rows(nodes, wpc, n, t, with_lambda)), branches[attenuator_bpc(wpc, with_lambda) * k + 3], nodes[wpc * n * 0 + wpc * k + 3], nodes[wpc * n * 1 + wpc * k + 3], Coef::Neg(t)),
{
    let rows = attenuator_rows(nodes, wpc, n, t, with_lambda);
    let f = |k: int, r: int| attenuator_row(nodes, wpc, n, t, with_lambda, k, r);
    assert(rows == blocked((attenuator_bpc(wpc, with_lambda)) as nat, n as nat, f));
    assert((attenuator_bpc(wpc, with_lambda)) * k + (attenuator_bpc(wpc, with_lambda)) <= (attenuator_bpc(wpc, with_lambda)) * n && 0 <= (attenuator_bpc(wpc, with_lambda)) * k) by (nonlinear_arith) requires 0 <= k < n, (attenuator_bpc(wpc, with_lambda)) >= 1;
    assert(wpc * k + wpc <= wpc * n && 0 <= wpc * k) by (nonlinear_arith) requires 0 <= k < n, 2 <= wpc;
    assert(wpc * n * 0 == 0 && wpc * n * 1 == wpc * n && 2 * wpc * n == 2 * (wpc * n)) by (nonlinear_arith);
    lemma_blocked((attenuator_bpc(wpc, with_lambda)) as nat, n as nat, f, k, (if with_lambda { 4int } else { 3 }));
    lemma_rows_couple(branches, rows, attenuator_bpc(wpc, with_lambda) * k + (if with_lambda { 4int } else { 3 }), 0);
}

/// An attenuator stage passes each channel from port 0 to port 1 scaled by
/// `t`, port `p`'s wire `w` of channel `k` being terminal `wpc·n·p + wpc·k +
/// w`: the output re and im wires (slots `bpc·k`, `+ 1`) take `t` times the
/// input's, the output λ (the channel's last slot, when carried) copies the
/// input λ, and under bidirectional propagation the input's backward wires
/// (slots `+ 2`, `+ 3`) take `t` times the output's.
pub proof fn lemma_attenuator_paths<T>(nodes: Seq<NodeId>, branches: Seq<Option<usize>>, wpc: int, n: int, t: T, with_lambda: bool, k: int)
    requires
        wpc == 3 || wpc == 5,
        0 <= k < n,
        nodes.len() >= 2 * wpc * n,
        2 * wpc * n <= usize::MAX,
        branches.len() == attenuator_bpc(wpc, with_lambda) * n,
    ensures
        row_couples(rows_stamps(branches, attenuator_rows(nodes, wpc, n, t, with_lambda)), branches[attenuator_bpc(wpc, with_lambda) * k], nodes[wpc * n * 1 + wpc * k + 0], nodes[wpc * n * 0 + wpc * k + 0], Coef::Neg(t)),
        row_couples(rows_stamps(branches, attenuator_rows(nodes, wpc, n, t, with_lambda)), branches[attenuator_bpc(wpc, with_lambda) * k + 1], nodes[wpc * n * 1 + wpc * k + 1], nodes[wpc * n * 0 + wpc * k + 1], Coef::Neg(t)),
        with_lambda ==> row_couples(rows_stamps(branches, attenuator_rows(nodes, wpc, n, t, with_lambda)), branches[attenuator_bpc(wpc, with_lambda) * k + attenuator_bpc(wpc, with_lambda) - 1], nodes[wpc * n * 1 + wpc * k + wpc - 1], nodes[wpc * n * 0 + wpc * k + wpc - 1], Coef::NegOne),
        wpc == 5 ==> row_couples(rows_stamps(branches, attenuator_rows(nodes, wpc, n, t, with_lambda)), branches[attenuator_bpc(wpc, with_lambda) * k + 2], nodes[wpc * n * 0 + wpc * k + 2], nodes[wpc * n * 1 + wpc * k + 2], Coef::Neg(t)),
        wpc == 5 ==> row_couples(rows_stamps(branches, attenuator_rows(nodes, wpc, n, t, with_lambda)), branches[attenuator_bpc(wpc, with_lambda) * k + 3], nodes[wpc * n * 0 + wpc * k + 3], nodes[wpc * n * 1 + wpc * k + 3], Coef::Neg(t)),
{
    lemma_attenuator_row_0(nodes, branches, wpc, n, t, with_lambda, k);
    lemma_attenuator_row_1(nodes, branches, wpc, n, t, with_lambda, k);
    if with_lambda {
        lemma_attenuator_row_lambda(nodes, branches, wpc, n, t, with_lambda, k);
    }
    if wpc == 5 {
        lemma_attenuator_row_bw_re(nodes, branches, wpc, n, t, with_lambda, k);
    }
    if wpc == 5 {
        lemma_attenuator_row_bw_im(nodes, branches, wpc, n, t, with_lambda, k);
    }
}

} // verus!
