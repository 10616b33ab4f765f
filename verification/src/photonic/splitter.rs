//! 1×2 splitter: port `a` splits into `c` (field fraction `k_a`) and `d`
//! (`k_b`); under bidirectional propagation light returning from `c` and
//! `d` recombines into `a` through the same coefficients. The wavelength
//! label of `a` is copied onto both outputs.

use vstd::prelude::*;
use crate::device::NodeId;
use crate::mna::{lemma_rows_couple, row_couples, branch_slots_exact, lemma_block_slots, lemma_rows_stamps_empty, Coef, Row, Stamp, blocked, lemma_blocked, lin_row, rows_stamps, stamp_lin_row};
use crate::photonic::bundle::{BundlePorts, bundle_pos, lambda_routing, straight_lambda_routes};

verus! {

pub open spec fn splitter_bpc(wpc: int) -> int {
    if wpc == 5 { 8 } else { 6 }
}

/// Branch rows per channel of a splitter: out `c` and `d` re, im, λ, plus
/// the two recombined backward rows under bidirectional propagation.
pub fn splitter_branches(wpc: usize) -> (r: usize)
    ensures
        r == splitter_bpc(wpc as int),
{
    if wpc == 5 { 8 } else { 6 }
}

/// Equation `r` of channel `k` (ports `a` = 0, `c` = 1, `d` = 2):
///
/// ```text
///   c.re = k_a·a.re   c.im = k_a·a.im   c.λ = a.λ
///   d.re = k_b·a.re   d.im = k_b·a.im   d.λ = a.λ
///   a.re_bw = k_a·c.re_bw + k_b·d.re_bw        (bidirectional only)
///   a.im_bw = k_a·c.im_bw + k_b·d.im_bw
/// ```
pub open spec fn splitter_row<T>(nodes: Seq<NodeId>, wpc: int, n: int, ka: T, kb: T, k: int, r: int) -> Row<T> {
    let b = splitter_bpc(wpc) * k;
    let lam = wpc - 1;
    if r == 0 {
        lin_row(nodes, b, bundle_pos(wpc, n, 1, k, 0), seq![(bundle_pos(wpc, n, 0, k, 0) as usize, Coef::Neg(ka))])
    } else if r == 1 {
        lin_row(nodes, b + 1, bundle_pos(wpc, n, 1, k, 1), seq![(bundle_pos(wpc, n, 0, k, 1) as usize, Coef::Neg(ka))])
    } else if r == 2 {
        lin_row(nodes, b + 2, bundle_pos(wpc, n, 1, k, lam), seq![(bundle_pos(wpc, n, 0, k, lam) as usize, Coef::NegOne)])
    } else if r == 3 {
        lin_row(nodes, b + 3, bundle_pos(wpc, n, 2, k, 0), seq![(bundle_pos(wpc, n, 0, k, 0) as usize, Coef::Neg(kb))])
    } else if r == 4 {
        lin_row(nodes, b + 4, bundle_pos(wpc, n, 2, k, 1), seq![(bundle_pos(wpc, n, 0, k, 1) as usize, Coef::Neg(kb))])
    } else if r == 5 {
        lin_row(nodes, b + 5, bundle_pos(wpc, n, 2, k, lam), seq![(bundle_pos(wpc, n, 0, k, lam) as usize, Coef::NegOne)])
    } else if r == 6 {
        lin_row(nodes, b + 6, bundle_pos(wpc, n, 0, k, 2), seq![(bundle_pos(wpc, n, 1, k, 2) as usize, Coef::Neg(ka)), (bundle_pos(wpc, n, 2, k, 2) as usize, Coef::Neg(kb))])
    } else {
        lin_row(nodes, b + 7, bundle_pos(wpc, n, 0, k, 3), seq![(bundle_pos(wpc, n, 1, k, 3) as usize, Coef::Neg(ka)), (bundle_pos(wpc, n, 2, k, 3) as usize, Coef::Neg(kb))])
    }
}

pub open spec fn splitter_rows<T>(nodes: Seq<NodeId>, wpc: int, n: int, ka: T, kb: T) -> Seq<Row<T>> {
    blocked(splitter_bpc(wpc) as nat, n as nat, |k: int, r: int| splitter_row(nodes, wpc, n, ka, kb, k, r))
}

/// One input, two outputs: both copies carry the input's label.
pub fn splitter_lambda_routing(ports: &BundlePorts) -> (v: Vec<(usize, usize)>)
    requires
        ports.wf(),
        ports.ports() == 3,
        ports.wpc() >= 1,
    ensures
        v@ == straight_lambda_routes(ports.wpc() as int, ports.n_channels() as int, 0, seq![1int, 2int]),
{
    let to = [1usize, 2usize];
    assert(to@.map_values(|t: usize| t as int) =~= seq![1int, 2int]);
    lambda_routing(ports, 0, &to)
}

/// Stamp row `r` of channel `k`.
#[verifier::spinoff_prover]
#[verifier::rlimit(100)]
fn stamp_splitter_row<T: Copy>(
    mat: &mut Vec<Stamp<T>>,
    nodes: &[NodeId],
    branches: &[Option<usize>],
    n: usize,
    wpc: usize,
    ka: T,
    kb: T,
    k: usize,
    r: usize,
    Ghost(start): Ghost<Seq<Stamp<T>>>,
)
    requires
        2 <= wpc,
        k < n,
        r < splitter_bpc(wpc as int),
        nodes@.len() >= 3 * wpc * n,
        branches@.len() == splitter_bpc(wpc as int) * n,
        old(mat)@ == start + rows_stamps(
            branches@,
            splitter_rows(nodes@, wpc as int, n as int, ka, kb).take(splitter_bpc(wpc as int) * k + r),
        ),
    ensures
        final(mat)@ == start + rows_stamps(
            branches@,
            splitter_rows(nodes@, wpc as int, n as int, ka, kb).take(splitter_bpc(wpc as int) * k + r + 1),
        ),
{
    let ghost rows = splitter_rows(nodes@, wpc as int, n as int, ka, kb);
    let ghost f = |k: int, r: int| splitter_row(nodes@, wpc as int, n as int, ka, kb, k, r);
    let ghost bpcs = splitter_bpc(wpc as int);
    assert(rows == blocked(bpcs as nat, n as nat, f));
    let _total = nodes.len();
    let _nb = branches.len();
    assert(wpc * k + wpc <= wpc * n && 0 <= wpc * k) by (nonlinear_arith) requires k < n, 2 <= wpc;
    assert(3 * wpc * n == wpc * n + wpc * n + wpc * n && 2 * wpc * n == wpc * n + wpc * n) by (nonlinear_arith);
    assert(wpc * n * 1 == wpc * n && wpc * n * 0 == 0 && wpc * n * 2 == wpc * n + wpc * n) by (nonlinear_arith);
    let bpc: usize = if wpc == 5 { 8 } else { 6 };
    proof { lemma_blocked(bpc as nat, n as nat, f, k as int, r as int); }
    let lam = wpc - 1;
    let a = wpc * k;
    let c = wpc * n + wpc * k;
    let d = 2 * wpc * n + wpc * k;
    let b = bpc * k;
    let m = b + r;
    if r == 0 {
        // Forward into `c`.
        let ins = [(a, Coef::Neg(ka))];
        assert(ins@ =~= seq![(a, Coef::Neg(ka))]);
        stamp_lin_row(mat, branches, nodes, Ghost(rows), Ghost(start), m, b, c, &ins);
    } else if r == 1 {
        let ins = [(a + 1, Coef::Neg(ka))];
        assert(ins@ =~= seq![((a + 1) as usize, Coef::Neg(ka))]);
        stamp_lin_row(mat, branches, nodes, Ghost(rows), Ghost(start), m, b + 1, c + 1, &ins);
    } else if r == 2 {
        let ins = [(a + lam, Coef::NegOne)];
        assert(ins@ =~= seq![((a + lam) as usize, Coef::<T>::NegOne)]);
        stamp_lin_row(mat, branches, nodes, Ghost(rows), Ghost(start), m, b + 2, c + lam, &ins);
    } else if r == 3 {
        // Forward into `d`.
        let ins = [(a, Coef::Neg(kb))];
        assert(ins@ =~= seq![(a, Coef::Neg(kb))]);
        stamp_lin_row(mat, branches, nodes, Ghost(rows), Ghost(start), m, b + 3, d, &ins);
    } else if r == 4 {
        let ins = [(a + 1, Coef::Neg(kb))];
        assert(ins@ =~= seq![((a + 1) as usize, Coef::Neg(kb))]);
        stamp_lin_row(mat, branches, nodes, Ghost(rows), Ghost(start), m, b + 4, d + 1, &ins);
    } else if r == 5 {
        let ins = [(a + lam, Coef::NegOne)];
        assert(ins@ =~= seq![((a + lam) as usize, Coef::<T>::NegOne)]);
        stamp_lin_row(mat, branches, nodes, Ghost(rows), Ghost(start), m, b + 5, d + lam, &ins);
    } else if r == 6 {
        // Backward: in.bw is the reciprocal combination of out_a.bw and out_b.bw.
        let ins = [(c + 2, Coef::Neg(ka)), (d + 2, Coef::Neg(kb))];
        assert(ins@ =~= seq![((c + 2) as usize, Coef::Neg(ka)), ((d + 2) as usize, Coef::Neg(kb))]);
        stamp_lin_row(mat, branches, nodes, Ghost(rows), Ghost(start), m, b + 6, a + 2, &ins);
    } else {
        let ins = [(c + 3, Coef::Neg(ka)), (d + 3, Coef::Neg(kb))];
        assert(ins@ =~= seq![((c + 3) as usize, Coef::Neg(ka)), ((d + 3) as usize, Coef::Neg(kb))]);
        stamp_lin_row(mat, branches, nodes, Ghost(rows), Ghost(start), m, b + 7, a + 3, &ins);
    }
}

/// Stamp the splitter's equations for every channel, with field
/// coefficients `k_a = √r` and `k_b = √(α − r)`.
pub fn load_splitter_jacobian<T: Copy>(ports: &BundlePorts, ka: T, kb: T, mat: &mut Vec<Stamp<T>>)
    requires
        ports.wf(),
        ports.ports() == 3,
        ports.wpc() >= 2,
        ports.branches().len() == splitter_bpc(ports.wpc() as int) * ports.n_channels(),
    ensures
        final(mat)@ == old(mat)@ + rows_stamps(
            ports.branches(),
            splitter_rows(ports.nodes(), ports.wpc() as int, ports.n_channels() as int, ka, kb),
        ),
{
    let n = ports.n_channels_exec();
    let wpc = ports.wpc_exec();
    let nodes = ports.nodes_slice();
    let branches = ports.branches_slice();
    assert(ports.ports() * ports.wpc() * ports.n_channels() == 3 * wpc * n) by (nonlinear_arith)
        requires ports.ports() == 3, wpc == ports.wpc(), n == ports.n_channels();
    let ghost rows = splitter_rows(nodes@, wpc as int, n as int, ka, kb);
    let ghost start = mat@;
    let ghost bpc = splitter_bpc(wpc as int);
    assert(rows.take(0) =~= Seq::<Row<T>>::empty());
    proof { lemma_rows_stamps_empty(branches@, rows.take(0)); }
    assert(start + Seq::<Stamp<T>>::empty() =~= start);
    let mut k: usize = 0;
    while k < n
        invariant
            k <= n,
            2 <= wpc,
            nodes@.len() >= 3 * wpc * n,
            branches@.len() == bpc * n,
            bpc == splitter_bpc(wpc as int),
            rows == splitter_rows(nodes@, wpc as int, n as int, ka, kb),
            rows.len() == bpc * n,
            mat@ == start + rows_stamps(branches@, rows.take(bpc * k)),
        decreases n - k,
    {
        let per: usize = if wpc == 5 { 8 } else { 6 };
        let mut r: usize = 0;
        while r < per
            invariant
                k < n,
                r <= per,
                per == bpc,
                2 <= wpc,
                nodes@.len() >= 3 * wpc * n,
                branches@.len() == bpc * n,
                bpc == splitter_bpc(wpc as int),
                rows == splitter_rows(nodes@, wpc as int, n as int, ka, kb),
                mat@ == start + rows_stamps(branches@, rows.take(bpc * k + r)),
            decreases per - r,
        {
            stamp_splitter_row(mat, nodes, branches, n, wpc, ka, kb, k, r, Ghost(start));
            r = r + 1;
        }
        assert(bpc * k + bpc == bpc * (k + 1)) by (nonlinear_arith);
        k = k + 1;
    }
    assert(rows.take(bpc * n) =~= rows);
}


/// Each of the splitter's `bpc·n` branch rows carries exactly one equation.
pub proof fn lemma_splitter_slots<T>(nodes: Seq<NodeId>, wpc: int, n: nat, ka: T, kb: T)
    ensures
        splitter_rows(nodes, wpc, n as int, ka, kb).len() == splitter_bpc(wpc) * n,
        branch_slots_exact(splitter_rows(nodes, wpc, n as int, ka, kb)),
{
    let rows = splitter_rows(nodes, wpc, n as int, ka, kb);
    let per = splitter_bpc(wpc);
    assert forall|i: int| 0 <= i < rows.len() implies #[trigger] rows[i].0 == per * (i / per) + (|r: int| r)(i % per) by {
        assert(0 <= i % per < per) by (nonlinear_arith) requires per > 0, 0 <= i;
    }
    lemma_block_slots(rows, per, n as int, |r: int| r);
}

proof fn lemma_splitter_row_0<T>(nodes: Seq<NodeId>, branches: Seq<Option<usize>>, wpc: int, n: int, ka: T, kb: T, k: int)
    requires
        wpc == 3 || wpc == 5,
        0 <= k < n,
        nodes.len() >= 3 * wpc * n,
        3 * wpc * n <= usize::MAX,
        branches.len() == splitter_bpc(wpc) * n,
    ensures
        row_couples(rows_stamps(branches, splitter_rows(nodes, wpc, n, ka, kb)), branches[splitter_bpc(wpc) * k], nodes[wpc * n * 1 + wpc * k + 0], nodes[wpc * n * 0 + wpc * k + 0], Coef::Neg(ka)),
{
    let rows = splitter_rows(nodes, wpc, n, ka, kb);
    let f = |k: int, r: int| splitter_row(nodes, wpc, n, ka, kb, k, r);
    assert(rows == blocked((splitter_bpc(wpc)) as nat, n as nat, f));
    assert((splitter_bpc(wpc)) * k + (splitter_bpc(wpc)) <= (splitter_bpc(wpc)) * n && 0 <= (splitter_bpc(wpc)) * k) by (nonlinear_arith) requires 0 <= k < n, (splitter_bpc(wpc)) >= 1;
    assert(wpc * k + wpc <= wpc * n && 0 <= wpc * k) by (nonlinear_arith) requires 0 <= k < n, 2 <= wpc;
    assert(wpc * n * 0 == 0 && wpc * n * 1 == wpc * n && wpc * n * 2 == wpc * n + wpc * n && 3 * wpc * n == 3 * (wpc * n)) by (nonlinear_arith);
    lemma_blocked((splitter_bpc(wpc)) as nat, n as nat, f, k, 0);
    lemma_rows_couple(branches, rows, splitter_bpc(wpc) * k + 0, 0);
}

proof fn lemma_splitter_row_1<T>(nodes: Seq<NodeId>, branches: Seq<Option<usize>>, wpc: int, n: int, ka: T, kb: T, k: int)
    requires
        wpc == 3 || wpc == 5,
        0 <= k < n,
        nodes.len() >= 3 * wpc * n,
        3 * wpc * n <= usize::MAX,
        branches.len() == splitter_bpc(wpc) * n,
    ensures
        row_couples(rows_stamps(branches, splitter_rows(nodes, wpc, n, ka, kb)), branches[splitter_bpc(wpc) * k + 1], nodes[wpc * n * 1 + wpc * k + 1], nodes[wpc * n * 0 + wpc * k + 1], Coef::Neg(ka)),
{
    let rows = splitter_rows(nodes, wpc, n, ka, kb);
    let f = |k: int, r: int| splitter_row(nodes, wpc, n, ka, kb, k, r);
    assert(rows == blocked((splitter_bpc(wpc)) as nat, n as nat, f));
    assert((splitter_bpc(wpc)) * k + (splitter_bpc(wpc)) <= (splitter_bpc(wpc)) * n && 0 <= (splitter_bpc(wpc)) * k) by (nonlinear_arith) requires 0 <= k < n, (splitter_bpc(wpc)) >= 1;
    assert(wpc * k + wpc <= wpc * n && 0 <= wpc * k) by (nonlinear_arith) requires 0 <= k < n, 2 <= wpc;
    assert(wpc * n * 0 == 0 && wpc * n * 1 == wpc * n && wpc * n * 2 == wpc * n + wpc * n && 3 * wpc * n == 3 * (wpc * n)) by (nonlinear_arith);
    lemma_blocked((splitter_bpc(wpc)) as nat, n as nat, f, k, 1);
    lemma_rows_couple(branches, rows, splitter_bpc(wpc) * k + 1, 0);
}

proof fn lemma_splitter_row_2<T>(nodes: Seq<NodeId>, branches: Seq<Option<usize>>, wpc: int, n: int, ka: T, kb: T, k: int)
    requires
        wpc == 3 || wpc == 5,
        0 <= k < n,
        nodes.len() >= 3 * wpc * n,
        3 * wpc * n <= usize::MAX,
        branches.len() == splitter_bpc(wpc) * n,
    ensures
        row_couples(rows_stamps(branches, splitter_rows(nodes, wpc, n, ka, kb)), branches[splitter_bpc(wpc) * k + 2], nodes[wpc * n * 1 + wpc * k + wpc - 1], nodes[wpc * n * 0 + wpc * k + wpc - 1], Coef::NegOne),
{
    let rows = splitter_rows(nodes, wpc, n, ka, kb);
    let f = |k: int, r: int| splitter_row(nodes, wpc, n, ka, kb, k, r);
    assert(rows == blocked((splitter_bpc(wpc)) as nat, n as nat, f));
    assert((splitter_bpc(wpc)) * k + (splitter_bpc(wpc)) <= (splitter_bpc(wpc)) * n && 0 <= (splitter_bpc(wpc)) * k) by (nonlinear_arith) requires 0 <= k < n, (splitter_bpc(wpc)) >= 1;
    assert(wpc * k + wpc <= wpc * n && 0 <= wpc * k) by (nonlinear_arith) requires 0 <= k < n, 2 <= wpc;
    assert(wpc * n * 0 == 0 && wpc * n * 1 == wpc * n && wpc * n * 2 == wpc * n + wpc * n && 3 * wpc * n == 3 * (wpc * n)) by (nonlinear_arith);
    lemma_blocked((splitter_bpc(wpc)) as nat, n as nat, f, k, 2);
    lemma_rows_couple(branches, rows, splitter_bpc(wpc) * k + 2, 0);
}

proof fn lemma_splitter_row_3<T>(nodes: Seq<NodeId>, branches: Seq<Option<usize>>, wpc: int, n: int, ka: T, kb: T, k: int)
    requires
        wpc == 3 || wpc == 5,
        0 <= k < n,
        nodes.len() >= 3 * wpc * n,
        3 * wpc * n <= usize::MAX,
        branches.len() == splitter_bpc(wpc) * n,
    ensures
        row_couples(rows_stamps(branches, splitter_rows(nodes, wpc, n, ka, kb)), branches[splitter_bpc(wpc) * k + 3], nodes[wpc * n * 2 + wpc * k + 0], nodes[wpc * n * 0 + wpc * k + 0], Coef::Neg(kb)),
{
    let rows = splitter_rows(nodes, wpc, n, ka, kb);
    let f = |k: int, r: int| splitter_row(nodes, wpc, n, ka, kb, k, r);
    assert(rows == blocked((splitter_bpc(wpc)) as nat, n as nat, f));
    assert((splitter_bpc(wpc)) * k + (splitter_bpc(wpc)) <= (splitter_bpc(wpc)) * n && 0 <= (splitter_bpc(wpc)) * k) by (nonlinear_arith) requires 0 <= k < n, (splitter_bpc(wpc)) >= 1;
    assert(wpc * k + wpc <= wpc * n && 0 <= wpc * k) by (nonlinear_arith) requires 0 <= k < n, 2 <= wpc;
    assert(wpc * n * 0 == 0 && wpc * n * 1 == wpc * n && wpc * n * 2 == wpc * n + wpc * n && 3 * wpc * n == 3 * (wpc * n)) by (nonlinear_arith);
    lemma_blocked((splitter_bpc(wpc)) as nat, n as nat, f, k, 3);
    lemma_rows_couple(branches, rows, splitter_bpc(wpc) * k + 3, 0);
}

proof fn lemma_splitter_row_4<T>(nodes: Seq<NodeId>, branches: Seq<Option<usize>>, wpc: int, n: int, ka: T, kb: T, k: int)
    requires
        wpc == 3 || wpc == 5,
        0 <= k < n,
        nodes.len() >= 3 * wpc * n,
        3 * wpc * n <= usize::MAX,
        branches.len() == splitter_bpc(wpc) * n,
    ensures
        row_couples(rows_stamps(branches, splitter_rows(nodes, wpc, n, ka, kb)), branches[splitter_bpc(wpc) * k + 4], nodes[wpc * n * 2 + wpc * k + 1], nodes[wpc * n * 0 + wpc * k + 1], Coef::Neg(kb)),
{
    let rows = splitter_rows(nodes, wpc, n, ka, kb);
    let f = |k: int, r: int| splitter_row(nodes, wpc, n, ka, kb, k, r);
    assert(rows == blocked((splitter_bpc(wpc)) as nat, n as nat, f));
    assert((splitter_bpc(wpc)) * k + (splitter_bpc(wpc)) <= (splitter_bpc(wpc)) * n && 0 <= (splitter_bpc(wpc)) * k) by (nonlinear_arith) requires 0 <= k < n, (splitter_bpc(wpc)) >= 1;
    assert(wpc * k + wpc <= wpc * n && 0 <= wpc * k) by (nonlinear_arith) requires 0 <= k < n, 2 <= wpc;
    assert(wpc * n * 0 == 0 && wpc * n * 1 == wpc * n && wpc * n * 2 == wpc * n + wpc * n && 3 * wpc * n == 3 * (wpc * n)) by (nonlinear_arith);
    lemma_blocked((splitter_bpc(wpc)) as nat, n as nat, f, k, 4);
    lemma_rows_couple(branches, rows, splitter_bpc(wpc) * k + 4, 0);
}

proof fn lemma_splitter_row_5<T>(nodes: Seq<NodeId>, branches: Seq<Option<usize>>, wpc: int, n: int, ka: T, kb: T, k: int)
    requires
        wpc == 3 || wpc == 5,
        0 <= k < n,
        nodes.len() >= 3 * wpc * n,
        3 * wpc * n <= usize::MAX,
        branches.len() == splitter_bpc(wpc) * n,
    ensures
        row_couples(rows_stamps(branches, splitter_rows(nodes, wpc, n, ka, kb)), branches[splitter_bpc(wpc) * k + 5], nodes[wpc * n * 2 + wpc * k + wpc - 1], nodes[wpc * n * 0 + wpc * k + wpc - 1], Coef::NegOne),
{
    let rows = splitter_rows(nodes, wpc, n, ka, kb);
    let f = |k: int, r: int| splitter_row(nodes, wpc, n, ka, kb, k, r);
    assert(rows == blocked((splitter_bpc(wpc)) as nat, n as nat, f));
    assert((splitter_bpc(wpc)) * k + (splitter_bpc(wpc)) <= (splitter_bpc(wpc)) * n && 0 <= (splitter_bpc(wpc)) * k) by (nonlinear_arith) requires 0 <= k < n, (splitter_bpc(wpc)) >= 1;
    assert(wpc * k + wpc <= wpc * n && 0 <= wpc * k) by (nonlinear_arith) requires 0 <= k < n, 2 <= wpc;
    assert(wpc * n * 0 == 0 && wpc * n * 1 == wpc * n && wpc * n * 2 == wpc * n + wpc * n && 3 * wpc * n == 3 * (wpc * n)) by (nonlinear_arith);
    lemma_blocked((splitter_bpc(wpc)) as nat, n as nat, f, k, 5);
    lemma_rows_couple(branches, rows, splitter_bpc(wpc) * k + 5, 0);
}

proof fn lemma_splitter_row_6<T>(nodes: Seq<NodeId>, branches: Seq<Option<usize>>, wpc: int, n: int, ka: T, kb: T, k: int)
    requires
        wpc == 3 || wpc == 5,
        0 <= k < n,
        nodes.len() >= 3 * wpc * n,
        3 * wpc * n <= usize::MAX,
        branches.len() == splitter_bpc(wpc) * n,
        wpc == 5,
    ensures
        row_couples(rows_stamps(branches, splitter_rows(nodes, wpc, n, ka, kb)), branches[splitter_bpc(wpc) * k + 6], nodes[wpc * n * 0 + wpc * k + 2], nodes[wpc * n * 1 + wpc * k + 2], Coef::Neg(ka)),
        row_couples(rows_stamps(branches, splitter_rows(nodes, wpc, n, ka, kb)), branches[splitter_bpc(wpc) * k + 6], nodes[wpc * n * 0 + wpc * k + 2], nodes[wpc * n * 2 + wpc * k + 2], Coef::Neg(kb)),
{
    let rows = splitter_rows(nodes, wpc, n, ka, kb);
    let f = |k: int, r: int| splitter_row(nodes, wpc, n, ka, kb, k, r);
    assert(rows == blocked((splitter_bpc(wpc)) as nat, n as nat, f));
    assert((splitter_bpc(wpc)) * k + (splitter_bpc(wpc)) <= (splitter_bpc(wpc)) * n && 0 <= (splitter_bpc(wpc)) * k) by (nonlinear_arith) requires 0 <= k < n, (splitter_bpc(wpc)) >= 1;
    assert(wpc * k + wpc <= wpc * n && 0 <= wpc * k) by (nonlinear_arith) requires 0 <= k < n, 2 <= wpc;
    assert(wpc * n * 0 == 0 && wpc * n * 1 == wpc * n && wpc * n * 2 == wpc * n + wpc * n && 3 * wpc * n == 3 * (wpc * n)) by (nonlinear_arith);
    lemma_blocked((splitter_bpc(wpc)) as nat, n as nat, f, k, 6);
    lemma_rows_couple(branches, rows, splitter_bpc(wpc) * k + 6, 0);
    lemma_rows_couple(branches, rows, splitter_bpc(wpc) * k + 6, 1);
}

proof fn lemma_splitter_row_7<T>(nodes: Seq<NodeId>, branches: Seq<Option<usize>>, wpc: int, n: int, ka: T, kb: T, k: int)
    requires
        wpc == 3 || wpc == 5,
        0 <= k < n,
        nodes.len() >= 3 * wpc * n,
        3 * wpc * n <= usize::MAX,
        branches.len() == splitter_bpc(wpc) * n,
        wpc == 5,
    ensures
        row_couples(rows_stamps(branches, splitter_rows(nodes, wpc, n, ka, kb)), branches[splitter_bpc(wpc) * k + 7], nodes[wpc * n * 0 + wpc * k + 3], nodes[wpc * n * 1 + wpc * k + 3], Coef::Neg(ka)),
        row_couples(rows_stamps(branches, splitter_rows(nodes, wpc, n, ka, kb)), branches[splitter_bpc(wpc) * k + 7], nodes[wpc * n * 0 + wpc * k + 3], nodes[wpc * n * 2 + wpc * k + 3], Coef::Neg(kb)),
{
    let rows = splitter_rows(nodes, wpc, n, ka, kb);
    let f = |k: int, r: int| splitter_row(nodes, wpc, n, ka, kb, k, r);
    assert(rows == blocked((splitter_bpc(wpc)) as nat, n as nat, f));
    assert((splitter_bpc(wpc)) * k + (splitter_bpc(wpc)) <= (splitter_bpc(wpc)) * n && 0 <= (splitter_bpc(wpc)) * k) by (nonlinear_arith) requires 0 <= k < n, (splitter_bpc(wpc)) >= 1;
    assert(wpc * k + wpc <= wpc * n && 0 <= wpc * k) by (nonlinear_arith) requires 0 <= k < n, 2 <= wpc;
    assert(wpc * n * 0 == 0 && wpc * n * 1 == wpc * n && wpc * n * 2 == wpc * n + wpc * n && 3 * wpc * n == 3 * (wpc * n)) by (nonlinear_arith);
    lemma_blocked((splitter_bpc(wpc)) as nat, n as nat, f, k, 7);
    lemma_rows_couple(branches, rows, splitter_bpc(wpc) * k + 7, 0);
    lemma_rows_couple(branches, rows, splitter_bpc(wpc) * k + 7, 1);
}

/// The splitter's paths, channel by channel, port `p`'s wire `w` of channel
/// `k` being terminal `wpc·n·p + wpc·k + w` (input `a` = 0, outputs `c` = 1,
/// `d` = 2): `c` receives `k_a` times `a`'s field and `d` receives `k_b`
/// times it, both copying `a`'s λ; under bidirectional propagation `a`'s
/// backward field is `k_a` times `c`'s plus `k_b` times `d`'s.
pub proof fn lemma_splitter_paths<T>(nodes: Seq<NodeId>, branches: Seq<Option<usize>>, wpc: int, n: int, ka: T, kb: T, k: int)
    requires
        wpc == 3 || wpc == 5,
        0 <= k < n,
        nodes.len() >= 3 * wpc * n,
        3 * wpc * n <= usize::MAX,
        branches.len() == splitter_bpc(wpc) * n,
    ensures
        row_couples(rows_stamps(branches, splitter_rows(nodes, wpc, n, ka, kb)), branches[splitter_bpc(wpc) * k], nodes[wpc * n * 1 + wpc * k + 0], nodes[wpc * n * 0 + wpc * k + 0], Coef::Neg(ka)),
        row_couples(rows_stamps(branches, splitter_rows(nodes, wpc, n, ka, kb)), branches[splitter_bpc(wpc) * k + 1], nodes[wpc * n * 1 + wpc * k + 1], nodes[wpc * n * 0 + wpc * k + 1], Coef::Neg(ka)),
        row_couples(rows_stamps(branches, splitter_rows(nodes, wpc, n, ka, kb)), branches[splitter_bpc(wpc) * k + 2], nodes[wpc * n * 1 + wpc * k + wpc - 1], nodes[wpc * n * 0 + wpc * k + wpc - 1], Coef::NegOne),
        row_couples(rows_stamps(branches, splitter_rows(nodes, wpc, n, ka, kb)), branches[splitter_bpc(wpc) * k + 3], nodes[wpc * n * 2 + wpc * k + 0], nodes[wpc * n * 0 + wpc * k + 0], Coef::Neg(kb)),
        row_couples(rows_stamps(branches, splitter_rows(nodes, wpc, n, ka, kb)), branches[splitter_bpc(wpc) * k + 4], nodes[wpc * n * 2 + wpc * k + 1], nodes[wpc * n * 0 + wpc * k + 1], Coef::Neg(kb)),
        row_couples(rows_stamps(branches, splitter_rows(nodes, wpc, n, ka, kb)), branches[splitter_bpc(wpc) * k + 5], nodes[wpc * n * 2 + wpc * k + wpc - 1], nodes[wpc * n * 0 + wpc * k + wpc - 1], Coef::NegOne),
        wpc == 5 ==> row_couples(rows_stamps(branches, splitter_rows(nodes, wpc, n, ka, kb)), branches[splitter_bpc(wpc) * k + 6], nodes[wpc * n * 0 + wpc * k + 2], nodes[wpc * n * 1 + wpc * k + 2], Coef::Neg(ka)),
        wpc == 5 ==> row_couples(rows_stamps(branches, splitter_rows(nodes, wpc, n, ka, kb)), branches[splitter_bpc(wpc) * k + 6], nodes[wpc * n * 0 + wpc * k + 2], nodes[wpc * n * 2 + wpc * k + 2], Coef::Neg(kb)),
        wpc == 5 ==> row_couples(rows_stamps(branches, splitter_rows(nodes, wpc, n, ka, kb)), branches[splitter_bpc(wpc) * k + 7], nodes[wpc * n * 0 + wpc * k + 3], nodes[wpc * n * 1 + wpc * k + 3], Coef::Neg(ka)),
        wpc == 5 ==> row_couples(rows_stamps(branches, splitter_rows(nodes, wpc, n, ka, kb)), branches[splitter_bpc(wpc) * k + 7], nodes[wpc * n * 0 + wpc * k + 3], nodes[wpc * n * 2 + wpc * k + 3], Coef::Neg(kb)),
{
    lemma_splitter_row_0(nodes, branches, wpc, n, ka, kb, k);
    lemma_splitter_row_1(nodes, branches, wpc, n, ka, kb, k);
    lemma_splitter_row_2(nodes, branches, wpc, n, ka, kb, k);
    lemma_splitter_row_3(nodes, branches, wpc, n, ka, kb, k);
    lemma_splitter_row_4(nodes, branches, wpc, n, ka, kb, k);
    lemma_splitter_row_5(nodes, branches, wpc, n, ka, kb, k);
    if wpc == 5 {
        lemma_splitter_row_6(nodes, branches, wpc, n, ka, kb, k);
    }
    if wpc == 5 {
        lemma_splitter_row_7(nodes, branches, wpc, n, ka, kb, k);
    }
}

} // verus!
