//! 2×2 directional coupler with length-coupled cross-coefficient:
//! `[c; d] = [t  −js; −js  t]·[a; b]` with `t = cos(κL)`, `s = sin(κL)`.
//! Under bidirectional propagation the same (reciprocal) matrix carries
//! light from `c`, `d` back to `a`, `b`. Both outputs carry `a`'s λ.

use vstd::prelude::*;
use crate::device::NodeId;
use crate::mna::{lemma_rows_couple, row_couples, branch_slots_exact, lemma_block_slots, lemma_rows_stamps_empty, Coef, Row, Stamp, blocked, lemma_blocked, lin_row, rows_stamps, stamp_lin_row};
use crate::photonic::bundle::{BundlePorts, bundle_pos};

verus! {

pub open spec fn coupler_bpc(wpc: int) -> int {
    if wpc == 5 { 10 } else { 6 }
}

/// Branch rows per channel of a directional coupler: `c` and `d` re, im,
/// λ, plus the four backward rows under bidirectional propagation.
pub fn coupler_branches(wpc: usize) -> (r: usize)
    ensures
        r == coupler_bpc(wpc as int),
{
    if wpc == 5 { 10 } else { 6 }
}

/// Equation `r` of channel `k` (ports `a` = 0, `b` = 1, `c` = 2, `d` = 3),
/// in SVEA real/imaginary form:
///
/// ```text
///   c.re = t·a.re + s·b.im     d.re = t·b.re + s·a.im     c.λ = a.λ
///   c.im = t·a.im − s·b.re     d.im = t·b.im − s·a.re     d.λ = a.λ
///   a.re_bw = t·c.re_bw + s·d.im_bw     b.re_bw = t·d.re_bw + s·c.im_bw
///   a.im_bw = t·c.im_bw − s·d.re_bw     b.im_bw = t·d.im_bw − s·c.re_bw
/// ```
pub open spec fn coupler_row<T>(nodes: Seq<NodeId>, wpc: int, n: int, t: T, s: T, k: int, r: int) -> Row<T> {
    let b = coupler_bpc(wpc) * k;
    let lam = wpc - 1;
    if r == 0 {
        lin_row(nodes, b, bundle_pos(wpc, n, 2, k, 0), seq![
            (bundle_pos(wpc, n, 0, k, 0) as usize, Coef::Neg(t)), (bundle_pos(wpc, n, 1, k, 1) as usize, Coef::Neg(s))])
    } else if r == 1 {
        lin_row(nodes, b + 1, bundle_pos(wpc, n, 2, k, 1), seq![
            (bundle_pos(wpc, n, 0, k, 1) as usize, Coef::Neg(t)), (bundle_pos(wpc, n, 1, k, 0) as usize, Coef::Pos(s))])
    } else if r == 2 {
        lin_row(nodes, b + 2, bundle_pos(wpc, n, 3, k, 0), seq![
            (bundle_pos(wpc, n, 1, k, 0) as usize, Coef::Neg(t)), (bundle_pos(wpc, n, 0, k, 1) as usize, Coef::Neg(s))])
    } else if r == 3 {
        lin_row(nodes, b + 3, bundle_pos(wpc, n, 3, k, 1), seq![
            (bundle_pos(wpc, n, 1, k, 1) as usize, Coef::Neg(t)), (bundle_pos(wpc, n, 0, k, 0) as usize, Coef::Pos(s))])
    } else if r == 4 {
        lin_row(nodes, b + 4, bundle_pos(wpc, n, 2, k, lam), seq![(bundle_pos(wpc, n, 0, k, lam) as usize, Coef::NegOne)])
    } else if r == 5 {
        lin_row(nodes, b + 5, bundle_pos(wpc, n, 3, k, lam), seq![(bundle_pos(wpc, n, 0, k, lam) as usize, Coef::NegOne)])
    } else if r == 6 {
        lin_row(nodes, b + 6, bundle_pos(wpc, n, 0, k, 2), seq![
            (bundle_pos(wpc, n, 2, k, 2) as usize, Coef::Neg(t)), (bundle_pos(wpc, n, 3, k, 3) as usize, Coef::Neg(s))])
    } else if r == 7 {
        lin_row(nodes, b + 7, bundle_pos(wpc, n, 0, k, 3), seq![
            (bundle_pos(wpc, n, 2, k, 3) as usize, Coef::Neg(t)), (bundle_pos(wpc, n, 3, k, 2) as usize, Coef::Pos(s))])
    } else if r == 8 {
        lin_row(nodes, b + 8, bundle_pos(wpc, n, 1, k, 2), seq![
            (bundle_pos(wpc, n, 3, k, 2) as usize, Coef::Neg(t)), (bundle_pos(wpc, n, 2, k, 3) as usize, Coef::Neg(s))])
    } else {
        lin_row(nodes, b + 9, bundle_pos(wpc, n, 1, k, 3), seq![
            (bundle_pos(wpc, n, 3, k, 3) as usize, Coef::Neg(t)), (bundle_pos(wpc, n, 2, k, 2) as usize, Coef::Pos(s))])
    }
}

pub open spec fn coupler_rows<T>(nodes: Seq<NodeId>, wpc: int, n: int, t: T, s: T) -> Seq<Row<T>> {
    blocked(coupler_bpc(wpc) as nat, n as nat, |k: int, r: int| coupler_row(nodes, wpc, n, t, s, k, r))
}

/// Stamp row `r` of channel `k`.
#[verifier::spinoff_prover]
#[verifier::rlimit(100)]
fn stamp_coupler_row<T: Copy>(
    mat: &mut Vec<Stamp<T>>,
    nodes: &[NodeId],
    branches: &[Option<usize>],
    n: usize,
    wpc: usize,
    t: T,
    s: T,
    k: usize,
    r: usize,
    Ghost(start): Ghost<Seq<Stamp<T>>>,
)
    requires
        2 <= wpc,
        k < n,
        r < coupler_bpc(wpc as int),
        nodes@.len() >= 4 * wpc * n,
        branches@.len() == coupler_bpc(wpc as int) * n,
        old(mat)@ == start + rows_stamps(
            branches@,
            coupler_rows(nodes@, wpc as int, n as int, t, s).take(coupler_bpc(wpc as int) * k + r),
        ),
    ensures
        final(mat)@ == start + rows_stamps(
            branches@,
            coupler_rows(nodes@, wpc as int, n as int, t, s).take(coupler_bpc(wpc as int) * k + r + 1),
        ),
{
    let ghost rows = coupler_rows(nodes@, wpc as int, n as int, t, s);
    let ghost f = |k: int, r: int| coupler_row(nodes@, wpc as int, n as int, t, s, k, r);
    let ghost bpcs = coupler_bpc(wpc as int);
    assert(rows == blocked(bpcs as nat, n as nat, f));
    let _total = nodes.len();
    let _nb = branches.len();
    assert(wpc * k + wpc <= wpc * n && 0 <= wpc * k) by (nonlinear_arith) requires k < n, 2 <= wpc;
    assert(4 * wpc * n == wpc * n + wpc * n + wpc * n + wpc * n && 2 * wpc * n == wpc * n + wpc * n
        && 3 * wpc * n == wpc * n + wpc * n + wpc * n) by (nonlinear_arith);
    assert(wpc * n * 1 == wpc * n && wpc * n * 0 == 0 && wpc * n * 2 == wpc * n + wpc * n
        && wpc * n * 3 == wpc * n + wpc * n + wpc * n) by (nonlinear_arith);
    let bpc: usize = if wpc == 5 { 10 } else { 6 };
    proof { lemma_blocked(bpc as nat, n as nat, f, k as int, r as int); }
    let lam = wpc - 1;
    let pa = wpc * k;
    let pb = wpc * n + wpc * k;
    let pc = 2 * wpc * n + wpc * k;
    let pd = 3 * wpc * n + wpc * k;
    let b = bpc * k;
    let m = b + r;
    if r == 0 {
        // Forward: c, d are outputs computed from a, b inputs.
        let ins = [(pa, Coef::Neg(t)), (pb + 1, Coef::Neg(s))];
        assert(ins@ =~= seq![(pa, Coef::Neg(t)), ((pb + 1) as usize, Coef::Neg(s))]);
        stamp_lin_row(mat, branches, nodes, Ghost(rows), Ghost(start), m, b, pc, &ins);
    } else if r == 1 {
        let ins = [(pa + 1, Coef::Neg(t)), (pb, Coef::Pos(s))];
        assert(ins@ =~= seq![((pa + 1) as usize, Coef::Neg(t)), (pb, Coef::Pos(s))]);
        stamp_lin_row(mat, branches, nodes, Ghost(rows), Ghost(start), m, b + 1, pc + 1, &ins);
    } else if r == 2 {
        let ins = [(pb, Coef::Neg(t)), (pa + 1, Coef::Neg(s))];
        assert(ins@ =~= seq![(pb, Coef::Neg(t)), ((pa + 1) as usize, Coef::Neg(s))]);
        stamp_lin_row(mat, branches, nodes, Ghost(rows), Ghost(start), m, b + 2, pd, &ins);
    } else if r == 3 {
        let ins = [(pb + 1, Coef::Neg(t)), (pa, Coef::Pos(s))];
        assert(ins@ =~= seq![((pb + 1) as usize, Coef::Neg(t)), (pa, Coef::Pos(s))]);
        stamp_lin_row(mat, branches, nodes, Ghost(rows), Ghost(start), m, b + 3, pd + 1, &ins);
    } else if r == 4 {
        // λ wires: c_λ = a_λ, d_λ = a_λ.
        let ins = [(pa + lam, Coef::NegOne)];
        assert(ins@ =~= seq![((pa + lam) as usize, Coef::<T>::NegOne)]);
        stamp_lin_row(mat, branches, nodes, Ghost(rows), Ghost(start), m, b + 4, pc + lam, &ins);
    } else if r == 5 {
        let ins = [(pa + lam, Coef::NegOne)];
        assert(ins@ =~= seq![((pa + lam) as usize, Coef::<T>::NegOne)]);
        stamp_lin_row(mat, branches, nodes, Ghost(rows), Ghost(start), m, b + 5, pd + lam, &ins);
    } else if r == 6 {
        // Backward: a, b are outputs computed from c, d inputs.
        let ins = [(pc + 2, Coef::Neg(t)), (pd + 3, Coef::Neg(s))];
        assert(ins@ =~= seq![((pc + 2) as usize, Coef::Neg(t)), ((pd + 3) as usize, Coef::Neg(s))]);
        stamp_lin_row(mat, branches, nodes, Ghost(rows), Ghost(start), m, b + 6, pa + 2, &ins);
    } else if r == 7 {
        let ins = [(pc + 3, Coef::Neg(t)), (pd + 2, Coef::Pos(s))];
        assert(ins@ =~= seq![((pc + 3) as usize, Coef::Neg(t)), ((pd + 2) as usize, Coef::Pos(s))]);
        stamp_lin_row(mat, branches, nodes, Ghost(rows), Ghost(start), m, b + 7, pa + 3, &ins);
    } else if r == 8 {
        let ins = [(pd + 2, Coef::Neg(t)), (pc + 3, Coef::Neg(s))];
        assert(ins@ =~= seq![((pd + 2) as usize, Coef::Neg(t)), ((pc + 3) as usize, Coef::Neg(s))]);
        stamp_lin_row(mat, branches, nodes, Ghost(rows), Ghost(start), m, b + 8, pb + 2, &ins);
    } else {
        let ins = [(pd + 3, Coef::Neg(t)), (pc + 2, Coef::Pos(s))];
        assert(ins@ =~= seq![((pd + 3) as usize, Coef::Neg(t)), ((pc + 2) as usize, Coef::Pos(s))]);
        stamp_lin_row(mat, branches, nodes, Ghost(rows), Ghost(start), m, b + 9, pb + 3, &ins);
    }
}

/// Stamp the coupler's equations for every channel, with `t = cos(κL)` and
/// `s = sin(κL)`.
pub fn load_coupler_jacobian<T: Copy>(ports: &BundlePorts, t: T, s: T, mat: &mut Vec<Stamp<T>>)
    requires
        ports.wf(),
        ports.ports() == 4,
        ports.wpc() >= 2,
        ports.branches().len() == coupler_bpc(ports.wpc() as int) * ports.n_channels(),
    ensures
        final(mat)@ == old(mat)@ + rows_stamps(
            ports.branches(),
            coupler_rows(ports.nodes(), ports.wpc() as int, ports.n_channels() as int, t, s),
        ),
{
    let n = ports.n_channels_exec();
    let wpc = ports.wpc_exec();
    let nodes = ports.nodes_slice();
    let branches = ports.branches_slice();
    assert(ports.ports() * ports.wpc() * ports.n_channels() == 4 * wpc * n) by (nonlinear_arith)
        requires ports.ports() == 4, wpc == ports.wpc(), n == ports.n_channels();
    let ghost rows = coupler_rows(nodes@, wpc as int, n as int, t, s);
    let ghost start = mat@;
    let ghost bpc = coupler_bpc(wpc as int);
    assert(rows.take(0) =~= Seq::<Row<T>>::empty());
    proof { lemma_rows_stamps_empty(branches@, rows.take(0)); }
    assert(start + Seq::<Stamp<T>>::empty() =~= start);
    let mut k: usize = 0;
    while k < n
        invariant
            k <= n,
            2 <= wpc,
            nodes@.len() >= 4 * wpc * n,
            branches@.len() == bpc * n,
            bpc == coupler_bpc(wpc as int),
            rows == coupler_rows(nodes@, wpc as int, n as int, t, s),
            rows.len() == bpc * n,
            mat@ == start + rows_stamps(branches@, rows.take(bpc * k)),
        decreases n - k,
    {
        let per: usize = if wpc == 5 { 10 } else { 6 };
        let mut r: usize = 0;
        while r < per
            invariant
                k < n,
                r <= per,
                per == bpc,
                2 <= wpc,
                nodes@.len() >= 4 * wpc * n,
                branches@.len() == bpc * n,
                bpc == coupler_bpc(wpc as int),
                rows == coupler_rows(nodes@, wpc as int, n as int, t, s),
                mat@ == start + rows_stamps(branches@, rows.take(bpc * k + r)),
            decreases per - r,
        {
            stamp_coupler_row(mat, nodes, branches, n, wpc, t, s, k, r, Ghost(start));
            r = r + 1;
        }
        assert(bpc * k + bpc == bpc * (k + 1)) by (nonlinear_arith);
        k = k + 1;
    }
    assert(rows.take(bpc * n) =~= rows);
}


/// Each of the coupler's `bpc·n` branch rows carries exactly one equation.
pub proof fn lemma_coupler_slots<T>(nodes: Seq<NodeId>, wpc: int, n: nat, t: T, s: T)
    ensures
        coupler_rows(nodes, wpc, n as int, t, s).len() == coupler_bpc(wpc) * n,
        branch_slots_exact(coupler_rows(nodes, wpc, n as int, t, s)),
{
    let rows = coupler_rows(nodes, wpc, n as int, t, s);
    let per = coupler_bpc(wpc);
    assert forall|i: int| 0 <= i < rows.len() implies #[trigger] rows[i].0 == per * (i / per) + (|r: int| r)(i % per) by {
        assert(0 <= i % per < per) by (nonlinear_arith) requires per > 0, 0 <= i;
    }
    lemma_block_slots(rows, per, n as int, |r: int| r);
}


proof fn lemma_coupler_row_0<T>(nodes: Seq<NodeId>, branches: Seq<Option<usize>>, wpc: int, n: int, t: T, s: T, k: int)
    requires
        wpc == 3 || wpc == 5,
        0 <= k < n,
        nodes.len() >= 4 * wpc * n,
        4 * wpc * n <= usize::MAX,
        branches.len() == coupler_bpc(wpc) * n,
    ensures
        row_couples(rows_stamps(branches, coupler_rows(nodes, wpc, n, t, s)), branches[coupler_bpc(wpc) * k + 0], nodes[wpc * n * 2 + wpc * k + 0], nodes[wpc * n * 0 + wpc * k + 0], Coef::Neg(t)),
        row_couples(rows_stamps(branches, coupler_rows(nodes, wpc, n, t, s)), branches[coupler_bpc(wpc) * k + 0], nodes[wpc * n * 2 + wpc * k + 0], nodes[wpc * n * 1 + wpc * k + 1], Coef::Neg(s)),
{
    let rows = coupler_rows(nodes, wpc, n, t, s);
    let f = |k: int, r: int| coupler_row(nodes, wpc, n, t, s, k, r);
    assert(rows == blocked(coupler_bpc(wpc) as nat, n as nat, f));
    assert(wpc * k + wpc <= wpc * n && 0 <= wpc * k) by (nonlinear_arith) requires 0 <= k < n, 2 <= wpc;
    assert(wpc * n * 1 == wpc * n && wpc * n * 0 == 0 && wpc * n * 2 == wpc * n + wpc * n
        && wpc * n * 3 == wpc * n + wpc * n + wpc * n && 4 * wpc * n == 4 * (wpc * n)) by (nonlinear_arith);
    lemma_blocked(coupler_bpc(wpc) as nat, n as nat, f, k, 0);
    lemma_rows_couple(branches, rows, coupler_bpc(wpc) * k + 0, 0);
    lemma_rows_couple(branches, rows, coupler_bpc(wpc) * k + 0, 1);
}

proof fn lemma_coupler_row_1<T>(nodes: Seq<NodeId>, branches: Seq<Option<usize>>, wpc: int, n: int, t: T, s: T, k: int)
    requires
        wpc == 3 || wpc == 5,
        0 <= k < n,
        nodes.len() >= 4 * wpc * n,
        4 * wpc * n <= usize::MAX,
        branches.len() == coupler_bpc(wpc) * n,
    ensures
        row_couples(rows_stamps(branches, coupler_rows(nodes, wpc, n, t, s)), branches[coupler_bpc(wpc) * k + 1], nodes[wpc * n * 2 + wpc * k + 1], nodes[wpc * n * 0 + wpc * k + 1], Coef::Neg(t)),
        row_couples(rows_stamps(branches, coupler_rows(nodes, wpc, n, t, s)), branches[coupler_bpc(wpc) * k + 1], nodes[wpc * n * 2 + wpc * k + 1], nodes[wpc * n * 1 + wpc * k + 0], Coef::Pos(s)),
{
    let rows = coupler_rows(nodes, wpc, n, t, s);
    let f = |k: int, r: int| coupler_row(nodes, wpc, n, t, s, k, r);
    assert(rows == blocked(coupler_bpc(wpc) as nat, n as nat, f));
    assert(wpc * k + wpc <= wpc * n && 0 <= wpc * k) by (nonlinear_arith) requires 0 <= k < n, 2 <= wpc;
    assert(wpc * n * 1 == wpc * n && wpc * n * 0 == 0 && wpc * n * 2 == wpc * n + wpc * n
        && wpc * n * 3 == wpc * n + wpc * n + wpc * n && 4 * wpc * n == 4 * (wpc * n)) by (nonlinear_arith);
    lemma_blocked(coupler_bpc(wpc) as nat, n as nat, f, k, 1);
    lemma_rows_couple(branches, rows, coupler_bpc(wpc) * k + 1, 0);
    lemma_rows_couple(branches, rows, coupler_bpc(wpc) * k + 1, 1);
}

proof fn lemma_coupler_row_2<T>(nodes: Seq<NodeId>, branches: Seq<Option<usize>>, wpc: int, n: int, t: T, s: T, k: int)
    requires
        wpc == 3 || wpc == 5,
        0 <= k < n,
        nodes.len() >= 4 * wpc * n,
        4 * wpc * n <= usize::MAX,
        branches.len() == coupler_bpc(wpc) * n,
    ensures
        row_couples(rows_stamps(branches, coupler_rows(nodes, wpc, n, t, s)), branches[coupler_bpc(wpc) * k + 2], nodes[wpc * n * 3 + wpc * k + 0], nodes[wpc * n * 1 + wpc * k + 0], Coef::Neg(t)),
        row_couples(rows_stamps(branches, coupler_rows(nodes, wpc, n, t, s)), branches[coupler_bpc(wpc) * k + 2], nodes[wpc * n * 3 + wpc * k + 0], nodes[wpc * n * 0 + wpc * k + 1], Coef::Neg(s)),
{
    let rows = coupler_rows(nodes, wpc, n, t, s);
    let f = |k: int, r: int| coupler_row(nodes, wpc, n, t, s, k, r);
    assert(rows == blocked(coupler_bpc(wpc) as nat, n as nat, f));
    assert(wpc * k + wpc <= wpc * n && 0 <= wpc * k) by (nonlinear_arith) requires 0 <= k < n, 2 <= wpc;
    assert(wpc * n * 1 == wpc * n && wpc * n * 0 == 0 && wpc * n * 2 == wpc * n + wpc * n
        && wpc * n * 3 == wpc * n + wpc * n + wpc * n && 4 * wpc * n == 4 * (wpc * n)) by (nonlinear_arith);
    lemma_blocked(coupler_bpc(wpc) as nat, n as nat, f, k, 2);
    lemma_rows_couple(branches, rows, coupler_bpc(wpc) * k + 2, 0);
    lemma_rows_couple(branches, rows, coupler_bpc(wpc) * k + 2, 1);
}

proof fn lemma_coupler_row_3<T>(nodes: Seq<NodeId>, branches: Seq<Option<usize>>, wpc: int, n: int, t: T, s: T, k: int)
    requires
        wpc == 3 || wpc == 5,
        0 <= k < n,
        nodes.len() >= 4 * wpc * n,
        4 * wpc * n <= usize::MAX,
        branches.len() == coupler_bpc(wpc) * n,
    ensures
        row_couples(rows_stamps(branches, coupler_rows(nodes, wpc, n, t, s)), branches[coupler_bpc(wpc) * k + 3], nodes[wpc * n * 3 + wpc * k + 1], nodes[wpc * n * 1 + wpc * k + 1], Coef::Neg(t)),
        row_couples(rows_stamps(branches, coupler_rows(nodes, wpc, n, t, s)), branches[coupler_bpc(wpc) * k + 3], nodes[wpc * n * 3 + wpc * k + 1], nodes[wpc * n * 0 + wpc * k + 0], Coef::Pos(s)),
{
    let rows = coupler_rows(nodes, wpc, n, t, s);
    let f = |k: int, r: int| coupler_row(nodes, wpc, n, t, s, k, r);
    assert(rows == blocked(coupler_bpc(wpc) as nat, n as nat, f));
    assert(wpc * k + wpc <= wpc * n && 0 <= wpc * k) by (nonlinear_arith) requires 0 <= k < n, 2 <= wpc;
    assert(wpc * n * 1 == wpc * n && wpc * n * 0 == 0 && wpc * n * 2 == wpc * n + wpc * n
        && wpc * n * 3 == wpc * n + wpc * n + wpc * n && 4 * wpc * n == 4 * (wpc * n)) by (nonlinear_arith);
    lemma_blocked(coupler_bpc(wpc) as nat, n as nat, f, k, 3);
    lemma_rows_couple(branches, rows, coupler_bpc(wpc) * k + 3, 0);
    lemma_rows_couple(branches, rows, coupler_bpc(wpc) * k + 3, 1);
}

proof fn lemma_coupler_row_4<T>(nodes: Seq<NodeId>, branches: Seq<Option<usize>>, wpc: int, n: int, t: T, s: T, k: int)
    requires
        wpc == 3 || wpc == 5,
        0 <= k < n,
        nodes.len() >= 4 * wpc * n,
        4 * wpc * n <= usize::MAX,
        branches.len() == coupler_bpc(wpc) * n,
    ensures
        row_couples(rows_stamps(branches, coupler_rows(nodes, wpc, n, t, s)), branches[coupler_bpc(wpc) * k + 4], nodes[wpc * n * 2 + wpc * k + wpc - 1], nodes[wpc * n * 0 + wpc * k + wpc - 1], Coef::NegOne),
{
    let rows = coupler_rows(nodes, wpc, n, t, s);
    let f = |k: int, r: int| coupler_row(nodes, wpc, n, t, s, k, r);
    assert(rows == blocked(coupler_bpc(wpc) as nat, n as nat, f));
    assert(wpc * k + wpc <= wpc * n && 0 <= wpc * k) by (nonlinear_arith) requires 0 <= k < n, 2 <= wpc;
    assert(wpc * n * 1 == wpc * n && wpc * n * 0 == 0 && wpc * n * 2 == wpc * n + wpc * n
        && wpc * n * 3 == wpc * n + wpc * n + wpc * n && 4 * wpc * n == 4 * (wpc * n)) by (nonlinear_arith);
    lemma_blocked(coupler_bpc(wpc) as nat, n as nat, f, k, 4);
    lemma_rows_couple(branches, rows, coupler_bpc(wpc) * k + 4, 0);
}

proof fn lemma_coupler_row_5<T>(nodes: Seq<NodeId>, branches: Seq<Option<usize>>, wpc: int, n: int, t: T, s: T, k: int)
    requires
        wpc == 3 || wpc == 5,
        0 <= k < n,
        nodes.len() >= 4 * wpc * n,
        4 * wpc * n <= usize::MAX,
        branches.len() == coupler_bpc(wpc) * n,
    ensures
        row_couples(rows_stamps(branches, coupler_rows(nodes, wpc, n, t, s)), branches[coupler_bpc(wpc) * k + 5], nodes[wpc * n * 3 + wpc * k + wpc - 1], nodes[wpc * n * 0 + wpc * k + wpc - 1], Coef::NegOne),
{
    let rows = coupler_rows(nodes, wpc, n, t, s);
    let f = |k: int, r: int| coupler_row(nodes, wpc, n, t, s, k, r);
    assert(rows == blocked(coupler_bpc(wpc) as nat, n as nat, f));
    assert(wpc * k + wpc <= wpc * n && 0 <= wpc * k) by (nonlinear_arith) requires 0 <= k < n, 2 <= wpc;
    assert(wpc * n * 1 == wpc * n && wpc * n * 0 == 0 && wpc * n * 2 == wpc * n + wpc * n
        && wpc * n * 3 == wpc * n + wpc * n + wpc * n && 4 * wpc * n == 4 * (wpc * n)) by (nonlinear_arith);
    lemma_blocked(coupler_bpc(wpc) as nat, n as nat, f, k, 5);
    lemma_rows_couple(branches, rows, coupler_bpc(wpc) * k + 5, 0);
}

proof fn lemma_coupler_row_6<T>(nodes: Seq<NodeId>, branches: Seq<Option<usize>>, wpc: int, n: int, t: T, s: T, k: int)
    requires
        wpc == 3 || wpc == 5,
        0 <= k < n,
        nodes.len() >= 4 * wpc * n,
        4 * wpc * n <= usize::MAX,
        branches.len() == coupler_bpc(wpc) * n,
        wpc == 5,
    ensures
        row_couples(rows_stamps(branches, coupler_rows(nodes, wpc, n, t, s)), branches[coupler_bpc(wpc) * k + 6], nodes[wpc * n * 0 + wpc * k + 2], nodes[wpc * n * 2 + wpc * k + 2], Coef::Neg(t)),
        row_couples(rows_stamps(branches, coupler_rows(nodes, wpc, n, t, s)), branches[coupler_bpc(wpc) * k + 6], nodes[wpc * n * 0 + wpc * k + 2], nodes[wpc * n * 3 + wpc * k + 3], Coef::Neg(s)),
{
    let rows = coupler_rows(nodes, wpc, n, t, s);
    let f = |k: int, r: int| coupler_row(nodes, wpc, n, t, s, k, r);
    assert(rows == blocked(coupler_bpc(wpc) as nat, n as nat, f));
    assert(wpc * k + wpc <= wpc * n && 0 <= wpc * k) by (nonlinear_arith) requires 0 <= k < n, 2 <= wpc;
    assert(wpc * n * 1 == wpc * n && wpc * n * 0 == 0 && wpc * n * 2 == wpc * n + wpc * n
        && wpc * n * 3 == wpc * n + wpc * n + wpc * n && 4 * wpc * n == 4 * (wpc * n)) by (nonlinear_arith);
    lemma_blocked(coupler_bpc(wpc) as nat, n as nat, f, k, 6);
    lemma_rows_couple(branches, rows, coupler_bpc(wpc) * k + 6, 0);
    lemma_rows_couple(branches, rows, coupler_bpc(wpc) * k + 6, 1);
}

proof fn lemma_coupler_row_7<T>(nodes: Seq<NodeId>, branches: Seq<Option<usize>>, wpc: int, n: int, t: T, s: T, k: int)
    requires
        wpc == 3 || wpc == 5,
        0 <= k < n,
        nodes.len() >= 4 * wpc * n,
        4 * wpc * n <= usize::MAX,
        branches.len() == coupler_bpc(wpc) * n,
        wpc == 5,
    ensures
        row_couples(rows_stamps(branches, coupler_rows(nodes, wpc, n, t, s)), branches[coupler_bpc(wpc) * k + 7], nodes[wpc * n * 0 + wpc * k + 3], nodes[wpc * n * 2 + wpc * k + 3], Coef::Neg(t)),
        row_couples(rows_stamps(branches, coupler_rows(nodes, wpc, n, t, s)), branches[coupler_bpc(wpc) * k + 7], nodes[wpc * n * 0 + wpc * k + 3], nodes[wpc * n * 3 + wpc * k + 2], Coef::Pos(s)),
{
    let rows = coupler_rows(nodes, wpc, n, t, s);
    let f = |k: int, r: int| coupler_row(nodes, wpc, n, t, s, k, r);
    assert(rows == blocked(coupler_bpc(wpc) as nat, n as nat, f));
    assert(wpc * k + wpc <= wpc * n && 0 <= wpc * k) by (nonlinear_arith) requires 0 <= k < n, 2 <= wpc;
    assert(wpc * n * 1 == wpc * n && wpc * n * 0 == 0 && wpc * n * 2 == wpc * n + wpc * n
        && wpc * n * 3 == wpc * n + wpc * n + wpc * n && 4 * wpc * n == 4 * (wpc * n)) by (nonlinear_arith);
    lemma_blocked(coupler_bpc(wpc) as nat, n as nat, f, k, 7);
    lemma_rows_couple(branches, rows, coupler_bpc(wpc) * k + 7, 0);
    lemma_rows_couple(branches, rows, coupler_bpc(wpc) * k + 7, 1);
}

proof fn lemma_coupler_row_8<T>(nodes: Seq<NodeId>, branches: Seq<Option<usize>>, wpc: int, n: int, t: T, s: T, k: int)
    requires
        wpc == 3 || wpc == 5,
        0 <= k < n,
        nodes.len() >= 4 * wpc * n,
        4 * wpc * n <= usize::MAX,
        branches.len() == coupler_bpc(wpc) * n,
        wpc == 5,
    ensures
        row_couples(rows_stamps(branches, coupler_rows(nodes, wpc, n, t, s)), branches[coupler_bpc(wpc) * k + 8], nodes[wpc * n * 1 + wpc * k + 2], nodes[wpc * n * 3 + wpc * k + 2], Coef::Neg(t)),
        row_couples(rows_stamps(branches, coupler_rows(nodes, wpc, n, t, s)), branches[coupler_bpc(wpc) * k + 8], nodes[wpc * n * 1 + wpc * k + 2], nodes[wpc * n * 2 + wpc * k + 3], Coef::Neg(s)),
{
    let rows = coupler_rows(nodes, wpc, n, t, s);
    let f = |k: int, r: int| coupler_row(nodes, wpc, n, t, s, k, r);
    assert(rows == blocked(coupler_bpc(wpc) as nat, n as nat, f));
    assert(wpc * k + wpc <= wpc * n && 0 <= wpc * k) by (nonlinear_arith) requires 0 <= k < n, 2 <= wpc;
    assert(wpc * n * 1 == wpc * n && wpc * n * 0 == 0 && wpc * n * 2 == wpc * n + wpc * n
        && wpc * n * 3 == wpc * n + wpc * n + wpc * n && 4 * wpc * n == 4 * (wpc * n)) by (nonlinear_arith);
    lemma_blocked(coupler_bpc(wpc) as nat, n as nat, f, k, 8);
    lemma_rows_couple(branches, rows, coupler_bpc(wpc) * k + 8, 0);
    lemma_rows_couple(branches, rows, coupler_bpc(wpc) * k + 8, 1);
}

proof fn lemma_coupler_row_9<T>(nodes: Seq<NodeId>, branches: Seq<Option<usize>>, wpc: int, n: int, t: T, s: T, k: int)
    requires
        wpc == 3 || wpc == 5,
        0 <= k < n,
        nodes.len() >= 4 * wpc * n,
        4 * wpc * n <= usize::MAX,
        branches.len() == coupler_bpc(wpc) * n,
        wpc == 5,
    ensures
        row_couples(rows_stamps(branches, coupler_rows(nodes, wpc, n, t, s)), branches[coupler_bpc(wpc) * k + 9], nodes[wpc * n * 1 + wpc * k + 3], nodes[wpc * n * 3 + wpc * k + 3], Coef::Neg(t)),
        row_couples(rows_stamps(branches, coupler_rows(nodes, wpc, n, t, s)), branches[coupler_bpc(wpc) * k + 9], nodes[wpc * n * 1 + wpc * k + 3], nodes[wpc * n * 2 + wpc * k + 2], Coef::Pos(s)),
{
    let rows = coupler_rows(nodes, wpc, n, t, s);
    let f = |k: int, r: int| coupler_row(nodes, wpc, n, t, s, k, r);
    assert(rows == blocked(coupler_bpc(wpc) as nat, n as nat, f));
    assert(wpc * k + wpc <= wpc * n && 0 <= wpc * k) by (nonlinear_arith) requires 0 <= k < n, 2 <= wpc;
    assert(wpc * n * 1 == wpc * n && wpc * n * 0 == 0 && wpc * n * 2 == wpc * n + wpc * n
        && wpc * n * 3 == wpc * n + wpc * n + wpc * n && 4 * wpc * n == 4 * (wpc * n)) by (nonlinear_arith);
    lemma_blocked(coupler_bpc(wpc) as nat, n as nat, f, k, 9);
    lemma_rows_couple(branches, rows, coupler_bpc(wpc) * k + 9, 0);
    lemma_rows_couple(branches, rows, coupler_bpc(wpc) * k + 9, 1);
}

/// The coupler's paths, channel by channel, port `p`'s wire `w` of channel
/// `k` being terminal `wpc·n·p + wpc·k + w` (ports `a`, `b`, `c`, `d` =
/// 0 .. 3) and channel `k` owning the branch slots from `bpc·k`. Forward,
/// `c` is fed from `a` through (`t`) and from `b` across (`s`), `d` from `b`
/// through and `a` across, and both carry `a`'s λ. Under bidirectional
/// propagation the same reciprocal matrix runs backward: slots 6 and 7 feed
/// `a`'s backward field from `c` through and `d` across, slots 8 and 9 feed
/// `b`'s from `d` through and `c` across.
pub proof fn lemma_coupler_paths<T>(nodes: Seq<NodeId>, branches: Seq<Option<usize>>, wpc: int, n: int, t: T, s: T, k: int)
    requires
        wpc == 3 || wpc == 5,
        0 <= k < n,
        nodes.len() >= 4 * wpc * n,
        4 * wpc * n <= usize::MAX,
        branches.len() == coupler_bpc(wpc) * n,
    ensures
        row_couples(rows_stamps(branches, coupler_rows(nodes, wpc, n, t, s)), branches[coupler_bpc(wpc) * k + 0], nodes[wpc * n * 2 + wpc * k + 0], nodes[wpc * n * 0 + wpc * k + 0], Coef::Neg(t)),
        row_couples(rows_stamps(branches, coupler_rows(nodes, wpc, n, t, s)), branches[coupler_bpc(wpc) * k + 0], nodes[wpc * n * 2 + wpc * k + 0], nodes[wpc * n * 1 + wpc * k + 1], Coef::Neg(s)),
        row_couples(rows_stamps(branches, coupler_rows(nodes, wpc, n, t, s)), branches[coupler_bpc(wpc) * k + 1], nodes[wpc * n * 2 + wpc * k + 1], nodes[wpc * n * 0 + wpc * k + 1], Coef::Neg(t)),
        row_couples(rows_stamps(branches, coupler_rows(nodes, wpc, n, t, s)), branches[coupler_bpc(wpc) * k + 1], nodes[wpc * n * 2 + wpc * k + 1], nodes[wpc * n * 1 + wpc * k + 0], Coef::Pos(s)),
        row_couples(rows_stamps(branches, coupler_rows(nodes, wpc, n, t, s)), branches[coupler_bpc(wpc) * k + 2], nodes[wpc * n * 3 + wpc * k + 0], nodes[wpc * n * 1 + wpc * k + 0], Coef::Neg(t)),
        row_couples(rows_stamps(branches, coupler_rows(nodes, wpc, n, t, s)), branches[coupler_bpc(wpc) * k + 2], nodes[wpc * n * 3 + wpc * k + 0], nodes[wpc * n * 0 + wpc * k + 1], Coef::Neg(s)),
        row_couples(rows_stamps(branches, coupler_rows(nodes, wpc, n, t, s)), branches[coupler_bpc(wpc) * k + 3], nodes[wpc * n * 3 + wpc * k + 1], nodes[wpc * n * 1 + wpc * k + 1], Coef::Neg(t)),
        row_couples(rows_stamps(branches, coupler_rows(nodes, wpc, n, t, s)), branches[coupler_bpc(wpc) * k + 3], nodes[wpc * n * 3 + wpc * k + 1], nodes[wpc * n * 0 + wpc * k + 0], Coef::Pos(s)),
        row_couples(rows_stamps(branches, coupler_rows(nodes, wpc, n, t, s)), branches[coupler_bpc(wpc) * k + 4], nodes[wpc * n * 2 + wpc * k + wpc - 1], nodes[wpc * n * 0 + wpc * k + wpc - 1], Coef::NegOne),
        row_couples(rows_stamps(branches, coupler_rows(nodes, wpc, n, t, s)), branches[coupler_bpc(wpc) * k + 5], nodes[wpc * n * 3 + wpc * k + wpc - 1], nodes[wpc * n * 0 + wpc * k + wpc - 1], Coef::NegOne),
        wpc == 5 ==> row_couples(rows_stamps(branches, coupler_rows(nodes, wpc, n, t, s)), branches[coupler_bpc(wpc) * k + 6], nodes[wpc * n * 0 + wpc * k + 2], nodes[wpc * n * 2 + wpc * k + 2], Coef::Neg(t)),
        wpc == 5 ==> row_couples(rows_stamps(branches, coupler_rows(nodes, wpc, n, t, s)), branches[coupler_bpc(wpc) * k + 6], nodes[wpc * n * 0 + wpc * k + 2], nodes[wpc * n * 3 + wpc * k + 3], Coef::Neg(s)),
        wpc == 5 ==> row_couples(rows_stamps(branches, coupler_rows(nodes, wpc, n, t, s)), branches[coupler_bpc(wpc) * k + 7], nodes[wpc * n * 0 + wpc * k + 3], nodes[wpc * n * 2 + wpc * k + 3], Coef::Neg(t)),
        wpc == 5 ==> row_couples(rows_stamps(branches, coupler_rows(nodes, wpc, n, t, s)), branches[coupler_bpc(wpc) * k + 7], nodes[wpc * n * 0 + wpc * k + 3], nodes[wpc * n * 3 + wpc * k + 2], Coef::Pos(s)),
        wpc == 5 ==> row_couples(rows_stamps(branches, coupler_rows(nodes, wpc, n, t, s)), branches[coupler_bpc(wpc) * k + 8], nodes[wpc * n * 1 + wpc * k + 2], nodes[wpc * n * 3 + wpc * k + 2], Coef::Neg(t)),
        wpc == 5 ==> row_couples(rows_stamps(branches, coupler_rows(nodes, wpc, n, t, s)), branches[coupler_bpc(wpc) * k + 8], nodes[wpc * n * 1 + wpc * k + 2], nodes[wpc * n * 2 + wpc * k + 3], Coef::Neg(s)),
        wpc == 5 ==> row_couples(rows_stamps(branches, coupler_rows(nodes, wpc, n, t, s)), branches[coupler_bpc(wpc) * k + 9], nodes[wpc * n * 1 + wpc * k + 3], nodes[wpc * n * 3 + wpc * k + 3], Coef::Neg(t)),
        wpc == 5 ==> row_couples(rows_stamps(branches, coupler_rows(nodes, wpc, n, t, s)), branches[coupler_bpc(wpc) * k + 9], nodes[wpc * n * 1 + wpc * k + 3], nodes[wpc * n * 2 + wpc * k + 2], Coef::Pos(s)),
{
    lemma_coupler_row_0(nodes, branches, wpc, n, t, s, k);
    lemma_coupler_row_1(nodes, branches, wpc, n, t, s, k);
    lemma_coupler_row_2(nodes, branches, wpc, n, t, s, k);
    lemma_coupler_row_3(nodes, branches, wpc, n, t, s, k);
    lemma_coupler_row_4(nodes, branches, wpc, n, t, s, k);
    lemma_coupler_row_5(nodes, branches, wpc, n, t, s, k);
    if wpc == 5 {
        lemma_coupler_row_6(nodes, branches, wpc, n, t, s, k);
        lemma_coupler_row_7(nodes, branches, wpc, n, t, s, k);
        lemma_coupler_row_8(nodes, branches, wpc, n, t, s, k);
        lemma_coupler_row_9(nodes, branches, wpc, n, t, s, k);
    }
}

} // verus!
