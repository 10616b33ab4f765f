use vstd::prelude::*;
use crate::device::NodeId;

verus! {

/// A value added into one MNA matrix cell. `One`/`NegOne` are the exact unit
/// entries of branch-row equations; `Pos(v)`/`Neg(v)` add `+v`/`−v` for a
/// coefficient `v` computed by the device physics.
#[derive(Clone, Copy, PartialEq, Eq, Debug)]
pub enum Coef<T> {
    One,
    NegOne,
    Pos(T),
    Neg(T),
}

/// One addition `a[row][col] += coef` into the MNA matrix.
#[derive(Clone, Copy, PartialEq, Eq, Debug)]
pub struct Stamp<T> {
    pub row: usize,
    pub col: usize,
    pub coef: Coef<T>,
}

/// The coupling stamps of a branch row `j`: one entry `(j, in, k)` for every
/// non-ground input, in order.
pub open spec fn coupling_stamps<T>(j: usize, ins: Seq<(NodeId, Coef<T>)>) -> Seq<Stamp<T>>
    decreases ins.len(),
{
    if ins.len() == 0 {
        Seq::empty()
    } else {
        let last = ins.last();
        coupling_stamps(j, ins.drop_last()) + match last.0 {
            Some(i) => seq![Stamp { row: j, col: i, coef: last.1 }],
            None => Seq::empty(),
        }
    }
}

/// The stamps of the equation `V(out) + Σ k·V(in) = rhs` on branch row
/// `branches[branch_idx]`: nothing when `out` is ground or the row is unbound,
/// otherwise `+1` at `(j, out)`, the couplings on row `j`, and `+1` at
/// `(out, j)` (the branch current entering `out`).
pub open spec fn potential_eq_stamps<T>(
    branches: Seq<Option<usize>>,
    branch_idx: int,
    out: NodeId,
    ins: Seq<(NodeId, Coef<T>)>,
) -> Seq<Stamp<T>> {
    match (out, branches[branch_idx]) {
        (Some(o), Some(j)) => seq![Stamp { row: j, col: o, coef: Coef::One }]
            + coupling_stamps(j, ins)
            + seq![Stamp { row: o, col: j, coef: Coef::One }],
        _ => Seq::empty(),
    }
}

/// A potential equation as a device declares it: the branch slot it owns,
/// the node it drives, and its weighted inputs.
pub type Row<T> = (int, NodeId, Seq<(NodeId, Coef<T>)>);

/// The stamps of a whole list of potential equations, in order.
#[verifier::opaque]
pub open spec fn rows_stamps<T>(branches: Seq<Option<usize>>, rows: Seq<Row<T>>) -> Seq<Stamp<T>>
    decreases rows.len(),
{
    if rows.len() == 0 {
        Seq::empty()
    } else {
        let r = rows.last();
        rows_stamps(branches, rows.drop_last()) + potential_eq_stamps(branches, r.0, r.1, r.2)
    }
}

pub proof fn lemma_rows_stamps_empty<T>(branches: Seq<Option<usize>>, rows: Seq<Row<T>>)
    requires
        rows.len() == 0,
    ensures
        rows_stamps(branches, rows) == Seq::<Stamp<T>>::empty(),
{
    reveal(rows_stamps);
}

pub proof fn lemma_rows_stamps_push<T>(branches: Seq<Option<usize>>, rows: Seq<Row<T>>, r: Row<T>)
    ensures
        rows_stamps(branches, rows.push(r)) == rows_stamps(branches, rows)
            + potential_eq_stamps(branches, r.0, r.1, r.2),
{
    reveal(rows_stamps);
    assert(rows.push(r).drop_last() =~= rows);
}

/// A unit route `V(out) = V(in)`: the equation on branch slot `branch` that
/// copies the wire at terminal position `in_pos` onto the one at `out_pos`.
pub open spec fn unit_row<T>(nodes: Seq<NodeId>, branch: int, out_pos: int, in_pos: int) -> Row<T> {
    (branch, nodes[out_pos], seq![(nodes[in_pos], Coef::<T>::NegOne)])
}

pub proof fn lemma_rows_stamps_take<T>(branches: Seq<Option<usize>>, rows: Seq<Row<T>>, m: int)
    requires
        0 <= m < rows.len(),
    ensures
        rows_stamps(branches, rows.take(m + 1)) == rows_stamps(branches, rows.take(m))
            + potential_eq_stamps(branches, rows[m].0, rows[m].1, rows[m].2),
{
    reveal(rows_stamps);
    assert(rows.take(m + 1).drop_last() =~= rows.take(m));
}

/// Stamp the unit route `V(nodes[out_pos]) = V(nodes[in_pos])` on branch slot
/// `branch`.
pub fn stamp_unit_route<T: Copy>(
    mat: &mut Vec<Stamp<T>>,
    branches: &[Option<usize>],
    nodes: &[NodeId],
    branch: usize,
    out_pos: usize,
    in_pos: usize,
)
    requires
        branch < branches@.len(),
        out_pos < nodes@.len(),
        in_pos < nodes@.len(),
    ensures
        ({
            let r = unit_row::<T>(nodes@, branch as int, out_pos as int, in_pos as int);
            final(mat)@ == old(mat)@ + potential_eq_stamps(branches@, r.0, r.1, r.2)
        }),
{
    let ins = [(nodes[in_pos], Coef::NegOne)];
    proof {
        assert(ins@ =~= seq![(nodes@[in_pos as int], Coef::<T>::NegOne)]);
    }
    stamp_potential_eq(mat, branches, branch, nodes[out_pos], &ins);
}

/// Stamp the unit route that is row `m` of `rows`, extending the stamps of
/// `rows.take(m)` to those of `rows.take(m + 1)`.
pub(crate) fn stamp_unit_row<T: Copy>(
    mat: &mut Vec<Stamp<T>>,
    branches: &[Option<usize>],
    nodes: &[NodeId],
    Ghost(rows): Ghost<Seq<Row<T>>>,
    Ghost(start): Ghost<Seq<Stamp<T>>>,
    m: usize,
    out_pos: usize,
    in_pos: usize,
)
    requires
        m < rows.len(),
        m < branches@.len(),
        out_pos < nodes@.len(),
        in_pos < nodes@.len(),
        rows[m as int] == unit_row::<T>(nodes@, m as int, out_pos as int, in_pos as int),
        old(mat)@ == start + rows_stamps(branches@, rows.take(m as int)),
    ensures
        final(mat)@ == start + rows_stamps(branches@, rows.take(m + 1)),
{
    stamp_unit_route(mat, branches, nodes, m, out_pos, in_pos);
    proof {
        lemma_rows_stamps_take(branches@, rows, m as int);
    }
}

/// A linear potential equation over terminal positions: branch slot
/// `branch` drives the wire at `out_pos` from the weighted wires at the
/// positions in `ins`.
pub open spec fn lin_row<T>(nodes: Seq<NodeId>, branch: int, out_pos: int, ins: Seq<(usize, Coef<T>)>) -> Row<T> {
    (branch, nodes[out_pos], Seq::new(ins.len(), |t: int| (nodes[ins[t].0 as int], ins[t].1)))
}

/// `f(k, r)` for `r < per`, channel after channel: the row layout of a device
/// that stamps `per` equations for each of its `n` channels.
pub open spec fn blocked<T>(per: nat, n: nat, f: spec_fn(int, int) -> Row<T>) -> Seq<Row<T>> {
    Seq::new(per * n, |i: int| f(i / per as int, i % per as int))
}

pub proof fn lemma_blocked<T>(per: nat, n: nat, f: spec_fn(int, int) -> Row<T>, k: int, r: int)
    requires
        0 <= k < n,
        0 <= r < per,
    ensures
        per * k + r < per * n,
        blocked(per, n, f)[per * k + r] == f(k, r),
        per * k + per == per * (k + 1),
{
    assert((per * k + r) / (per as int) == k && (per * k + r) % (per as int) == r) by (nonlinear_arith)
        requires 0 <= r < per, 0 <= k;
    assert(per * k + r < per * n) by (nonlinear_arith)
        requires 0 <= r < per, 0 <= k < n;
    assert(per * k + per == per * (k + 1)) by (nonlinear_arith);
}

/// Stamp the linear equation that is row `m` of `rows`, extending the stamps
/// of `rows.take(m)` to those of `rows.take(m + 1)`.
pub(crate) fn stamp_lin_row<T: Copy>(
    mat: &mut Vec<Stamp<T>>,
    branches: &[Option<usize>],
    nodes: &[NodeId],
    Ghost(rows): Ghost<Seq<Row<T>>>,
    Ghost(start): Ghost<Seq<Stamp<T>>>,
    m: usize,
    branch: usize,
    out_pos: usize,
    ins: &[(usize, Coef<T>)],
)
    requires
        m < rows.len(),
        branch < branches@.len(),
        out_pos < nodes@.len(),
        forall|t: int| 0 <= t < ins@.len() ==> (#[trigger] ins@[t]).0 < nodes@.len(),
        rows[m as int] == lin_row::<T>(nodes@, branch as int, out_pos as int, ins@),
        old(mat)@ == start + rows_stamps(branches@, rows.take(m as int)),
    ensures
        final(mat)@ == start + rows_stamps(branches@, rows.take(m + 1)),
{
    let mut node_ins: Vec<(NodeId, Coef<T>)> = Vec::new();
    let mut t: usize = 0;
    while t < ins.len()
        invariant
            t <= ins@.len(),
            forall|q: int| 0 <= q < ins@.len() ==> (#[trigger] ins@[q]).0 < nodes@.len(),
            node_ins@ == Seq::new(t as nat, |q: int| (nodes@[ins@[q].0 as int], ins@[q].1)),
        decreases ins@.len() - t,
    {
        let (p, c) = ins[t];
        node_ins.push((nodes[p], c));
        t = t + 1;
        assert(node_ins@ =~= Seq::new(t as nat, |q: int| (nodes@[ins@[q].0 as int], ins@[q].1)));
    }
    stamp_potential_eq(mat, branches, branch, nodes[out_pos], node_ins.as_slice());
    proof {
        lemma_rows_stamps_take(branches@, rows, m as int);
    }
}

/// Every branch slot `0 .. rows.len()` carries exactly one of the equations:
/// the slots are in range and pairwise distinct (so, as many as there are
/// rows, they are each used once).
pub open spec fn branch_slots_exact<T>(rows: Seq<Row<T>>) -> bool {
    &&& forall|i: int| 0 <= i < rows.len() ==> 0 <= #[trigger] rows[i].0 < rows.len()
    &&& forall|i: int, j: int| 0 <= i < rows.len() && 0 <= j < rows.len() && i != j
        ==> #[trigger] rows[i].0 != #[trigger] rows[j].0
}

/// Slots laid out channel by channel, `per` to a channel, with the
/// in-channel order permuted by `sigma`, are each used once.
pub proof fn lemma_block_slots<T>(rows: Seq<Row<T>>, per: int, n: int, sigma: spec_fn(int) -> int)
    requires
        per > 0,
        n >= 0,
        rows.len() == per * n,
        forall|r: int| 0 <= r < per ==> 0 <= #[trigger] sigma(r) < per,
        forall|r1: int, r2: int| 0 <= r1 < per && 0 <= r2 < per && r1 != r2 ==> #[trigger] sigma(r1) != #[trigger] sigma(r2),
        forall|i: int| 0 <= i < rows.len() ==> #[trigger] rows[i].0 == per * (i / per) + sigma(i % per),
    ensures
        branch_slots_exact(rows),
{
    assert forall|i: int| 0 <= i < rows.len() implies 0 <= #[trigger] rows[i].0 < rows.len() by {
        let k = i / per;
        let r = i % per;
        assert(i == per * k + r && 0 <= r < per && 0 <= k < n) by (nonlinear_arith)
            requires 0 <= i < per * n, per > 0, k == i / per, r == i % per;
        let sr = sigma(r);
        assert(0 <= per * k + sr < per * n) by (nonlinear_arith)
            requires 0 <= k < n, 0 <= sr < per;
    }
    assert forall|i: int, j: int| 0 <= i < rows.len() && 0 <= j < rows.len() && i != j
        implies #[trigger] rows[i].0 != #[trigger] rows[j].0 by {
        let (ki, ri) = (i / per, i % per);
        let (kj, rj) = (j / per, j % per);
        assert(i == per * ki + ri && 0 <= ri < per) by (nonlinear_arith)
            requires 0 <= i, per > 0, ki == i / per, ri == i % per;
        assert(j == per * kj + rj && 0 <= rj < per) by (nonlinear_arith)
            requires 0 <= j, per > 0, kj == j / per, rj == j % per;
        let (si, sj) = (sigma(ri), sigma(rj));
        if ki == kj {
            assert(ri != rj);
        } else {
            assert(per * ki + si != per * kj + sj) by (nonlinear_arith)
                requires ki != kj, 0 <= si < per, 0 <= sj < per;
        }
    }
}

/// Stamp `V(out) = Σ k_i · V(in_i)` into one auxiliary branch row.
pub fn stamp_potential_eq<T: Copy>(
    mat: &mut Vec<Stamp<T>>,
    branches: &[Option<usize>],
    branch_idx: usize,
    out_node: NodeId,
    ins: &[(NodeId, Coef<T>)],
)
    requires
        branch_idx < branches@.len(),
    ensures
        final(mat)@ == old(mat)@ + potential_eq_stamps(branches@, branch_idx as int, out_node, ins@),
{
    let (out, j) = match (out_node, branches[branch_idx]) {
        (Some(out), Some(j)) => (out, j),
        _ => {
            assert(potential_eq_stamps(branches@, branch_idx as int, out_node, ins@) =~= Seq::<Stamp<T>>::empty());
            return;
        },
    };
    let ghost start = mat@;
    mat.push(Stamp { row: j, col: out, coef: Coef::One });
    let mut i: usize = 0;
    while i < ins.len()
        invariant
            i <= ins@.len(),
            mat@ == start + seq![Stamp { row: j, col: out, coef: Coef::<T>::One }]
                + coupling_stamps(j, ins@.subrange(0, i as int)),
        decreases ins@.len() - i,
    {
        let (in_node, k) = ins[i];
        proof {
            assert(ins@.subrange(0, i + 1).drop_last() =~= ins@.subrange(0, i as int));
        }
        if let Some(in_i) = in_node {
            mat.push(Stamp { row: j, col: in_i, coef: k });
        }
        i = i + 1;
    }
    assert(ins@.subrange(0, ins@.len() as int) =~= ins@);
    mat.push(Stamp { row: out, col: j, coef: Coef::One });
}

/// Stamp a linear resistor of conductance `g` between two MNA nodes: the
/// symmetric 2×2 pattern `+g` on the diagonal, `−g` off it, with ground
/// rows and columns left out.
pub open spec fn resistor_stamps<T>(a: NodeId, b: NodeId, g: T) -> Seq<Stamp<T>> {
    let sa: Seq<Stamp<T>> = match a {
        Some(i) => seq![Stamp { row: i, col: i, coef: Coef::Pos(g) }] + match b {
            Some(j) => seq![Stamp { row: i, col: j, coef: Coef::Neg(g) }],
            None => Seq::empty(),
        },
        None => Seq::empty(),
    };
    let sb: Seq<Stamp<T>> = match b {
        Some(j) => seq![Stamp { row: j, col: j, coef: Coef::Pos(g) }] + match a {
            Some(i) => seq![Stamp { row: j, col: i, coef: Coef::Neg(g) }],
            None => Seq::empty(),
        },
        None => Seq::empty(),
    };
    sa + sb
}

pub fn stamp_resistor<T: Copy>(mat: &mut Vec<Stamp<T>>, a: NodeId, b: NodeId, g: T)
    ensures
        final(mat)@ == old(mat)@ + resistor_stamps(a, b, g),
{
    if let Some(i) = a {
        mat.push(Stamp { row: i, col: i, coef: Coef::Pos(g) });
        if let Some(j) = b {
            mat.push(Stamp { row: i, col: j, coef: Coef::Neg(g) });
        }
    }
    if let Some(j) = b {
        mat.push(Stamp { row: j, col: j, coef: Coef::Pos(g) });
        if let Some(i) = a {
            mat.push(Stamp { row: j, col: i, coef: Coef::Neg(g) });
        }
    }
}

/// `a[row][col] += coef` when both indices are non-ground, nothing otherwise.
pub open spec fn opt_stamp<T>(row: NodeId, col: NodeId, coef: Coef<T>) -> Seq<Stamp<T>> {
    match (row, col) {
        (Some(r), Some(c)) => seq![Stamp { row: r, col: c, coef }],
        _ => Seq::empty(),
    }
}

/// Add `coef` at `(row, col)` unless either is ground.
pub fn push_opt<T: Copy>(mat: &mut Vec<Stamp<T>>, row: NodeId, col: NodeId, coef: Coef<T>)
    ensures
        final(mat)@ == old(mat)@ + opt_stamp(row, col, coef),
{
    if let (Some(r), Some(c)) = (row, col) {
        mat.push(Stamp { row: r, col: c, coef });
    } else {
        assert(opt_stamp(row, col, coef) =~= Seq::<Stamp<T>>::empty());
    }
}

/// `vals[i]` added at cell `cells[i]`, for `i < count`, in order; grounded
/// cells are skipped.
pub open spec fn cells_stamps<T>(cells: Seq<(NodeId, NodeId)>, vals: Seq<T>, count: nat) -> Seq<Stamp<T>>
    decreases count,
{
    if count == 0 {
        Seq::empty()
    } else {
        let i = count - 1;
        cells_stamps(cells, vals, i as nat) + opt_stamp(cells[i].0, cells[i].1, Coef::Pos(vals[i]))
    }
}

/// Add each value at its cell, pairing `cells` and `vals` up in order.
pub fn stamp_cells<T: Copy>(mat: &mut Vec<Stamp<T>>, cells: &[(NodeId, NodeId)], vals: &[T])
    requires
        vals@.len() == cells@.len(),
    ensures
        final(mat)@ == old(mat)@ + cells_stamps(cells@, vals@, cells@.len()),
{
    let ghost start = mat@;
    let mut i: usize = 0;
    while i < cells.len()
        invariant
            vals@.len() == cells@.len(),
            i <= cells@.len(),
            mat@ == start + cells_stamps(cells@, vals@, i as nat),
        decreases cells@.len() - i,
    {
        let (r, c) = cells[i];
        push_opt(mat, r, c, Coef::Pos(vals[i]));
        i = i + 1;
    }
}

/// A conductance `g` between `x` and `y`, written row by row: `+g` at
/// `(x,x)`, `−g` at `(x,y)` and `(y,x)`, `+g` at `(y,y)`, grounded cells
/// skipped.
pub open spec fn branch_g_stamps<T>(x: NodeId, y: NodeId, g: T) -> Seq<Stamp<T>> {
    opt_stamp(x, x, Coef::Pos(g)) + opt_stamp(x, y, Coef::Neg(g)) + opt_stamp(y, x, Coef::Neg(g))
        + opt_stamp(y, y, Coef::Pos(g))
}

pub fn stamp_branch_g<T: Copy>(mat: &mut Vec<Stamp<T>>, x: NodeId, y: NodeId, g: T)
    ensures
        final(mat)@ == old(mat)@ + branch_g_stamps(x, y, g),
{
    push_opt(mat, x, x, Coef::Pos(g));
    push_opt(mat, x, y, Coef::Neg(g));
    push_opt(mat, y, x, Coef::Neg(g));
    push_opt(mat, y, y, Coef::Pos(g));
}


// ── Where a stamp lands ─────────────────────────────────────────────────────

/// A stamp found in either part of a concatenation is found in the whole.
pub proof fn lemma_concat_has<T>(a: Seq<Stamp<T>>, b: Seq<Stamp<T>>, x: Stamp<T>)
    requires
        a.contains(x) || b.contains(x),
    ensures
        (a + b).contains(x),
{
    if a.contains(x) {
        let w = choose|w: int| 0 <= w < a.len() && a[w] == x;
        assert((a + b)[w] == x);
    } else {
        let w = choose|w: int| 0 <= w < b.len() && b[w] == x;
        assert((a + b)[a.len() + w] == x);
    }
}

/// Every input of a coupling list on a non-ground node puts its coefficient
/// at `(j, node)`.
pub proof fn lemma_coupling_has<T>(j: usize, ins: Seq<(NodeId, Coef<T>)>, q: int, c: usize)
    requires
        0 <= q < ins.len(),
        ins[q].0 == Some(c),
    ensures
        coupling_stamps(j, ins).contains(Stamp { row: j, col: c, coef: ins[q].1 }),
    decreases ins.len(),
{
    let x = Stamp { row: j, col: c, coef: ins[q].1 };
    let pre = coupling_stamps(j, ins.drop_last());
    let tail: Seq<Stamp<T>> = match ins.last().0 {
        Some(i) => seq![Stamp { row: j, col: i, coef: ins.last().1 }],
        None => Seq::empty(),
    };
    assert(coupling_stamps(j, ins) == pre + tail);
    if q == ins.len() - 1 {
        assert(tail[0] == x);
        assert(tail.contains(x));
    } else {
        lemma_coupling_has(j, ins.drop_last(), q, c);
    }
    lemma_concat_has(pre, tail, x);
}

/// The equation on a bound branch row `j` driving a non-ground node `o`
/// writes `+1` at `(j, o)` and `(o, j)`, and each non-ground input `c` with
/// coefficient `k` writes `k` at `(j, c)`.
pub proof fn lemma_eq_has<T>(branches: Seq<Option<usize>>, b: int, out: NodeId, ins: Seq<(NodeId, Coef<T>)>, j: usize, o: usize)
    requires
        0 <= b < branches.len(),
        branches[b] == Some(j),
        out == Some(o),
    ensures
        potential_eq_stamps(branches, b, out, ins).contains(Stamp { row: j, col: o, coef: Coef::One }),
        potential_eq_stamps(branches, b, out, ins).contains(Stamp { row: o, col: j, coef: Coef::One }),
        forall|q: int, c: usize| 0 <= q < ins.len() && ins[q].0 == Some(c) ==>
            #[trigger] potential_eq_stamps(branches, b, out, ins).contains(Stamp { row: j, col: c, coef: ins[q].1 }),
{
    let head = seq![Stamp { row: j, col: o, coef: Coef::<T>::One }];
    let mid = coupling_stamps(j, ins);
    let last = seq![Stamp { row: o, col: j, coef: Coef::<T>::One }];
    assert(potential_eq_stamps(branches, b, out, ins) == head + mid + last);
    assert(head[0] == Stamp { row: j, col: o, coef: Coef::<T>::One });
    lemma_concat_has(head, mid, Stamp { row: j, col: o, coef: Coef::One });
    lemma_concat_has(head + mid, last, Stamp { row: j, col: o, coef: Coef::One });
    assert(last[0] == Stamp { row: o, col: j, coef: Coef::<T>::One });
    lemma_concat_has(head + mid, last, Stamp { row: o, col: j, coef: Coef::One });
    assert forall|q: int, c: usize| 0 <= q < ins.len() && ins[q].0 == Some(c) implies
        #[trigger] potential_eq_stamps(branches, b, out, ins).contains(Stamp { row: j, col: c, coef: ins[q].1 }) by {
        lemma_coupling_has(j, ins, q, c);
        lemma_concat_has(head, mid, Stamp { row: j, col: c, coef: ins[q].1 });
        lemma_concat_has(head + mid, last, Stamp { row: j, col: c, coef: ins[q].1 });
    }
}

/// Whatever one equation of a list stamps, the list stamps.
pub proof fn lemma_rows_has<T>(branches: Seq<Option<usize>>, rows: Seq<Row<T>>, m: int, x: Stamp<T>)
    requires
        0 <= m < rows.len(),
        potential_eq_stamps(branches, rows[m].0, rows[m].1, rows[m].2).contains(x),
    ensures
        rows_stamps(branches, rows).contains(x),
    decreases rows.len(),
{
    reveal(rows_stamps);
    let pre = rows_stamps(branches, rows.drop_last());
    let r = rows.last();
    let tail = potential_eq_stamps(branches, r.0, r.1, r.2);
    assert(rows_stamps(branches, rows) == pre + tail);
    if m < rows.len() - 1 {
        assert(rows.drop_last()[m] == rows[m]);
        lemma_rows_has(branches, rows.drop_last(), m, x);
    }
    lemma_concat_has(pre, tail, x);
}

/// Whether the stamps `st` hold the equation on branch row `row` driving
/// `out` with coefficient `coef` on the input `inp`: `+1` at `(row, out)` and
/// `coef` at `(row, inp)`. Vacuous when the row is unbound or either node is
/// ground (those cells are not stamped).
pub open spec fn row_couples<T>(st: Seq<Stamp<T>>, row: Option<usize>, out: NodeId, inp: NodeId, coef: Coef<T>) -> bool {
    match (row, out, inp) {
        (Some(j), Some(o), Some(i)) => st.contains(Stamp { row: j, col: o, coef: Coef::One })
            && st.contains(Stamp { row: j, col: i, coef: coef }),
        _ => true,
    }
}

/// Row `m` of a list of equations, on branch slot `rows[m].0`, drives its
/// node from each of its inputs with that input's coefficient, in the stamps
/// of the whole list.
pub proof fn lemma_rows_couple<T>(branches: Seq<Option<usize>>, rows: Seq<Row<T>>, m: int, q: int)
    requires
        0 <= m < rows.len(),
        0 <= rows[m].0 < branches.len(),
        0 <= q < rows[m].2.len(),
    ensures
        row_couples(rows_stamps(branches, rows), branches[rows[m].0], rows[m].1, rows[m].2[q].0, rows[m].2[q].1),
{
    let r = rows[m];
    if let (Some(j), Some(o), Some(i)) = (branches[r.0], r.1, r.2[q].0) {
        lemma_eq_has(branches, r.0, r.1, r.2, j, o);
        assert(potential_eq_stamps(branches, r.0, r.1, r.2).contains(Stamp { row: j, col: i, coef: r.2[q].1 }));
        lemma_rows_has(branches, rows, m, Stamp { row: j, col: o, coef: Coef::One });
        lemma_rows_has(branches, rows, m, Stamp { row: j, col: i, coef: r.2[q].1 });
    }
}

/// Whether the stamps `st` add `coef` at `(row, col)`; vacuous when either
/// index is ground (such cells are not stamped).
pub open spec fn cell_has<T>(st: Seq<Stamp<T>>, row: NodeId, col: NodeId, coef: Coef<T>) -> bool {
    match (row, col) {
        (Some(r), Some(c)) => st.contains(Stamp { row: r, col: c, coef: coef }),
        _ => true,
    }
}

/// A single optional stamp is found where it lands.
pub proof fn lemma_opt_stamp_has<T>(row: NodeId, col: NodeId, coef: Coef<T>)
    ensures
        cell_has(opt_stamp(row, col, coef), row, col, coef),
{
    if let (Some(r), Some(c)) = (row, col) {
        assert(opt_stamp(row, col, coef)[0] == Stamp { row: r, col: c, coef: coef });
    }
}

/// A cell found in either part of a concatenation is found in the whole.
pub proof fn lemma_cell_concat<T>(a: Seq<Stamp<T>>, b: Seq<Stamp<T>>, row: NodeId, col: NodeId, coef: Coef<T>)
    requires
        cell_has(a, row, col, coef) || cell_has(b, row, col, coef),
    ensures
        cell_has(a + b, row, col, coef),
{
    if let (Some(r), Some(c)) = (row, col) {
        lemma_concat_has(a, b, Stamp { row: r, col: c, coef: coef });
    }
}

/// A conductance `g` across `a`–`b` puts `+g` on both diagonal cells and
/// `−g` on both off-diagonal ones (grounded cells left out).
pub proof fn lemma_resistor_has<T>(a: NodeId, b: NodeId, g: T)
    ensures
        cell_has(resistor_stamps(a, b, g), a, a, Coef::Pos(g)),
        cell_has(resistor_stamps(a, b, g), a, b, Coef::Neg(g)),
        cell_has(resistor_stamps(a, b, g), b, b, Coef::Pos(g)),
        cell_has(resistor_stamps(a, b, g), b, a, Coef::Neg(g)),
{
    let sa: Seq<Stamp<T>> = match a {
        Some(i) => seq![Stamp { row: i, col: i, coef: Coef::Pos(g) }] + match b {
            Some(j) => seq![Stamp { row: i, col: j, coef: Coef::Neg(g) }],
            None => Seq::empty(),
        },
        None => Seq::empty(),
    };
    let sb: Seq<Stamp<T>> = match b {
        Some(j) => seq![Stamp { row: j, col: j, coef: Coef::Pos(g) }] + match a {
            Some(i) => seq![Stamp { row: j, col: i, coef: Coef::Neg(g) }],
            None => Seq::empty(),
        },
        None => Seq::empty(),
    };
    assert(resistor_stamps(a, b, g) == sa + sb);
    if let Some(i) = a {
        assert(sa[0] == Stamp { row: i, col: i, coef: Coef::Pos(g) });
        lemma_concat_has(sa, sb, Stamp { row: i, col: i, coef: Coef::Pos(g) });
        if let Some(j) = b {
            assert(sa[1] == Stamp { row: i, col: j, coef: Coef::Neg(g) });
            lemma_concat_has(sa, sb, Stamp { row: i, col: j, coef: Coef::Neg(g) });
        }
    }
    if let Some(j) = b {
        assert(sb[0] == Stamp { row: j, col: j, coef: Coef::Pos(g) });
        lemma_concat_has(sa, sb, Stamp { row: j, col: j, coef: Coef::Pos(g) });
        if let Some(i) = a {
            assert(sb[1] == Stamp { row: j, col: i, coef: Coef::Neg(g) });
            lemma_concat_has(sa, sb, Stamp { row: j, col: i, coef: Coef::Neg(g) });
        }
    }
}

} // verus!
