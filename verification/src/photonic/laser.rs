//! Branch-row wiring of the laser sources: which bundle wires a laser
//! drives, how its branch rows are bound, and the unit stamps of its
//! emission equations. The optical field values are the caller's.

use vstd::prelude::*;
use crate::device::{NodeId, bound_from, copy_nodes, unbound_rows};
use crate::mna::{cell_has, lemma_cell_concat, lemma_concat_has, lemma_eq_has, Coef, Stamp, potential_eq_stamps, resistor_stamps, stamp_potential_eq, stamp_resistor};

verus! {

/// How many of a laser's `wpc` bundle wires it actually drives: the two
/// forward field components and the λ tag, never the backward pair.
///
/// A laser absorbs backward light; it does not assert that there is none.
/// Driving `re_bw = 0` would put a second driver on a wire the neighbouring
/// device already drives, and the block would go rank-deficient.
pub fn emitted_wires(wpc: usize) -> (r: usize)
    ensures
        r == if wpc == 5 { 3 } else { wpc },
{
    if wpc == 5 {
        3
    } else {
        wpc
    }
}

/// The binding `bind_emitted` leaves: every row unbound except `re` (row 0),
/// `im` (row 1) and λ (row `wpc − 1`), bound to `first`, `first + 1` and
/// `first + 2` in that order of assignment.
pub open spec fn emitted_binding(len: nat, wpc: int, first: int) -> Seq<Option<usize>> {
    Seq::new(len, |i: int| None::<usize>)
        .update(0, Some(first as usize))
        .update(1, Some((first + 1) as usize))
        .update(wpc - 1, Some((first + 2) as usize))
}

/// Bind branch rows for the wires `emitted_wires` counts: `re`, `im`, and λ
/// (the last wire), leaving the backward pair unbound.
pub fn bind_emitted(branches: &mut [Option<usize>], wpc: usize, first_idx: usize)
    requires
        old(branches)@.len() >= 2,
        1 <= wpc <= old(branches)@.len(),
        first_idx + 2 <= usize::MAX,
    ensures
        final(branches)@ == emitted_binding(old(branches)@.len(), wpc as int, first_idx as int),
{
    let len = branches.len();
    let mut i: usize = 0;
    while i < len
        invariant
            i <= len,
            len == branches@.len(),
            forall|j: int| 0 <= j < i ==> #[trigger] branches@[j] == None::<usize>,
        decreases len - i,
    {
        branches[i] = None;
        i = i + 1;
    }
    branches[0] = Some(first_idx);
    branches[1] = Some(first_idx + 1);
    branches[wpc - 1] = Some(first_idx + 2);
    assert(branches@ =~= emitted_binding(len as nat, wpc as int, first_idx as int));
}

/// The emission equations of a laser: `V(wire_i) = target_i` on branch row
/// `i`, for the first `count` bundle wires, in order.
pub open spec fn emission_stamps<T>(branches: Seq<Option<usize>>, nodes: Seq<NodeId>, count: nat) -> Seq<Stamp<T>>
    decreases count,
{
    if count == 0 {
        Seq::empty()
    } else {
        emission_stamps(branches, nodes, (count - 1) as nat)
            + potential_eq_stamps(branches, count - 1, nodes[count - 1], Seq::<(NodeId, Coef<T>)>::empty())
    }
}

/// The drive-coupling stamps of a voltage-driven laser: on the `re` and `im`
/// rows, `−g_i` at the `p` column and `+g_i` at the `n` column.
pub open spec fn drive_stamps<T>(branches: Seq<Option<usize>>, p: NodeId, n: NodeId, g: Seq<T>) -> Seq<Stamp<T>> {
    drive_row_stamps(branches[0], p, n, g[0]) + drive_row_stamps(branches[1], p, n, g[1])
}

pub open spec fn drive_row_stamps<T>(row: Option<usize>, p: NodeId, n: NodeId, g: T) -> Seq<Stamp<T>> {
    match row {
        Some(j) => (match p {
            Some(pp) => seq![Stamp { row: j, col: pp, coef: Coef::Neg(g) }],
            None => Seq::empty(),
        }) + (match n {
            Some(nn) => seq![Stamp { row: j, col: nn, coef: Coef::Pos(g) }],
            None => Seq::empty(),
        }),
        None => Seq::empty(),
    }
}

/// Terminal and branch-row wiring of a laser source: one optical bundle of
/// `wpc` wires, followed by `electrical` drive terminals (0 for a CW laser,
/// 2 — `p`, `n` — for a voltage-driven one).
pub struct EmitterPorts {
    wpc: usize,
    electrical: usize,
    /// Smallest terminal count that would have worked, recorded when
    /// `setup_instance` refuses.
    min_terminals: Option<usize>,
    nodes: Vec<NodeId>,
    branches: Vec<Option<usize>>,
}

impl EmitterPorts {
    pub closed spec fn wpc(&self) -> nat {
        self.wpc as nat
    }

    pub closed spec fn electrical(&self) -> nat {
        self.electrical as nat
    }

    pub closed spec fn min_terminals(&self) -> Option<usize> {
        self.min_terminals
    }

    pub closed spec fn nodes(&self) -> Seq<NodeId> {
        self.nodes@
    }

    pub closed spec fn branches(&self) -> Seq<Option<usize>> {
        self.branches@
    }

    /// Either unconfigured, or holding `wpc + electrical` terminals and one
    /// branch slot per bundle wire.
    pub open spec fn wf(&self) -> bool {
        ||| self.nodes().len() == 0 && self.branches().len() == 0
        ||| self.nodes().len() == self.wpc() + self.electrical() && self.branches().len() == self.wpc()
    }

    /// Unconfigured wiring for a source with `electrical` drive terminals.
    pub fn new(electrical: usize) -> (s: Self)
        ensures
            s.wf(),
            s.wpc() == 3,
            s.electrical() == electrical,
            s.min_terminals() == None::<usize>,
            s.nodes() == Seq::<NodeId>::empty(),
            s.branches() == Seq::<Option<usize>>::empty(),
    {
        Self { wpc: 3, electrical, min_terminals: None, nodes: Vec::new(), branches: Vec::new() }
    }

    /// The terminal count: the smallest usable one after a refused setup,
    /// the configured one otherwise.
    pub fn num_terminals(&self) -> (r: usize)
        ensures
            r == match self.min_terminals() {
                Some(m) => m as int,
                None => self.nodes().len() as int,
            },
    {
        if let Some(min) = self.min_terminals {
            return min;
        }
        self.nodes.len()
    }

    /// Record the simulation's wires-per-channel. Only an unconfigured
    /// instance may change width.
    pub fn setup_model(&mut self, wires_per_channel: usize)
        requires
            old(self).wf(),
            old(self).nodes().len() == 0,
        ensures
            final(self).wf(),
            final(self).wpc() == wires_per_channel,
            final(self).electrical() == old(self).electrical(),
            final(self).min_terminals() == old(self).min_terminals(),
            final(self).nodes() == old(self).nodes(),
            final(self).branches() == old(self).branches(),
    {
        self.wpc = wires_per_channel;
    }

    /// Configure from the instance terminals: exactly `wpc + electrical` of
    /// them, else the instance is declined and keeps its previous wiring,
    /// reporting `wpc + electrical` as the count that would have worked.
    pub fn setup_instance(&mut self, terminals: &[NodeId], wires_per_channel: usize)
        requires
            old(self).wf(),
            wires_per_channel + old(self).electrical() <= usize::MAX,
        ensures
            final(self).wpc() == wires_per_channel,
            final(self).electrical() == old(self).electrical(),
            ({
                let want = wires_per_channel + old(self).electrical();
                if terminals@.len() != want {
                    &&& final(self).min_terminals() == Some(want as usize)
                    &&& final(self).nodes() == old(self).nodes()
                    &&& final(self).branches() == old(self).branches()
                } else {
                    &&& final(self).wf()
                    &&& final(self).min_terminals() == None::<usize>
                    &&& final(self).nodes() == terminals@
                    &&& final(self).branches() == Seq::new(wires_per_channel as nat, |i: int| None::<usize>)
                }
            }),
    {
        let wpc = wires_per_channel;
        self.wpc = wpc;
        let want = wpc + self.electrical;
        if terminals.len() != want {
            self.min_terminals = Some(want);
            return;
        }
        self.min_terminals = None;
        self.nodes = copy_nodes(terminals);
        self.branches = unbound_rows(wpc);
        assert(self.branches@ =~= Seq::new(wires_per_channel as nat, |i: int| None::<usize>));
    }

    pub fn num_extra_nodes(&self) -> (r: usize)
        ensures
            r == if self.wpc() == 5 { 3 } else { self.wpc() },
    {
        emitted_wires(self.wpc)
    }

    /// Bind the emitted wires' rows (`re`, `im`, λ) to `first_idx`,
    /// `first_idx + 1`, `first_idx + 2`; the backward pair stays unbound.
    pub fn bind_extra_nodes(&mut self, first_idx: usize)
        requires
            old(self).branches().len() == old(self).wpc(),
            old(self).wpc() >= 2,
            first_idx + 2 <= usize::MAX,
        ensures
            final(self).branches() == emitted_binding(old(self).wpc(), old(self).wpc() as int, first_idx as int),
            final(self).wpc() == old(self).wpc(),
            final(self).electrical() == old(self).electrical(),
            final(self).min_terminals() == old(self).min_terminals(),
            final(self).nodes() == old(self).nodes(),
    {
        bind_emitted(self.branches.as_mut_slice(), self.wpc, first_idx);
    }

    /// The branch rows whose right-hand sides carry the emitted `re`, `im`
    /// and λ values (rows 0, 1 and `wpc − 1`).
    pub fn residual_rows(&self) -> (r: (Option<usize>, Option<usize>, Option<usize>))
        requires
            self.branches().len() == self.wpc(),
            self.wpc() >= 2,
        ensures
            r == (self.branches()[0], self.branches()[1], self.branches()[self.wpc() - 1]),
    {
        (self.branches[0], self.branches[1], self.branches[self.wpc - 1])
    }

    /// The electrical drive terminals `(p, n)`, after the bundle wires.
    pub fn drive_nodes(&self) -> (r: (NodeId, NodeId))
        requires
            self.nodes().len() >= self.wpc() + 2,
        ensures
            r == (self.nodes()[self.wpc() as int], self.nodes()[self.wpc() + 1int]),
    {
        let _len = self.nodes.len();
        (self.nodes[self.wpc], self.nodes[self.wpc + 1])
    }

    /// Stamp `+1` at `(j, out)` and `(out, j)` for every bundle wire whose
    /// row is bound: the branch rows `V(out) − target = 0`.
    pub fn load_jacobian<T: Copy>(&self, mat: &mut Vec<Stamp<T>>)
        requires
            self.wf(),
        ensures
            final(mat)@ == old(mat)@ + emission_stamps::<T>(self.branches(), self.nodes(), self.branches().len()),
    {
        let count = self.branches.len();
        let ghost start = mat@;
        let mut i: usize = 0;
        while i < count
            invariant
                self.wf(),
                i <= count,
                count == self.branches().len(),
                mat@ == start + emission_stamps::<T>(self.branches(), self.nodes(), i as nat),
            decreases count - i,
        {
            let none: [(NodeId, Coef<T>); 0] = [];
            proof { assert(none@ =~= Seq::<(NodeId, Coef<T>)>::empty()); }
            stamp_potential_eq(mat, &self.branches, i, self.nodes[i], &none);
            i = i + 1;
        }
    }

    /// The Jacobian of a voltage-driven laser: the emission rows, the drive
    /// couplings `g[0]` (onto `re`) and `g[1]` (onto `im`), and the input
    /// resistance's conductance across `(p, n)` when there is one.
    pub fn load_jacobian_driven<T: Copy>(&self, mat: &mut Vec<Stamp<T>>, g: [T; 2], g_in: Option<T>)
        requires
            self.wf(),
            self.electrical() == 2,
            self.nodes().len() == self.wpc() + 2,
            self.wpc() >= 2,
        ensures
            final(mat)@ == old(mat)@
                + emission_stamps::<T>(self.branches(), self.nodes(), self.wpc())
                + drive_stamps::<T>(self.branches(), self.nodes()[self.wpc() as int], self.nodes()[self.wpc() + 1int], g@)
                + match g_in {
                    Some(gi) => resistor_stamps(self.nodes()[self.wpc() as int], self.nodes()[self.wpc() + 1int], gi),
                    None => Seq::empty(),
                },
    {
        self.load_jacobian(mat);
        let (p_node, n_node) = self.drive_nodes();
        let ghost mid = mat@;
        let mut i: usize = 0;
        while i < 2
            invariant
                self.wf(),
                self.wpc() >= 2,
                self.nodes().len() == self.wpc() + 2,
                i <= 2,
                mat@ == mid + if i == 0 { Seq::empty() } else if i == 1 {
                    drive_row_stamps(self.branches()[0], p_node, n_node, g@[0])
                } else {
                    drive_stamps::<T>(self.branches(), p_node, n_node, g@)
                },
            decreases 2 - i,
        {
            let w = g[i];
            if let Some(j) = self.branches[i] {
                if let Some(p) = p_node {
                    mat.push(Stamp { row: j, col: p, coef: Coef::Neg(w) });
                }
                if let Some(n) = n_node {
                    mat.push(Stamp { row: j, col: n, coef: Coef::Pos(w) });
                }
            }
            proof {
                if i == 0 {
                    assert(mat@ =~= mid + drive_row_stamps(self.branches()[0], p_node, n_node, g@[0]));
                } else {
                    assert(mat@ =~= mid + drive_stamps::<T>(self.branches(), p_node, n_node, g@));
                }
            }
            i = i + 1;
        }
        if let Some(gi) = g_in {
            stamp_resistor(mat, p_node, n_node, gi);
        }
    }
}


/// A laser binds exactly the wires it emits on. Under bidirectional
/// propagation (5 wires) `re`, `im` and λ get the rows `first`, `first + 1`,
/// `first + 2` and the backward pair stays unbound; under unidirectional
/// propagation (3 wires) all three are bound, contiguously. Either way the
/// bound rows number `emitted_wires(wpc)`.
pub proof fn lemma_emitted_binding(first: int)
    requires
        0 <= first,
        first + 2 <= usize::MAX,
    ensures
        ({
            let b = emitted_binding(5, 5, first);
            &&& b[0] == Some(first as usize)
            &&& b[1] == Some((first + 1) as usize)
            &&& b[2] == None::<usize>
            &&& b[3] == None::<usize>
            &&& b[4] == Some((first + 2) as usize)
        }),
        bound_from(emitted_binding(3, 3, first), first),
        emitted_binding(3, 3, first).len() == 3,
{
    let b3 = emitted_binding(3, 3, first);
    assert(b3[2] == Some((first + 2) as usize));
}


/// The drive of a voltage-driven laser couples into the emission rows it
/// modulates: the `re` row (`branches[0]`) takes `−g[0]` at the `p` column
/// and `+g[0]` at the `n` column, the `im` row (`branches[1]`) `−g[1]` and
/// `+g[1]`.
pub proof fn lemma_laser_drive_couplings<T>(branches: Seq<Option<usize>>, p: NodeId, n: NodeId, g: Seq<T>)
    requires
        branches.len() >= 2,
        g.len() == 2,
    ensures
        cell_has(drive_stamps(branches, p, n, g), branches[0], p, Coef::Neg(g[0])),
        cell_has(drive_stamps(branches, p, n, g), branches[0], n, Coef::Pos(g[0])),
        cell_has(drive_stamps(branches, p, n, g), branches[1], p, Coef::Neg(g[1])),
        cell_has(drive_stamps(branches, p, n, g), branches[1], n, Coef::Pos(g[1])),
{
    let a = drive_row_stamps(branches[0], p, n, g[0]);
    let b = drive_row_stamps(branches[1], p, n, g[1]);
    lemma_drive_row_has(branches[0], p, n, g[0]);
    lemma_drive_row_has(branches[1], p, n, g[1]);
    lemma_cell_concat(a, b, branches[0], p, Coef::Neg(g[0]));
    lemma_cell_concat(a, b, branches[0], n, Coef::Pos(g[0]));
    lemma_cell_concat(a, b, branches[1], p, Coef::Neg(g[1]));
    lemma_cell_concat(a, b, branches[1], n, Coef::Pos(g[1]));
}

proof fn lemma_drive_row_has<T>(row: Option<usize>, p: NodeId, n: NodeId, g: T)
    ensures
        cell_has(drive_row_stamps(row, p, n, g), row, p, Coef::Neg(g)),
        cell_has(drive_row_stamps(row, p, n, g), row, n, Coef::Pos(g)),
{
    if let Some(j) = row {
        let a: Seq<Stamp<T>> = match p { Some(pp) => seq![Stamp { row: j, col: pp, coef: Coef::Neg(g) }], None => Seq::empty() };
        let b: Seq<Stamp<T>> = match n { Some(nn) => seq![Stamp { row: j, col: nn, coef: Coef::Pos(g) }], None => Seq::empty() };
        assert(drive_row_stamps(row, p, n, g) == a + b);
        if let Some(pp) = p {
            assert(a[0] == Stamp { row: j, col: pp, coef: Coef::Neg(g) });
            lemma_concat_has(a, b, Stamp { row: j, col: pp, coef: Coef::Neg(g) });
        }
        if let Some(nn) = n {
            assert(b[0] == Stamp { row: j, col: nn, coef: Coef::Pos(g) });
            lemma_concat_has(a, b, Stamp { row: j, col: nn, coef: Coef::Pos(g) });
        }
    }
}

/// Every bound emission row pins its own wire: for each wire `i < count`
/// with a bound row `j` and a non-ground node `o`, the equation on row `j`
/// has `+1` at `(j, o)` and the branch current enters `o` at `(o, j)`.
pub proof fn lemma_laser_emission_rows<T>(branches: Seq<Option<usize>>, nodes: Seq<NodeId>, count: nat, i: int)
    requires
        0 <= i < count,
        count <= branches.len(),
    ensures
        cell_has(emission_stamps::<T>(branches, nodes, count), branches[i], nodes[i], Coef::One),
        cell_has(emission_stamps::<T>(branches, nodes, count), nodes[i], branches[i], Coef::One),
    decreases count,
{
    let pre = emission_stamps::<T>(branches, nodes, (count - 1) as nat);
    let e = potential_eq_stamps(branches, count - 1, nodes[count - 1], Seq::<(NodeId, Coef<T>)>::empty());
    if i < count - 1 {
        lemma_laser_emission_rows::<T>(branches, nodes, (count - 1) as nat, i);
    } else if let (Some(j), Some(o)) = (branches[i], nodes[i]) {
        lemma_eq_has(branches, i, nodes[i], Seq::<(NodeId, Coef<T>)>::empty(), j, o);
    }
    lemma_cell_concat(pre, e, branches[i], nodes[i], Coef::One);
    lemma_cell_concat(pre, e, nodes[i], branches[i], Coef::One);
}

} // verus!
