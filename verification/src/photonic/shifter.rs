//! Wiring of the rotation-stage devices (waveguide, thermal and PN phase
//! shifters, with or without heater): an input bundle and an output bundle
//! of `wpc·N` wires each, then the device's electrical terminals in pairs
//! (junction, heater). Every pair carries one conductance; every channel
//! carries the rotation equations of `rotation_rows`. A thermal RC shifter
//! adds one state row for its temperature.

use vstd::prelude::*;
use crate::device::{NodeId, bind_contiguous, bound_from, copy_nodes, unbound_rows};
use crate::mna::{cell_has, lemma_cell_concat, lemma_concat_has, lemma_opt_stamp_has, lemma_resistor_has, Coef, Stamp, opt_stamp, resistor_stamps, rows_stamps, stamp_resistor};
use crate::photonic::{rotation_bpc, rotation_rows, stamp_pn_optical};

verus! {

/// The conductances `g[0 .. count]` across the electrical pairs
/// `(e + 2p, e + 2p + 1)`, pair after pair.
pub open spec fn pairs_stamps<T>(nodes: Seq<NodeId>, e: int, g: Seq<T>, count: nat) -> Seq<Stamp<T>>
    decreases count,
{
    if count == 0 {
        Seq::empty()
    } else {
        let p = count - 1;
        pairs_stamps(nodes, e, g, p as nat) + resistor_stamps(nodes[e + 2 * p], nodes[e + 2 * p + 1], g[p])
    }
}

/// The state row `t` of a thermal RC stage: `diag` on its own column, and
/// the linearised heater power's slope, `−slope` at `hp` and `+slope` at
/// `hn`.
pub open spec fn state_row_stamps<T>(t: Option<usize>, hp: NodeId, hn: NodeId, diag: T, slope: T) -> Seq<Stamp<T>> {
    match t {
        Some(ti) => seq![Stamp { row: ti, col: ti, coef: Coef::Pos(diag) }]
            + opt_stamp(Some(ti), hp, Coef::Neg(slope)) + opt_stamp(Some(ti), hn, Coef::Pos(slope)),
        None => Seq::empty(),
    }
}

/// Branch rows per channel of a stage with `n_elec` electrical terminals:
/// a bare waveguide (no electrical terminals) owns one per wire, a shifter
/// the rotation count.
pub open spec fn stage_bpc(wpc: int, n_elec: int) -> int {
    if n_elec == 0 { wpc } else { rotation_bpc(wpc) }
}

pub struct RotationPorts {
    n_channels: usize,
    wpc: usize,
    n_elec: usize,
    nodes: Vec<NodeId>,
    branches: Vec<Option<usize>>,
    state_idx: Option<usize>,
}

impl RotationPorts {
    pub closed spec fn n_channels(&self) -> nat {
        self.n_channels as nat
    }

    pub closed spec fn wpc(&self) -> nat {
        self.wpc as nat
    }

    pub closed spec fn n_elec(&self) -> nat {
        self.n_elec as nat
    }

    pub closed spec fn nodes(&self) -> Seq<NodeId> {
        self.nodes@
    }

    pub closed spec fn branches(&self) -> Seq<Option<usize>> {
        self.branches@
    }

    /// The thermal state row, once bound.
    pub closed spec fn state_row(&self) -> Option<usize> {
        self.state_idx
    }

    /// First electrical terminal: after both optical bundles.
    pub open spec fn elec_base(&self) -> int {
        (2 * self.wpc() * self.n_channels()) as int
    }

    /// Configured: both bundles and the electrical terminals, and one branch
    /// slot per equation.
    pub open spec fn configured(&self) -> bool {
        &&& 1 <= self.wpc()
        &&& self.n_channels() >= 1
        &&& self.nodes().len() == self.elec_base() + self.n_elec()
        &&& self.branches().len() == stage_bpc(self.wpc() as int, self.n_elec() as int) * self.n_channels()
    }

    /// The rotation equations apply: a width whose rows the rotation layout
    /// describes (for a bare waveguide, 3 or 5 wires).
    pub open spec fn rotates(&self) -> bool {
        &&& self.configured()
        &&& 2 <= self.wpc()
        &&& stage_bpc(self.wpc() as int, self.n_elec() as int) == rotation_bpc(self.wpc() as int)
    }

    /// An unconfigured stage with `n_elec` electrical terminals.
    pub fn new(n_elec: usize) -> (s: Self)
        ensures
            s.n_channels() == 0,
            s.wpc() == 3,
            s.n_elec() == n_elec,
            s.nodes() == Seq::<NodeId>::empty(),
            s.branches() == Seq::<Option<usize>>::empty(),
            s.state_row() == None::<usize>,
    {
        Self { n_channels: 0, wpc: 3, n_elec, nodes: Vec::new(), branches: Vec::new(), state_idx: None }
    }

    pub fn n_channels_exec(&self) -> (r: usize)
        ensures
            r == self.n_channels(),
    {
        self.n_channels
    }

    pub fn wpc_exec(&self) -> (r: usize)
        ensures
            r == self.wpc(),
    {
        self.wpc
    }

    pub fn n_elec_exec(&self) -> (r: usize)
        ensures
            r == self.n_elec(),
    {
        self.n_elec
    }

    pub fn num_terminals(&self) -> (r: usize)
        ensures
            r == self.nodes().len(),
    {
        self.nodes.len()
    }

    pub fn setup_model(&mut self, wires_per_channel: usize)
        ensures
            final(self).wpc() == wires_per_channel,
            final(self).n_channels() == old(self).n_channels(),
            final(self).n_elec() == old(self).n_elec(),
            final(self).nodes() == old(self).nodes(),
            final(self).branches() == old(self).branches(),
            final(self).state_row() == old(self).state_row(),
    {
        self.wpc = wires_per_channel;
    }

    /// Configure from `2·wpc·N + n_elec` terminals (`N ≥ 1`): `N` channels,
    /// the terminals kept, one unbound branch slot per equation.
    pub fn setup_instance(&mut self, terminals: &[NodeId], wires_per_channel: usize)
        requires
            1 <= wires_per_channel,
            terminals@.len() >= 2 * wires_per_channel + old(self).n_elec(),
            (terminals@.len() - old(self).n_elec()) % (2 * wires_per_channel as int) == 0,
            stage_bpc(wires_per_channel as int, old(self).n_elec() as int)
                * ((terminals@.len() - old(self).n_elec()) / (2 * wires_per_channel as int)) <= usize::MAX,
        ensures
            final(self).configured(),
            final(self).wpc() == wires_per_channel,
            final(self).n_elec() == old(self).n_elec(),
            final(self).n_channels() == (terminals@.len() - old(self).n_elec()) / (2 * wires_per_channel as int),
            final(self).nodes() == terminals@,
            forall|i: int| 0 <= i < final(self).branches().len() ==> #[trigger] final(self).branches()[i] == None::<usize>,
            final(self).state_row() == old(self).state_row(),
    {
        let wpc = wires_per_channel;
        self.wpc = wpc;
        let len = terminals.len();
        let stride = 2 * wpc;
        let opt = len - self.n_elec;
        let n = opt / stride;
        proof {
            let (o, st) = (opt as int, stride as int);
            assert(o == st * (o / st) + o % st && n >= 1) by (nonlinear_arith)
                requires st > 0, o >= st, n == o / st;
            assert(2 * wpc * n == st * n);
        }
        let bpc: usize = if self.n_elec == 0 { wpc } else if wpc == 5 { 5 } else { 3 };
        self.n_channels = n;
        self.nodes = copy_nodes(terminals);
        self.branches = unbound_rows(bpc * n);
    }

    /// The stage's auxiliary rows: one per equation, plus the temperature
    /// row of a thermal RC stage.
    pub fn num_extra_nodes(&self, with_state: bool) -> (r: usize)
        requires
            self.branches().len() < usize::MAX,
        ensures
            r == self.branches().len() + if with_state { 1int } else { 0int },
    {
        if with_state {
            self.branches.len() + 1
        } else {
            self.branches.len()
        }
    }

    /// Bind the equation rows contiguously from `first_idx`, and the
    /// temperature row right after them when there is one.
    pub fn bind_extra_nodes(&mut self, first_idx: usize, with_state: bool)
        requires
            first_idx + old(self).branches().len() + 1 <= usize::MAX,
        ensures
            final(self).branches().len() == old(self).branches().len(),
            bound_from(final(self).branches(), first_idx as int),
            final(self).state_row() == if with_state {
                Some((first_idx + old(self).branches().len()) as usize)
            } else {
                None::<usize>
            },
            final(self).n_channels() == old(self).n_channels(),
            final(self).wpc() == old(self).wpc(),
            final(self).n_elec() == old(self).n_elec(),
            final(self).nodes() == old(self).nodes(),
    {
        bind_contiguous(&mut self.branches, first_idx);
        self.state_idx = if with_state { Some(first_idx + self.branches.len()) } else { None };
    }

    /// Electrical pair `p`: terminals `elec_base + 2p` and `elec_base + 2p + 1`
    /// (the junction's anode and cathode, or the heater's two ends).
    pub fn pair(&self, p: usize) -> (r: (NodeId, NodeId))
        requires
            self.configured(),
            2 * p + 1 < self.n_elec(),
        ensures
            r == (self.nodes()[self.elec_base() + 2 * p], self.nodes()[self.elec_base() + 2 * p + 1]),
    {
        let _len = self.nodes.len();
        assert(self.wpc * self.n_channels + self.wpc * self.n_channels == 2 * self.wpc * self.n_channels) by (nonlinear_arith);
        let wn = self.wpc * self.n_channels;
        let e = wn + wn;
        (self.nodes[e + 2 * p], self.nodes[e + 2 * p + 1])
    }

    /// The conductances `g` across the electrical pairs, pair after pair.
    pub fn stamp_pairs<T: Copy>(&self, mat: &mut Vec<Stamp<T>>, g: &[T])
        requires
            self.configured(),
            2 * g@.len() <= self.n_elec(),
        ensures
            final(mat)@ == old(mat)@ + pairs_stamps(self.nodes(), self.elec_base(), g@, g@.len()),
    {
        let ghost start = mat@;
        let mut p: usize = 0;
        while p < g.len()
            invariant
                self.configured(),
                2 * g@.len() <= self.n_elec(),
                p <= g@.len(),
                mat@ == start + pairs_stamps(self.nodes(), self.elec_base(), g@, p as nat),
            decreases g@.len() - p,
        {
            let (a, b) = self.pair(p);
            stamp_resistor(mat, a, b, g[p]);
            p = p + 1;
        }
    }

    /// The rotation equations of every channel, with channel `k`'s
    /// transmission `(c[k], s[k])`.
    pub fn stamp_optics<T: Copy>(&self, mat: &mut Vec<Stamp<T>>, c: &[T], s: &[T])
        requires
            self.rotates(),
            c@.len() >= self.n_channels(),
            s@.len() >= self.n_channels(),
        ensures
            final(mat)@ == old(mat)@ + rows_stamps(
                self.branches(),
                rotation_rows(self.nodes(), self.wpc() as int, self.n_channels() as int, c@, s@),
            ),
    {
        stamp_pn_optical(mat, &self.nodes, &self.branches, self.n_channels, self.wpc, c, s);
    }

    /// The temperature row's entries, `diag` and the heater-power slope,
    /// against the heater pair (pair 0); nothing while the row is unbound.
    pub fn stamp_state_row<T: Copy>(&self, mat: &mut Vec<Stamp<T>>, diag: T, slope: T)
        requires
            self.configured(),
            2 <= self.n_elec(),
        ensures
            final(mat)@ == old(mat)@ + state_row_stamps(
                self.state_row(),
                self.nodes()[self.elec_base()],
                self.nodes()[self.elec_base() + 1],
                diag,
                slope,
            ),
    {
        let (hp, hn) = self.pair(0);
        if let Some(t) = self.state_idx {
            mat.push(Stamp { row: t, col: t, coef: Coef::Pos(diag) });
            if let Some(p) = hp {
                mat.push(Stamp { row: t, col: p, coef: Coef::Neg(slope) });
            }
            if let Some(m) = hn {
                mat.push(Stamp { row: t, col: m, coef: Coef::Pos(slope) });
            }
        }
    }

    /// The Jacobian of a waveguide or phase shifter: the conductances `g`
    /// across the electrical pairs (junction first, then heater), then the
    /// rotation equations.
    pub fn load_jacobian<T: Copy>(&self, mat: &mut Vec<Stamp<T>>, g: &[T], c: &[T], s: &[T])
        requires
            self.rotates(),
            2 * g@.len() <= self.n_elec(),
            c@.len() >= self.n_channels(),
            s@.len() >= self.n_channels(),
        ensures
            final(mat)@ == old(mat)@
                + pairs_stamps(self.nodes(), self.elec_base(), g@, g@.len())
                + rows_stamps(self.branches(), rotation_rows(self.nodes(), self.wpc() as int, self.n_channels() as int, c@, s@)),
    {
        self.stamp_pairs(mat, g);
        self.stamp_optics(mat, c, s);
    }

    /// The same entries with the rotation equations first, as the injection
    /// and full-physics shifters add them.
    pub fn load_jacobian_optics_first<T: Copy>(&self, mat: &mut Vec<Stamp<T>>, g: &[T], c: &[T], s: &[T])
        requires
            self.rotates(),
            2 * g@.len() <= self.n_elec(),
            c@.len() >= self.n_channels(),
            s@.len() >= self.n_channels(),
        ensures
            final(mat)@ == old(mat)@
                + rows_stamps(self.branches(), rotation_rows(self.nodes(), self.wpc() as int, self.n_channels() as int, c@, s@))
                + pairs_stamps(self.nodes(), self.elec_base(), g@, g@.len()),
    {
        self.stamp_optics(mat, c, s);
        self.stamp_pairs(mat, g);
    }

    /// The Jacobian of a thermal RC shifter: the heater conductance, the
    /// temperature row (`diag`, `slope`), then the rotation equations with
    /// one transmission `(c, s)` shared by every channel.
    pub fn load_jacobian_thermal_rc<T: Copy>(
        &self,
        mat: &mut Vec<Stamp<T>>,
        g_heater: T,
        diag: T,
        slope: T,
        c: &[T],
        s: &[T],
    )
        requires
            self.rotates(),
            2 <= self.n_elec(),
            c@.len() >= self.n_channels(),
            s@.len() >= self.n_channels(),
        ensures
            final(mat)@ == old(mat)@
                + resistor_stamps(self.nodes()[self.elec_base()], self.nodes()[self.elec_base() + 1], g_heater)
                + state_row_stamps(self.state_row(), self.nodes()[self.elec_base()], self.nodes()[self.elec_base() + 1], diag, slope)
                + rows_stamps(self.branches(), rotation_rows(self.nodes(), self.wpc() as int, self.n_channels() as int, c@, s@)),
    {
        let (hp, hn) = self.pair(0);
        stamp_resistor(mat, hp, hn, g_heater);
        self.stamp_state_row(mat, diag, slope);
        self.stamp_optics(mat, c, s);
    }
}

/// The temperature row of a thermal RC stage, bound right after the
/// equation rows, is a row of its own: no equation row shares it.
pub proof fn lemma_state_row_apart(branches: Seq<Option<usize>>, first: int)
    requires
        0 <= first,
        first + branches.len() <= usize::MAX,
        bound_from(branches, first),
    ensures
        forall|i: int| 0 <= i < branches.len() ==> #[trigger] branches[i] != Some((first + branches.len()) as usize),
{
    assert forall|i: int| 0 <= i < branches.len() implies #[trigger] branches[i] != Some((first + branches.len()) as usize) by {
        assert(branches[i] == Some((first + i) as usize));
    }
}


/// Each electrical pair carries its own conductance: for pair `p < count`,
/// `g[p]` sits across terminals `e + 2p` and `e + 2p + 1` (`+g[p]` on both
/// diagonal cells, `−g[p]` off the diagonal).
pub proof fn lemma_pairs_conductance<T>(nodes: Seq<NodeId>, e: int, g: Seq<T>, count: nat, p: int)
    requires
        0 <= p < count,
    ensures
        ({
            let st = pairs_stamps(nodes, e, g, count);
            let (a, b) = (nodes[e + 2 * p], nodes[e + 2 * p + 1]);
            &&& cell_has(st, a, a, Coef::Pos(g[p]))
            &&& cell_has(st, a, b, Coef::Neg(g[p]))
            &&& cell_has(st, b, b, Coef::Pos(g[p]))
            &&& cell_has(st, b, a, Coef::Neg(g[p]))
        }),
    decreases count,
{
    let q = count - 1;
    let pre = pairs_stamps(nodes, e, g, q as nat);
    let (a, b) = (nodes[e + 2 * p], nodes[e + 2 * p + 1]);
    let last = resistor_stamps(nodes[e + 2 * q], nodes[e + 2 * q + 1], g[q]);
    if p < q {
        lemma_pairs_conductance(nodes, e, g, q as nat, p);
    } else {
        lemma_resistor_has(a, b, g[p]);
    }
    lemma_cell_concat(pre, last, a, a, Coef::Pos(g[p]));
    lemma_cell_concat(pre, last, a, b, Coef::Neg(g[p]));
    lemma_cell_concat(pre, last, b, b, Coef::Pos(g[p]));
    lemma_cell_concat(pre, last, b, a, Coef::Neg(g[p]));
}


/// The temperature row of a thermal RC stage holds `diag` on its own column
/// and the heater power's slope drawn from the heater's `+` terminal and
/// returned at its `−` terminal: `−slope` at `hp`, `+slope` at `hn`.
pub proof fn lemma_state_row_cells<T>(t: Option<usize>, hp: NodeId, hn: NodeId, diag: T, slope: T)
    ensures
        cell_has(state_row_stamps(t, hp, hn, diag, slope), t, t, Coef::Pos(diag)),
        cell_has(state_row_stamps(t, hp, hn, diag, slope), t, hp, Coef::Neg(slope)),
        cell_has(state_row_stamps(t, hp, hn, diag, slope), t, hn, Coef::Pos(slope)),
{
    if let Some(ti) = t {
        let d = seq![Stamp { row: ti, col: ti, coef: Coef::Pos(diag) }];
        let x = opt_stamp(Some(ti), hp, Coef::Neg(slope));
        let y = opt_stamp(Some(ti), hn, Coef::Pos(slope));
        assert(state_row_stamps(t, hp, hn, diag, slope) == d + x + y);
        assert(d[0] == Stamp { row: ti, col: ti, coef: Coef::Pos(diag) });
        lemma_concat_has(d, x, Stamp { row: ti, col: ti, coef: Coef::Pos(diag) });
        lemma_concat_has(d + x, y, Stamp { row: ti, col: ti, coef: Coef::Pos(diag) });
        lemma_opt_stamp_has(Some(ti), hp, Coef::Neg(slope));
        lemma_opt_stamp_has(Some(ti), hn, Coef::Pos(slope));
        lemma_cell_concat(d, x, t, hp, Coef::Neg(slope));
        lemma_cell_concat(d + x, y, t, hp, Coef::Neg(slope));
        lemma_cell_concat(d + x, y, t, hn, Coef::Pos(slope));
    }
}

} // verus!
