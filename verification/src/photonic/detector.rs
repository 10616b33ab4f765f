//! Terminal wiring and Jacobian pattern of the PIN photodetector: `wpc`
//! optical wires per WDM channel, then `anode`, `cathode`. One photocurrent,
//! summed over every channel (and, bidirectionally, both directions), flows
//! from the junction node to the cathode beside a shunt; an optional series
//! resistance puts an internal junction node between the anode and the
//! stack. The responsivity slopes and conductances are the caller's.

use vstd::prelude::*;
use crate::device::{NodeId, copy_nodes};
use crate::mna::{cell_has, lemma_cell_concat, lemma_opt_stamp_has, Coef, Stamp, opt_stamp, push_opt, resistor_stamps, stamp_resistor};

verus! {

/// The series resistance between the anode `a` and the internal junction
/// node `j`: `+g` at `(a,a)`, `−g` at `(a,j)` and `(j,a)`, `+g` at `(j,j)`.
/// Nothing without an internal node.
pub open spec fn series_stamps<T>(a: NodeId, internal: Option<usize>, g_s: T) -> Seq<Stamp<T>> {
    match internal {
        Some(j) => opt_stamp(a, a, Coef::Pos(g_s)) + opt_stamp(a, Some(j), Coef::Neg(g_s))
            + opt_stamp(Some(j), a, Coef::Neg(g_s)) + seq![Stamp { row: j, col: j, coef: Coef::Pos(g_s) }],
        None => Seq::empty(),
    }
}

/// The photocurrent's slope on one field pair `(re, im)` with slopes
/// `(g_re, g_im)`: drawn out of the junction row `j`, injected into the
/// cathode row `c`.
pub open spec fn pair_stamps<T>(j: NodeId, c: NodeId, re: NodeId, im: NodeId, g: (T, T)) -> Seq<Stamp<T>> {
    opt_stamp(j, re, Coef::Neg(g.0)) + opt_stamp(j, im, Coef::Neg(g.1))
        + opt_stamp(c, re, Coef::Pos(g.0)) + opt_stamp(c, im, Coef::Pos(g.1))
}

fn stamp_pair<T: Copy>(mat: &mut Vec<Stamp<T>>, j: NodeId, c: NodeId, re: NodeId, im: NodeId, g: (T, T))
    ensures
        final(mat)@ == old(mat)@ + pair_stamps(j, c, re, im, g),
{
    let (gr, gi) = g;
    push_opt(mat, j, re, Coef::Neg(gr));
    push_opt(mat, j, im, Coef::Neg(gi));
    push_opt(mat, c, re, Coef::Pos(gr));
    push_opt(mat, c, im, Coef::Pos(gi));
}

/// Channel `k`'s slopes: the forward pair at wires `wpc·k`, `wpc·k + 1`, and
/// under bidirectional propagation the backward pair at `wpc·k + 2`,
/// `wpc·k + 3`.
pub open spec fn channel_stamps<T>(
    nodes: Seq<NodeId>,
    wpc: int,
    j: NodeId,
    c: NodeId,
    g_fw: Seq<(T, T)>,
    g_bw: Seq<(T, T)>,
    k: int,
) -> Seq<Stamp<T>> {
    pair_stamps(j, c, nodes[wpc * k], nodes[wpc * k + 1], g_fw[k]) + if wpc == 5 {
        pair_stamps(j, c, nodes[wpc * k + 2], nodes[wpc * k + 3], g_bw[k])
    } else {
        Seq::empty()
    }
}

/// The slopes of channels `0 .. count`, in order.
pub open spec fn channels_stamps<T>(
    nodes: Seq<NodeId>,
    wpc: int,
    j: NodeId,
    c: NodeId,
    g_fw: Seq<(T, T)>,
    g_bw: Seq<(T, T)>,
    count: nat,
) -> Seq<Stamp<T>>
    decreases count,
{
    if count == 0 {
        Seq::empty()
    } else {
        channels_stamps(nodes, wpc, j, c, g_fw, g_bw, (count - 1) as nat)
            + channel_stamps(nodes, wpc, j, c, g_fw, g_bw, count - 1)
    }
}

/// Terminal wiring of a photodetector.
pub struct DetectorPorts {
    n_channels: usize,
    wpc: usize,
    /// Smallest terminal count that would have worked, recorded when
    /// `setup_instance` declines.
    min_terminals: Option<usize>,
    nodes: Vec<NodeId>,
    v_int_idx: Option<usize>,
}

impl DetectorPorts {
    pub closed spec fn n_channels(&self) -> nat {
        self.n_channels as nat
    }

    pub closed spec fn wpc(&self) -> nat {
        self.wpc as nat
    }

    pub closed spec fn min_terminals(&self) -> Option<usize> {
        self.min_terminals
    }

    pub closed spec fn nodes(&self) -> Seq<NodeId> {
        self.nodes@
    }

    /// The internal junction node, when a series resistance put one there.
    pub closed spec fn internal(&self) -> Option<usize> {
        self.v_int_idx
    }

    /// Configured: `wpc` wires for each of the channels, then anode and
    /// cathode.
    pub open spec fn configured(&self) -> bool {
        self.nodes().len() == self.wpc() * self.n_channels() + 2
    }

    /// The anode terminal.
    pub open spec fn anode(&self) -> NodeId {
        self.nodes()[(self.wpc() * self.n_channels()) as int]
    }

    /// The cathode terminal.
    pub open spec fn cathode(&self) -> NodeId {
        self.nodes()[self.wpc() * self.n_channels() + 1int]
    }

    /// Where the photocurrent and the shunt attach on the anode side: the
    /// internal junction node when there is one, the anode otherwise.
    pub open spec fn junction(&self) -> NodeId {
        match self.internal() {
            Some(i) => Some(i),
            None => self.anode(),
        }
    }

    pub fn new() -> (s: Self)
        ensures
            s.n_channels() == 0,
            s.wpc() == 3,
            s.min_terminals() == None::<usize>,
            s.nodes() == Seq::<NodeId>::empty(),
            s.internal() == None::<usize>,
    {
        Self { n_channels: 0, wpc: 3, min_terminals: None, nodes: Vec::new(), v_int_idx: None }
    }

    pub fn n_channels_exec(&self) -> (r: usize)
        ensures
            r == self.n_channels(),
    {
        self.n_channels
    }

    /// The terminal count: the smallest usable one after a declined setup,
    /// the configured one otherwise.
    pub fn num_terminals(&self) -> (r: usize)
        ensures
            r == match self.min_terminals() {
                Some(m) => m as int,
                None => self.nodes().len() as int,
            },
    {
        if let Some(min) = self.min_terminals {
            return min;
        }
        self.nodes.len()
    }

    pub fn setup_model(&mut self, wires_per_channel: usize)
        ensures
            final(self).wpc() == wires_per_channel,
            final(self).n_channels() == old(self).n_channels(),
            final(self).min_terminals() == old(self).min_terminals(),
            final(self).nodes() == old(self).nodes(),
            final(self).internal() == old(self).internal(),
    {
        self.wpc = wires_per_channel;
    }

    /// Configure from `wpc·N + 2` terminals, `N ≥ 1`. Any other count is
    /// declined: the instance keeps its channels and terminals and reports
    /// `wpc + 2` as the smallest count that would have worked.
    pub fn setup_instance(&mut self, terminals: &[NodeId], wires_per_channel: usize)
        requires
            1 <= wires_per_channel,
            wires_per_channel + 2 <= usize::MAX,
        ensures
            final(self).wpc() == wires_per_channel,
            final(self).internal() == old(self).internal(),
            ({
                let len = terminals@.len() as int;
                let wpc = wires_per_channel as int;
                if len < wpc + 2 || (len - 2) % wpc != 0 {
                    &&& final(self).min_terminals() == Some((wpc + 2) as usize)
                    &&& final(self).n_channels() == old(self).n_channels()
                    &&& final(self).nodes() == old(self).nodes()
                } else {
                    &&& final(self).min_terminals() == None::<usize>
                    &&& final(self).n_channels() == (len - 2) / wpc
                    &&& final(self).nodes() == terminals@
                    &&& final(self).configured()
                }
            }),
    {
        let wpc = wires_per_channel;
        self.wpc = wpc;
        let len = terminals.len();
        if len < wpc + 2 || (len - 2) % wpc != 0 {
            self.min_terminals = Some(wpc + 2);
            return;
        }
        self.min_terminals = None;
        let n = (len - 2) / wpc;
        self.n_channels = n;
        self.nodes = copy_nodes(terminals);
        proof {
            let l = (len - 2) as int;
            let w = wpc as int;
            assert(l == w * (l / w) + l % w) by (nonlinear_arith) requires w > 0;
        }
    }

    /// One internal node when there is a series resistance, none otherwise.
    pub fn num_extra_nodes(&self, has_series: bool) -> (r: usize)
        ensures
            r == if has_series { 1usize } else { 0usize },
    {
        if has_series {
            1
        } else {
            0
        }
    }

    /// Put the internal junction node at `first_idx` when there is a series
    /// resistance; without one the junction is the anode itself.
    pub fn bind_extra_nodes(&mut self, first_idx: usize, has_series: bool)
        ensures
            final(self).internal() == if has_series { Some(first_idx) } else { None::<usize> },
            final(self).wpc() == old(self).wpc(),
            final(self).n_channels() == old(self).n_channels(),
            final(self).min_terminals() == old(self).min_terminals(),
            final(self).nodes() == old(self).nodes(),
    {
        self.v_int_idx = if has_series { Some(first_idx) } else { None };
    }

    /// The pair the photocurrent (and its shot noise) flows between:
    /// junction, then cathode. The residual draws the current out of the
    /// first and injects it into the second.
    pub fn current_port(&self) -> (r: (NodeId, NodeId))
        requires
            self.configured(),
        ensures
            r == (self.junction(), self.cathode()),
    {
        let _len = self.nodes.len();
        let elec_base = self.wpc * self.n_channels;
        let j = match self.v_int_idx {
            Some(i) => Some(i),
            None => self.nodes[elec_base],
        };
        (j, self.nodes[elec_base + 1])
    }

    /// The Jacobian of the detector: the series resistance `g_s` between
    /// anode and internal node (when there is one), the shunt `g_sh` between
    /// junction and cathode, then for each channel `k` the photocurrent's
    /// slopes `g_fw[k]` on the forward field pair and, bidirectionally,
    /// `g_bw[k]` on the backward one.
    pub fn load_jacobian<T: Copy>(&self, mat: &mut Vec<Stamp<T>>, g_s: T, g_sh: T, g_fw: &[(T, T)], g_bw: &[(T, T)])
        requires
            self.configured(),
            g_fw@.len() >= self.n_channels(),
            g_bw@.len() >= self.n_channels(),
        ensures
            final(mat)@ == old(mat)@
                + series_stamps(self.anode(), self.internal(), g_s)
                + resistor_stamps(self.junction(), self.cathode(), g_sh)
                + channels_stamps(self.nodes(), self.wpc() as int, self.junction(), self.cathode(), g_fw@, g_bw@, self.n_channels()),
    {
        let n = self.n_channels;
        let wpc = self.wpc;
        let len = self.nodes.len();
        let elec_base = wpc * n;
        let a_idx = self.nodes[elec_base];
        let c_idx = self.nodes[elec_base + 1];
        let ghost start = mat@;
        if let Some(j) = self.v_int_idx {
            push_opt(mat, a_idx, a_idx, Coef::Pos(g_s));
            push_opt(mat, a_idx, Some(j), Coef::Neg(g_s));
            push_opt(mat, Some(j), a_idx, Coef::Neg(g_s));
            mat.push(Stamp { row: j, col: j, coef: Coef::Pos(g_s) });
        }
        let (j_idx, _) = self.current_port();
        stamp_resistor(mat, j_idx, c_idx, g_sh);
        let ghost mid = mat@;
        assert(mid =~= start + series_stamps(a_idx, self.internal(), g_s) + resistor_stamps(j_idx, c_idx, g_sh));
        let mut k: usize = 0;
        while k < n
            invariant
                k <= n,
                n == self.n_channels(),
                wpc == self.wpc(),
                len == self.nodes().len(),
                len == wpc * n + 2,
                g_fw@.len() >= n,
                g_bw@.len() >= n,
                mat@ == mid + channels_stamps(self.nodes(), wpc as int, j_idx, c_idx, g_fw@, g_bw@, k as nat),
            decreases n - k,
        {
            assert(wpc * k + wpc <= wpc * n) by (nonlinear_arith) requires k < n;
            let ghost before = mat@;
            stamp_pair(mat, j_idx, c_idx, self.nodes[wpc * k], self.nodes[wpc * k + 1], g_fw[k]);
            if wpc == 5 {
                stamp_pair(mat, j_idx, c_idx, self.nodes[wpc * k + 2], self.nodes[wpc * k + 3], g_bw[k]);
            }
            assert(mat@ =~= before + channel_stamps(self.nodes(), wpc as int, j_idx, c_idx, g_fw@, g_bw@, k as int));
            k = k + 1;
        }
    }
}

impl Default for DetectorPorts {
    fn default() -> (s: Self)
        ensures
            s.n_channels() == 0,
            s.wpc() == 3,
            s.min_terminals() == None::<usize>,
            s.nodes() == Seq::<NodeId>::empty(),
            s.internal() == None::<usize>,
    {
        Self::new()
    }
}


/// What channel `k`'s slopes stamp, the slopes of channels `0 .. m` stamp,
/// for `k < m`.
proof fn lemma_channels_have<T>(
    nodes: Seq<NodeId>, wpc: int, j: NodeId, c: NodeId, g_fw: Seq<(T, T)>, g_bw: Seq<(T, T)>,
    m: nat, k: int, row: NodeId, col: NodeId, coef: Coef<T>,
)
    requires
        0 <= k < m,
        cell_has(channel_stamps(nodes, wpc, j, c, g_fw, g_bw, k), row, col, coef),
    ensures
        cell_has(channels_stamps(nodes, wpc, j, c, g_fw, g_bw, m), row, col, coef),
    decreases m,
{
    let pre = channels_stamps(nodes, wpc, j, c, g_fw, g_bw, (m - 1) as nat);
    let ch = channel_stamps(nodes, wpc, j, c, g_fw, g_bw, m - 1);
    if k < m - 1 {
        lemma_channels_have(nodes, wpc, j, c, g_fw, g_bw, (m - 1) as nat, k, row, col, coef);
    }
    lemma_cell_concat(pre, ch, row, col, coef);
}

/// The four cells of one field pair's photocurrent slopes.
proof fn lemma_pair_has<T>(j: NodeId, c: NodeId, re: NodeId, im: NodeId, g: (T, T))
    ensures
        cell_has(pair_stamps(j, c, re, im, g), j, re, Coef::Neg(g.0)),
        cell_has(pair_stamps(j, c, re, im, g), j, im, Coef::Neg(g.1)),
        cell_has(pair_stamps(j, c, re, im, g), c, re, Coef::Pos(g.0)),
        cell_has(pair_stamps(j, c, re, im, g), c, im, Coef::Pos(g.1)),
{
    let a = opt_stamp(j, re, Coef::Neg(g.0));
    let b = opt_stamp(j, im, Coef::Neg(g.1));
    let d = opt_stamp(c, re, Coef::Pos(g.0));
    let e = opt_stamp(c, im, Coef::Pos(g.1));
    lemma_opt_stamp_has(j, re, Coef::Neg(g.0));
    lemma_opt_stamp_has(j, im, Coef::Neg(g.1));
    lemma_opt_stamp_has(c, re, Coef::Pos(g.0));
    lemma_opt_stamp_has(c, im, Coef::Pos(g.1));
    lemma_cell_concat(a, b, j, re, Coef::Neg(g.0));
    lemma_cell_concat(a + b, d, j, re, Coef::Neg(g.0));
    lemma_cell_concat(a + b + d, e, j, re, Coef::Neg(g.0));
    lemma_cell_concat(a, b, j, im, Coef::Neg(g.1));
    lemma_cell_concat(a + b, d, j, im, Coef::Neg(g.1));
    lemma_cell_concat(a + b + d, e, j, im, Coef::Neg(g.1));
    lemma_cell_concat(a + b, d, c, re, Coef::Pos(g.0));
    lemma_cell_concat(a + b + d, e, c, re, Coef::Pos(g.0));
    lemma_cell_concat(a + b + d, e, c, im, Coef::Pos(g.1));
}

/// Each channel's photocurrent is sloped by that channel's own field: for
/// every channel `k < n`, the current drawn out of the junction row `j` and
/// injected into the cathode row `c` depends on channel `k`'s forward re
/// and im wires (`wpc·k`, `wpc·k + 1`) with slopes `g_fw[k]`, and under
/// bidirectional propagation on its backward wires (`wpc·k + 2`, `+ 3`)
/// with slopes `g_bw[k]`.
pub proof fn lemma_detector_channel_slopes<T>(
    nodes: Seq<NodeId>, wpc: int, j: NodeId, c: NodeId, g_fw: Seq<(T, T)>, g_bw: Seq<(T, T)>, n: nat, k: int,
)
    requires
        0 <= k < n,
    ensures
        ({
            let st = channels_stamps(nodes, wpc, j, c, g_fw, g_bw, n);
            &&& cell_has(st, j, nodes[wpc * k], Coef::Neg(g_fw[k].0))
            &&& cell_has(st, j, nodes[wpc * k + 1], Coef::Neg(g_fw[k].1))
            &&& cell_has(st, c, nodes[wpc * k], Coef::Pos(g_fw[k].0))
            &&& cell_has(st, c, nodes[wpc * k + 1], Coef::Pos(g_fw[k].1))
        }),
        wpc == 5 ==> ({
            let st = channels_stamps(nodes, wpc, j, c, g_fw, g_bw, n);
            &&& cell_has(st, j, nodes[wpc * k + 2], Coef::Neg(g_bw[k].0))
            &&& cell_has(st, j, nodes[wpc * k + 3], Coef::Neg(g_bw[k].1))
            &&& cell_has(st, c, nodes[wpc * k + 2], Coef::Pos(g_bw[k].0))
            &&& cell_has(st, c, nodes[wpc * k + 3], Coef::Pos(g_bw[k].1))
        }),
{
    let fw = pair_stamps(j, c, nodes[wpc * k], nodes[wpc * k + 1], g_fw[k]);
    let bw: Seq<Stamp<T>> = if wpc == 5 { pair_stamps(j, c, nodes[wpc * k + 2], nodes[wpc * k + 3], g_bw[k]) } else { Seq::empty() };
    assert(channel_stamps(nodes, wpc, j, c, g_fw, g_bw, k) == fw + bw);
    lemma_pair_has(j, c, nodes[wpc * k], nodes[wpc * k + 1], g_fw[k]);
    let cells = seq![
        (j, nodes[wpc * k], Coef::Neg(g_fw[k].0)), (j, nodes[wpc * k + 1], Coef::Neg(g_fw[k].1)),
        (c, nodes[wpc * k], Coef::Pos(g_fw[k].0)), (c, nodes[wpc * k + 1], Coef::Pos(g_fw[k].1))];
    assert forall|q: int| 0 <= q < 4 implies #[trigger] cell_has(channels_stamps(nodes, wpc, j, c, g_fw, g_bw, n), cells[q].0, cells[q].1, cells[q].2) by {
        lemma_cell_concat(fw, bw, cells[q].0, cells[q].1, cells[q].2);
        lemma_channels_have(nodes, wpc, j, c, g_fw, g_bw, n, k, cells[q].0, cells[q].1, cells[q].2);
    }
    assert(cell_has(channels_stamps(nodes, wpc, j, c, g_fw, g_bw, n), cells[0].0, cells[0].1, cells[0].2));
    assert(cell_has(channels_stamps(nodes, wpc, j, c, g_fw, g_bw, n), cells[1].0, cells[1].1, cells[1].2));
    assert(cell_has(channels_stamps(nodes, wpc, j, c, g_fw, g_bw, n), cells[2].0, cells[2].1, cells[2].2));
    assert(cell_has(channels_stamps(nodes, wpc, j, c, g_fw, g_bw, n), cells[3].0, cells[3].1, cells[3].2));
    if wpc == 5 {
        lemma_pair_has(j, c, nodes[wpc * k + 2], nodes[wpc * k + 3], g_bw[k]);
        let bcells = seq![
            (j, nodes[wpc * k + 2], Coef::Neg(g_bw[k].0)), (j, nodes[wpc * k + 3], Coef::Neg(g_bw[k].1)),
            (c, nodes[wpc * k + 2], Coef::Pos(g_bw[k].0)), (c, nodes[wpc * k + 3], Coef::Pos(g_bw[k].1))];
        assert forall|q: int| 0 <= q < 4 implies #[trigger] cell_has(channels_stamps(nodes, wpc, j, c, g_fw, g_bw, n), bcells[q].0, bcells[q].1, bcells[q].2) by {
            lemma_cell_concat(fw, bw, bcells[q].0, bcells[q].1, bcells[q].2);
            lemma_channels_have(nodes, wpc, j, c, g_fw, g_bw, n, k, bcells[q].0, bcells[q].1, bcells[q].2);
        }
        assert(cell_has(channels_stamps(nodes, wpc, j, c, g_fw, g_bw, n), bcells[0].0, bcells[0].1, bcells[0].2));
        assert(cell_has(channels_stamps(nodes, wpc, j, c, g_fw, g_bw, n), bcells[1].0, bcells[1].1, bcells[1].2));
        assert(cell_has(channels_stamps(nodes, wpc, j, c, g_fw, g_bw, n), bcells[2].0, bcells[2].1, bcells[2].2));
        assert(cell_has(channels_stamps(nodes, wpc, j, c, g_fw, g_bw, n), bcells[3].0, bcells[3].1, bcells[3].2));
    }
}

} // verus!
