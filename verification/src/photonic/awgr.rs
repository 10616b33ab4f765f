//! Port wiring and ideal routing of the N×N cyclic arrayed-waveguide
//! grating router (`fc_awgr`).
//!
//! Input port `i` carrying channel `k` is routed to output port
//! `j = (i + k) mod N`, still in channel slot `k` — the cyclic wavelength
//! shift that makes an AWGR an all-to-all interconnect: every output port
//! receives exactly one wavelength from every input port.
//!
//! Terminals: all `N` input ports, then all `N` output ports; each port
//! contributes its `N` channels in order, each channel `wpc` wires —
//! `2·wpc·N²` in all. Unidirectional propagation only (`wpc = 3`).

use vstd::prelude::*;
use crate::device::{NodeId, bind_contiguous, bound_from, copy_nodes, unbound_rows};
use crate::mna::{lemma_rows_couple, row_couples, Coef, Row, Stamp, blocked, branch_slots_exact, coupling_stamps, lemma_blocked, lemma_rows_stamps_empty, lemma_rows_stamps_take, potential_eq_stamps, rows_stamps, stamp_potential_eq};

verus! {

/// Branch rows per output channel slot: out_re, out_im, out_λ.
pub const BRANCHES_PER_SLOT: usize = 3;

/// The channel slot that input port `i` passes to output port `j`: the
/// cyclic shift `(j − i) mod n`.
pub open spec fn routed_channel_spec(i: int, j: int, n: int) -> int {
    (j + n - i) % n
}

/// The channel slot that input port `i` passes to output port `j` of an
/// `n`-port router.
pub fn routed_channel(i: usize, j: usize, n: usize) -> (m: usize)
    requires
        i < n,
        j < n,
        j + n <= usize::MAX,
    ensures
        m == routed_channel_spec(i as int, j as int, n as int),
        m < n,
{
    (j + n - i) % n
}

/// Whether the ideal (lossless permutation) router couples input `i` to
/// output `j` in channel slot `k`.
pub fn ideal_passes(i: usize, j: usize, k: usize, n: usize) -> (b: bool)
    requires
        i < n,
        j < n,
        j + n <= usize::MAX,
    ensures
        b == (routed_channel_spec(i as int, j as int, n as int) == k),
{
    routed_channel(i, j, n) == k
}

// ── Laws ───────────────────────────────────────────────────────────────────

/// Input `i`, channel `k` reaches output `(i + k) mod n` and no other.
pub proof fn lemma_ideal_route_unique(i: int, k: int, n: int)
    requires
        0 <= i < n,
        0 <= k < n,
    ensures
        routed_channel_spec(i, (i + k) % n, n) == k,
        forall|j: int| 0 <= j < n && #[trigger] routed_channel_spec(i, j, n) == k ==> j == (i + k) % n,
{
    let j0 = (i + k) % n;
    assert(routed_channel_spec(i, j0, n) == k) by (nonlinear_arith)
        requires 0 <= i < n, 0 <= k < n, j0 == (i + k) % n;
    assert forall|j: int| 0 <= j < n && #[trigger] routed_channel_spec(i, j, n) == k implies j == (i + k) % n by {
        assert(j == (i + k) % n) by (nonlinear_arith)
            requires 0 <= i < n, 0 <= k < n, 0 <= j < n, (j + n - i) % n == k;
    }
}

/// Every output port receives exactly one channel from every input port,
/// and in every channel slot exactly one input reaches it.
pub proof fn lemma_ideal_all_to_all(j: int, n: int)
    requires
        0 <= j < n,
    ensures
        forall|i: int| 0 <= i < n ==> 0 <= #[trigger] routed_channel_spec(i, j, n) < n,
        forall|k: int| 0 <= k < n ==> {
            let i0 = #[trigger] ((j + n - k) % n);
            &&& 0 <= i0 < n
            &&& routed_channel_spec(i0, j, n) == k
            &&& forall|i: int| 0 <= i < n && routed_channel_spec(i, j, n) == k ==> i == i0
        },
{
    assert forall|i: int| 0 <= i < n implies 0 <= #[trigger] routed_channel_spec(i, j, n) < n by {
        assert(0 <= (j + n - i) % n < n) by (nonlinear_arith) requires 0 <= i < n, 0 <= j < n;
    }
    assert forall|k: int| 0 <= k < n implies {
        let i0 = #[trigger] ((j + n - k) % n);
        &&& 0 <= i0 < n
        &&& routed_channel_spec(i0, j, n) == k
        &&& forall|i: int| 0 <= i < n && routed_channel_spec(i, j, n) == k ==> i == i0
    } by {
        let i0 = (j + n - k) % n;
        assert(0 <= i0 < n && (j + n - i0) % n == k) by (nonlinear_arith)
            requires 0 <= k < n, 0 <= j < n, i0 == (j + n - k) % n;
        assert forall|i: int| 0 <= i < n && routed_channel_spec(i, j, n) == k implies i == i0 by {
            assert(i == i0) by (nonlinear_arith)
                requires 0 <= k < n, 0 <= j < n, 0 <= i < n, i0 == (j + n - k) % n, (j + n - i) % n == k;
        }
    }
}

/// Terminal position of input port `i`, slot `k`, wire `w`.
pub open spec fn in_pos(wpc: int, n: int, i: int, k: int, w: int) -> int {
    wpc * n * i + wpc * k + w
}

/// Terminal position of output port `j`, slot `k`, wire `w`.
pub open spec fn out_pos(wpc: int, n: int, j: int, k: int, w: int) -> int {
    wpc * n * (n + j) + wpc * k + w
}

/// Terminal and branch-row wiring of an AWG router.
pub struct AwgrPorts {
    n: usize,
    wpc: usize,
    /// Smallest terminal count that would have worked, recorded when
    /// `setup_instance` refuses.
    min_terminals: Option<usize>,
    nodes: Vec<NodeId>,
    branches: Vec<Option<usize>>,
}

impl AwgrPorts {
    pub closed spec fn n(&self) -> nat {
        self.n as nat
    }

    pub closed spec fn wpc(&self) -> nat {
        self.wpc as nat
    }

    pub closed spec fn min_terminals(&self) -> Option<usize> {
        self.min_terminals
    }

    pub closed spec fn nodes(&self) -> Seq<NodeId> {
        self.nodes@
    }

    pub closed spec fn branches(&self) -> Seq<Option<usize>> {
        self.branches@
    }

    /// Terminals are `2·wpc·n²` and branch rows `3·n²`; a configured
    /// router is unidirectional.
    pub open spec fn wf(&self) -> bool {
        &&& self.n() > 0 ==> self.wpc() == 3
        &&& self.nodes().len() == 2 * self.wpc() * self.n() * self.n()
        &&& self.branches().len() == 3 * self.n() * self.n()
    }

    pub fn new() -> (s: Self)
        ensures
            s.wf(),
            s.n() == 0,
            s.wpc() == 3,
            s.min_terminals() == None::<usize>,
            s.nodes() == Seq::<NodeId>::empty(),
            s.branches() == Seq::<Option<usize>>::empty(),
    {
        AwgrPorts { n: 0, wpc: 3, min_terminals: None, nodes: Vec::new(), branches: Vec::new() }
    }

    /// Port count, known after `setup_instance`.
    pub fn n_ports(&self) -> (r: usize)
        ensures
            r == self.n(),
    {
        self.n
    }

    /// The terminal count: the smallest usable one after a refused setup,
    /// the configured one otherwise.
    pub fn num_terminals(&self) -> (r: usize)
        ensures
            r == match self.min_terminals() {
                Some(m) => m as int,
                None => self.nodes().len() as int,
            },
    {
        if let Some(min) = self.min_terminals {
            return min;
        }
        self.nodes.len()
    }

    /// Record the simulation's wires-per-channel. Only an unconfigured
    /// instance may change width.
    pub fn setup_model(&mut self, wires_per_channel: usize)
        requires
            old(self).wf(),
            old(self).n() == 0,
        ensures
            final(self).wf(),
            final(self).wpc() == wires_per_channel,
            final(self).n() == old(self).n(),
            final(self).min_terminals() == old(self).min_terminals(),
            final(self).nodes() == old(self).nodes(),
            final(self).branches() == old(self).branches(),
    {
        self.wpc = wires_per_channel;
        assert(2 * self.wpc() * self.n() * self.n() == 0 && 3 * self.n() * self.n() == 0) by (nonlinear_arith)
            requires self.n() == 0;
    }

    /// Configure from the instance terminals, which must number `2·3·n²`
    /// for some `n ≥ 1`. Under bidirectional propagation, or for any other
    /// count, the instance is declined, keeps its previous wiring and
    /// reports 6 as the smallest usable count. Returns whether the cause is
    /// bidirectional propagation, which the caller should tell the user.
    pub fn setup_instance(&mut self, terminals: &[NodeId], wires_per_channel: usize) -> (bidir: bool)
        requires
            old(self).wf(),
        ensures
            final(self).wf(),
            bidir == (wires_per_channel != 3),
            ({
                let len = terminals@.len() as int;
                if wires_per_channel != 3 {
                    &&& final(self).min_terminals() == Some(6usize)
                    &&& final(self).wpc() == old(self).wpc()
                    &&& final(self).n() == old(self).n()
                    &&& final(self).nodes() == old(self).nodes()
                    &&& final(self).branches() == old(self).branches()
                } else if forall|m: int| 1 <= m ==> #[trigger] (6 * m * m) != len {
                    &&& final(self).min_terminals() == Some(6usize)
                    &&& final(self).wpc() == 3
                    &&& final(self).n() == old(self).n()
                    &&& final(self).nodes() == old(self).nodes()
                    &&& final(self).branches() == old(self).branches()
                } else {
                    &&& final(self).min_terminals() == None::<usize>
                    &&& final(self).wpc() == 3
                    &&& final(self).n() >= 1
                    &&& 6 * final(self).n() * final(self).n() == len
                    &&& final(self).nodes() == terminals@
                    &&& final(self).branches() == Seq::new(
                        3 * final(self).n() * final(self).n(),
                        |i: int| None::<usize>,
                    )
                }
            }),
    {
        if wires_per_channel != 3 {
            self.min_terminals = Some(2 * 3);
            return true;
        }
        self.wpc = 3;
        let len = terminals.len();
        // 2 sides × n ports × n channels × 3 wires: find n with 6·n² = len.
        let q = len / 6;
        let mut n: usize = 0;
        while (n + 1) * (n + 1) <= q
            invariant
                n * n <= q,
                n <= q,
                (n + 1) * (n + 1) <= 3 * q + 1,
                q == len / 6,
                q <= usize::MAX / 6,
            decreases q - n * n,
        {
            proof {
                assert((n + 1) * (n + 1) > n * n) by (nonlinear_arith);
            }
            n = n + 1;
            proof {
                assert((n + 1) * (n + 1) <= 3 * q + 1 && n <= q) by (nonlinear_arith) requires n * n <= q, n >= 1;
            }
        }
        assert(6 * n * n <= 6 * q) by (nonlinear_arith) requires n * n <= q;
        if n == 0 || 6 * n * n != len {
            proof {
                assert forall|m: int| 1 <= m implies #[trigger] (6 * m * m) != len as int by {
                    if 6 * m * m == len as int {
                        assert(m * m == q) by (nonlinear_arith) requires 6 * m * m == len as int, q == (len as int) / 6;
                        if m > n {
                            assert(m * m > q) by (nonlinear_arith) requires m >= n + 1, (n + 1) * (n + 1) > q;
                        } else if m < n {
                            assert(m * m < n * n) by (nonlinear_arith) requires 1 <= m < n;
                        }
                    }
                }
            }
            self.min_terminals = Some(2 * 3);
            assert(self.wf()) by {
                if self.n() == 0 {
                    let w0 = old(self).wpc();
                    let n0 = self.n();
                    assert(2 * w0 * n0 * n0 == 0) by (nonlinear_arith)
                        requires n0 == 0;
                    assert(2 * self.wpc() * self.n() * self.n() == 0) by (nonlinear_arith)
                        requires self.n() == 0;
                }
            }
            return false;
        }
        assert(3 * n * n <= len) by (nonlinear_arith) requires 6 * n * n == len;
        self.min_terminals = None;
        self.n = n;
        self.nodes = copy_nodes(terminals);
        self.branches = unbound_rows(BRANCHES_PER_SLOT * n * n);
        assert(self.branches@ =~= Seq::new(3 * (n as nat) * (n as nat), |i: int| None::<usize>));
        false
    }

    pub fn num_extra_nodes(&self) -> (r: usize)
        ensures
            r == self.branches().len(),
    {
        self.branches.len()
    }

    /// Bind the branch rows to the contiguous block starting at `first_idx`.
    pub fn bind_extra_nodes(&mut self, first_idx: usize)
        requires
            first_idx + old(self).branches().len() <= usize::MAX,
        ensures
            final(self).branches().len() == old(self).branches().len(),
            bound_from(final(self).branches(), first_idx as int),
            final(self).n() == old(self).n(),
            final(self).wpc() == old(self).wpc(),
            final(self).min_terminals() == old(self).min_terminals(),
            final(self).nodes() == old(self).nodes(),
    {
        bind_contiguous(&mut self.branches, first_idx);
    }

    /// Wire `w` of input port `i`, slot `k`.
    pub fn in_wire(&self, i: usize, k: usize, w: usize) -> (r: NodeId)
        requires
            self.wf(),
            i < self.n(),
            k < self.n(),
            w < self.wpc(),
        ensures
            r == self.nodes()[in_pos(self.wpc() as int, self.n() as int, i as int, k as int, w as int)],
    {
        let (n, wpc) = (self.n, self.wpc);
        proof { lemma_port_pos(wpc as int, n as int, i as int, k as int, w as int); }
        let _len = self.nodes.len();
        self.nodes[wpc * n * i + wpc * k + w]
    }

    /// Wire `w` of output port `j`, slot `k`.
    pub fn out_wire(&self, j: usize, k: usize, w: usize) -> (r: NodeId)
        requires
            self.wf(),
            j < self.n(),
            k < self.n(),
            w < self.wpc(),
        ensures
            r == self.nodes()[out_pos(self.wpc() as int, self.n() as int, j as int, k as int, w as int)],
    {
        let (n, wpc) = (self.n, self.wpc);
        proof {
            lemma_port_pos(wpc as int, n as int, n + j, k as int, w as int);
            assert(n + j < 2 * wpc * n * n) by (nonlinear_arith) requires j < n, k < n, w < wpc;
        }
        let _len = self.nodes.len();
        self.nodes[wpc * n * (n + j) + wpc * k + w]
    }

    /// The λ wire whose tag output slot `k` mirrors: input port
    /// `lambda_src`'s λ wire in slot `k` when `0 ≤ lambda_src < n`, else
    /// none (the output then carries the device grid's wavelength).
    pub fn lambda_source_wire(&self, lambda_src: i64, k: usize) -> (r: NodeId)
        requires
            self.wf(),
            k < self.n(),
            self.wpc() >= 1,
        ensures
            r == if 0 <= lambda_src < self.n() {
                self.nodes()[in_pos(self.wpc() as int, self.n() as int, lambda_src as int, k as int, self.wpc() - 1)]
            } else {
                None
            },
    {
        if lambda_src < 0 {
            return None;
        }
        let s = lambda_src as u64;
        if s >= self.n as u64 {
            return None;
        }
        self.in_wire(s as usize, k, self.wpc - 1)
    }
}

/// Positions of a port-major layout stay inside `2·wpc·n²` terminals.
proof fn lemma_port_pos(wpc: int, n: int, p: int, k: int, w: int)
    requires
        0 <= p < 2 * n,
        0 <= k < n,
        0 <= w < wpc,
    ensures
        0 <= wpc * n * p + wpc * k + w < 2 * wpc * n * n,
        0 <= wpc * n <= 2 * wpc * n * n,
        0 <= wpc * n * p <= 2 * wpc * n * n,
        0 <= wpc * k <= 2 * wpc * n * n,
{
    assert(0 <= wpc * n <= 2 * wpc * n * n) by (nonlinear_arith) requires 0 <= k < n, 0 <= w < wpc;
    assert(wpc * n * p <= 2 * wpc * n * n) by (nonlinear_arith) requires 0 <= p < 2 * n, 0 <= w < wpc;
    assert(0 <= wpc * k <= 2 * wpc * n * n) by (nonlinear_arith) requires 0 <= k < n, 0 <= w < wpc;
    assert(0 <= wpc * n * p + wpc * k + w < 2 * wpc * n * n) by (nonlinear_arith)
        requires 0 <= p < 2 * n, 0 <= k < n, 0 <= w < wpc;
    assert(0 <= wpc * n * p) by (nonlinear_arith) requires 0 <= p, 0 <= n, 0 <= w < wpc;
}

// ── Equations ──────────────────────────────────────────────────────────────

/// The couplings of output slot `(j, k)`'s `re` row (`im == false`) or `im`
/// row (`im == true`): for every input port `i`, with `t[(j·n + k)·n + i] =
/// (a, b)` the complex transmission from input `i` slot `k`,
///
/// ```text
///   out.re = Σ a·in.re − b·in.im        out.im = Σ b·in.re + a·in.im
/// ```
///
/// written as `V(out) + Σ k·V(in) = 0`.
pub open spec fn awgr_field_ins<T>(nodes: Seq<NodeId>, wpc: int, n: int, t: Seq<(T, T)>, j: int, k: int, im: bool) -> Seq<(NodeId, Coef<T>)> {
    Seq::new((2 * n) as nat, |q: int| {
        let i = q / 2;
        let ab = t[(j * n + k) * n + i];
        if q % 2 == 0 {
            (nodes[in_pos(wpc, n, i, k, 0)], if im { Coef::Neg(ab.1) } else { Coef::Neg(ab.0) })
        } else {
            (nodes[in_pos(wpc, n, i, k, 1)], if im { Coef::Neg(ab.0) } else { Coef::Pos(ab.1) })
        }
    })
}

/// The λ wire output slot `k` mirrors: input port `src`'s λ wire in slot
/// `k`, when `src` names a port; none otherwise.
pub open spec fn awgr_lambda_wire(nodes: Seq<NodeId>, wpc: int, n: int, src: int, k: int) -> NodeId {
    if 0 <= src < n { nodes[in_pos(wpc, n, src, k, wpc - 1)] } else { None }
}

/// Equation `r` of output slot `s = j·n + k`: the `re` and `im` field rows,
/// then the λ row, which copies the mirrored λ wire when there is one and is
/// otherwise left for the right-hand side to pin to the grid wavelength.
pub open spec fn awgr_row<T>(nodes: Seq<NodeId>, wpc: int, n: int, t: Seq<(T, T)>, src: int, s: int, r: int) -> Row<T> {
    let (j, k) = (s / n, s % n);
    if r == 0 {
        (3 * s, nodes[out_pos(wpc, n, j, k, 0)], awgr_field_ins(nodes, wpc, n, t, j, k, false))
    } else if r == 1 {
        (3 * s + 1, nodes[out_pos(wpc, n, j, k, 1)], awgr_field_ins(nodes, wpc, n, t, j, k, true))
    } else {
        (3 * s + 2, nodes[out_pos(wpc, n, j, k, wpc - 1)], match awgr_lambda_wire(nodes, wpc, n, src, k) {
            Some(w) => seq![(Some(w), Coef::<T>::NegOne)],
            None => Seq::empty(),
        })
    }
}

/// The router's equations, slot after slot (`j` outer, `k` inner).
pub open spec fn awgr_rows<T>(nodes: Seq<NodeId>, wpc: int, n: int, t: Seq<(T, T)>, src: int) -> Seq<Row<T>> {
    blocked(3, (n * n) as nat, |s: int, r: int| awgr_row(nodes, wpc, n, t, src, s, r))
}

/// The `(slot row, channel)` pairs whose λ row has no mirrored wire and is
/// pinned to channel `k`'s grid wavelength on the right-hand side, slot
/// after slot.
pub open spec fn awgr_grid_lambda_slots(nodes: Seq<NodeId>, wpc: int, n: int, src: int, count: nat) -> Seq<(usize, usize)>
    decreases count,
{
    if count == 0 {
        Seq::empty()
    } else {
        let s = count - 1;
        awgr_grid_lambda_slots(nodes, wpc, n, src, s as nat) + if awgr_lambda_wire(nodes, wpc, n, src, s % n) is None {
            seq![((3 * s + 2) as usize, (s % n) as usize)]
        } else {
            Seq::empty()
        }
    }
}

proof fn lemma_slot_index(n: int, j: int, k: int, i: int)
    requires
        0 <= j < n,
        0 <= k < n,
        0 <= i < n,
    ensures
        (j * n + k) / n == j,
        (j * n + k) % n == k,
        0 <= j * n + k < n * n,
        0 <= (j * n + k) * n + i < n * n * n,
        j * n + k + 1 <= n * n,
{
    assert((j * n + k) / n == j && (j * n + k) % n == k) by (nonlinear_arith) requires 0 <= k < n, 0 <= j;
    assert(0 <= j * n + k < n * n && j * n + k + 1 <= n * n) by (nonlinear_arith) requires 0 <= j < n, 0 <= k < n;
    assert(0 <= (j * n + k) * n + i < n * n * n) by (nonlinear_arith)
        requires 0 <= j * n + k < n * n, 0 <= i < n;
}

/// Output port `j` in channel slot `k` is fed from every input port `i`
/// through the transmission `t[(j·n + k)·n + i] = (a, b)` (the complex factor
/// `a + jb` applied to input `i`'s slot-`k` field): the re row, on branch
/// slot `3·(j·n + k)`, takes `−a` on `in.re` and `+b` on `in.im`; the im row,
/// on the next slot, `−b` on `in.re` and `−a` on `in.im`. Port `p`'s wire `w`
/// in slot `k` is terminal `wpc·n·p + wpc·k + w`, the `n` input ports first
/// and output port `j` at `p = n + j`. With the ideal permutation `t`, zero
/// unless `(j + n − i) mod n = k` (see `lemma_ideal_all_to_all`), the slot is
/// driven by input `(j + n − k) mod n` alone.
pub proof fn lemma_awgr_transmission<T>(
    nodes: Seq<NodeId>,
    branches: Seq<Option<usize>>,
    wpc: int,
    n: int,
    t: Seq<(T, T)>,
    src: int,
    j: int,
    k: int,
    i: int,
)
    requires
        2 <= wpc,
        0 <= j < n,
        0 <= k < n,
        0 <= i < n,
        branches.len() == 3 * n * n,
        t.len() == n * n * n,
    ensures
        ({
            let st = rows_stamps(branches, awgr_rows(nodes, wpc, n, t, src));
            let tr = t[(j * n + k) * n + i];
            let (out_re, out_im) = (nodes[wpc * n * (n + j) + wpc * k], nodes[wpc * n * (n + j) + wpc * k + 1]);
            let (in_re, in_im) = (nodes[wpc * n * i + wpc * k], nodes[wpc * n * i + wpc * k + 1]);
            &&& row_couples(st, branches[3 * (j * n + k)], out_re, in_re, Coef::Neg(tr.0))
            &&& row_couples(st, branches[3 * (j * n + k)], out_re, in_im, Coef::Pos(tr.1))
            &&& row_couples(st, branches[3 * (j * n + k) + 1], out_im, in_re, Coef::Neg(tr.1))
            &&& row_couples(st, branches[3 * (j * n + k) + 1], out_im, in_im, Coef::Neg(tr.0))
        }),
{
    let rows = awgr_rows(nodes, wpc, n, t, src);
    let f = |s: int, r: int| awgr_row(nodes, wpc, n, t, src, s, r);
    assert(rows == blocked(3, (n * n) as nat, f));
    lemma_slot_index(n, j, k, i);
    let s = j * n + k;
    lemma_blocked(3, (n * n) as nat, f, s, 0);
    lemma_blocked(3, (n * n) as nat, f, s, 1);
    assert(3 * n * n == 3 * (n * n)) by (nonlinear_arith);
    assert((2 * i) / 2 == i && (2 * i) % 2 == 0 && (2 * i + 1) / 2 == i && (2 * i + 1) % 2 == 1);
    lemma_rows_couple(branches, rows, 3 * s, 2 * i);
    lemma_rows_couple(branches, rows, 3 * s, 2 * i + 1);
    lemma_rows_couple(branches, rows, 3 * s + 1, 2 * i);
    lemma_rows_couple(branches, rows, 3 * s + 1, 2 * i + 1);
}

impl AwgrPorts {
    /// The couplings of one field row of output slot `(j, k)`.
    fn field_ins<T: Copy>(&self, t: &[(T, T)], j: usize, k: usize, im: bool) -> (v: Vec<(NodeId, Coef<T>)>)
        requires
            self.wf(),
            self.n() >= 1,
            j < self.n(),
            k < self.n(),
            t@.len() == self.n() * self.n() * self.n(),
        ensures
            v@ == awgr_field_ins(self.nodes(), self.wpc() as int, self.n() as int, t@, j as int, k as int, im),
    {
        let n = self.n;
        let ghost f = awgr_field_ins(self.nodes(), self.wpc() as int, n as int, t@, j as int, k as int, im);
        let tl = t.len();
        let mut v: Vec<(NodeId, Coef<T>)> = Vec::new();
        let mut i: usize = 0;
        while i < n
            invariant
                self.wf(),
                n == self.n(),
                n >= 1,
                tl == t@.len(),
                j < n,
                k < n,
                i <= n,
                t@.len() == n * n * n,
                f == awgr_field_ins(self.nodes(), self.wpc() as int, n as int, t@, j as int, k as int, im),
                f.len() == 2 * n,
                v@ == f.take(2 * i),
            decreases n - i,
        {
            proof {
                lemma_slot_index(n as int, j as int, k as int, i as int);
                let sk = j * n + k;
                assert(sk <= sk * n && j * n <= sk) by (nonlinear_arith) requires n >= 1, sk == j * n + k;
            }
            let idx = (j * n + k) * n + i;
            let (a, b) = t[idx];
            let re = self.in_wire(i, k, 0);
            let imw = self.in_wire(i, k, 1);
            assert((2 * i) / 2 == i && (2 * i) % 2 == 0 && (2 * i + 1) / 2 == i && (2 * i + 1) % 2 == 1);
            if im {
                v.push((re, Coef::Neg(b)));
                v.push((imw, Coef::Neg(a)));
            } else {
                v.push((re, Coef::Neg(a)));
                v.push((imw, Coef::Pos(b)));
            }
            assert(v@ =~= f.take(2 * (i + 1)));
            i = i + 1;
        }
        assert(f.take(2 * n) =~= f);
        v
    }

    /// Stamp the three equations of output slot `(j, k)`.
    fn stamp_slot<T: Copy>(
        &self,
        mat: &mut Vec<Stamp<T>>,
        t: &[(T, T)],
        lambda_src: i64,
        j: usize,
        k: usize,
        Ghost(start): Ghost<Seq<Stamp<T>>>,
    )
        requires
            self.wf(),
            self.n() >= 1,
            j < self.n(),
            k < self.n(),
            t@.len() == self.n() * self.n() * self.n(),
            old(mat)@ == start + rows_stamps(
                self.branches(),
                awgr_rows(self.nodes(), self.wpc() as int, self.n() as int, t@, lambda_src as int).take(3 * (j * self.n() + k)),
            ),
        ensures
            final(mat)@ == start + rows_stamps(
                self.branches(),
                awgr_rows(self.nodes(), self.wpc() as int, self.n() as int, t@, lambda_src as int).take(3 * (j * self.n() + k) + 3),
            ),
    {
        let n = self.n;
        let ghost rows = awgr_rows(self.nodes(), self.wpc() as int, n as int, t@, lambda_src as int);
        let ghost f = |s: int, r: int| awgr_row(self.nodes(), self.wpc() as int, n as int, t@, lambda_src as int, s, r);
        assert(rows == blocked(3, (n * n) as nat, f));
        proof { lemma_slot_index(n as int, j as int, k as int, 0); }
        let nb = self.branches.len();
        assert(nb == 3 * (n * n)) by (nonlinear_arith) requires nb == 3 * n * n;
        let s = j * n + k;
        let slot = BRANCHES_PER_SLOT * s;
        let lam = self.wpc - 1;
        proof {
            lemma_blocked(3, (n * n) as nat, f, s as int, 0);
            lemma_blocked(3, (n * n) as nat, f, s as int, 1);
            lemma_blocked(3, (n * n) as nat, f, s as int, 2);
            lemma_rows_stamps_take(self.branches(), rows, 3 * s as int);
            lemma_rows_stamps_take(self.branches(), rows, 3 * s + 1);
            lemma_rows_stamps_take(self.branches(), rows, 3 * s + 2);
        }
        let re_ins = self.field_ins(t, j, k, false);
        stamp_potential_eq(mat, &self.branches, slot, self.out_wire(j, k, 0), re_ins.as_slice());
        let im_ins = self.field_ins(t, j, k, true);
        stamp_potential_eq(mat, &self.branches, slot + 1, self.out_wire(j, k, 1), im_ins.as_slice());
        let src = self.lambda_source_wire(lambda_src, k);
        let out_lam = self.out_wire(j, k, lam);
        match src {
            Some(w) => {
                let ins = [(Some(w), Coef::NegOne)];
                assert(ins@ =~= seq![(Some(w), Coef::<T>::NegOne)]);
                stamp_potential_eq(mat, &self.branches, slot + 2, out_lam, &ins);
            },
            None => {
                let ins: [(NodeId, Coef<T>); 0] = [];
                assert(ins@ =~= Seq::<(NodeId, Coef<T>)>::empty());
                stamp_potential_eq(mat, &self.branches, slot + 2, out_lam, &ins);
            },
        }
    }

    /// Stamp every output slot's equations with the transmissions
    /// `t[(j·n + k)·n + i]` from input `i` to output `j` in slot `k`, the λ
    /// rows mirroring input port `lambda_src` when it names one.
    pub fn load_jacobian<T: Copy>(&self, mat: &mut Vec<Stamp<T>>, t: &[(T, T)], lambda_src: i64)
        requires
            self.wf(),
            t@.len() == self.n() * self.n() * self.n(),
        ensures
            final(mat)@ == old(mat)@ + rows_stamps(
                self.branches(),
                awgr_rows(self.nodes(), self.wpc() as int, self.n() as int, t@, lambda_src as int),
            ),
    {
        let n = self.n;
        let ghost rows = awgr_rows(self.nodes(), self.wpc() as int, n as int, t@, lambda_src as int);
        let ghost start = mat@;
        assert(rows.take(0) =~= Seq::<Row<T>>::empty());
        proof { lemma_rows_stamps_empty(self.branches(), rows.take(0)); }
        assert(start + Seq::<Stamp<T>>::empty() =~= start);
        let mut j: usize = 0;
        while j < n
            invariant
                self.wf(),
                n == self.n(),
                j <= n,
                t@.len() == n * n * n,
                rows == awgr_rows(self.nodes(), self.wpc() as int, n as int, t@, lambda_src as int),
                mat@ == start + rows_stamps(self.branches(), rows.take(3 * (j * n))),
            decreases n - j,
        {
            let mut k: usize = 0;
            while k < n
                invariant
                    self.wf(),
                    n == self.n(),
                    j < n,
                    k <= n,
                    t@.len() == n * n * n,
                    rows == awgr_rows(self.nodes(), self.wpc() as int, n as int, t@, lambda_src as int),
                    mat@ == start + rows_stamps(self.branches(), rows.take(3 * (j * n + k))),
                decreases n - k,
            {
                self.stamp_slot(mat, t, lambda_src, j, k, Ghost(start));
                assert(3 * (j * n + k) + 3 == 3 * (j * n + (k + 1)));
                k = k + 1;
            }
            assert(j * n + n == (j + 1) * n) by (nonlinear_arith);
            j = j + 1;
        }
        assert(rows.len() == 3 * (n * n));
        assert(rows.take(3 * (n * n)) =~= rows);
    }

    /// The λ rows pinned to the grid: for each output slot `(j, k)` whose λ
    /// row mirrors no wire, its branch slot and the channel `k` whose grid
    /// wavelength goes on the right-hand side, slot after slot.
    pub fn grid_lambda_slots(&self, lambda_src: i64) -> (v: Vec<(usize, usize)>)
        requires
            self.wf(),
        ensures
            v@ == awgr_grid_lambda_slots(self.nodes(), self.wpc() as int, self.n() as int, lambda_src as int, self.n() * self.n()),
    {
        let n = self.n;
        let mut v: Vec<(usize, usize)> = Vec::new();
        let mut j: usize = 0;
        while j < n
            invariant
                self.wf(),
                n == self.n(),
                j <= n,
                v@ == awgr_grid_lambda_slots(self.nodes(), self.wpc() as int, n as int, lambda_src as int, (j * n) as nat),
            decreases n - j,
        {
            let mut k: usize = 0;
            while k < n
                invariant
                    self.wf(),
                    n == self.n(),
                    j < n,
                    k <= n,
                    v@ == awgr_grid_lambda_slots(self.nodes(), self.wpc() as int, n as int, lambda_src as int, (j * n + k) as nat),
                decreases n - k,
            {
                proof { lemma_slot_index(n as int, j as int, k as int, 0); }
                let nb = self.branches.len();
                assert(nb == 3 * (n * n)) by (nonlinear_arith) requires nb == 3 * n * n;
                let s = j * n + k;
                if self.lambda_source_wire(lambda_src, k).is_none() {
                    v.push((BRANCHES_PER_SLOT * s + 2, k));
                }
                assert(v@ =~= awgr_grid_lambda_slots(self.nodes(), self.wpc() as int, n as int, lambda_src as int, (j * n + k + 1) as nat));
                k = k + 1;
            }
            assert(j * n + n == (j + 1) * n) by (nonlinear_arith);
            j = j + 1;
        }
        v
    }
}

// ── Sparsity footprint ─────────────────────────────────────────────────────

/// `(a, b)` when both are non-ground.
pub open spec fn opt_pair(a: NodeId, b: NodeId) -> Seq<(usize, usize)> {
    match (a, b) {
        (Some(x), Some(y)) => seq![(x, y)],
        _ => Seq::empty(),
    }
}

/// A branch row's own potential-equation cells: `(row, out)`, `(out, row)`,
/// `(row, row)`.
pub open spec fn own_pairs(row: Option<usize>, out: NodeId) -> Seq<(usize, usize)> {
    match (row, out) {
        (Some(r), Some(o)) => seq![(r, o), (o, r), (r, r)],
        _ => Seq::empty(),
    }
}

/// The cells input port `i` can touch in output slot `s = j·n + k`: both
/// field rows against both field wires (a complex coefficient mixes `re`
/// and `im`), and the λ row against the λ wire.
pub open spec fn input_pairs(nodes: Seq<NodeId>, branches: Seq<Option<usize>>, wpc: int, n: int, s: int, i: int) -> Seq<(usize, usize)> {
    let k = s % n;
    opt_pair(branches[3 * s], nodes[in_pos(wpc, n, i, k, 0)]) + opt_pair(branches[3 * s], nodes[in_pos(wpc, n, i, k, 1)])
        + opt_pair(branches[3 * s + 1], nodes[in_pos(wpc, n, i, k, 0)]) + opt_pair(branches[3 * s + 1], nodes[in_pos(wpc, n, i, k, 1)])
        + opt_pair(branches[3 * s + 2], nodes[in_pos(wpc, n, i, k, wpc - 1)])
}

pub open spec fn inputs_pairs(nodes: Seq<NodeId>, branches: Seq<Option<usize>>, wpc: int, n: int, s: int, count: nat) -> Seq<(usize, usize)>
    decreases count,
{
    if count == 0 {
        Seq::empty()
    } else {
        inputs_pairs(nodes, branches, wpc, n, s, (count - 1) as nat) + input_pairs(nodes, branches, wpc, n, s, count - 1)
    }
}

/// Every cell output slot `s` writes: its three rows' own cells, then each
/// input port's.
pub open spec fn slot_pairs(nodes: Seq<NodeId>, branches: Seq<Option<usize>>, wpc: int, n: int, s: int) -> Seq<(usize, usize)> {
    let (j, k) = (s / n, s % n);
    own_pairs(branches[3 * s], nodes[out_pos(wpc, n, j, k, 0)]) + own_pairs(branches[3 * s + 1], nodes[out_pos(wpc, n, j, k, 1)])
        + own_pairs(branches[3 * s + 2], nodes[out_pos(wpc, n, j, k, 2)])
        + inputs_pairs(nodes, branches, wpc, n, s, n as nat)
}

/// The cells of slots `0 .. count`, in generation order (repeats kept).
pub open spec fn footprint_raw(nodes: Seq<NodeId>, branches: Seq<Option<usize>>, wpc: int, n: int, count: nat) -> Seq<(usize, usize)>
    decreases count,
{
    if count == 0 {
        Seq::empty()
    } else {
        footprint_raw(nodes, branches, wpc, n, (count - 1) as nat) + slot_pairs(nodes, branches, wpc, n, count - 1)
    }
}

/// Lexicographic order on cells.
pub open spec fn cell_lt(a: (usize, usize), b: (usize, usize)) -> bool {
    a.0 < b.0 || (a.0 == b.0 && a.1 < b.1)
}

pub open spec fn strictly_sorted(s: Seq<(usize, usize)>) -> bool {
    forall|x: int, y: int| 0 <= x < y < s.len() ==> cell_lt(#[trigger] s[x], #[trigger] s[y])
}

fn cell_less(a: (usize, usize), b: (usize, usize)) -> (r: bool)
    ensures
        r == cell_lt(a, b),
{
    a.0 < b.0 || (a.0 == b.0 && a.1 < b.1)
}

/// Add `p` to a strictly sorted list of cells, keeping it strictly sorted
/// and free of repeats.
fn insert_cell(v: &mut Vec<(usize, usize)>, p: (usize, usize))
    requires
        strictly_sorted(old(v)@),
    ensures
        strictly_sorted(final(v)@),
        final(v)@.to_set() == old(v)@.to_set().insert(p),
{
    let ghost old_v = v@;
    let len = v.len();
    let mut i: usize = 0;
    while i < len && cell_less(v[i], p)
        invariant
            v@ == old_v,
            len == v@.len(),
            i <= len,
            forall|q: int| 0 <= q < i ==> cell_lt(#[trigger] v@[q], p),
        decreases len - i,
    {
        i = i + 1;
    }
    if i < len && v[i].0 == p.0 && v[i].1 == p.1 {
        assert(v@.to_set() =~= old_v.to_set().insert(p)) by {
            assert(v@.contains(p)) by { assert(v@[i as int] == p); }
        }
        return;
    }
    proof {
        if i < len {
            assert(cell_lt(p, v@[i as int]));
            assert forall|q: int| i <= q < len implies cell_lt(p, #[trigger] v@[q]) by {
                if q > i {
                    assert(cell_lt(v@[i as int], v@[q]));
                }
            }
        }
    }
    v.insert(i, p);
    assert forall|x: int, y: int| 0 <= x < y < v@.len() implies cell_lt(#[trigger] v@[x], #[trigger] v@[y]) by {
        if y < i {
            assert(v@[x] == old_v[x] && v@[y] == old_v[y]);
        } else if y == i {
            assert(v@[x] == old_v[x]);
        } else if x < i {
            assert(v@[x] == old_v[x] && v@[y] == old_v[y - 1]);
            assert(cell_lt(old_v[x], p));
        } else if x == i {
            assert(v@[y] == old_v[y - 1]);
        } else {
            assert(v@[x] == old_v[x - 1] && v@[y] == old_v[y - 1]);
        }
    }
    assert(v@.to_set() =~= old_v.to_set().insert(p)) by {
        assert forall|c: (usize, usize)| v@.contains(c) implies old_v.contains(c) || c == p by {
            let q = choose|q: int| 0 <= q < v@.len() && v@[q] == c;
            if q < i {
                assert(old_v[q] == c);
            } else if q > i {
                assert(old_v[q - 1] == c);
            }
        }
        assert forall|c: (usize, usize)| old_v.contains(c) implies v@.contains(c) by {
            let q = choose|q: int| 0 <= q < old_v.len() && old_v[q] == c;
            if q < i {
                assert(v@[q] == c);
            } else {
                assert(v@[q + 1] == c);
            }
        }
        assert(v@[i as int] == p);
    }
}

fn push_opt_pair(v: &mut Vec<(usize, usize)>, a: NodeId, b: NodeId)
    ensures
        final(v)@ == old(v)@ + opt_pair(a, b),
{
    if let (Some(x), Some(y)) = (a, b) {
        v.push((x, y));
    } else {
        assert(opt_pair(a, b) =~= Seq::<(usize, usize)>::empty());
    }
}

fn push_own_pairs(v: &mut Vec<(usize, usize)>, row: Option<usize>, out: NodeId)
    ensures
        final(v)@ == old(v)@ + own_pairs(row, out),
{
    if let (Some(r), Some(o)) = (row, out) {
        v.push((r, o));
        v.push((o, r));
        v.push((r, r));
        assert(v@ =~= old(v)@ + own_pairs(row, out));
    } else {
        assert(own_pairs(row, out) =~= Seq::<(usize, usize)>::empty());
    }
}

impl AwgrPorts {
    /// Append the cells output slot `(j, k)` writes.
    fn push_slot_pairs(&self, v: &mut Vec<(usize, usize)>, j: usize, k: usize)
        requires
            self.wf(),
            self.n() >= 1,
            j < self.n(),
            k < self.n(),
        ensures
            final(v)@ == old(v)@ + slot_pairs(self.nodes(), self.branches(), self.wpc() as int, self.n() as int, (j * self.n() + k) as int),
    {
        let n = self.n;
        let ghost (nodes, branches, wpc) = (self.nodes(), self.branches(), self.wpc() as int);
        proof { lemma_slot_index(n as int, j as int, k as int, 0); }
        let nb = self.branches.len();
        assert(nb == 3 * (n * n)) by (nonlinear_arith) requires nb == 3 * n * n;
        let s = j * n + k;
        let base = BRANCHES_PER_SLOT * s;
        let ghost start = v@;
        push_own_pairs(v, self.branches[base], self.out_wire(j, k, 0));
        push_own_pairs(v, self.branches[base + 1], self.out_wire(j, k, 1));
        push_own_pairs(v, self.branches[base + 2], self.out_wire(j, k, 2));
        let ghost own = v@;
        let mut i: usize = 0;
        while i < n
            invariant
                self.wf(),
                n == self.n(),
                j < n,
                k < n,
                s == j * n + k,
                (s as int) % (n as int) == k,
                (s as int) / (n as int) == j,
                base == 3 * s,
                base + 2 < nb,
                nb == self.branches().len(),
                nodes == self.nodes(),
                branches == self.branches(),
                wpc == self.wpc(),
                i <= n,
                v@ == own + inputs_pairs(nodes, branches, wpc, n as int, s as int, i as nat),
            decreases n - i,
        {
            let ghost before = v@;
            let lam = self.wpc - 1;
            let (r0, r1, r2) = (self.branches[base], self.branches[base + 1], self.branches[base + 2]);
            let (in_re, in_im, in_lam) = (self.in_wire(i, k, 0), self.in_wire(i, k, 1), self.in_wire(i, k, lam));
            push_opt_pair(v, r0, in_re);
            push_opt_pair(v, r0, in_im);
            push_opt_pair(v, r1, in_re);
            push_opt_pair(v, r1, in_im);
            push_opt_pair(v, r2, in_lam);
            assert(v@ =~= before + input_pairs(nodes, branches, wpc, n as int, s as int, i as int));
            i = i + 1;
        }
        assert(v@ =~= start + slot_pairs(nodes, branches, wpc, n as int, s as int));
    }

    /// Every matrix cell the router's stamps can write, each once, in
    /// ascending (row, column) order.
    pub fn stamp_pairs(&self) -> (v: Vec<(usize, usize)>)
        requires
            self.wf(),
        ensures
            strictly_sorted(v@),
            v@.to_set() == footprint_raw(self.nodes(), self.branches(), self.wpc() as int, self.n() as int, self.n() * self.n()).to_set(),
    {
        let n = self.n;
        let ghost (nodes, branches, wpc) = (self.nodes(), self.branches(), self.wpc() as int);
        let mut raw: Vec<(usize, usize)> = Vec::new();
        let mut j: usize = 0;
        while j < n
            invariant
                self.wf(),
                n == self.n(),
                j <= n,
                nodes == self.nodes(),
                branches == self.branches(),
                wpc == self.wpc(),
                raw@ == footprint_raw(nodes, branches, wpc, n as int, (j * n) as nat),
            decreases n - j,
        {
            let mut k: usize = 0;
            while k < n
                invariant
                    self.wf(),
                    n == self.n(),
                    j < n,
                    k <= n,
                    nodes == self.nodes(),
                    branches == self.branches(),
                    wpc == self.wpc(),
                    raw@ == footprint_raw(nodes, branches, wpc, n as int, (j * n + k) as nat),
                decreases n - k,
            {
                self.push_slot_pairs(&mut raw, j, k);
                k = k + 1;
            }
            assert(j * n + n == (j + 1) * n) by (nonlinear_arith);
            j = j + 1;
        }
        let mut v: Vec<(usize, usize)> = Vec::new();
        let mut q: usize = 0;
        while q < raw.len()
            invariant
                q <= raw@.len(),
                strictly_sorted(v@),
                v@.to_set() == raw@.take(q as int).to_set(),
            decreases raw@.len() - q,
        {
            insert_cell(&mut v, raw[q]);
            assert(raw@.take(q + 1) =~= raw@.take(q as int).push(raw@[q as int]));
            proof { raw@.take(q as int).lemma_push_to_set_commute(raw@[q as int]); }
            q = q + 1;
        }
        assert(raw@.take(raw@.len() as int) =~= raw@);
        v
    }
}

// ── The footprint declares every stamped cell ─────────────────────────────

/// Every stamp of `st` writes a cell listed in `cells`.
pub open spec fn covers<T>(cells: Seq<(usize, usize)>, st: Seq<Stamp<T>>) -> bool {
    forall|x: int| #![trigger st[x]] 0 <= x < st.len() ==> cells.contains((st[x].row, st[x].col))
}

proof fn lemma_covers_concat<T>(cells: Seq<(usize, usize)>, a: Seq<Stamp<T>>, b: Seq<Stamp<T>>)
    requires
        covers(cells, a),
        covers(cells, b),
    ensures
        covers(cells, a + b),
{
    assert forall|x: int| #![trigger (a + b)[x]] 0 <= x < (a + b).len() implies cells.contains(((a + b)[x].row, (a + b)[x].col)) by {
        if x < a.len() {
            assert((a + b)[x] == a[x]);
        } else {
            assert((a + b)[x] == b[x - a.len()]);
        }
    }
}

proof fn lemma_coupling_covered<T>(cells: Seq<(usize, usize)>, j: usize, ins: Seq<(NodeId, Coef<T>)>)
    requires
        forall|q: int| #![trigger ins[q]] 0 <= q < ins.len() ==> match ins[q].0 {
            Some(c) => cells.contains((j, c)),
            None => true,
        },
    ensures
        covers(cells, coupling_stamps(j, ins)),
    decreases ins.len(),
{
    if ins.len() > 0 {
        let init = ins.drop_last();
        assert forall|q: int| #![trigger init[q]] 0 <= q < init.len() implies match init[q].0 {
            Some(c) => cells.contains((j, c)),
            None => true,
        } by {
            assert(init[q] == ins[q]);
        }
        lemma_coupling_covered(cells, j, init);
        let last = ins.last();
        assert(match last.0 { Some(c) => cells.contains((j, c)), None => true }) by {
            assert(last == ins[ins.len() - 1]);
        }
        let tail: Seq<Stamp<T>> = match last.0 {
            Some(i) => seq![Stamp { row: j, col: i, coef: last.1 }],
            None => Seq::empty(),
        };
        assert(covers(cells, tail));
        lemma_covers_concat(cells, coupling_stamps(j, init), tail);
    }
}

proof fn lemma_eq_covered<T>(cells: Seq<(usize, usize)>, branches: Seq<Option<usize>>, slot: int, out: NodeId, ins: Seq<(NodeId, Coef<T>)>)
    requires
        match (out, branches[slot]) {
            (Some(o), Some(j)) => {
                &&& cells.contains((j, o))
                &&& cells.contains((o, j))
                &&& forall|q: int| #![trigger ins[q]] 0 <= q < ins.len() ==> match ins[q].0 {
                    Some(c) => cells.contains((j, c)),
                    None => true,
                }
            },
            _ => true,
        },
    ensures
        covers(cells, potential_eq_stamps(branches, slot, out, ins)),
{
    match (out, branches[slot]) {
        (Some(o), Some(j)) => {
            lemma_coupling_covered(cells, j, ins);
            let first = seq![Stamp { row: j, col: o, coef: Coef::<T>::One }];
            let back = seq![Stamp { row: o, col: j, coef: Coef::<T>::One }];
            assert(covers(cells, first));
            assert(covers(cells, back));
            lemma_covers_concat(cells, first, coupling_stamps(j, ins));
            lemma_covers_concat(cells, first + coupling_stamps(j, ins), back);
        },
        _ => {
            assert(potential_eq_stamps(branches, slot, out, ins) =~= Seq::<Stamp<T>>::empty());
        },
    }
}

proof fn lemma_raw_has_slot(nodes: Seq<NodeId>, branches: Seq<Option<usize>>, wpc: int, n: int, count: nat, s: int, e: (usize, usize))
    requires
        0 <= s < count,
        slot_pairs(nodes, branches, wpc, n, s).contains(e),
    ensures
        footprint_raw(nodes, branches, wpc, n, count).contains(e),
    decreases count,
{
    broadcast use vstd::seq_lib::lemma_seq_concat_contains_all_elements;
    if s < count - 1 {
        lemma_raw_has_slot(nodes, branches, wpc, n, (count - 1) as nat, s, e);
    }
}

proof fn lemma_inputs_have(nodes: Seq<NodeId>, branches: Seq<Option<usize>>, wpc: int, n: int, s: int, count: nat, i: int, e: (usize, usize))
    requires
        0 <= i < count,
        input_pairs(nodes, branches, wpc, n, s, i).contains(e),
    ensures
        inputs_pairs(nodes, branches, wpc, n, s, count).contains(e),
    decreases count,
{
    broadcast use vstd::seq_lib::lemma_seq_concat_contains_all_elements;
    if i < count - 1 {
        lemma_inputs_have(nodes, branches, wpc, n, s, (count - 1) as nat, i, e);
    }
}

/// The cells slot `s`'s equations need are in the footprint.
proof fn lemma_slot_cells(nodes: Seq<NodeId>, branches: Seq<Option<usize>>, wpc: int, n: int, s: int)
    requires
        n >= 1,
        wpc == 3,
        0 <= s < n * n,
    ensures
        ({
            let fp = footprint_raw(nodes, branches, wpc, n, (n * n) as nat);
            let k = s % n;
            let j = s / n;
            &&& forall|w: int| 0 <= w < 3 ==> match (#[trigger] branches[3 * s + w], nodes[out_pos(wpc, n, j, k, w)]) {
                (Some(r), Some(o)) => fp.contains((r, o)) && fp.contains((o, r)),
                _ => true,
            }
            &&& forall|i: int, w: int| 0 <= i < n && 0 <= w < 2 && #[trigger] nodes[in_pos(wpc, n, i, k, w)] is Some ==> {
                &&& (branches[3 * s] matches Some(r) ==> fp.contains((r, nodes[in_pos(wpc, n, i, k, w)]->0)))
                &&& (branches[3 * s + 1] matches Some(r) ==> fp.contains((r, nodes[in_pos(wpc, n, i, k, w)]->0)))
            }
            &&& forall|i: int| 0 <= i < n && #[trigger] nodes[in_pos(wpc, n, i, k, wpc - 1)] is Some ==>
                (branches[3 * s + 2] matches Some(r) ==> fp.contains((r, nodes[in_pos(wpc, n, i, k, wpc - 1)]->0)))
        }),
{
    broadcast use vstd::seq_lib::lemma_seq_concat_contains_all_elements;
    let fp = footprint_raw(nodes, branches, wpc, n, (n * n) as nat);
    let k = s % n;
    let j = s / n;
    let sp = slot_pairs(nodes, branches, wpc, n, s);
    assert forall|w: int| 0 <= w < 3 implies match (#[trigger] branches[3 * s + w], nodes[out_pos(wpc, n, j, k, w)]) {
        (Some(r), Some(o)) => fp.contains((r, o)) && fp.contains((o, r)),
        _ => true,
    } by {
        if let (Some(r), Some(o)) = (branches[3 * s + w], nodes[out_pos(wpc, n, j, k, w)]) {
            let own = own_pairs(branches[3 * s + w], nodes[out_pos(wpc, n, j, k, w)]);
            assert(own[0] == (r, o) && own[1] == (o, r));
            assert(own.contains((r, o)) && own.contains((o, r)));
            assert(sp.contains((r, o)) && sp.contains((o, r)));
            lemma_raw_has_slot(nodes, branches, wpc, n, (n * n) as nat, s, (r, o));
            lemma_raw_has_slot(nodes, branches, wpc, n, (n * n) as nat, s, (o, r));
        }
    }
    assert forall|i: int, w: int| 0 <= i < n && 0 <= w < 2 && #[trigger] nodes[in_pos(wpc, n, i, k, w)] is Some implies {
        &&& (branches[3 * s] matches Some(r) ==> fp.contains((r, nodes[in_pos(wpc, n, i, k, w)]->0)))
        &&& (branches[3 * s + 1] matches Some(r) ==> fp.contains((r, nodes[in_pos(wpc, n, i, k, w)]->0)))
    } by {
        let c = nodes[in_pos(wpc, n, i, k, w)]->0;
        let ip = input_pairs(nodes, branches, wpc, n, s, i);
        if let Some(r) = branches[3 * s] {
            let e = opt_pair(branches[3 * s], nodes[in_pos(wpc, n, i, k, w)]);
            assert(e[0] == (r, c));
            assert(e.contains((r, c)));
            assert(ip.contains((r, c)));
            lemma_inputs_have(nodes, branches, wpc, n, s, n as nat, i, (r, c));
            assert(sp.contains((r, c)));
            lemma_raw_has_slot(nodes, branches, wpc, n, (n * n) as nat, s, (r, c));
        }
        if let Some(r) = branches[3 * s + 1] {
            let e = opt_pair(branches[3 * s + 1], nodes[in_pos(wpc, n, i, k, w)]);
            assert(e[0] == (r, c));
            assert(e.contains((r, c)));
            assert(ip.contains((r, c)));
            lemma_inputs_have(nodes, branches, wpc, n, s, n as nat, i, (r, c));
            assert(sp.contains((r, c)));
            lemma_raw_has_slot(nodes, branches, wpc, n, (n * n) as nat, s, (r, c));
        }
    }
    assert forall|i: int| 0 <= i < n && #[trigger] nodes[in_pos(wpc, n, i, k, wpc - 1)] is Some implies
        (branches[3 * s + 2] matches Some(r) ==> fp.contains((r, nodes[in_pos(wpc, n, i, k, wpc - 1)]->0))) by {
        let c = nodes[in_pos(wpc, n, i, k, wpc - 1)]->0;
        if let Some(r) = branches[3 * s + 2] {
            let e = opt_pair(branches[3 * s + 2], nodes[in_pos(wpc, n, i, k, wpc - 1)]);
            assert(e[0] == (r, c));
            assert(e.contains((r, c)));
            assert(input_pairs(nodes, branches, wpc, n, s, i).contains((r, c)));
            lemma_inputs_have(nodes, branches, wpc, n, s, n as nat, i, (r, c));
            assert(sp.contains((r, c)));
            lemma_raw_has_slot(nodes, branches, wpc, n, (n * n) as nat, s, (r, c));
        }
    }
}

/// Row `m` of the router's equations writes only footprint cells.
proof fn lemma_row_covered<T>(r: AwgrPorts, t: Seq<(T, T)>, src: int, m: int)
    requires
        r.wf(),
        t.len() == r.n() * r.n() * r.n(),
        0 <= m < 3 * (r.n() * r.n()),
    ensures
        ({
            let rows = awgr_rows(r.nodes(), r.wpc() as int, r.n() as int, t, src);
            covers(
                footprint_raw(r.nodes(), r.branches(), r.wpc() as int, r.n() as int, r.n() * r.n()),
                potential_eq_stamps(r.branches(), rows[m].0, rows[m].1, rows[m].2),
            )
        }),
{
    let (nodes, branches, wpc, n) = (r.nodes(), r.branches(), r.wpc() as int, r.n() as int);
    let fp = footprint_raw(nodes, branches, wpc, n, (n * n) as nat);
    let rows = awgr_rows(nodes, wpc, n, t, src);
    let s = m / 3;
    let q = m % 3;
    assert(n >= 1) by (nonlinear_arith) requires 0 <= m < 3 * (n * n), n >= 0;
    assert(0 <= s < n * n);
    assert(rows[m] == awgr_row(nodes, wpc, n, t, src, s, q));
    lemma_slot_cells(nodes, branches, wpc, n, s);
    let k = s % n;
    let j = s / n;
    assert(0 <= k < n && 0 <= j < n) by (nonlinear_arith) requires n >= 1, 0 <= s < n * n, k == s % n, j == s / n;
    if q < 2 {
        let ins = awgr_field_ins(nodes, wpc, n, t, j, k, q == 1);
        assert(rows[m].0 == 3 * s + q);
        assert forall|p: int| #![trigger ins[p]] 0 <= p < ins.len() implies match ins[p].0 {
            Some(c) => match branches[3 * s + q] { Some(rr) => fp.contains((rr, c)), None => true },
            None => true,
        } by {
            let i = p / 2;
            let w = p % 2;
            assert(0 <= i < n && 0 <= w < 2);
            assert(ins[p].0 == nodes[in_pos(wpc, n, i, k, w)]);
        }
        lemma_eq_covered(fp, branches, rows[m].0, rows[m].1, rows[m].2);
    } else {
        assert(wpc - 1 == 2);
        match awgr_lambda_wire(nodes, wpc, n, src, k) {
            Some(wl) => {
                assert(nodes[in_pos(wpc, n, src, k, wpc - 1)] is Some);
                assert(rows[m].2 == seq![(Some(wl), Coef::<T>::NegOne)]);
                lemma_eq_covered(fp, branches, rows[m].0, rows[m].1, rows[m].2);
            },
            None => {
                assert(rows[m].2 =~= Seq::<(NodeId, Coef<T>)>::empty());
                lemma_eq_covered(fp, branches, rows[m].0, rows[m].1, rows[m].2);
            },
        }
    }
}

proof fn lemma_prefix_covered<T>(r: AwgrPorts, t: Seq<(T, T)>, src: int, m: int)
    requires
        r.wf(),
        t.len() == r.n() * r.n() * r.n(),
        0 <= m <= 3 * (r.n() * r.n()),
    ensures
        covers(
            footprint_raw(r.nodes(), r.branches(), r.wpc() as int, r.n() as int, r.n() * r.n()),
            rows_stamps(r.branches(), awgr_rows(r.nodes(), r.wpc() as int, r.n() as int, t, src).take(m)),
        ),
    decreases m,
{
    let rows = awgr_rows(r.nodes(), r.wpc() as int, r.n() as int, t, src);
    let fp = footprint_raw(r.nodes(), r.branches(), r.wpc() as int, r.n() as int, r.n() * r.n());
    if m == 0 {
        assert(rows.take(0) =~= Seq::<Row<T>>::empty());
        lemma_rows_stamps_empty(r.branches(), rows.take(0));
    } else {
        lemma_prefix_covered(r, t, src, m - 1);
        lemma_row_covered(r, t, src, m - 1);
        lemma_rows_stamps_take(r.branches(), rows, m - 1);
        lemma_covers_concat(
            fp,
            rows_stamps(r.branches(), rows.take(m - 1)),
            potential_eq_stamps(r.branches(), rows[m - 1].0, rows[m - 1].1, rows[m - 1].2),
        );
    }
}

/// The footprint the router declares holds every cell its Jacobian writes:
/// for any transmissions and any λ source, each stamp of `load_jacobian`
/// lands on a cell `stamp_pairs` lists.
pub proof fn lemma_footprint_covers_stamps<T>(r: AwgrPorts, t: Seq<(T, T)>, src: int)
    requires
        r.wf(),
        t.len() == r.n() * r.n() * r.n(),
    ensures
        covers(
            footprint_raw(r.nodes(), r.branches(), r.wpc() as int, r.n() as int, r.n() * r.n()),
            rows_stamps(r.branches(), awgr_rows(r.nodes(), r.wpc() as int, r.n() as int, t, src)),
        ),
{
    let rows = awgr_rows(r.nodes(), r.wpc() as int, r.n() as int, t, src);
    lemma_prefix_covered(r, t, src, (3 * (r.n() * r.n())) as int);
    assert(rows.take((3 * (r.n() * r.n())) as int) =~= rows);
}

/// Each of the router's `3·n²` branch rows carries exactly one equation:
/// row `3·s + r` is equation `r` of output slot `s`.
pub proof fn lemma_awgr_slots<T>(nodes: Seq<NodeId>, wpc: int, n: nat, t: Seq<(T, T)>, src: int)
    ensures
        awgr_rows(nodes, wpc, n as int, t, src).len() == 3 * (n * n),
        forall|i: int| 0 <= i < 3 * (n * n) ==> #[trigger] awgr_rows(nodes, wpc, n as int, t, src)[i].0 == i,
        branch_slots_exact(awgr_rows(nodes, wpc, n as int, t, src)),
{
    let rows = awgr_rows(nodes, wpc, n as int, t, src);
    assert forall|i: int| 0 <= i < 3 * (n * n) implies #[trigger] rows[i].0 == i by {
        assert(rows[i] == awgr_row(nodes, wpc, n as int, t, src, i / 3, i % 3));
    }
}

} // verus!
