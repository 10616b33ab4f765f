//! Native photonic passive devices with pure wiring behaviour: the WDM
//! multiplexer and demultiplexer, and the port-relative 3-port circulator.
//!
//! Each device stamps its outputs via the direct-potential pattern: one
//! auxiliary MNA row per output potential equation, requested through
//! `num_extra_nodes` and bound via `bind_extra_nodes`.

use vstd::prelude::*;
use crate::device::{NodeId, bind_contiguous, bound_from, copy_nodes, unbound_rows};
use crate::mna::{branch_slots_exact, lemma_rows_stamps_empty, Row, Stamp, rows_stamps, unit_row, stamp_unit_row};
use crate::photonic::circulator::{wire_pos, RE_FW, IM_FW, RE_BW, IM_BW, LAMBDA};

verus! {

// ────────────────────────────────────────────────────────────────────────
// WDM multiplexer / demultiplexer
// ────────────────────────────────────────────────────────────────────────
//
// `fc_mux` / `fc_demux` bridge between N single-channel optical bundles and
// one N-channel optical bundle. They are topology markers: each is
// identity-routing channel by channel (`bus[k].* = ch_k.*`).
//
// Terminal layout: the first `wpc·N` terminals are the bus wires, channel by
// channel; the next `wpc·N` are the N single-channel bundles in instance
// order.

/// The mux equations: slot `i` drives bus wire `i` from channel wire
/// `wpc·n + i`.
pub open spec fn mux_rows<T>(nodes: Seq<NodeId>, wpc: nat, n: nat) -> Seq<Row<T>> {
    Seq::new(wpc * n, |i: int| unit_row::<T>(nodes, i, i, wpc * n + i))
}

/// The demux equations: slot `i` drives channel wire `wpc·n + i` from bus
/// wire `i`.
pub open spec fn demux_rows<T>(nodes: Seq<NodeId>, wpc: nat, n: nat) -> Seq<Row<T>> {
    Seq::new(wpc * n, |i: int| unit_row::<T>(nodes, i, wpc * n + i, i))
}

proof fn lemma_bundle_index(wpc: int, n: int, k: int, w: int)
    requires
        0 <= k < n,
        0 <= w < wpc,
    ensures
        wpc * (n + k) + w == wpc * n + (wpc * k + w),
        wpc * k + w < wpc * n,
        wpc * (n + k) + w < 2 * wpc * n,
        n + k < 2 * wpc * n,
{
    assert(n + k < 2 * wpc * n) by (nonlinear_arith)
        requires 0 <= k < n, 0 <= w < wpc;
    assert(wpc * (n + k) == wpc * n + wpc * k) by (nonlinear_arith);
    assert(wpc * k + w < wpc * n) by (nonlinear_arith)
        requires 0 <= k < n, 0 <= w < wpc;
    assert(2 * wpc * n == wpc * n + wpc * n) by (nonlinear_arith);
}

/// Stamp the identity routes of a mux (`bus_drives == true`: bus wire from
/// channel wire) or a demux (channel wire from bus wire).
fn stamp_bundle_routes<T: Copy>(
    mat: &mut Vec<Stamp<T>>,
    branches: &[Option<usize>],
    nodes: &[NodeId],
    n: usize,
    wpc: usize,
    bus_drives: bool,
)
    requires
        nodes@.len() == 2 * wpc * n,
        branches@.len() == wpc * n,
    ensures
        final(mat)@ == old(mat)@ + rows_stamps(
            branches@,
            if bus_drives { mux_rows::<T>(nodes@, wpc as nat, n as nat) } else { demux_rows::<T>(
                nodes@,
                wpc as nat,
                n as nat,
            ) },
        ),
{
    let ghost rows = if bus_drives { mux_rows::<T>(nodes@, wpc as nat, n as nat) } else {
        demux_rows::<T>(nodes@, wpc as nat, n as nat)
    };
    let ghost start = mat@;
    let total = nodes.len();
    assert(rows.take(0) =~= Seq::<Row<T>>::empty());
    proof { lemma_rows_stamps_empty(branches@, rows.take(0)); }
    assert(start + Seq::<Stamp<T>>::empty() =~= start);
    let mut k: usize = 0;
    while k < n
        invariant
            k <= n,
            total == 2 * wpc * n,
            nodes@.len() == 2 * wpc * n,
            branches@.len() == wpc * n,
            rows.len() == wpc * n,
            rows == (if bus_drives { mux_rows::<T>(nodes@, wpc as nat, n as nat) } else {
                demux_rows::<T>(nodes@, wpc as nat, n as nat)
            }),
            mat@ == start + rows_stamps(branches@, rows.take(wpc * k)),
        decreases n - k,
    {
        let mut w: usize = 0;
        while w < wpc
            invariant
                k < n,
                w <= wpc,
                total == 2 * wpc * n,
                nodes@.len() == 2 * wpc * n,
                branches@.len() == wpc * n,
                rows.len() == wpc * n,
                rows == (if bus_drives { mux_rows::<T>(nodes@, wpc as nat, n as nat) } else {
                    demux_rows::<T>(nodes@, wpc as nat, n as nat)
                }),
                mat@ == start + rows_stamps(branches@, rows.take(wpc * k + w)),
            decreases wpc - w,
        {
            proof { lemma_bundle_index(wpc as int, n as int, k as int, w as int); }
            let bus_w = wpc * k + w;
            let ch_w = wpc * (n + k) + w;
            if bus_drives {
                // Identity-route every wire (fw, bw, λ) — bus reads from channel.
                stamp_unit_row(mat, branches, nodes, Ghost(rows), Ghost(start), bus_w, bus_w, ch_w);
            } else {
                // Channels drive from the bus.
                stamp_unit_row(mat, branches, nodes, Ghost(rows), Ghost(start), bus_w, ch_w, bus_w);
            }
            w = w + 1;
        }
        assert(wpc * k + wpc == wpc * (k + 1)) by (nonlinear_arith);
        k = k + 1;
    }
    assert(rows.take(wpc * n) =~= rows);
}

/// Identity-routing combiner: N single-channel optical bundles → 1
/// N-channel bundle. The first bundle wire block is the bus output.
pub struct NativeMux {
    n_channels: usize,
    wpc: usize,
    nodes: Vec<NodeId>,
    branches: Vec<Option<usize>>,
}

/// Identity-routing splitter: 1 N-channel optical bundle → N single-channel
/// bundles. The first bundle wire block is the bus input.
pub struct NativeDemux {
    n_channels: usize,
    wpc: usize,
    nodes: Vec<NodeId>,
    branches: Vec<Option<usize>>,
}

impl NativeMux {
    pub closed spec fn n_channels(&self) -> nat {
        self.n_channels as nat
    }

    pub closed spec fn wpc(&self) -> nat {
        self.wpc as nat
    }

    pub closed spec fn nodes(&self) -> Seq<NodeId> {
        self.nodes@
    }

    pub closed spec fn branches(&self) -> Seq<Option<usize>> {
        self.branches@
    }

    /// The terminal and branch lists match the channel count and width.
    pub open spec fn wf(&self) -> bool {
        &&& self.nodes().len() == 2 * self.wpc() * self.n_channels()
        &&& self.branches().len() == self.wpc() * self.n_channels()
    }

    /// The potential equations this instance stamps.
    pub open spec fn rows<T>(&self) -> Seq<Row<T>> {
        mux_rows::<T>(self.nodes(), self.wpc(), self.n_channels())
    }

    pub fn new() -> (s: Self)
        ensures
            s.wf(),
            s.n_channels() == 0,
            s.wpc() == 3,
            s.nodes() == Seq::<NodeId>::empty(),
            s.branches() == Seq::<Option<usize>>::empty(),
    {
        Self { n_channels: 0, wpc: 3, nodes: Vec::new(), branches: Vec::new() }
    }

    pub fn num_terminals(&self) -> (r: usize)
        ensures
            r == self.nodes().len(),
    {
        self.nodes.len()
    }

    /// Record the simulation's wires-per-channel.
    pub fn setup_model(&mut self, wires_per_channel: usize)
        ensures
            final(self).wpc() == wires_per_channel,
            final(self).n_channels() == old(self).n_channels(),
            final(self).nodes() == old(self).nodes(),
            final(self).branches() == old(self).branches(),
    {
        self.wpc = wires_per_channel;
    }

    /// Configure from the instance terminals: a positive multiple of
    /// `2·wires_per_channel` (bus wires + per-channel wires).
    pub fn setup_instance(&mut self, terminals: &[NodeId], wires_per_channel: usize)
        requires
            0 < wires_per_channel,
            2 * wires_per_channel <= usize::MAX,
            terminals@.len() > 0,
            (terminals@.len() as int) % (2 * wires_per_channel as int) == 0,
        ensures
            final(self).wf(),
            final(self).wpc() == wires_per_channel,
            final(self).n_channels() == (terminals@.len() as int) / (2 * wires_per_channel as int),
            final(self).nodes() == terminals@,
            final(self).branches() == Seq::new(
                (wires_per_channel * ((terminals@.len() as int) / (2 * wires_per_channel as int))) as nat,
                |i: int| None::<usize>,
            ),
    {
        let wpc = wires_per_channel;
        self.wpc = wpc;
        let stride = 2 * wpc;
        let n = terminals.len() / stride;
        proof { lemma_stride_split(terminals@.len() as int, wpc as int); }
        self.n_channels = n;
        self.nodes = copy_nodes(terminals);
        self.branches = unbound_rows(wpc * n);
        assert(self.branches@ =~= Seq::new(
            (wires_per_channel * ((terminals@.len() as int) / (2 * wires_per_channel as int))) as nat,
            |i: int| None::<usize>,
        ));
    }

    pub fn num_extra_nodes(&self) -> (r: usize)
        ensures
            r == self.branches().len(),
    {
        self.branches.len()
    }

    /// Bind the branch rows to the contiguous block starting at `first_idx`.
    pub fn bind_extra_nodes(&mut self, first_idx: usize)
        requires
            first_idx + old(self).branches().len() <= usize::MAX,
        ensures
            final(self).branches().len() == old(self).branches().len(),
            bound_from(final(self).branches(), first_idx as int),
            final(self).n_channels() == old(self).n_channels(),
            final(self).wpc() == old(self).wpc(),
            final(self).nodes() == old(self).nodes(),
    {
        bind_contiguous(&mut self.branches, first_idx);
    }

    /// Stamp `bus[k].w = ch_k.w` for every channel and wire.
    pub fn load_jacobian<T: Copy>(&self, mat: &mut Vec<Stamp<T>>)
        requires
            self.wf(),
        ensures
            final(mat)@ == old(mat)@ + rows_stamps(self.branches(), self.rows::<T>()),
    {
        stamp_bundle_routes(mat, &self.branches, &self.nodes, self.n_channels, self.wpc, true);
    }
}

impl NativeDemux {
    pub closed spec fn n_channels(&self) -> nat {
        self.n_channels as nat
    }

    pub closed spec fn wpc(&self) -> nat {
        self.wpc as nat
    }

    pub closed spec fn nodes(&self) -> Seq<NodeId> {
        self.nodes@
    }

    pub closed spec fn branches(&self) -> Seq<Option<usize>> {
        self.branches@
    }

    /// The terminal and branch lists match the channel count and width.
    pub open spec fn wf(&self) -> bool {
        &&& self.nodes().len() == 2 * self.wpc() * self.n_channels()
        &&& self.branches().len() == self.wpc() * self.n_channels()
    }

    /// The potential equations this instance stamps.
    pub open spec fn rows<T>(&self) -> Seq<Row<T>> {
        demux_rows::<T>(self.nodes(), self.wpc(), self.n_channels())
    }

    pub fn new() -> (s: Self)
        ensures
            s.wf(),
            s.n_channels() == 0,
            s.wpc() == 3,
            s.nodes() == Seq::<NodeId>::empty(),
            s.branches() == Seq::<Option<usize>>::empty(),
    {
        Self { n_channels: 0, wpc: 3, nodes: Vec::new(), branches: Vec::new() }
    }

    pub fn num_terminals(&self) -> (r: usize)
        ensures
            r == self.nodes().len(),
    {
        self.nodes.len()
    }

    /// Record the simulation's wires-per-channel.
    pub fn setup_model(&mut self, wires_per_channel: usize)
        ensures
            final(self).wpc() == wires_per_channel,
            final(self).n_channels() == old(self).n_channels(),
            final(self).nodes() == old(self).nodes(),
            final(self).branches() == old(self).branches(),
    {
        self.wpc = wires_per_channel;
    }

    /// Configure from the instance terminals: a positive multiple of
    /// `2·wires_per_channel` (bus wires + per-channel wires).
    pub fn setup_instance(&mut self, terminals: &[NodeId], wires_per_channel: usize)
        requires
            0 < wires_per_channel,
            2 * wires_per_channel <= usize::MAX,
            terminals@.len() > 0,
            (terminals@.len() as int) % (2 * wires_per_channel as int) == 0,
        ensures
            final(self).wf(),
            final(self).wpc() == wires_per_channel,
            final(self).n_channels() == (terminals@.len() as int) / (2 * wires_per_channel as int),
            final(self).nodes() == terminals@,
            final(self).branches() == Seq::new(
                (wires_per_channel * ((terminals@.len() as int) / (2 * wires_per_channel as int))) as nat,
                |i: int| None::<usize>,
            ),
    {
        let wpc = wires_per_channel;
        self.wpc = wpc;
        let stride = 2 * wpc;
        let n = terminals.len() / stride;
        proof { lemma_stride_split(terminals@.len() as int, wpc as int); }
        self.n_channels = n;
        self.nodes = copy_nodes(terminals);
        self.branches = unbound_rows(wpc * n);
        assert(self.branches@ =~= Seq::new(
            (wires_per_channel * ((terminals@.len() as int) / (2 * wires_per_channel as int))) as nat,
            |i: int| None::<usize>,
        ));
    }

    pub fn num_extra_nodes(&self) -> (r: usize)
        ensures
            r == self.branches().len(),
    {
        self.branches.len()
    }

    /// Bind the branch rows to the contiguous block starting at `first_idx`.
    pub fn bind_extra_nodes(&mut self, first_idx: usize)
        requires
            first_idx + old(self).branches().len() <= usize::MAX,
        ensures
            final(self).branches().len() == old(self).branches().len(),
            bound_from(final(self).branches(), first_idx as int),
            final(self).n_channels() == old(self).n_channels(),
            final(self).wpc() == old(self).wpc(),
            final(self).nodes() == old(self).nodes(),
    {
        bind_contiguous(&mut self.branches, first_idx);
    }

    /// Stamp `ch_k.w = bus[k].w` for every channel and wire.
    pub fn load_jacobian<T: Copy>(&self, mat: &mut Vec<Stamp<T>>)
        requires
            self.wf(),
        ensures
            final(mat)@ == old(mat)@ + rows_stamps(self.branches(), self.rows::<T>()),
    {
        stamp_bundle_routes(mat, &self.branches, &self.nodes, self.n_channels, self.wpc, false);
    }
}

/// `len = 2·wpc·n` with `n = len / (2·wpc)`, for a positive multiple.
proof fn lemma_stride_split(len: int, wpc: int)
    requires
        0 < wpc,
        0 < len,
        len % (2 * wpc) == 0,
    ensures
        len == 2 * wpc * (len / (2 * wpc)),
        wpc * (len / (2 * wpc)) <= len,
{
    let n = len / (2 * wpc);
    assert(len == (2 * wpc) * n) by (nonlinear_arith)
        requires 0 < wpc, len % (2 * wpc) == 0, n == len / (2 * wpc);
    assert(2 * wpc * n == (2 * wpc) * n) by (nonlinear_arith);
    assert(wpc * n <= len) by (nonlinear_arith)
        requires 0 < wpc, len == (2 * wpc) * n, 0 < len;
}

impl Default for NativeMux {
    fn default() -> (s: Self)
        ensures
            s.wf(),
            s.n_channels() == 0,
            s.wpc() == 3,
            s.nodes() == Seq::<NodeId>::empty(),
            s.branches() == Seq::<Option<usize>>::empty(),
    {
        Self::new()
    }
}

impl Default for NativeDemux {
    fn default() -> (s: Self)
        ensures
            s.wf(),
            s.n_channels() == 0,
            s.wpc() == 3,
            s.nodes() == Seq::<NodeId>::empty(),
            s.branches() == Seq::<Option<usize>>::empty(),
    {
        Self::new()
    }
}

// ────────────────────────────────────────────────────────────────────────
// Native 3-port circulator, port-relative wires (bidirectional only)
// ────────────────────────────────────────────────────────────────────────

/// Output port, output wire, input port and input wire of the `r`-th
/// (0 ≤ r < 8) equation of a channel: `port_p.bw = port_((p+2) mod 3).fw`
/// for `re` and `im`, then the λ ties `port_1.λ = port_0.λ` and
/// `port_2.λ = port_0.λ`.
pub open spec fn relative_route(r: int) -> (int, int, int, int) {
    if r == 0 { (0, 2, 2, 0) }
    else if r == 1 { (0, 3, 2, 1) }
    else if r == 2 { (1, 2, 0, 0) }
    else if r == 3 { (1, 3, 0, 1) }
    else if r == 4 { (2, 2, 1, 0) }
    else if r == 5 { (2, 3, 1, 1) }
    else if r == 6 { (1, 4, 0, 4) }
    else { (2, 4, 0, 4) }
}

/// Terminal position driven by branch slot `i` (channel `i / 8`).
#[verifier::opaque]
pub open spec fn relative_out_pos(i: int) -> int {
    let t = relative_route(i % 8);
    wire_pos(i / 8, t.0, t.1)
}

/// Terminal position read by branch slot `i`.
#[verifier::opaque]
pub open spec fn relative_in_pos(i: int) -> int {
    let t = relative_route(i % 8);
    wire_pos(i / 8, t.2, t.3)
}

/// The equations of an `n`-channel port-relative circulator on `nodes`.
pub open spec fn relative_circulator_rows<T>(nodes: Seq<NodeId>, n: nat) -> Seq<Row<T>> {
    Seq::new(8 * n, |i: int| unit_row::<T>(nodes, i, relative_out_pos(i), relative_in_pos(i)))
}

/// Row `8·k + r` of the port-relative circulator equations, spelled out.
pub proof fn lemma_relative_row<T>(nodes: Seq<NodeId>, n: nat, k: int, r: int)
    requires
        0 <= k < n,
        0 <= r < 8,
    ensures
        relative_out_pos(8 * k + r) == wire_pos(k, relative_route(r).0, relative_route(r).1),
        relative_in_pos(8 * k + r) == wire_pos(k, relative_route(r).2, relative_route(r).3),
        relative_circulator_rows::<T>(nodes, n)[8 * k + r] == unit_row::<T>(
            nodes,
            8 * k + r,
            wire_pos(k, relative_route(r).0, relative_route(r).1),
            wire_pos(k, relative_route(r).2, relative_route(r).3),
        ),
{
    reveal(relative_out_pos);
    reveal(relative_in_pos);
    assert((8 * k + r) / 8 == k && (8 * k + r) % 8 == r) by (nonlinear_arith)
        requires 0 <= r < 8, 0 <= k;
    assert(8 * k + r < 8 * n) by (nonlinear_arith)
        requires 0 <= r < 8, 0 <= k < n;
}

/// 3-port circulator with port-relative wires: at every port `re_fw`/`im_fw`
/// carry the wave flowing into the device and `re_bw`/`im_bw` the wave
/// flowing out. Light entering port `p − 1` leaves at port `p` (mod 3):
/// `port_p.bw = port_((p+2) mod 3).fw`. λ is tied across the three ports.
/// Bidirectional propagation only; `3·5·N` terminals, 8 branch rows per
/// channel.
pub struct NativeCirculator {
    n_channels: usize,
    wpc: usize,
    nodes: Vec<NodeId>,
    branches: Vec<Option<usize>>,
}

impl NativeCirculator {
    pub closed spec fn n_channels(&self) -> nat {
        self.n_channels as nat
    }

    pub closed spec fn wpc(&self) -> nat {
        self.wpc as nat
    }

    pub closed spec fn nodes(&self) -> Seq<NodeId> {
        self.nodes@
    }

    pub closed spec fn branches(&self) -> Seq<Option<usize>> {
        self.branches@
    }

    /// The terminal and branch lists match the channel count.
    pub open spec fn wf(&self) -> bool {
        &&& self.nodes().len() == 15 * self.n_channels()
        &&& self.branches().len() == 8 * self.n_channels()
    }

    /// The potential equations this instance stamps.
    pub open spec fn rows<T>(&self) -> Seq<Row<T>> {
        relative_circulator_rows::<T>(self.nodes(), self.n_channels())
    }

    pub fn new() -> (s: Self)
        ensures
            s.wf(),
            s.n_channels() == 0,
            s.wpc() == 5,
            s.nodes() == Seq::<NodeId>::empty(),
            s.branches() == Seq::<Option<usize>>::empty(),
    {
        Self { n_channels: 0, wpc: 5, nodes: Vec::new(), branches: Vec::new() }
    }

    pub fn num_terminals(&self) -> (r: usize)
        ensures
            r == self.nodes().len(),
    {
        self.nodes.len()
    }

    /// Record the simulation's wires-per-channel.
    pub fn setup_model(&mut self, wires_per_channel: usize)
        ensures
            final(self).wpc() == wires_per_channel,
            final(self).n_channels() == old(self).n_channels(),
            final(self).nodes() == old(self).nodes(),
            final(self).branches() == old(self).branches(),
    {
        self.wpc = wires_per_channel;
    }

    /// Configure from the instance terminals: bidirectional propagation and a
    /// positive multiple of 15 terminals.
    pub fn setup_instance(&mut self, terminals: &[NodeId], wires_per_channel: usize)
        requires
            wires_per_channel == 5,
            terminals@.len() > 0,
            terminals@.len() % 15 == 0,
        ensures
            final(self).wf(),
            final(self).wpc() == 5,
            final(self).n_channels() == terminals@.len() / 15,
            final(self).nodes() == terminals@,
            final(self).branches() == Seq::new(8 * (terminals@.len() / 15), |i: int| None::<usize>),
    {
        self.wpc = 5;
        let stride: usize = 3 * 5;
        let n = terminals.len() / stride;
        self.n_channels = n;
        self.nodes = copy_nodes(terminals);
        self.branches = unbound_rows(8 * n);
        assert(self.branches@ =~= Seq::new(8 * (terminals@.len() / 15), |i: int| None::<usize>));
    }

    pub fn num_extra_nodes(&self) -> (r: usize)
        ensures
            r == self.branches().len(),
    {
        self.branches.len()
    }

    /// Bind the branch rows to the contiguous block starting at `first_idx`.
    pub fn bind_extra_nodes(&mut self, first_idx: usize)
        requires
            first_idx + old(self).branches().len() <= usize::MAX,
        ensures
            final(self).branches().len() == old(self).branches().len(),
            bound_from(final(self).branches(), first_idx as int),
            final(self).n_channels() == old(self).n_channels(),
            final(self).wpc() == old(self).wpc(),
            final(self).nodes() == old(self).nodes(),
    {
        bind_contiguous(&mut self.branches, first_idx);
    }

    /// Stamp the eight routing equations of every channel.
    pub fn load_jacobian<T: Copy>(&self, mat: &mut Vec<Stamp<T>>)
        requires
            self.wf(),
        ensures
            final(mat)@ == old(mat)@ + rows_stamps(self.branches(), self.rows::<T>()),
    {
        let n = self.n_channels;
        let total = self.nodes.len();
        let wpc: usize = 5;
        let ghost rows = self.rows::<T>();
        let ghost start = mat@;
        assert(rows.take(0) =~= Seq::<Row<T>>::empty());
        proof { lemma_rows_stamps_empty(self.branches(), rows.take(0)); }
        assert(start + Seq::<Stamp<T>>::empty() =~= start);
        let mut k: usize = 0;
        while k < n
            invariant
                k <= n,
                total == 15 * n,
                n == self.n_channels(),
                self.wf(),
                wpc == 5,
                rows == self.rows::<T>(),
                rows.len() == 8 * n,
                mat@ == start + rows_stamps(self.branches(), rows.take(8 * k)),
            decreases n - k,
        {
            let base = 15 * k;
            let b = 8 * k;
            let p0 = base;
            let p1 = base + wpc;
            let p2 = base + 2 * wpc;
            // port_0.bw = port_2.fw
            proof { lemma_relative_row::<T>(self.nodes(), n as nat, k as int, 0); }
            stamp_unit_row(mat, &self.branches, &self.nodes, Ghost(rows), Ghost(start), b, p0 + RE_BW, p2 + RE_FW);
            proof { lemma_relative_row::<T>(self.nodes(), n as nat, k as int, 1); }
            stamp_unit_row(mat, &self.branches, &self.nodes, Ghost(rows), Ghost(start), b + 1, p0 + IM_BW, p2 + IM_FW);
            // port_1.bw = port_0.fw
            proof { lemma_relative_row::<T>(self.nodes(), n as nat, k as int, 2); }
            stamp_unit_row(mat, &self.branches, &self.nodes, Ghost(rows), Ghost(start), b + 2, p1 + RE_BW, p0 + RE_FW);
            proof { lemma_relative_row::<T>(self.nodes(), n as nat, k as int, 3); }
            stamp_unit_row(mat, &self.branches, &self.nodes, Ghost(rows), Ghost(start), b + 3, p1 + IM_BW, p0 + IM_FW);
            // port_2.bw = port_1.fw
            proof { lemma_relative_row::<T>(self.nodes(), n as nat, k as int, 4); }
            stamp_unit_row(mat, &self.branches, &self.nodes, Ghost(rows), Ghost(start), b + 4, p2 + RE_BW, p1 + RE_FW);
            proof { lemma_relative_row::<T>(self.nodes(), n as nat, k as int, 5); }
            stamp_unit_row(mat, &self.branches, &self.nodes, Ghost(rows), Ghost(start), b + 5, p2 + IM_BW, p1 + IM_FW);
            // λ ties: port_1.λ = port_0.λ, port_2.λ = port_0.λ.
            proof { lemma_relative_row::<T>(self.nodes(), n as nat, k as int, 6); }
            stamp_unit_row(mat, &self.branches, &self.nodes, Ghost(rows), Ghost(start), b + 6, p1 + LAMBDA, p0 + LAMBDA);
            proof { lemma_relative_row::<T>(self.nodes(), n as nat, k as int, 7); }
            stamp_unit_row(mat, &self.branches, &self.nodes, Ghost(rows), Ghost(start), b + 7, p2 + LAMBDA, p0 + LAMBDA);
            k = k + 1;
        }
        assert(rows.take(8 * n) =~= rows);
    }
}

impl Default for NativeCirculator {
    fn default() -> (s: Self)
        ensures
            s.wf(),
            s.n_channels() == 0,
            s.wpc() == 5,
            s.nodes() == Seq::<NodeId>::empty(),
            s.branches() == Seq::<Option<usize>>::empty(),
    {
        Self::new()
    }
}

// ── Laws ───────────────────────────────────────────────────────────────────

/// The mux is identity routing channel by channel: wire `w` of bus channel
/// `k` is driven from wire `w` of single-channel bundle `k`.
pub proof fn lemma_mux_routes<T>(nodes: Seq<NodeId>, wpc: nat, n: nat, k: int, w: int)
    requires
        0 <= k < n,
        0 <= w < wpc,
    ensures
        mux_rows::<T>(nodes, wpc, n)[wpc * k + w]
            == unit_row::<T>(nodes, wpc * k + w, wpc * k + w, wpc * (n + k) + w),
{
    lemma_bundle_index(wpc as int, n as int, k, w);
}

/// The demux is the mux read backwards: on the same terminals, slot `i` of
/// the demux drives the wire slot `i` of the mux reads, from the wire that
/// mux slot drives.
pub proof fn lemma_demux_reverses_mux<T>(nodes: Seq<NodeId>, wpc: nat, n: nat)
    ensures
        demux_rows::<T>(nodes, wpc, n).len() == mux_rows::<T>(nodes, wpc, n).len(),
        forall|i: int| 0 <= i < wpc * n ==> {
            let m = #[trigger] mux_rows::<T>(nodes, wpc, n)[i];
            demux_rows::<T>(nodes, wpc, n)[i] == (m.0, m.2[0].0, seq![(m.1, m.2[0].1)])
        },
{
}

/// Light entering port `p` on its inward (`fw`) wires leaves port
/// `(p + 1) mod 3` on its outward (`bw`) wires, for `re` and `im`, in every
/// channel; ports 1 and 2 take port 0's λ.
pub proof fn lemma_relative_circulator_cycles<T>(nodes: Seq<NodeId>, n: nat, k: int, p: int)
    requires
        0 <= k < n,
        0 <= p < 3,
    ensures
        ({
            let rows = relative_circulator_rows::<T>(nodes, n);
            let q = (p + 1) % 3;
            let b = 8 * k + 2 * q;
            &&& rows[b] == unit_row::<T>(nodes, b, wire_pos(k, q, RE_BW as int), wire_pos(k, p, RE_FW as int))
            &&& rows[b + 1] == unit_row::<T>(nodes, b + 1, wire_pos(k, q, IM_BW as int), wire_pos(k, p, IM_FW as int))
            &&& rows[8 * k + 6] == unit_row::<T>(nodes, 8 * k + 6, wire_pos(k, 1, LAMBDA as int), wire_pos(k, 0, LAMBDA as int))
            &&& rows[8 * k + 7] == unit_row::<T>(nodes, 8 * k + 7, wire_pos(k, 2, LAMBDA as int), wire_pos(k, 0, LAMBDA as int))
        }),
{
    let q = (p + 1) % 3;
    lemma_relative_row::<T>(nodes, n, k, 2 * q);
    lemma_relative_row::<T>(nodes, n, k, 2 * q + 1);
    lemma_relative_row::<T>(nodes, n, k, 6);
    lemma_relative_row::<T>(nodes, n, k, 7);
}


/// Each of the mux's and the demux's `wpc·n` branch rows carries exactly
/// one equation.
pub proof fn lemma_bundle_slots<T>(nodes: Seq<NodeId>, wpc: nat, n: nat)
    ensures
        mux_rows::<T>(nodes, wpc, n).len() == wpc * n,
        demux_rows::<T>(nodes, wpc, n).len() == wpc * n,
        branch_slots_exact(mux_rows::<T>(nodes, wpc, n)),
        branch_slots_exact(demux_rows::<T>(nodes, wpc, n)),
{
}

/// Each of the port-relative circulator's `8·n` branch rows carries exactly
/// one equation.
pub proof fn lemma_relative_circulator_slots<T>(nodes: Seq<NodeId>, n: nat)
    ensures
        relative_circulator_rows::<T>(nodes, n).len() == 8 * n,
        branch_slots_exact(relative_circulator_rows::<T>(nodes, n)),
{
}

} // verus!
