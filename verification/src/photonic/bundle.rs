//! Terminal and branch-row bookkeeping shared by the bundle-aware optical
//! devices: `ports` optical ports of `wpc` wires per channel, port after
//! port (each port's `n` channels in order), then `extra` electrical
//! terminals.

use vstd::prelude::*;
use crate::device::{NodeId, bind_contiguous, bound_from, copy_nodes, unbound_rows};

verus! {

/// Whether `len` terminals are `ports·wpc·n + extra` for some `n ≥ 1`.
pub open spec fn bundle_count_ok(len: int, stride: int, extra: int) -> bool {
    &&& stride > 0
    &&& len >= stride + extra
    &&& (len - extra) % stride == 0
}

pub struct BundlePorts {
    ports: usize,
    extra: usize,
    n_channels: usize,
    wpc: usize,
    nodes: Vec<NodeId>,
    branches: Vec<Option<usize>>,
}

impl BundlePorts {
    pub closed spec fn ports(&self) -> nat {
        self.ports as nat
    }

    pub closed spec fn extra(&self) -> nat {
        self.extra as nat
    }

    pub closed spec fn n_channels(&self) -> nat {
        self.n_channels as nat
    }

    pub closed spec fn wpc(&self) -> nat {
        self.wpc as nat
    }

    pub closed spec fn nodes(&self) -> Seq<NodeId> {
        self.nodes@
    }

    pub closed spec fn branches(&self) -> Seq<Option<usize>> {
        self.branches@
    }

    /// Either unconfigured, or holding `ports·wpc·n + extra` terminals.
    pub open spec fn wf(&self) -> bool {
        ||| self.n_channels() == 0 && self.nodes().len() == 0 && self.branches().len() == 0
        ||| self.n_channels() > 0 && self.nodes().len() == self.ports() * self.wpc() * self.n_channels()
            + self.extra()
    }

    /// Unconfigured wiring for a device with `ports` optical ports and
    /// `extra` electrical terminals after them.
    pub fn new(ports: usize, extra: usize) -> (s: Self)
        ensures
            s.wf(),
            s.ports() == ports,
            s.extra() == extra,
            s.n_channels() == 0,
            s.wpc() == 3,
            s.nodes() == Seq::<NodeId>::empty(),
            s.branches() == Seq::<Option<usize>>::empty(),
    {
        BundlePorts { ports, extra, n_channels: 0, wpc: 3, nodes: Vec::new(), branches: Vec::new() }
    }

    pub fn n_channels_exec(&self) -> (r: usize)
        ensures
            r == self.n_channels(),
    {
        self.n_channels
    }

    pub fn wpc_exec(&self) -> (r: usize)
        ensures
            r == self.wpc(),
    {
        self.wpc
    }

    pub fn num_terminals(&self) -> (r: usize)
        ensures
            r == self.nodes().len(),
    {
        self.nodes.len()
    }

    /// Record the simulation's wires-per-channel. Only an unconfigured
    /// instance may change width.
    pub fn setup_model(&mut self, wires_per_channel: usize)
        requires
            old(self).wf(),
            old(self).n_channels() == 0,
        ensures
            final(self).wf(),
            final(self).wpc() == wires_per_channel,
            final(self).ports() == old(self).ports(),
            final(self).extra() == old(self).extra(),
            final(self).n_channels() == 0,
            final(self).nodes() == old(self).nodes(),
            final(self).branches() == old(self).branches(),
    {
        self.wpc = wires_per_channel;
    }

    /// Configure from the instance terminals: `ports·wpc·n + extra` of them
    /// for some `n ≥ 1`, with `branches_per_channel` branch rows per channel.
    pub fn setup_instance(&mut self, terminals: &[NodeId], wires_per_channel: usize, branches_per_channel: usize)
        requires
            old(self).ports() * wires_per_channel <= usize::MAX,
            bundle_count_ok(
                terminals@.len() as int,
                old(self).ports() * wires_per_channel,
                old(self).extra() as int,
            ),
            branches_per_channel * ((terminals@.len() - old(self).extra()) / (old(self).ports()
                * wires_per_channel) as int) <= usize::MAX,
        ensures
            final(self).wf(),
            final(self).ports() == old(self).ports(),
            final(self).extra() == old(self).extra(),
            final(self).wpc() == wires_per_channel,
            final(self).n_channels() == (terminals@.len() - old(self).extra()) / (old(self).ports()
                * wires_per_channel) as int,
            final(self).nodes() == terminals@,
            final(self).branches() == Seq::new(
                (branches_per_channel * final(self).n_channels()) as nat,
                |i: int| None::<usize>,
            ),
    {
        let wpc = wires_per_channel;
        self.wpc = wpc;
        let stride = self.ports * wpc;
        let n = (terminals.len() - self.extra) / stride;
        proof {
            let len = terminals@.len() - self.extra();
            assert(len == stride * n && n >= 1) by (nonlinear_arith)
                requires stride > 0, len >= stride, len % (stride as int) == 0, n == len / (stride as int);
            assert(stride * n == self.ports() * self.wpc() * n) by (nonlinear_arith)
                requires stride == self.ports() * self.wpc();
        }
        self.n_channels = n;
        self.nodes = copy_nodes(terminals);
        self.branches = unbound_rows(branches_per_channel * n);
        assert(self.branches@ =~= Seq::new((branches_per_channel * self.n_channels()) as nat, |i: int| None::<usize>));
    }

    pub fn num_extra_nodes(&self) -> (r: usize)
        ensures
            r == self.branches().len(),
    {
        self.branches.len()
    }

    /// Bind the branch rows to the contiguous block starting at `first_idx`.
    pub fn bind_extra_nodes(&mut self, first_idx: usize)
        requires
            first_idx + old(self).branches().len() <= usize::MAX,
        ensures
            final(self).branches().len() == old(self).branches().len(),
            bound_from(final(self).branches(), first_idx as int),
            final(self).ports() == old(self).ports(),
            final(self).extra() == old(self).extra(),
            final(self).n_channels() == old(self).n_channels(),
            final(self).wpc() == old(self).wpc(),
            final(self).nodes() == old(self).nodes(),
    {
        bind_contiguous(&mut self.branches, first_idx);
    }

    /// Electrical terminal `i`, after the optical bundle wires.
    pub fn electrical_node(&self, i: usize) -> (r: NodeId)
        requires
            self.wf(),
            self.n_channels() > 0,
            i < self.extra(),
        ensures
            r == self.nodes()[self.ports() * self.wpc() * self.n_channels() + i],
    {
        let _len = self.nodes.len();
        assert(self.ports() * self.wpc() <= self.ports() * self.wpc() * self.n_channels()) by (nonlinear_arith)
            requires self.n_channels() > 0;
        self.nodes[self.ports * self.wpc * self.n_channels + i]
    }

    pub fn nodes_slice(&self) -> (r: &[NodeId])
        ensures
            r@ == self.nodes(),
    {
        self.nodes.as_slice()
    }

    pub fn branches_slice(&self) -> (r: &[Option<usize>])
        ensures
            r@ == self.branches(),
    {
        self.branches.as_slice()
    }
}

/// Terminal position of wire `w` of port `p`, channel `k`, in a bundle of
/// `n` channels of `wpc` wires per port.
pub open spec fn bundle_pos(wpc: int, n: int, p: int, k: int, w: int) -> int {
    wpc * n * p + wpc * k + w
}

/// `(from, to)` λ routes that copy the label of port `from_port`'s channel
/// `k` onto port `to_port`'s channel `k`, for every channel.
pub open spec fn straight_lambda_routes(wpc: int, n: int, from_port: int, to_ports: Seq<int>) -> Seq<(usize, usize)> {
    let per = to_ports.len() as int;
    Seq::new((per * n) as nat, |i: int| {
        let k = i / per;
        let t = to_ports[i % per];
        ((wpc * n * from_port + wpc * k + wpc - 1) as usize, (wpc * n * t + wpc * k + wpc - 1) as usize)
    })
}

/// The λ routes of a bundle device whose port `from_port` feeds each port
/// in `to_ports`, channel by channel.
pub fn lambda_routing(ports: &BundlePorts, from_port: usize, to_ports: &[usize]) -> (v: Vec<(usize, usize)>)
    requires
        ports.wf(),
        ports.wpc() >= 1,
        from_port < ports.ports(),
        to_ports@.len() >= 1,
        forall|t: int| 0 <= t < to_ports@.len() ==> #[trigger] to_ports@[t] < ports.ports(),
    ensures
        v@ == straight_lambda_routes(
            ports.wpc() as int,
            ports.n_channels() as int,
            from_port as int,
            to_ports@.map_values(|t: usize| t as int),
        ),
{
    let n = ports.n_channels;
    let wpc = ports.wpc;
    let per = to_ports.len();
    let ghost tp = to_ports@.map_values(|t: usize| t as int);
    let ghost total = straight_lambda_routes(wpc as int, n as int, from_port as int, tp);
    let len = ports.nodes.len();
    let mut v: Vec<(usize, usize)> = Vec::new();
    let mut k: usize = 0;
    while k < n
        invariant
            k <= n,
            n == ports.n_channels(),
            wpc == ports.wpc(),
            wpc >= 1,
            ports.wf(),
            len == ports.nodes().len(),
            per == to_ports@.len(),
            per >= 1,
            from_port < ports.ports(),
            forall|t: int| 0 <= t < to_ports@.len() ==> #[trigger] to_ports@[t] < ports.ports(),
            tp == to_ports@.map_values(|t: usize| t as int),
            total == straight_lambda_routes(wpc as int, n as int, from_port as int, tp),
            v@ == total.take(per * k),
        decreases n - k,
    {
        let mut q: usize = 0;
        while q < per
            invariant
                k < n,
                q <= per,
                n == ports.n_channels(),
                wpc == ports.wpc(),
                wpc >= 1,
                ports.wf(),
                len == ports.nodes().len(),
                per == to_ports@.len(),
                per >= 1,
                from_port < ports.ports(),
                forall|t: int| 0 <= t < to_ports@.len() ==> #[trigger] to_ports@[t] < ports.ports(),
                tp == to_ports@.map_values(|t: usize| t as int),
                total == straight_lambda_routes(wpc as int, n as int, from_port as int, tp),
                v@ == total.take(per * k + q),
            decreases per - q,
        {
            let t = to_ports[q];
            proof {
                lemma_wire_in_bounds(ports.ports() as int, wpc as int, n as int, from_port as int, k as int, ports.extra() as int);
                lemma_wire_in_bounds(ports.ports() as int, wpc as int, n as int, t as int, k as int, ports.extra() as int);
                assert((per * k + q) / (per as int) == k && (per * k + q) % (per as int) == q) by (nonlinear_arith)
                    requires 0 <= q < per, 0 <= k;
                assert(per * k + q < per * n) by (nonlinear_arith) requires 0 <= q < per, 0 <= k < n;
            }
            v.push((wpc * n * from_port + wpc * k + wpc - 1, wpc * n * t + wpc * k + wpc - 1));
            assert(v@ =~= total.take(per * k + q + 1));
            q = q + 1;
        }
        assert(per * k + per == per * (k + 1)) by (nonlinear_arith);
        k = k + 1;
    }
    assert(total.take(per * n) =~= total);
    v
}

/// Wire positions of a configured bundle stay inside its terminals.
pub proof fn lemma_wire_in_bounds(ports: int, wpc: int, n: int, p: int, k: int, extra: int)
    requires
        0 <= p < ports,
        0 <= k < n,
        wpc >= 1,
        extra >= 0,
    ensures
        0 <= wpc * n * p,
        0 <= wpc * k,
        wpc * n * p + wpc * k + wpc <= ports * wpc * n + extra,
        wpc * n * p <= ports * wpc * n + extra,
        wpc * n <= ports * wpc * n + extra,
{
    assert(0 <= wpc * n * p) by (nonlinear_arith) requires 0 <= p, 0 <= k < n, wpc >= 1;
    assert(0 <= wpc * k) by (nonlinear_arith) requires 0 <= k, wpc >= 1;
    assert(wpc * n * p + wpc * k + wpc <= ports * wpc * n) by (nonlinear_arith)
        requires 0 <= p < ports, 0 <= k < n, wpc >= 1;
    assert(wpc * n <= ports * wpc * n) by (nonlinear_arith)
        requires 0 <= p < ports, 0 <= k < n, wpc >= 1;
}

} // verus!
