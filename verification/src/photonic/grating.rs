//! Grating coupler (fibre ↔ chip): a zero-length waveguide with a flat
//! field transmission `t` from its insertion loss. Bundle-aware: `2·wpc·N`
//! terminals.

use vstd::prelude::*;
use crate::mna::{Stamp, rows_stamps};
use crate::photonic::bundle::{BundlePorts, lambda_routing, straight_lambda_routes};
use crate::photonic::mzm::{attenuator_bpc, attenuator_branches, attenuator_rows, stamp_attenuator};

verus! {

/// Branch rows per channel: the forward field pair, plus the backward pair
/// under bidirectional propagation. The λ label is resolved before the
/// solve, so it has no row.
pub open spec fn grating_bpc(wpc: int) -> int {
    attenuator_bpc(wpc, false)
}

/// Branch rows per channel of a grating coupler.
pub fn grating_branches(wpc: usize) -> (r: usize)
    ensures
        r == grating_bpc(wpc as int),
{
    attenuator_branches(wpc, false)
}

/// Straight through, channel for channel: input λ to output λ.
pub fn grating_lambda_routing(ports: &BundlePorts) -> (v: Vec<(usize, usize)>)
    requires
        ports.wf(),
        ports.ports() == 2,
        ports.wpc() >= 1,
    ensures
        v@ == straight_lambda_routes(ports.wpc() as int, ports.n_channels() as int, 0, seq![1int]),
{
    let to = [1usize];
    assert(to@.map_values(|t: usize| t as int) =~= seq![1int]);
    lambda_routing(ports, 0, &to)
}

/// Stamp `out = t·in` (and `in_bw = t·out_bw`) for every channel.
pub fn load_grating_jacobian<T: Copy>(ports: &BundlePorts, t: T, mat: &mut Vec<Stamp<T>>)
    requires
        ports.wf(),
        ports.ports() == 2,
        ports.wpc() >= 2,
        ports.branches().len() == grating_bpc(ports.wpc() as int) * ports.n_channels(),
    ensures
        final(mat)@ == old(mat)@ + rows_stamps(
            ports.branches(),
            attenuator_rows(ports.nodes(), ports.wpc() as int, ports.n_channels() as int, t, false),
        ),
{
    let n = ports.n_channels_exec();
    let wpc = ports.wpc_exec();
    assert(ports.ports() * ports.wpc() * ports.n_channels() == 2 * wpc * n) by (nonlinear_arith)
        requires ports.ports() == 2, wpc == ports.wpc(), n == ports.n_channels();
    stamp_attenuator(mat, ports.nodes_slice(), ports.branches_slice(), n, wpc, t, false);
}

} // verus!
