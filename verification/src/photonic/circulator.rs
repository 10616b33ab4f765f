use vstd::prelude::*;
use crate::device::{NodeId, bind_contiguous, bound_from, copy_nodes, unbound_rows};
use crate::mna::{branch_slots_exact, lemma_rows_stamps_empty, Row, Stamp, rows_stamps, unit_row, stamp_unit_row};

verus! {

/// Wires of one bidirectional port, in bundle order.
pub const RE_FW: usize = 0;
pub const IM_FW: usize = 1;
pub const RE_BW: usize = 2;
pub const IM_BW: usize = 3;
pub const LAMBDA: usize = 4;

/// Terminal position of wire `w` of port `p` (0, 1, 2) in channel `k`:
/// each channel holds the three ports' five wires, `15·k + 5·p + w`.
pub open spec fn wire_pos(k: int, p: int, w: int) -> int {
    15 * k + 5 * p + w
}

/// Output port, output wire, input port and input wire of the `r`-th
/// (0 ≤ r < 8) potential equation of a channel.
///
/// | r | drives | from |
/// |---|---|---|
/// | 0, 1 | port 2 `re_fw`, `im_fw` | port 1 `re_fw`, `im_fw` |
/// | 2, 3 | port 3 `re_fw`, `im_fw` | port 2 `re_bw`, `im_bw` |
/// | 4, 5 | port 1 `re_bw`, `im_bw` | port 3 `re_bw`, `im_bw` |
/// | 6, 7 | port 2 λ, port 3 λ | port 1 λ |
pub open spec fn route(r: int) -> (int, int, int, int) {
    if r == 0 { (1, 0, 0, 0) }
    else if r == 1 { (1, 1, 0, 1) }
    else if r == 2 { (2, 0, 1, 2) }
    else if r == 3 { (2, 1, 1, 3) }
    else if r == 4 { (0, 2, 2, 2) }
    else if r == 5 { (0, 3, 2, 3) }
    else if r == 6 { (1, 4, 0, 4) }
    else { (2, 4, 0, 4) }
}

/// Terminal position driven by branch slot `i` (channel `i / 8`).
#[verifier::opaque]
pub open spec fn out_pos(i: int) -> int {
    let t = route(i % 8);
    wire_pos(i / 8, t.0, t.1)
}

/// Terminal position read by branch slot `i`.
#[verifier::opaque]
pub open spec fn in_pos(i: int) -> int {
    let t = route(i % 8);
    wire_pos(i / 8, t.2, t.3)
}

/// The potential equations of an `n`-channel circulator on `nodes`: slot `i`
/// copies `in_pos(i)` onto `out_pos(i)`.
pub open spec fn circulator_rows<T>(nodes: Seq<NodeId>, n: nat) -> Seq<Row<T>> {
    Seq::new(8 * n, |i: int| unit_row::<T>(nodes, i, out_pos(i), in_pos(i)))
}

/// The `(from, to)` λ-label routes of an `n`-channel circulator: port 1's λ
/// onto port 2's and onto port 3's, per channel.
pub open spec fn circulator_lambda_routes(n: nat) -> Seq<(usize, usize)> {
    Seq::new(2 * n, |i: int|
        ((15 * (i / 2) + 4) as usize, (15 * (i / 2) + 5 * (1 + i % 2) + 4) as usize))
}

/// Row `8·k + r` of the circulator equations, spelled out.
pub proof fn lemma_channel_row<T>(nodes: Seq<NodeId>, n: nat, k: int, r: int)
    requires
        0 <= k < n,
        0 <= r < 8,
    ensures
        out_pos(8 * k + r) == wire_pos(k, route(r).0, route(r).1),
        in_pos(8 * k + r) == wire_pos(k, route(r).2, route(r).3),
        circulator_rows::<T>(nodes, n)[8 * k + r] == unit_row::<T>(
            nodes,
            8 * k + r,
            wire_pos(k, route(r).0, route(r).1),
            wire_pos(k, route(r).2, route(r).3),
        ),
{
    reveal(out_pos);
    reveal(in_pos);
    assert((8 * k + r) / 8 == k && (8 * k + r) % 8 == r) by (nonlinear_arith)
        requires 0 <= r < 8, 0 <= k;
    assert(8 * k + r < 8 * n) by (nonlinear_arith)
        requires 0 <= r < 8, 0 <= k < n;
}

// ── Laws ───────────────────────────────────────────────────────────────────

/// Port (0, 1, 2) and wire of terminal position `pos`.
pub open spec fn port_of(pos: int) -> int {
    (pos % 15) / 5
}

pub open spec fn wire_of(pos: int) -> int {
    pos % 5
}

/// The wires a port's role drives: port 1 (`in` role) drives its backward
/// field wires; ports 2 and 3 (`out` role) drive their forward field wires
/// and λ.
pub open spec fn role_drives(pos: int) -> bool {
    if port_of(pos) == 0 {
        wire_of(pos) == RE_BW || wire_of(pos) == IM_BW
    } else {
        wire_of(pos) == RE_FW || wire_of(pos) == IM_FW || wire_of(pos) == LAMBDA
    }
}

proof fn lemma_wire_pos_parts(k: int, p: int, w: int)
    requires
        0 <= k,
        0 <= p < 3,
        0 <= w < 5,
    ensures
        port_of(wire_pos(k, p, w)) == p,
        wire_of(wire_pos(k, p, w)) == w,
        wire_pos(k, p, w) / 15 == k,
{
    assert((15 * k + 5 * p + w) % 15 == 5 * p + w && (15 * k + 5 * p + w) / 15 == k) by (nonlinear_arith)
        requires 0 <= k, 0 <= p < 3, 0 <= w < 5;
    assert((15 * k + 5 * p + w) % 5 == w) by (nonlinear_arith)
        requires 0 <= k, 0 <= p < 3, 0 <= w < 5;
}

proof fn lemma_slot_parts(i: int)
    requires
        0 <= i,
    ensures
        i == 8 * (i / 8) + i % 8,
        0 <= i % 8 < 8,
        0 <= i / 8,
{
}

/// The three routes and the λ ties of channel `k`, as the device documents
/// them: light in at port 1 leaves at port 2 on the forward wires, light in
/// at port 2 (arriving on its backward wires) leaves at port 3 on the
/// forward wires, light in at port 3 leaves at port 1 on the backward wires,
/// and ports 2 and 3 take port 1's λ.
pub proof fn lemma_circulator_routes<T>(nodes: Seq<NodeId>, n: nat, k: int)
    requires
        0 <= k < n,
    ensures
        ({
            let rows = circulator_rows::<T>(nodes, n);
            let b = 8 * k;
            &&& rows[b] == unit_row::<T>(nodes, b, wire_pos(k, 1, RE_FW as int), wire_pos(k, 0, RE_FW as int))
            &&& rows[b + 1] == unit_row::<T>(nodes, b + 1, wire_pos(k, 1, IM_FW as int), wire_pos(k, 0, IM_FW as int))
            &&& rows[b + 2] == unit_row::<T>(nodes, b + 2, wire_pos(k, 2, RE_FW as int), wire_pos(k, 1, RE_BW as int))
            &&& rows[b + 3] == unit_row::<T>(nodes, b + 3, wire_pos(k, 2, IM_FW as int), wire_pos(k, 1, IM_BW as int))
            &&& rows[b + 4] == unit_row::<T>(nodes, b + 4, wire_pos(k, 0, RE_BW as int), wire_pos(k, 2, RE_BW as int))
            &&& rows[b + 5] == unit_row::<T>(nodes, b + 5, wire_pos(k, 0, IM_BW as int), wire_pos(k, 2, IM_BW as int))
            &&& rows[b + 6] == unit_row::<T>(nodes, b + 6, wire_pos(k, 1, LAMBDA as int), wire_pos(k, 0, LAMBDA as int))
            &&& rows[b + 7] == unit_row::<T>(nodes, b + 7, wire_pos(k, 2, LAMBDA as int), wire_pos(k, 0, LAMBDA as int))
        }),
{
    lemma_channel_row::<T>(nodes, n, k, 0);
    lemma_channel_row::<T>(nodes, n, k, 1);
    lemma_channel_row::<T>(nodes, n, k, 2);
    lemma_channel_row::<T>(nodes, n, k, 3);
    lemma_channel_row::<T>(nodes, n, k, 4);
    lemma_channel_row::<T>(nodes, n, k, 5);
    lemma_channel_row::<T>(nodes, n, k, 6);
    lemma_channel_row::<T>(nodes, n, k, 7);
}

/// Every port plays its chain role: each equation drives a wire its port's
/// role drives and reads one the role does not drive, within the
/// instance's terminals; no two equations drive the same wire; and every
/// wire a role drives is driven. So the circulator drops into a chain
/// without putting a second driver on any neighbour's wires.
pub proof fn lemma_circulator_roles(n: nat)
    ensures
        forall|i: int| 0 <= i < 8 * n ==> {
            &&& 0 <= #[trigger] out_pos(i) < 15 * n
            &&& 0 <= in_pos(i) < 15 * n
            &&& role_drives(out_pos(i))
            &&& !role_drives(in_pos(i))
        },
        forall|i: int, j: int| 0 <= i < 8 * n && 0 <= j < 8 * n && i != j ==> #[trigger] out_pos(i) != #[trigger] out_pos(j),
        forall|pos: int| 0 <= pos < 15 * n && #[trigger] role_drives(pos) ==> exists|i: int| 0 <= i < 8 * n && out_pos(i) == pos,
{
    assert forall|i: int| 0 <= i < 8 * n implies {
        &&& 0 <= #[trigger] out_pos(i) < 15 * n
        &&& 0 <= in_pos(i) < 15 * n
        &&& role_drives(out_pos(i))
        &&& !role_drives(in_pos(i))
    } by {
        lemma_slot_parts(i);
        let k = i / 8;
        let r = i % 8;
        assert(k < n) by (nonlinear_arith) requires i == 8 * k + r, 0 <= r < 8, i < 8 * n;
        lemma_channel_row::<int>(Seq::empty(), n, k, r);
        let t = route(r);
        lemma_wire_pos_parts(k, t.0, t.1);
        lemma_wire_pos_parts(k, t.2, t.3);
        assert(15 * k + 15 <= 15 * n) by (nonlinear_arith) requires k < n;
    }
    assert forall|i: int, j: int| 0 <= i < 8 * n && 0 <= j < 8 * n && i != j implies #[trigger] out_pos(i) != #[trigger] out_pos(j) by {
        lemma_slot_parts(i);
        lemma_slot_parts(j);
        let (ki, ri) = (i / 8, i % 8);
        let (kj, rj) = (j / 8, j % 8);
        assert(ki < n) by (nonlinear_arith) requires i == 8 * ki + ri, 0 <= ri < 8, i < 8 * n;
        assert(kj < n) by (nonlinear_arith) requires j == 8 * kj + rj, 0 <= rj < 8, j < 8 * n;
        lemma_channel_row::<int>(Seq::empty(), n, ki, ri);
        lemma_channel_row::<int>(Seq::empty(), n, kj, rj);
        let ti = route(ri);
        let tj = route(rj);
        lemma_wire_pos_parts(ki, ti.0, ti.1);
        lemma_wire_pos_parts(kj, tj.0, tj.1);
    }
    assert forall|pos: int| 0 <= pos < 15 * n && #[trigger] role_drives(pos) implies exists|i: int| 0 <= i < 8 * n && out_pos(i) == pos by {
        let k = pos / 15;
        let p = port_of(pos);
        let w = wire_of(pos);
        assert(pos == 15 * k + 5 * p + w && 0 <= p < 3 && 0 <= w < 5 && 0 <= k < n) by (nonlinear_arith)
            requires 0 <= pos < 15 * n, k == pos / 15, p == (pos % 15) / 5, w == pos % 5;
        let r: int = if p == 0 { if w == 2 { 4 } else { 5 } } else if p == 1 {
            if w == 0 { 0 } else if w == 1 { 1 } else { 6 }
        } else {
            if w == 0 { 2 } else if w == 1 { 3 } else { 7 }
        };
        lemma_channel_row::<int>(Seq::empty(), n, k, r);
        assert(8 * k + r < 8 * n) by (nonlinear_arith) requires 0 <= r < 8, 0 <= k < n;
        assert(out_pos(8 * k + r) == pos);
    }
}

/// `lambda_routing` declares exactly the λ ties the Jacobian stamps: its
/// entry `2·k + q` is `(from, to)` of equation `8·k + 6 + q`.
pub proof fn lemma_circulator_lambda_routing(n: nat)
    requires
        15 * n <= usize::MAX,
    ensures
        circulator_lambda_routes(n).len() == 2 * n,
        forall|k: int, q: int| 0 <= k < n && 0 <= q < 2 ==> {
            let e = #[trigger] circulator_lambda_routes(n)[2 * k + q];
            &&& e.0 as int == in_pos(8 * k + 6 + q)
            &&& e.1 as int == out_pos(8 * k + 6 + q)
        },
{
    assert forall|k: int, q: int| 0 <= k < n && 0 <= q < 2 implies {
        let e = #[trigger] circulator_lambda_routes(n)[2 * k + q];
        &&& e.0 as int == in_pos(8 * k + 6 + q)
        &&& e.1 as int == out_pos(8 * k + 6 + q)
    } by {
        lemma_channel_row::<int>(Seq::empty(), n, k, 6 + q);
        assert((2 * k + q) / 2 == k && (2 * k + q) % 2 == q) by (nonlinear_arith)
            requires 0 <= q < 2, 0 <= k;
        assert(2 * k + q < 2 * n) by (nonlinear_arith) requires 0 <= q < 2, 0 <= k < n;
        assert(15 * k + 15 <= 15 * n) by (nonlinear_arith) requires 0 <= k < n;
        if q == 0 {
            assert(route(6) == (1int, 4int, 0int, 4int));
        } else {
            assert(route(7) == (2int, 4int, 0int, 4int));
        }
    }
}

/// 3-port circulator. Routes light cyclically: light entering port 1 exits
/// port 2; entering port 2 exits port 3; entering port 3 exits port 1.
/// Requires bidirectional propagation (5 wires per channel) because two of
/// the three routes are carried on backward wires.
///
/// The wire convention is the along-chain one: `fw` means "away from port 1,
/// toward port 3" at all three ports. Port 1 plays a waveguide's `in` role
/// (drives `re_bw`, `im_bw`; reads `re_fw`, `im_fw`, λ); ports 2 and 3 play
/// the `out` role (drive `re_fw`, `im_fw`, λ; read `re_bw`, `im_bw`):
///
/// ```text
///   port_2.fw = port_1.fw      light in at 1 leaves at 2
///   port_3.fw = port_2.bw      light in at 2 leaves at 3
///   port_1.bw = port_3.bw      light in at 3 leaves at 1
/// ```
///
/// λ is tied from port 1 onto ports 2 and 3. Bundle-aware: `3·5·N`
/// terminals for `N` WDM channels, 8 branch rows per channel.
pub struct NativeCirculator {
    n_channels: usize,
    wpc: usize,
    /// Smallest terminal count that would have been usable, recorded when
    /// `setup_instance` is handed one it cannot use.
    min_terminals: Option<usize>,
    nodes: Vec<NodeId>,
    branches: Vec<Option<usize>>,
}

impl NativeCirculator {
    pub closed spec fn n_channels(&self) -> nat {
        self.n_channels as nat
    }

    pub closed spec fn wpc(&self) -> nat {
        self.wpc as nat
    }

    pub closed spec fn min_terminals(&self) -> Option<usize> {
        self.min_terminals
    }

    pub closed spec fn nodes(&self) -> Seq<NodeId> {
        self.nodes@
    }

    pub closed spec fn branches(&self) -> Seq<Option<usize>> {
        self.branches@
    }

    /// The terminal and branch lists match the channel count.
    pub open spec fn wf(&self) -> bool {
        &&& self.nodes().len() == 15 * self.n_channels()
        &&& self.branches().len() == 8 * self.n_channels()
    }

    /// The potential equations this instance stamps.
    pub open spec fn rows<T>(&self) -> Seq<Row<T>> {
        circulator_rows::<T>(self.nodes(), self.n_channels())
    }

    pub fn new() -> (s: Self)
        ensures
            s.wf(),
            s.n_channels() == 0,
            s.wpc() == 5,
            s.min_terminals() == None::<usize>,
            s.nodes() == Seq::<NodeId>::empty(),
            s.branches() == Seq::<Option<usize>>::empty(),
    {
        Self { n_channels: 0, wpc: 5, nodes: Vec::new(), min_terminals: None, branches: Vec::new() }
    }

    /// The terminal count: the smallest usable one after a refused setup,
    /// the configured one otherwise.
    pub fn num_terminals(&self) -> (r: usize)
        ensures
            r == match self.min_terminals() {
                Some(m) => m as int,
                None => self.nodes().len() as int,
            },
    {
        if let Some(min) = self.min_terminals {
            return min;
        }
        self.nodes.len()
    }

    /// Record the simulation's wires-per-channel.
    pub fn setup_model(&mut self, wires_per_channel: usize)
        ensures
            final(self).wpc() == wires_per_channel,
            final(self).n_channels() == old(self).n_channels(),
            final(self).min_terminals() == old(self).min_terminals(),
            final(self).nodes() == old(self).nodes(),
            final(self).branches() == old(self).branches(),
    {
        self.wpc = wires_per_channel;
    }

    /// Configure from the instance terminals, `wires_per_channel` being the
    /// simulation's wires per channel. A count that is not a positive
    /// multiple of 15 (or a unidirectional simulation) is declined: the
    /// instance keeps its previous wiring and reports 15 as the smallest
    /// usable count. Returns whether the cause is missing bidirectional
    /// propagation, which the caller should tell the user.
    pub fn setup_instance(&mut self, terminals: &[NodeId], wires_per_channel: usize) -> (needs_bidir: bool)
        requires
            old(self).wf(),
        ensures
            final(self).wf(),
            final(self).wpc() == 5,
            needs_bidir == (wires_per_channel != 5),
            ({
                let len = terminals@.len();
                if wires_per_channel != 5 || len == 0 || len % 15 != 0 {
                    &&& final(self).min_terminals() == Some(15usize)
                    &&& final(self).n_channels() == old(self).n_channels()
                    &&& final(self).nodes() == old(self).nodes()
                    &&& final(self).branches() == old(self).branches()
                } else {
                    &&& final(self).min_terminals() == None::<usize>
                    &&& final(self).n_channels() == len / 15
                    &&& final(self).nodes() == terminals@
                    &&& final(self).branches() == Seq::new(8 * (len / 15), |i: int| None::<usize>)
                }
            }),
    {
        self.wpc = 5;
        let stride: usize = 3 * 5;
        if wires_per_channel != 5 {
            self.min_terminals = Some(stride);
            return true;
        }
        if terminals.len() == 0 || terminals.len() % stride != 0 {
            self.min_terminals = Some(stride);
            return false;
        }
        self.min_terminals = None;
        let n = terminals.len() / stride;
        self.n_channels = n;
        self.nodes = copy_nodes(terminals);
        self.branches = unbound_rows(8 * n);
        assert(self.branches@ =~= Seq::new(8 * (terminals@.len() / 15), |i: int| None::<usize>));
        false
    }

    pub fn num_extra_nodes(&self) -> (r: usize)
        ensures
            r == self.branches().len(),
    {
        self.branches.len()
    }

    /// Bind the branch rows to the contiguous block starting at `first_idx`.
    pub fn bind_extra_nodes(&mut self, first_idx: usize)
        requires
            first_idx + old(self).branches().len() <= usize::MAX,
        ensures
            final(self).branches().len() == old(self).branches().len(),
            bound_from(final(self).branches(), first_idx as int),
            final(self).n_channels() == old(self).n_channels(),
            final(self).wpc() == old(self).wpc(),
            final(self).min_terminals() == old(self).min_terminals(),
            final(self).nodes() == old(self).nodes(),
    {
        bind_contiguous(&mut self.branches, first_idx);
    }

    /// `(from, to)` terminal pairs carrying a wavelength label: port 1's λ to
    /// port 2's and to port 3's, for every channel.
    pub fn lambda_routing(&self) -> (v: Vec<(usize, usize)>)
        requires
            self.wf(),
        ensures
            v@ == circulator_lambda_routes(self.n_channels()),
    {
        let n = self.n_channels;
        let total = self.nodes.len();
        let mut v: Vec<(usize, usize)> = Vec::new();
        let mut k: usize = 0;
        while k < n
            invariant
                k <= n,
                total == 15 * n,
                n == self.n_channels(),
                self.wf(),
                v@ == circulator_lambda_routes(k as nat),
            decreases n - k,
        {
            let base = 15 * k;
            v.push((base + 4, base + 5 + 4));
            v.push((base + 4, base + 10 + 4));
            assert(v@ =~= circulator_lambda_routes((k + 1) as nat));
            k = k + 1;
        }
        v
    }

    /// Stamp the eight routing equations of every channel.
    pub fn load_jacobian<T: Copy>(&self, mat: &mut Vec<Stamp<T>>)
        requires
            self.wf(),
        ensures
            final(mat)@ == old(mat)@ + rows_stamps(self.branches(), self.rows::<T>()),
    {
        let n = self.n_channels;
        let total = self.nodes.len();
        let wpc: usize = 5;
        let ghost rows = self.rows::<T>();
        let ghost start = mat@;
        assert(rows.take(0) =~= Seq::<Row<T>>::empty());
        proof { lemma_rows_stamps_empty(self.branches(), rows.take(0)); }
        assert(start + Seq::<Stamp<T>>::empty() =~= start);
        let mut k: usize = 0;
        while k < n
            invariant
                k <= n,
                total == 15 * n,
                n == self.n_channels(),
                self.wf(),
                wpc == 5,
                rows == self.rows::<T>(),
                rows.len() == 8 * n,
                mat@ == start + rows_stamps(self.branches(), rows.take(8 * k)),
            decreases n - k,
        {
            let base = 15 * k;
            let b = 8 * k;
            let p0 = base;
            let p1 = base + wpc;
            let p2 = base + 2 * wpc;
            // In at port 1, out at port 2 — both on the forward wires.
            proof { lemma_channel_row::<T>(self.nodes(), n as nat, k as int, 0); }
            stamp_unit_row(mat, &self.branches, &self.nodes, Ghost(rows), Ghost(start), b, p1 + RE_FW, p0 + RE_FW);
            proof { lemma_channel_row::<T>(self.nodes(), n as nat, k as int, 1); }
            stamp_unit_row(mat, &self.branches, &self.nodes, Ghost(rows), Ghost(start), b + 1, p1 + IM_FW, p0 + IM_FW);
            // In at port 2, out at port 3: port 2 reads its backward wires.
            proof { lemma_channel_row::<T>(self.nodes(), n as nat, k as int, 2); }
            stamp_unit_row(mat, &self.branches, &self.nodes, Ghost(rows), Ghost(start), b + 2, p2 + RE_FW, p1 + RE_BW);
            proof { lemma_channel_row::<T>(self.nodes(), n as nat, k as int, 3); }
            stamp_unit_row(mat, &self.branches, &self.nodes, Ghost(rows), Ghost(start), b + 3, p2 + IM_FW, p1 + IM_BW);
            // In at port 3, out at port 1 — the whole return path.
            proof { lemma_channel_row::<T>(self.nodes(), n as nat, k as int, 4); }
            stamp_unit_row(mat, &self.branches, &self.nodes, Ghost(rows), Ghost(start), b + 4, p0 + RE_BW, p2 + RE_BW);
            proof { lemma_channel_row::<T>(self.nodes(), n as nat, k as int, 5); }
            stamp_unit_row(mat, &self.branches, &self.nodes, Ghost(rows), Ghost(start), b + 5, p0 + IM_BW, p2 + IM_BW);
            // λ ties: the two `out`-role ports take port 1's tag.
            proof { lemma_channel_row::<T>(self.nodes(), n as nat, k as int, 6); }
            stamp_unit_row(mat, &self.branches, &self.nodes, Ghost(rows), Ghost(start), b + 6, p1 + LAMBDA, p0 + LAMBDA);
            proof { lemma_channel_row::<T>(self.nodes(), n as nat, k as int, 7); }
            stamp_unit_row(mat, &self.branches, &self.nodes, Ghost(rows), Ghost(start), b + 7, p2 + LAMBDA, p0 + LAMBDA);
            k = k + 1;
        }
        assert(rows.take(8 * n) =~= rows);
    }
}

impl Default for NativeCirculator {
    fn default() -> (s: Self)
        ensures
            s.wf(),
            s.n_channels() == 0,
            s.wpc() == 5,
            s.min_terminals() == None::<usize>,
            s.nodes() == Seq::<NodeId>::empty(),
            s.branches() == Seq::<Option<usize>>::empty(),
    {
        Self::new()
    }
}


/// Each of the circulator's `8·n` branch rows carries exactly one equation.
pub proof fn lemma_circulator_slots<T>(nodes: Seq<NodeId>, n: nat)
    ensures
        circulator_rows::<T>(nodes, n).len() == 8 * n,
        branch_slots_exact(circulator_rows::<T>(nodes, n)),
{
}

} // verus!
