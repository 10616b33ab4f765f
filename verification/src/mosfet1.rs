//! Node wiring of the level-1 MOSFET: external terminals, the internal
//! drain'/source' nodes its series resistances split off, and the fixed
//! list of Jacobian cells it stamps.

use vstd::prelude::*;
use crate::device::NodeId;
use crate::mna::{Coef, Stamp, cells_stamps, opt_stamp, resistor_stamps, stamp_cells, stamp_resistor};

verus! {

/// The MOSFET's nodes. The intrinsic drain and source alias the external
/// terminals until `bind_extra_nodes` splits them off.
pub struct MosfetNodes {
    pub drain_ext: NodeId,
    pub gate: NodeId,
    pub source_ext: NodeId,
    pub bulk: NodeId,
    pub drain: NodeId,
    pub source: NodeId,
}

/// The 24 `(row, col)` cells the MOSFET's Jacobian writes, in the order its
/// value array uses: the intrinsic channel, RD, RS, the bulk-source and the
/// bulk-drain junctions.
pub open spec fn jac_pairs_spec(d: NodeId, g: NodeId, s: NodeId, bk: NodeId, d_ext: NodeId, s_ext: NodeId) -> Seq<(NodeId, NodeId)> {
    seq![
        (d, g), (d, d), (d, s), (d, bk),
        (s, g), (s, d), (s, s), (s, bk),
        (d_ext, d_ext), (d_ext, d), (d, d_ext), (d, d),
        (s_ext, s_ext), (s_ext, s), (s, s_ext), (s, s),
        (bk, bk), (bk, s), (s, bk), (s, s),
        (bk, bk), (bk, d), (d, bk), (d, d),
    ]
}

/// `caps[i]` across `pairs[i]`, for the `i < count` that carry one.
pub open spec fn cap_companion_stamps<T>(pairs: Seq<(NodeId, NodeId)>, caps: Seq<Option<T>>, count: nat) -> Seq<Stamp<T>>
    decreases count,
{
    if count == 0 {
        Seq::empty()
    } else {
        let i = count - 1;
        cap_companion_stamps(pairs, caps, i as nat) + match caps[i] {
            Some(g) => resistor_stamps(pairs[i].0, pairs[i].1, g),
            None => Seq::empty(),
        }
    }
}

impl MosfetNodes {
    pub fn new() -> (s: Self)
        ensures
            s.drain_ext is None && s.gate is None && s.source_ext is None && s.bulk is None,
            s.drain is None && s.source is None,
    {
        MosfetNodes { drain_ext: None, gate: None, source_ext: None, bulk: None, drain: None, source: None }
    }

    /// The `(row, col)` pairs `load_jacobian` writes, in the order its value
    /// array uses. One definition, read by both the stamp and the cell
    /// resolution, so they cannot disagree.
    pub fn jac_pairs(d: NodeId, g: NodeId, s: NodeId, bk: NodeId, d_ext: NodeId, s_ext: NodeId) -> (r: [(NodeId, NodeId); 24])
        ensures
            r@ == jac_pairs_spec(d, g, s, bk, d_ext, s_ext),
    {
        let r = [
            // The intrinsic channel, between the internal nodes.
            (d, g),
            (d, d),
            (d, s),
            (d, bk),
            (s, g),
            (s, d),
            (s, s),
            (s, bk),
            // RD, between the external drain and the internal one.
            (d_ext, d_ext),
            (d_ext, d),
            (d, d_ext),
            (d, d),
            // RS, likewise.
            (s_ext, s_ext),
            (s_ext, s),
            (s, s_ext),
            (s, s),
            // The bulk-source junction, between the bulk and the internal source.
            (bk, bk),
            (bk, s),
            (s, bk),
            (s, s),
            // The bulk-drain junction.
            (bk, bk),
            (bk, d),
            (d, bk),
            (d, d),
        ];
        assert(r@ =~= jac_pairs_spec(d, g, s, bk, d_ext, s_ext));
        r
    }

    /// This instance's Jacobian cells.
    pub fn cells(&self) -> (r: [(NodeId, NodeId); 24])
        ensures
            r@ == jac_pairs_spec(self.drain, self.gate, self.source, self.bulk, self.drain_ext, self.source_ext),
    {
        Self::jac_pairs(self.drain, self.gate, self.source, self.bulk, self.drain_ext, self.source_ext)
    }

    /// The DC Jacobian: `vals[i]` added at cell `i` of `jac_pairs`, the
    /// caller's channel, series and junction conductances in that order.
    pub fn load_jacobian<T: Copy>(&self, mat: &mut Vec<Stamp<T>>, vals: &[T; 24])
        ensures
            final(mat)@ == old(mat)@ + cells_stamps(
                jac_pairs_spec(self.drain, self.gate, self.source, self.bulk, self.drain_ext, self.source_ext),
                vals@,
                24,
            ),
    {
        let cells = self.cells();
        stamp_cells(mat, &cells, vals);
    }

    /// The capacitive companions of a transient step, after the DC Jacobian:
    /// gate–source, gate–drain, gate–bulk, bulk–source, bulk–drain, each
    /// stamped as a conductance across its pair when the cap is present.
    pub fn load_cap_companions<T: Copy>(&self, mat: &mut Vec<Stamp<T>>, caps: &[Option<T>; 5])
        ensures
            final(mat)@ == old(mat)@ + cap_companion_stamps(self.cap_pairs(), caps@, 5),
    {
        let pairs = [(self.gate, self.source), (self.gate, self.drain), (self.gate, self.bulk),
            (self.bulk, self.source), (self.bulk, self.drain)];
        assert(pairs@ =~= self.cap_pairs());
        let ghost start = mat@;
        let mut i: usize = 0;
        while i < 5
            invariant
                i <= 5,
                pairs@ == self.cap_pairs(),
                mat@ == start + cap_companion_stamps(self.cap_pairs(), caps@, i as nat),
            decreases 5 - i,
        {
            if let Some(g) = caps[i] {
                let (a, b) = pairs[i];
                stamp_resistor(mat, a, b, g);
            }
            i = i + 1;
        }
    }

    /// The pairs the five capacitances sit across.
    pub open spec fn cap_pairs(&self) -> Seq<(NodeId, NodeId)> {
        seq![(self.gate, self.source), (self.gate, self.drain), (self.gate, self.bulk),
            (self.bulk, self.source), (self.bulk, self.drain)]
    }

    /// Bind the terminals `[D, G, S, B]`; drain and source alias the external
    /// terminals.
    pub fn setup_instance(&mut self, terminals: &[NodeId])
        requires
            terminals@.len() >= 4,
        ensures
            final(self).drain_ext == terminals@[0],
            final(self).gate == terminals@[1],
            final(self).source_ext == terminals@[2],
            final(self).bulk == terminals@[3],
            final(self).drain == terminals@[0],
            final(self).source == terminals@[2],
    {
        self.drain_ext = terminals[0];
        self.gate = terminals[1];
        self.source_ext = terminals[2];
        self.bulk = terminals[3];
        self.drain = terminals[0];
        self.source = terminals[2];
    }

    /// One internal node per non-zero series resistance (RD, RS).
    pub fn num_extra_nodes(has_rd: bool, has_rs: bool) -> (r: usize)
        ensures
            r == (if has_rd { 1int } else { 0 }) + (if has_rs { 1int } else { 0 }),
    {
        (if has_rd { 1usize } else { 0 }) + (if has_rs { 1usize } else { 0 })
    }

    /// Bind the internal drain', source' nodes, in that fixed order, for the
    /// series resistances that are present.
    pub fn bind_extra_nodes(&mut self, first_idx: usize, has_rd: bool, has_rs: bool)
        requires
            first_idx + 2 <= usize::MAX,
        ensures
            final(self).drain == if has_rd { Some(first_idx) } else { old(self).drain },
            final(self).source == if has_rs {
                Some((first_idx + if has_rd { 1int } else { 0 }) as usize)
            } else {
                old(self).source
            },
            final(self).drain_ext == old(self).drain_ext,
            final(self).gate == old(self).gate,
            final(self).source_ext == old(self).source_ext,
            final(self).bulk == old(self).bulk,
    {
        let mut idx = first_idx;
        if has_rd {
            self.drain = Some(idx);
            idx += 1;
        }
        if has_rs {
            self.source = Some(idx);
        }
    }
}


/// A capacitance companion `c` across `a`–`b`: its conductance pattern when
/// present, nothing otherwise.
pub open spec fn companion_across<T>(a: NodeId, b: NodeId, c: Option<T>) -> Seq<Stamp<T>> {
    match c {
        Some(g) => resistor_stamps(a, b, g),
        None => Seq::empty(),
    }
}

/// The five capacitances sit across the nodes they are named for, in order:
/// `caps[0]` gate–source, `caps[1]` gate–drain (the Miller capacitance),
/// `caps[2]` gate–bulk, `caps[3]` bulk–source, `caps[4]` bulk–drain.
pub proof fn lemma_cap_companions_named<T>(m: MosfetNodes, caps: Seq<Option<T>>)
    requires
        caps.len() == 5,
    ensures
        cap_companion_stamps(m.cap_pairs(), caps, 5) == companion_across(m.gate, m.source, caps[0])
            + companion_across(m.gate, m.drain, caps[1]) + companion_across(m.gate, m.bulk, caps[2])
            + companion_across(m.bulk, m.source, caps[3]) + companion_across(m.bulk, m.drain, caps[4]),
{
    reveal_with_fuel(cap_companion_stamps, 6);
    let p = m.cap_pairs();
    assert(cap_companion_stamps(p, caps, 0) =~= Seq::<Stamp<T>>::empty());
    assert(cap_companion_stamps(p, caps, 1) =~= companion_across(m.gate, m.source, caps[0]));
    assert(cap_companion_stamps(p, caps, 5) =~= companion_across(m.gate, m.source, caps[0])
            + companion_across(m.gate, m.drain, caps[1]) + companion_across(m.gate, m.bulk, caps[2])
            + companion_across(m.bulk, m.source, caps[3]) + companion_across(m.bulk, m.drain, caps[4]));
}


/// Where the 24 Jacobian values land. The first four sit on the intrinsic
/// drain row and the next four on the intrinsic source row, each four over
/// the columns of gate, drain, source and bulk. Then come the square blocks
/// of RD (external and intrinsic drain), RS (external and intrinsic
/// source), the bulk–source junction and the bulk–drain junction, each as
/// `(x,x)`, `(x,y)`, `(y,x)`, `(y,y)`.
pub proof fn lemma_mosfet_jacobian_cells_named<T>(d: NodeId, g: NodeId, s: NodeId, bk: NodeId, d_ext: NodeId, s_ext: NodeId, vals: Seq<T>)
    requires
        vals.len() == 24,
    ensures
        cells_stamps(jac_pairs_spec(d, g, s, bk, d_ext, s_ext), vals, 24) == opt_stamp(d, g, Coef::Pos(vals[0]))
            + opt_stamp(d, d, Coef::Pos(vals[1]))
            + opt_stamp(d, s, Coef::Pos(vals[2]))
            + opt_stamp(d, bk, Coef::Pos(vals[3]))
            + opt_stamp(s, g, Coef::Pos(vals[4]))
            + opt_stamp(s, d, Coef::Pos(vals[5]))
            + opt_stamp(s, s, Coef::Pos(vals[6]))
            + opt_stamp(s, bk, Coef::Pos(vals[7]))
            + opt_stamp(d_ext, d_ext, Coef::Pos(vals[8]))
            + opt_stamp(d_ext, d, Coef::Pos(vals[9]))
            + opt_stamp(d, d_ext, Coef::Pos(vals[10]))
            + opt_stamp(d, d, Coef::Pos(vals[11]))
            + opt_stamp(s_ext, s_ext, Coef::Pos(vals[12]))
            + opt_stamp(s_ext, s, Coef::Pos(vals[13]))
            + opt_stamp(s, s_ext, Coef::Pos(vals[14]))
            + opt_stamp(s, s, Coef::Pos(vals[15]))
            + opt_stamp(bk, bk, Coef::Pos(vals[16]))
            + opt_stamp(bk, s, Coef::Pos(vals[17]))
            + opt_stamp(s, bk, Coef::Pos(vals[18]))
            + opt_stamp(s, s, Coef::Pos(vals[19]))
            + opt_stamp(bk, bk, Coef::Pos(vals[20]))
            + opt_stamp(bk, d, Coef::Pos(vals[21]))
            + opt_stamp(d, bk, Coef::Pos(vals[22]))
            + opt_stamp(d, d, Coef::Pos(vals[23])),
{
    reveal_with_fuel(cells_stamps, 25);
    assert(cells_stamps(jac_pairs_spec(d, g, s, bk, d_ext, s_ext), vals, 24) =~= opt_stamp(d, g, Coef::Pos(vals[0]))
            + opt_stamp(d, d, Coef::Pos(vals[1]))
            + opt_stamp(d, s, Coef::Pos(vals[2]))
            + opt_stamp(d, bk, Coef::Pos(vals[3]))
            + opt_stamp(s, g, Coef::Pos(vals[4]))
            + opt_stamp(s, d, Coef::Pos(vals[5]))
            + opt_stamp(s, s, Coef::Pos(vals[6]))
            + opt_stamp(s, bk, Coef::Pos(vals[7]))
            + opt_stamp(d_ext, d_ext, Coef::Pos(vals[8]))
            + opt_stamp(d_ext, d, Coef::Pos(vals[9]))
            + opt_stamp(d, d_ext, Coef::Pos(vals[10]))
            + opt_stamp(d, d, Coef::Pos(vals[11]))
            + opt_stamp(s_ext, s_ext, Coef::Pos(vals[12]))
            + opt_stamp(s_ext, s, Coef::Pos(vals[13]))
            + opt_stamp(s, s_ext, Coef::Pos(vals[14]))
            + opt_stamp(s, s, Coef::Pos(vals[15]))
            + opt_stamp(bk, bk, Coef::Pos(vals[16]))
            + opt_stamp(bk, s, Coef::Pos(vals[17]))
            + opt_stamp(s, bk, Coef::Pos(vals[18]))
            + opt_stamp(s, s, Coef::Pos(vals[19]))
            + opt_stamp(bk, bk, Coef::Pos(vals[20]))
            + opt_stamp(bk, d, Coef::Pos(vals[21]))
            + opt_stamp(d, bk, Coef::Pos(vals[22]))
            + opt_stamp(d, d, Coef::Pos(vals[23])));
}

} // verus!
