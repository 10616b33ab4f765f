//! Node wiring of the Gummel–Poon BJT: its external terminals, and the
//! internal (intrinsic) nodes a series resistance splits off.

use vstd::prelude::*;
use crate::device::NodeId;
use crate::mna::{Coef, Stamp, branch_g_stamps, cells_stamps, opt_stamp, push_opt, stamp_branch_g, stamp_cells};

verus! {

/// The BJT's nodes. The intrinsic collector, base and emitter alias the
/// external terminals until `bind_extra_nodes` gives a fresh internal node
/// to each one that has a non-zero series resistance.
pub struct BjtNodes {
    pub collector_ext: NodeId,
    pub base_ext: NodeId,
    pub emitter_ext: NodeId,
    pub collector: NodeId,
    pub base: NodeId,
    pub emitter: NodeId,
    pub substrate: NodeId,
}

/// One internal node per non-zero ohmic series resistance.
pub open spec fn bjt_extra_count(has_rb: bool, has_rc: bool, has_re: bool) -> nat {
    (if has_rb { 1nat } else { 0 }) + (if has_rc { 1nat } else { 0 }) + (if has_re { 1nat } else { 0 })
}

/// The nine intrinsic cells, row by row: collector, base, emitter rows,
/// each over the base, collector and emitter columns in the order the
/// intrinsic Jacobian writes them.
pub open spec fn bjt_core_cells(c: NodeId, b: NodeId, e: NodeId) -> Seq<(NodeId, NodeId)> {
    seq![(c, b), (c, c), (c, e), (b, b), (b, c), (b, e), (e, b), (e, c), (e, e)]
}

/// `g` across `(x, y)` when present.
pub open spec fn opt_branch_g<T>(x: NodeId, y: NodeId, g: Option<T>) -> Seq<Stamp<T>> {
    match g {
        Some(v) => branch_g_stamps(x, y, v),
        None => Seq::empty(),
    }
}

/// The B–E transcapacitance: rows base and emitter, columns base and
/// collector, `+c` at `(b,b)` and `(e,c)`, `−c` at `(b,c)` and `(e,b)`.
pub open spec fn transcap_stamps<T>(b: NodeId, c: NodeId, e: NodeId, g: Option<T>) -> Seq<Stamp<T>> {
    match g {
        Some(v) => opt_stamp(b, b, Coef::Pos(v)) + opt_stamp(b, c, Coef::Neg(v)) + opt_stamp(e, b, Coef::Neg(v))
            + opt_stamp(e, c, Coef::Pos(v)),
        None => Seq::empty(),
    }
}

fn stamp_opt_branch_g<T: Copy>(mat: &mut Vec<Stamp<T>>, x: NodeId, y: NodeId, g: Option<T>)
    ensures
        final(mat)@ == old(mat)@ + opt_branch_g(x, y, g),
{
    if let Some(v) = g {
        stamp_branch_g(mat, x, y, v);
    } else {
        assert(opt_branch_g(x, y, g) =~= Seq::<Stamp<T>>::empty());
    }
}

impl BjtNodes {
    /// The DC Jacobian: the caller's nine intrinsic values at
    /// `bjt_core_cells`, the collector–substrate conductance `gsub` between
    /// the substrate and the internal collector, then the base, collector
    /// and emitter series conductances (when present) between each external
    /// terminal and its internal node.
    pub fn load_jacobian<T: Copy>(&self, mat: &mut Vec<Stamp<T>>, core: &[T; 9], gsub: T, series: &[Option<T>; 3])
        ensures
            final(mat)@ == old(mat)@
                + cells_stamps(bjt_core_cells(self.collector, self.base, self.emitter), core@, 9)
                + branch_g_stamps(self.substrate, self.collector, gsub)
                + opt_branch_g(self.base_ext, self.base, series@[0])
                + opt_branch_g(self.collector_ext, self.collector, series@[1])
                + opt_branch_g(self.emitter_ext, self.emitter, series@[2]),
    {
        let (c, b, e) = (self.collector, self.base, self.emitter);
        let cells = [(c, b), (c, c), (c, e), (b, b), (b, c), (b, e), (e, b), (e, c), (e, e)];
        assert(cells@ =~= bjt_core_cells(c, b, e));
        stamp_cells(mat, &cells, core);
        stamp_branch_g(mat, self.substrate, c, gsub);
        stamp_opt_branch_g(mat, self.base_ext, b, series[0]);
        stamp_opt_branch_g(mat, self.collector_ext, c, series[1]);
        stamp_opt_branch_g(mat, self.emitter_ext, e, series[2]);
    }

    /// The capacitive companions of a transient step, after the DC Jacobian,
    /// each only when present: B–E diffusion, the B–E transcapacitance, B–C
    /// diffusion, B–E and B–C depletion, the external B–C share (base pin to
    /// internal collector) and the collector–substrate depletion.
    pub fn load_cap_companions<T: Copy>(&self, mat: &mut Vec<Stamp<T>>, caps: &[Option<T>; 7])
        ensures
            final(mat)@ == old(mat)@
                + opt_branch_g(self.base, self.emitter, caps@[0])
                + transcap_stamps(self.base, self.collector, self.emitter, caps@[1])
                + opt_branch_g(self.base, self.collector, caps@[2])
                + opt_branch_g(self.base, self.emitter, caps@[3])
                + opt_branch_g(self.base, self.collector, caps@[4])
                + opt_branch_g(self.base_ext, self.collector, caps@[5])
                + opt_branch_g(self.substrate, self.collector, caps@[6]),
    {
        let (c, b, e) = (self.collector, self.base, self.emitter);
        stamp_opt_branch_g(mat, b, e, caps[0]);
        if let Some(v) = caps[1] {
            push_opt(mat, b, b, Coef::Pos(v));
            push_opt(mat, b, c, Coef::Neg(v));
            push_opt(mat, e, b, Coef::Neg(v));
            push_opt(mat, e, c, Coef::Pos(v));
        }
        stamp_opt_branch_g(mat, b, c, caps[2]);
        stamp_opt_branch_g(mat, b, e, caps[3]);
        stamp_opt_branch_g(mat, b, c, caps[4]);
        stamp_opt_branch_g(mat, self.base_ext, c, caps[5]);
        stamp_opt_branch_g(mat, self.substrate, c, caps[6]);
    }

    pub fn new() -> (s: Self)
        ensures
            s.collector_ext is None && s.base_ext is None && s.emitter_ext is None,
            s.collector is None && s.base is None && s.emitter is None && s.substrate is None,
    {
        BjtNodes {
            collector_ext: None,
            base_ext: None,
            emitter_ext: None,
            collector: None,
            base: None,
            emitter: None,
            substrate: None,
        }
    }

    /// Bind the terminals `[C, B, E]` or `[C, B, E, S]`; the intrinsic nodes
    /// alias the external ones and the substrate is ground when absent.
    pub fn setup_instance(&mut self, terminals: &[NodeId])
        requires
            terminals@.len() >= 3,
        ensures
            final(self).collector_ext == terminals@[0],
            final(self).base_ext == terminals@[1],
            final(self).emitter_ext == terminals@[2],
            final(self).collector == terminals@[0],
            final(self).base == terminals@[1],
            final(self).emitter == terminals@[2],
            final(self).substrate == if terminals@.len() > 3 { terminals@[3] } else { None },
    {
        self.collector_ext = terminals[0];
        self.base_ext = terminals[1];
        self.emitter_ext = terminals[2];
        self.collector = terminals[0];
        self.base = terminals[1];
        self.emitter = terminals[2];
        self.substrate = if terminals.len() > 3 { terminals[3] } else { None };
    }

    /// One internal node per non-zero series resistance (RB, RC, RE).
    pub fn num_extra_nodes(has_rb: bool, has_rc: bool, has_re: bool) -> (r: usize)
        ensures
            r == bjt_extra_count(has_rb, has_rc, has_re),
    {
        (if has_rb { 1usize } else { 0 }) + (if has_rc { 1usize } else { 0 }) + (if has_re { 1usize } else { 0 })
    }

    /// Bind the internal base', collector', emitter' nodes, in that fixed
    /// order, for the series resistances that are present; the others keep
    /// aliasing their external terminals.
    pub fn bind_extra_nodes(&mut self, first_idx: usize, has_rb: bool, has_rc: bool, has_re: bool)
        requires
            first_idx + 3 <= usize::MAX,
        ensures
            final(self).base == if has_rb { Some(first_idx) } else { old(self).base },
            final(self).collector == if has_rc {
                Some((first_idx + if has_rb { 1int } else { 0 }) as usize)
            } else {
                old(self).collector
            },
            final(self).emitter == if has_re {
                Some((first_idx + bjt_extra_count(has_rb, has_rc, false)) as usize)
            } else {
                old(self).emitter
            },
            final(self).collector_ext == old(self).collector_ext,
            final(self).base_ext == old(self).base_ext,
            final(self).emitter_ext == old(self).emitter_ext,
            final(self).substrate == old(self).substrate,
    {
        let mut idx = first_idx;
        if has_rb {
            self.base = Some(idx);
            idx += 1;
        }
        if has_rc {
            self.collector = Some(idx);
            idx += 1;
        }
        if has_re {
            self.emitter = Some(idx);
        }
    }
}

/// The internal nodes take the block `first .. first + count`, one each, in
/// the order base', collector', emitter': no two share a row and none falls
/// outside the block.
pub proof fn lemma_bjt_internal_block(first: int, has_rb: bool, has_rc: bool, has_re: bool)
    ensures
        ({
            let b = first;
            let c = first + if has_rb { 1int } else { 0 };
            let e = first + bjt_extra_count(has_rb, has_rc, false);
            let end = first + bjt_extra_count(has_rb, has_rc, has_re);
            &&& has_rb ==> first <= b < end
            &&& has_rc ==> first <= c < end
            &&& has_re ==> first <= e < end
            &&& (has_rb && has_rc) ==> b != c
            &&& (has_rb && has_re) ==> b != e
            &&& (has_rc && has_re) ==> c != e
        }),
{
}


/// The intrinsic Jacobian values land on the terminals they differentiate:
/// `core[0 .. 3]` on the collector row over the base, collector and emitter
/// columns, `core[3 .. 6]` on the base row over base, collector, emitter,
/// and `core[6 .. 9]` on the emitter row over base, collector, emitter.
pub proof fn lemma_bjt_core_cells_named<T>(c: NodeId, b: NodeId, e: NodeId, core: Seq<T>)
    requires
        core.len() == 9,
    ensures
        cells_stamps(bjt_core_cells(c, b, e), core, 9) == opt_stamp(c, b, Coef::Pos(core[0]))
            + opt_stamp(c, c, Coef::Pos(core[1]))
            + opt_stamp(c, e, Coef::Pos(core[2]))
            + opt_stamp(b, b, Coef::Pos(core[3]))
            + opt_stamp(b, c, Coef::Pos(core[4]))
            + opt_stamp(b, e, Coef::Pos(core[5]))
            + opt_stamp(e, b, Coef::Pos(core[6]))
            + opt_stamp(e, c, Coef::Pos(core[7]))
            + opt_stamp(e, e, Coef::Pos(core[8])),
{
    reveal_with_fuel(cells_stamps, 10);
    assert(cells_stamps(bjt_core_cells(c, b, e), core, 9) =~= opt_stamp(c, b, Coef::Pos(core[0]))
            + opt_stamp(c, c, Coef::Pos(core[1]))
            + opt_stamp(c, e, Coef::Pos(core[2]))
            + opt_stamp(b, b, Coef::Pos(core[3]))
            + opt_stamp(b, c, Coef::Pos(core[4]))
            + opt_stamp(b, e, Coef::Pos(core[5]))
            + opt_stamp(e, b, Coef::Pos(core[6]))
            + opt_stamp(e, c, Coef::Pos(core[7]))
            + opt_stamp(e, e, Coef::Pos(core[8])));
}

} // verus!
