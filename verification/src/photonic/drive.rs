//! Electrical wiring of the drives that modulate an optical segment. Every
//! drive is a list of parts, each owning one terminal pair: a PN junction
//! (depletion, injection or full physics — one conductance across anode and
//! cathode), a metal heater (one conductance), or a heater with a thermal RC
//! (its conductance plus one internal row for the filtered temperature).
//! Adding a heater to a drive appends a heater part: its two terminals follow
//! the drive's, its rows follow the drive's.

use vstd::prelude::*;
use crate::device::NodeId;
use crate::mna::{cell_has, lemma_cell_concat, lemma_resistor_has, Coef, Stamp, resistor_stamps, stamp_resistor};
use crate::photonic::shifter::state_row_stamps;

verus! {

#[derive(Clone, Copy, PartialEq, Eq, Debug)]
pub enum DrivePart {
    Junction,
    Heater,
    HeaterRc,
}

/// Internal rows a part needs.
pub open spec fn part_rows(p: DrivePart) -> nat {
    if p is HeaterRc { 1 } else { 0 }
}

/// Internal rows of the parts before part `i`.
pub open spec fn rows_before(parts: Seq<DrivePart>, i: int) -> nat
    decreases i,
{
    if i <= 0 {
        0
    } else {
        rows_before(parts, i - 1) + part_rows(parts[i - 1])
    }
}

/// Part `p`'s stamps: its conductance `g` across its pair, then for a
/// thermal RC its temperature row (`diag`, `slope`).
pub open spec fn part_stamps<T>(part: DrivePart, a: NodeId, b: NodeId, row: Option<usize>, g: T, rc: (T, T)) -> Seq<Stamp<T>> {
    resistor_stamps(a, b, g) + if part is HeaterRc { state_row_stamps(row, a, b, rc.0, rc.1) } else { Seq::empty() }
}

/// The stamps of parts `0 .. count`, in order.
pub open spec fn drive_stamps<T>(
    parts: Seq<DrivePart>,
    terms: Seq<NodeId>,
    rows: Seq<Option<usize>>,
    g: Seq<T>,
    rc: Seq<(T, T)>,
    count: nat,
) -> Seq<Stamp<T>>
    decreases count,
{
    if count == 0 {
        Seq::empty()
    } else {
        let p = count - 1;
        drive_stamps(parts, terms, rows, g, rc, p as nat)
            + part_stamps(parts[p], terms[2 * p], terms[2 * p + 1], rows[p], g[p], rc[p])
    }
}

pub struct DriveWiring {
    parts: Vec<DrivePart>,
    terminals: Vec<NodeId>,
    rows: Vec<Option<usize>>,
}

impl DriveWiring {
    pub closed spec fn parts(&self) -> Seq<DrivePart> {
        self.parts@
    }

    pub closed spec fn terminals(&self) -> Seq<NodeId> {
        self.terminals@
    }

    /// Each part's internal row, once bound.
    pub closed spec fn rows(&self) -> Seq<Option<usize>> {
        self.rows@
    }

    pub open spec fn wf(&self) -> bool {
        &&& self.rows().len() == self.parts().len()
        &&& (self.terminals().len() == 0 || self.terminals().len() == 2 * self.parts().len())
    }

    fn of_part(part: DrivePart) -> (s: Self)
        ensures
            s.wf(),
            s.parts() == seq![part],
            s.terminals() == Seq::<NodeId>::empty(),
            s.rows() == seq![None::<usize>],
    {
        let mut parts = Vec::new();
        parts.push(part);
        let mut rows = Vec::new();
        rows.push(None);
        DriveWiring { parts, terminals: Vec::new(), rows }
    }

    /// A PN-junction drive (depletion, injection or full physics).
    pub fn junction() -> (s: Self)
        ensures
            s.wf(),
            s.parts() == seq![DrivePart::Junction],
            s.terminals() == Seq::<NodeId>::empty(),
            s.rows() == seq![None::<usize>],
    {
        Self::of_part(DrivePart::Junction)
    }

    /// A metal-heater drive.
    pub fn heater() -> (s: Self)
        ensures
            s.wf(),
            s.parts() == seq![DrivePart::Heater],
            s.terminals() == Seq::<NodeId>::empty(),
            s.rows() == seq![None::<usize>],
    {
        Self::of_part(DrivePart::Heater)
    }

    /// A metal heater with a first-order thermal RC.
    pub fn heater_rc() -> (s: Self)
        ensures
            s.wf(),
            s.parts() == seq![DrivePart::HeaterRc],
            s.terminals() == Seq::<NodeId>::empty(),
            s.rows() == seq![None::<usize>],
    {
        Self::of_part(DrivePart::HeaterRc)
    }

    /// `inner` with a metal heater bolted on after it.
    pub fn with_heater(inner: Self) -> (s: Self)
        requires
            inner.wf(),
            inner.terminals().len() == 0,
        ensures
            s.wf(),
            s.parts() == inner.parts().push(DrivePart::Heater),
            s.terminals() == Seq::<NodeId>::empty(),
            s.rows() == inner.rows().push(None::<usize>),
    {
        let mut s = inner;
        s.parts.push(DrivePart::Heater);
        s.rows.push(None);
        s
    }

    /// Two terminals per part.
    pub fn num_electrical_terminals(&self) -> (r: usize)
        requires
            2 * self.parts().len() <= usize::MAX,
        ensures
            r == 2 * self.parts().len(),
    {
        2 * self.parts.len()
    }

    /// One internal row per thermal RC part.
    pub fn num_internal_nodes(&self) -> (r: usize)
        ensures
            r == rows_before(self.parts(), self.parts().len() as int),
    {
        let mut count: usize = 0;
        let mut i: usize = 0;
        while i < self.parts.len()
            invariant
                i <= self.parts().len(),
                count == rows_before(self.parts(), i as int),
                count <= i,
            decreases self.parts().len() - i,
        {
            if let DrivePart::HeaterRc = self.parts[i] {
                count = count + 1;
            }
            i = i + 1;
        }
        count
    }

    /// Bind the parts to their terminals: part `p` takes `electrical[2p]`
    /// and `electrical[2p + 1]`; anything after the last pair is not read.
    pub fn set_terminals(&mut self, electrical: &[NodeId])
        requires
            old(self).wf(),
            electrical@.len() >= 2 * old(self).parts().len(),
        ensures
            final(self).wf(),
            final(self).terminals() == electrical@.take((2 * old(self).parts().len()) as int),
            final(self).parts() == old(self).parts(),
            final(self).rows() == old(self).rows(),
    {
        let _el = electrical.len();
        let want = 2 * self.parts.len();
        let mut t: Vec<NodeId> = Vec::new();
        let mut i: usize = 0;
        while i < want
            invariant
                i <= want,
                want <= electrical@.len(),
                t@ == electrical@.take(i as int),
            decreases want - i,
        {
            t.push(electrical[i]);
            i = i + 1;
            assert(t@ =~= electrical@.take(i as int));
        }
        self.terminals = t;
    }

    /// Bind the thermal RC rows contiguously from `first_idx`, part after
    /// part: a part's row is `first_idx` plus the rows of the parts before
    /// it; the other parts own none.
    pub fn bind_internal(&mut self, first_idx: usize)
        requires
            old(self).wf(),
            first_idx + old(self).parts().len() <= usize::MAX,
        ensures
            final(self).wf(),
            final(self).parts() == old(self).parts(),
            final(self).terminals() == old(self).terminals(),
            forall|p: int| 0 <= p < final(self).rows().len() ==> #[trigger] final(self).rows()[p] == if old(self).parts()[p] is HeaterRc {
                Some((first_idx + rows_before(old(self).parts(), p)) as usize)
            } else {
                None::<usize>
            },
    {
        let n = self.parts.len();
        let mut next: usize = first_idx;
        let mut i: usize = 0;
        while i < n
            invariant
                i <= n,
                n == self.parts().len(),
                self.rows().len() == n,
                self.parts() == old(self).parts(),
                self.terminals() == old(self).terminals(),
                first_idx + n <= usize::MAX,
                next == first_idx + rows_before(self.parts(), i as int),
                rows_before(self.parts(), i as int) <= i,
                forall|p: int| 0 <= p < i ==> #[trigger] self.rows()[p] == if self.parts()[p] is HeaterRc {
                    Some((first_idx + rows_before(self.parts(), p)) as usize)
                } else {
                    None::<usize>
                },
            decreases n - i,
        {
            if let DrivePart::HeaterRc = self.parts[i] {
                self.rows.set(i, Some(next));
                next = next + 1;
            } else {
                self.rows.set(i, None);
            }
            i = i + 1;
        }
    }

    /// The drive's Jacobian: part after part, its conductance `g[p]` across
    /// its pair, and for a thermal RC its temperature row with `rc[p] =
    /// (diag, slope)`.
    pub fn stamp<T: Copy>(&self, mat: &mut Vec<Stamp<T>>, g: &[T], rc: &[(T, T)])
        requires
            self.wf(),
            self.terminals().len() == 2 * self.parts().len(),
            g@.len() == self.parts().len(),
            rc@.len() == self.parts().len(),
        ensures
            final(mat)@ == old(mat)@ + drive_stamps(self.parts(), self.terminals(), self.rows(), g@, rc@, self.parts().len()),
    {
        let ghost start = mat@;
        let n = self.parts.len();
        let _tl = self.terminals.len();
        let mut p: usize = 0;
        while p < n
            invariant
                self.wf(),
                self.terminals().len() == 2 * n,
                _tl == 2 * n,
                n == self.parts().len(),
                g@.len() == n,
                rc@.len() == n,
                p <= n,
                mat@ == start + drive_stamps(self.parts(), self.terminals(), self.rows(), g@, rc@, p as nat),
            decreases n - p,
        {
            let ghost before = mat@;
            let (a, b) = (self.terminals[2 * p], self.terminals[2 * p + 1]);
            stamp_resistor(mat, a, b, g[p]);
            if let DrivePart::HeaterRc = self.parts[p] {
                if let Some(t) = self.rows[p] {
                    let (diag, slope) = rc[p];
                    mat.push(Stamp { row: t, col: t, coef: Coef::Pos(diag) });
                    if let Some(hp) = a {
                        mat.push(Stamp { row: t, col: hp, coef: Coef::Neg(slope) });
                    }
                    if let Some(hn) = b {
                        mat.push(Stamp { row: t, col: hn, coef: Coef::Pos(slope) });
                    }
                }
            }
            assert(mat@ =~= before + part_stamps(self.parts()[p as int], a, b, self.rows()[p as int], g@[p as int], rc@[p as int]));
            p = p + 1;
        }
    }

    /// Part `p`'s terminal pair.
    pub fn pair(&self, p: usize) -> (r: (NodeId, NodeId))
        requires
            self.wf(),
            self.terminals().len() == 2 * self.parts().len(),
            p < self.parts().len(),
        ensures
            r == (self.terminals()[2 * p as int], self.terminals()[2 * p + 1]),
    {
        let _tl = self.terminals.len();
        (self.terminals[2 * p], self.terminals[2 * p + 1])
    }
}

/// Adding a heater keeps the drive's wiring and puts the heater after it:
/// the heater's pair is the two terminals after the drive's, and it owns no
/// row, so the drive's rows are where they were.
pub proof fn lemma_heater_follows(parts: Seq<DrivePart>)
    ensures
        ({
            let ext = parts.push(DrivePart::Heater);
            &&& ext.len() == parts.len() + 1
            &&& forall|p: int| 0 <= p < parts.len() ==> #[trigger] rows_before(ext, p) == rows_before(parts, p)
            &&& rows_before(ext, ext.len() as int) == rows_before(parts, parts.len() as int)
        }),
{
    let ext = parts.push(DrivePart::Heater);
    assert forall|p: int| 0 <= p <= parts.len() implies #[trigger] rows_before(ext, p) == rows_before(parts, p) by {
        lemma_rows_before_prefix(parts, ext, p);
    }
    assert(rows_before(ext, ext.len() as int) == rows_before(ext, parts.len() as int) + part_rows(ext[parts.len() as int]));
}

proof fn lemma_rows_before_prefix(a: Seq<DrivePart>, b: Seq<DrivePart>, p: int)
    requires
        0 <= p <= a.len(),
        a.len() <= b.len(),
        forall|i: int| 0 <= i < a.len() ==> a[i] == b[i],
    ensures
        rows_before(b, p) == rows_before(a, p),
    decreases p,
{
    if p > 0 {
        lemma_rows_before_prefix(a, b, p - 1);
    }
}

/// The thermal RC rows of a bound drive are distinct and lie in the block
/// `first .. first + num_internal_nodes()`.
pub proof fn lemma_drive_rows_block(parts: Seq<DrivePart>, first: int, p: int, q: int)
    requires
        0 <= first,
        0 <= p < q < parts.len(),
        parts[p] is HeaterRc,
        parts[q] is HeaterRc,
    ensures
        first + rows_before(parts, p) < first + rows_before(parts, q),
        first + rows_before(parts, q) < first + rows_before(parts, parts.len() as int),
{
    lemma_rows_before_mono(parts, p + 1, q);
    lemma_rows_before_mono(parts, q + 1, parts.len() as int);
}

proof fn lemma_rows_before_mono(parts: Seq<DrivePart>, i: int, j: int)
    requires
        0 <= i <= j <= parts.len(),
    ensures
        rows_before(parts, i) <= rows_before(parts, j),
    decreases j - i,
{
    if i < j {
        lemma_rows_before_mono(parts, i, j - 1);
    }
}


/// Each part of a drive carries its own conductance across its own pair:
/// for part `p < count`, `g[p]` sits across terminals `2p` and `2p + 1`
/// (`+g[p]` on both diagonal cells, `−g[p]` off the diagonal).
pub proof fn lemma_drive_part_conductance<T>(
    parts: Seq<DrivePart>, terms: Seq<NodeId>, rows: Seq<Option<usize>>, g: Seq<T>, rc: Seq<(T, T)>, count: nat, p: int,
)
    requires
        0 <= p < count,
    ensures
        ({
            let st = drive_stamps(parts, terms, rows, g, rc, count);
            let (a, b) = (terms[2 * p], terms[2 * p + 1]);
            &&& cell_has(st, a, a, Coef::Pos(g[p]))
            &&& cell_has(st, a, b, Coef::Neg(g[p]))
            &&& cell_has(st, b, b, Coef::Pos(g[p]))
            &&& cell_has(st, b, a, Coef::Neg(g[p]))
        }),
    decreases count,
{
    let q = count - 1;
    let pre = drive_stamps(parts, terms, rows, g, rc, q as nat);
    let (a, b) = (terms[2 * p], terms[2 * p + 1]);
    let last = part_stamps(parts[q], terms[2 * q], terms[2 * q + 1], rows[q], g[q], rc[q]);
    if p < q {
        lemma_drive_part_conductance(parts, terms, rows, g, rc, q as nat, p);
    } else {
        let r = resistor_stamps(a, b, g[p]);
        let extra: Seq<Stamp<T>> = if parts[q] is HeaterRc { state_row_stamps(rows[q], a, b, rc[q].0, rc[q].1) } else { Seq::empty() };
        assert(last == r + extra);
        lemma_resistor_has(a, b, g[p]);
        lemma_cell_concat(r, extra, a, a, Coef::Pos(g[p]));
        lemma_cell_concat(r, extra, a, b, Coef::Neg(g[p]));
        lemma_cell_concat(r, extra, b, b, Coef::Pos(g[p]));
        lemma_cell_concat(r, extra, b, a, Coef::Neg(g[p]));
    }
    lemma_cell_concat(pre, last, a, a, Coef::Pos(g[p]));
    lemma_cell_concat(pre, last, a, b, Coef::Neg(g[p]));
    lemma_cell_concat(pre, last, b, b, Coef::Pos(g[p]));
    lemma_cell_concat(pre, last, b, a, Coef::Neg(g[p]));
}

} // verus!
