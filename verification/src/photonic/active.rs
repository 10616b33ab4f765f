//! Wiring of `ActiveOpticalDevice`: an optical segment driven by an active
//! model. Terminal layout: the segment's `2·wpc·N` optical bundle wires
//! first, then the model's electrical terminals; branch rows: the segment's
//! first, then the model's internal nodes.

use vstd::prelude::*;
use crate::device::{NodeId, bound_from, copy_range};
use crate::mna::Stamp;
use crate::photonic::segment::{SegmentPorts, segment_lambda_routes, segment_stamps};

verus! {

pub struct ActivePorts {
    seg: SegmentPorts,
    /// The drive's electrical terminals, whose columns receive the segment's
    /// Newton cross-terms.
    elec_nodes: Vec<NodeId>,
    /// Smallest valid terminal count, recorded when `setup_instance` is
    /// handed a count it cannot use.
    min_terminals: Option<usize>,
}

impl ActivePorts {
    pub closed spec fn seg(&self) -> SegmentPorts {
        self.seg
    }

    pub closed spec fn elec_nodes(&self) -> Seq<NodeId> {
        self.elec_nodes@
    }

    pub closed spec fn min_terminals(&self) -> Option<usize> {
        self.min_terminals
    }

    pub open spec fn wf(&self) -> bool {
        self.seg().wf()
    }

    pub fn new() -> (s: Self)
        ensures
            s.wf(),
            s.seg().channels() == 0,
            s.seg().wires() == 3,
            s.elec_nodes() == Seq::<NodeId>::empty(),
            s.min_terminals() == None::<usize>,
    {
        ActivePorts { seg: SegmentPorts::new(), elec_nodes: Vec::new(), min_terminals: None }
    }

    pub fn segment(&self) -> (r: &SegmentPorts)
        ensures
            *r == self.seg(),
    {
        &self.seg
    }

    pub fn electrical_nodes(&self) -> (r: &[NodeId])
        ensures
            r@ == self.elec_nodes(),
    {
        self.elec_nodes.as_slice()
    }

    /// The terminal count for a model with `n_elec` electrical terminals: the
    /// smallest usable one after a refused setup, else the segment's optical
    /// wires plus `n_elec`.
    pub fn num_terminals(&self, n_elec: usize) -> (r: usize)
        requires
            self.wf(),
            self.min_terminals() is None ==> match self.seg().min_wires() {
                Some(m) => m + n_elec <= usize::MAX,
                None => 2 * self.seg().wires() * self.seg().channels() + n_elec <= usize::MAX,
            },
        ensures
            r == match self.min_terminals() {
                Some(m) => m as int,
                None => match self.seg().min_wires() {
                    Some(m) => m + n_elec,
                    None => 2 * self.seg().wires() * self.seg().channels() + n_elec,
                },
            },
    {
        if let Some(min) = self.min_terminals {
            return min;
        }
        self.seg.num_optical_wires() + n_elec
    }

    /// Record the simulation's wires-per-channel.
    pub fn setup_model(&mut self, wires_per_channel: usize)
        requires
            old(self).wf(),
            old(self).seg().channels() == 0,
        ensures
            final(self).wf(),
            final(self).seg().wires() == wires_per_channel,
            final(self).seg().channels() == 0,
            final(self).seg().nodes() == old(self).seg().nodes(),
            final(self).seg().branches() == old(self).seg().branches(),
            final(self).elec_nodes() == old(self).elec_nodes(),
            final(self).min_terminals() == old(self).min_terminals(),
    {
        self.seg.setup_model(wires_per_channel);
    }

    /// Configure from the instance terminals: `2·wpc·N` optical wires then
    /// `n_elec` electrical ones. Any other count leaves the device
    /// unconfigured, recording `2·wpc + n_elec` as the smallest usable count.
    /// Returns whether the instance was accepted; the caller then hands the
    /// electrical terminals to the model.
    pub fn setup_instance(&mut self, terminals: &[NodeId], wires_per_channel: usize, n_elec: usize) -> (ok: bool)
        requires
            old(self).wf(),
            2 * wires_per_channel + n_elec <= usize::MAX,
        ensures
            final(self).wf(),
            ({
                let len = terminals@.len() as int;
                let stride = 2 * wires_per_channel as int;
                let opt = len - n_elec;
                if len < stride + n_elec || (stride == 0 && opt != 0) || (stride > 0 && opt % stride != 0) {
                    &&& !ok
                    &&& final(self).min_terminals() == Some((stride + n_elec) as usize)
                    &&& final(self).seg() == old(self).seg()
                    &&& final(self).elec_nodes() == old(self).elec_nodes()
                } else {
                    &&& ok
                    &&& final(self).min_terminals() == old(self).min_terminals()
                    &&& final(self).seg().wires() == wires_per_channel
                    &&& final(self).seg().ctrl_nodes() == terminals@.subrange(opt, len)
                    &&& final(self).elec_nodes() == terminals@.subrange(opt, len)
                    &&& (wires_per_channel >= 1 ==> {
                        &&& final(self).seg().min_wires() == None::<usize>
                        &&& final(self).seg().channels() == opt / stride
                        &&& final(self).seg().nodes() == terminals@.subrange(0, opt)
                    })
                    &&& (wires_per_channel == 0 ==> {
                        &&& final(self).seg().min_wires() == Some(0usize)
                        &&& final(self).seg().channels() == 0
                        &&& final(self).seg().nodes() == Seq::<NodeId>::empty()
                    })
                }
            }),
    {
        let wpc = wires_per_channel;
        let stride = 2 * wpc;
        let len = terminals.len();
        let bad = if len < stride + n_elec {
            true
        } else if stride == 0 {
            len - n_elec != 0
        } else {
            (len - n_elec) % stride != 0
        };
        if bad {
            self.min_terminals = Some(stride + n_elec);
            return false;
        }
        let optical_len = len - n_elec;
        let optical = copy_range(terminals, 0, optical_len);
        self.seg.setup_instance(optical.as_slice(), wpc);
        let elec = copy_range(terminals, optical_len, len);
        self.seg.set_control_nodes(elec.as_slice());
        self.elec_nodes = elec;
        proof {
            if wpc >= 1 {
                assert(optical_len > 0 && optical_len % stride == 0);
            }
        }
        true
    }

    /// Branch rows: the segment's plus the model's `n_internal`.
    pub fn num_extra_nodes(&self, n_internal: usize) -> (r: usize)
        requires
            self.seg().branches().len() + n_internal <= usize::MAX,
        ensures
            r == self.seg().branches().len() + n_internal,
    {
        self.seg.num_aux_branches() + n_internal
    }

    /// Bind the segment's rows from `first_idx`; returns where the model's
    /// internal rows start, right after them.
    pub fn bind_extra_nodes(&mut self, first_idx: usize) -> (model_first: usize)
        requires
            first_idx + old(self).seg().branches().len() <= usize::MAX,
        ensures
            bound_from(final(self).seg().branches(), first_idx as int),
            final(self).seg().branches().len() == old(self).seg().branches().len(),
            model_first == first_idx + old(self).seg().branches().len(),
            final(self).seg().channels() == old(self).seg().channels(),
            final(self).seg().wires() == old(self).seg().wires(),
            final(self).seg().min_wires() == old(self).seg().min_wires(),
            final(self).seg().nodes() == old(self).seg().nodes(),
            final(self).seg().ctrl_nodes() == old(self).seg().ctrl_nodes(),
            final(self).elec_nodes() == old(self).elec_nodes(),
            final(self).min_terminals() == old(self).min_terminals(),
    {
        self.seg.bind_branches(first_idx);
        first_idx + self.seg.num_aux_branches()
    }

    pub fn lambda_routing(&self) -> (v: Vec<(usize, usize)>)
        requires
            self.wf(),
        ensures
            v@ == segment_lambda_routes(self.seg().wires() as int, self.seg().channels() as int),
    {
        self.seg.lambda_routing()
    }

    /// The segment's part of the Jacobian; the model stamps its own
    /// electrical contributions after it.
    pub fn load_jacobian<T: Copy>(
        &self,
        mat: &mut Vec<Stamp<T>>,
        c: &[T],
        s: &[T],
        g: Option<&[(T, T)]>,
        delay_active: bool,
    )
        requires
            self.wf(),
            self.seg().wires() >= 3,
            c@.len() >= self.seg().channels(),
            s@.len() >= self.seg().channels(),
            g matches Some(gs) ==> gs@.len() == self.seg().channels() * self.seg().ctrl_nodes().len(),
        ensures
            final(mat)@ == old(mat)@ + segment_stamps(
                self.seg().nodes(),
                self.seg().branches(),
                self.seg().ctrl_nodes(),
                self.seg().wires() as int,
                self.seg().channels() as int,
                c@,
                s@,
                match g { Some(gs) => Some(gs@), None => None },
                delay_active,
                self.seg().channels() as int,
            ),
    {
        self.seg.stamp(mat, c, s, g, delay_active);
    }
}

} // verus!
