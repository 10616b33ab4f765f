//! Terminal wiring and Jacobian pattern of the junction diode: two
//! terminals, `[anode, cathode]`, and every conductance it stamps sits
//! across that pair. The junction physics that computes the conductances is
//! the caller's.

use vstd::prelude::*;
use crate::device::NodeId;
use crate::mna::{Stamp, resistor_stamps, stamp_resistor};

verus! {

pub struct DiodeNodes {
    pub anode: NodeId,
    pub cathode: NodeId,
}

impl DiodeNodes {
    /// Both terminals at ground until `setup_instance`.
    pub fn new() -> (s: Self)
        ensures
            s.anode == None::<usize>,
            s.cathode == None::<usize>,
    {
        Self { anode: None, cathode: None }
    }

    pub fn num_terminals(&self) -> (r: usize)
        ensures
            r == 2,
    {
        2
    }

    /// Take `[anode, cathode]`, the first two terminals.
    pub fn setup_instance(&mut self, terminals: &[NodeId])
        requires
            terminals@.len() >= 2,
        ensures
            final(self).anode == terminals@[0],
            final(self).cathode == terminals@[1],
    {
        self.anode = terminals[0];
        self.cathode = terminals[1];
    }

    /// Stamp a conductance `g` across (anode, cathode).
    pub fn stamp_g<T: Copy>(&self, mat: &mut Vec<Stamp<T>>, g: T)
        ensures
            final(mat)@ == old(mat)@ + resistor_stamps(self.anode, self.cathode, g),
    {
        stamp_resistor(mat, self.anode, self.cathode, g);
    }

    /// The transient Jacobian: the junction conductance `gd`, then, when the
    /// junction carries charge, the companion conductance `g_cap` of its
    /// capacitance, both across the same pair.
    pub fn load_jacobian_tran<T: Copy>(&self, mat: &mut Vec<Stamp<T>>, gd: T, g_cap: Option<T>)
        ensures
            final(mat)@ == old(mat)@ + resistor_stamps(self.anode, self.cathode, gd) + match g_cap {
                Some(gc) => resistor_stamps(self.anode, self.cathode, gc),
                None => Seq::empty(),
            },
    {
        self.stamp_g(mat, gd);
        if let Some(gc) = g_cap {
            self.stamp_g(mat, gc);
        }
    }
}

impl Default for DiodeNodes {
    fn default() -> (s: Self)
        ensures
            s.anode == None::<usize>,
            s.cathode == None::<usize>,
    {
        Self::new()
    }
}

} // verus!
