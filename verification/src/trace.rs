//! A trace: the ordered sequence of virtual addresses to translate,
//! collected by the caller (typically from one hexadecimal token per line
//! of a trace file) before the run starts.

use vstd::prelude::*;

use crate::address::LogicalAddress;

verus! {

/// The ordered addresses of one run.
pub struct Trace {
    addresses: Vec<LogicalAddress>,
}

impl View for Trace {
    type V = Seq<LogicalAddress>;

    closed spec fn view(&self) -> Seq<LogicalAddress> {
        self.addresses@
    }
}

impl Trace {
    pub fn new() -> (r: Self)
        ensures
            r@.len() == 0,
    {
        Trace { addresses: Vec::new() }
    }

    /// Appends one address to the trace.
    pub fn add(&mut self, address: LogicalAddress)
        ensures
            final(self)@ == old(self)@.push(address),
    {
        self.addresses.push(address);
    }

    pub fn get(&self, index: usize) -> (r: &LogicalAddress)
        requires
            index < self@.len(),
        ensures
            *r == self@[index as int],
    {
        &self.addresses[index]
    }

    pub fn len(&self) -> (r: usize)
        ensures
            r == self@.len(),
    {
        self.addresses.len()
    }

    pub fn is_empty(&self) -> (r: bool)
        ensures
            r == (self@.len() == 0),
    {
        self.len() == 0
    }
}

} // verus!
