//! The guest kernel's print plumbing, reduced to its substance: each
//! piece of rendered text becomes one print request for the host.

use vstd::prelude::*;

use crate::shared::Kernel;
use crate::shared::Msg;

verus! {

/// The sink the guest's formatting macros write through.
pub struct PrintStruct {}

impl PrintStruct {
    /// Turns one rendered piece of text into the print request the
    /// guest hands the host.
    pub fn write_str(&mut self, s: &str) -> (m: Msg)
        ensures
            m matches Msg::Print(t) && t@ == s@,
    {
        Kernel::Print(s)
    }
}

/// Prints rendered kernel text by way of a print request.
pub fn k_print(s: &str) -> (m: Msg)
    ensures
        m matches Msg::Print(t) && t@ == s@,
{
    let mut sink = PrintStruct {  };
    sink.write_str(s)
}

} // verus!
