//! HBFIs compared without their frame number.
use vstd::prelude::*;
use crate::packets::hbfi::HBFI;

verus! {

/// An HBFI whose equality ignores the frame number: all frames of one piece
/// of content are equal.
#[derive(Clone, Copy, Debug)]
pub struct HBFIExcludeFrame(pub HBFI);

impl PartialEq for HBFIExcludeFrame {
    fn eq(&self, other: &Self) -> (r: bool) {
        self.0.same_except_frame(&other.0)
    }
}

impl vstd::std_specs::cmp::PartialEqSpecImpl for HBFIExcludeFrame {
    open spec fn obeys_eq_spec() -> bool {
        true
    }

    open spec fn eq_spec(&self, other: &Self) -> bool {
        HBFI { frm: 0, ..self.0 } == HBFI { frm: 0, ..other.0 }
    }
}

impl Eq for HBFIExcludeFrame {
}

} // verus!
