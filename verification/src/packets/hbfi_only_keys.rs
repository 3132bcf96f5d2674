//! HBFIs compared by their identities only.
use vstd::prelude::*;
use crate::packets::hbfi::HBFI;

verus! {

/// An HBFI whose equality looks only at who asks and who answers.
#[derive(Clone, Copy, Debug)]
pub struct HBFIOnlyKeys(pub HBFI);

impl PartialEq for HBFIOnlyKeys {
    fn eq(&self, other: &Self) -> (r: bool) {
        self.0.same_keys(&other.0)
    }
}

impl vstd::std_specs::cmp::PartialEqSpecImpl for HBFIOnlyKeys {
    open spec fn obeys_eq_spec() -> bool {
        true
    }

    open spec fn eq_spec(&self, other: &Self) -> bool {
        self.0.request_pid == other.0.request_pid && self.0.response_pid == other.0.response_pid
    }
}

impl Eq for HBFIOnlyKeys {
}

} // verus!
