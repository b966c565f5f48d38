//! The aut-num object: one AS's declared import and export policies.

use vstd::prelude::*;

use crate::filter::Filter;
use crate::peering::PeeringAction;

verus! {

/// One policy entry: who it speaks to, and what it lets through.
#[derive(Debug)]
pub struct Entry {
    pub mp_peerings: Vec<PeeringAction>,
    pub mp_filter: Filter,
}

/// Policy entries for one address family, by protocol pair.
#[derive(Debug)]
pub struct Casts {
    pub any: Vec<Entry>,
    pub unicast: Vec<Entry>,
    pub multicast: Vec<Entry>,
}

/// Policy entries keyed by address family and protocol pair.
#[derive(Debug)]
pub struct Versions {
    pub any: Casts,
    pub ipv4: Casts,
    pub ipv6: Casts,
}

/// An aut-num object: the policies one AS declares.
#[derive(Debug)]
pub struct AutNum {
    pub body: String,
    pub errors: Vec<String>,
    pub imports: Versions,
    pub exports: Versions,
}

impl Entry {
    pub open spec fn wf(self) -> bool {
        self.mp_filter.wf()
    }
}

impl Casts {
    pub open spec fn wf(self) -> bool {
        &&& forall|i: int| 0 <= i < self.any@.len() ==> (#[trigger] self.any@[i]).wf()
        &&& forall|i: int| 0 <= i < self.unicast@.len() ==> (#[trigger] self.unicast@[i]).wf()
        &&& forall|i: int| 0 <= i < self.multicast@.len() ==> (#[trigger] self.multicast@[i]).wf()
    }
}

impl Versions {
    pub open spec fn wf(self) -> bool {
        self.any.wf() && self.ipv4.wf() && self.ipv6.wf()
    }
}

impl AutNum {
    pub open spec fn wf(self) -> bool {
        self.imports.wf() && self.exports.wf()
    }
}

} // verus!
