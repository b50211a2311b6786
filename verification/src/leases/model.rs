//! A lease: which host holds which address.

use crate::common::addr::IpAddress;
use vstd::prelude::*;
use vstd::slice::slice_to_vec;

verus! {

#[derive(Debug)]
pub struct Lease {
    /// The host's name, `*` where it gave none.
    pub name: Vec<u8>,
    pub addr: IpAddress,
    pub client_id: Vec<u8>,
}

/// The content of a lease.
pub struct LeaseInfo {
    pub name: Seq<u8>,
    pub addr: IpAddress,
    pub client_id: Seq<u8>,
}

impl View for Lease {
    type V = LeaseInfo;

    open spec fn view(&self) -> LeaseInfo {
        LeaseInfo { name: self.name@, addr: self.addr, client_id: self.client_id@ }
    }
}

impl Clone for Lease {
    fn clone(&self) -> (copy: Self)
        ensures
            copy@ == self@,
    {
        Lease {
            name: slice_to_vec(self.name.as_slice()),
            addr: self.addr,
            client_id: slice_to_vec(self.client_id.as_slice()),
        }
    }
}

} // verus!
