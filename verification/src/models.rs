//! The records that replies are decoded into. Every field holds the bytes
//! of the attribute's value, and is empty where the reply did not name it.

use vstd::prelude::*;

verus! {

/// One entry of a firewall address list.
#[derive(Clone, Debug)]
pub struct IPAddress {
    pub id: Vec<u8>,
    pub address: Vec<u8>,
    pub list: Vec<u8>,
}

impl IPAddress {
    /// An entry with every field empty.
    pub fn new() -> (r: IPAddress)
        ensures
            r.id@ == Seq::<u8>::empty(),
            r.address@ == Seq::<u8>::empty(),
            r.list@ == Seq::<u8>::empty(),
    {
        IPAddress { id: Vec::new(), address: Vec::new(), list: Vec::new() }
    }
}

/// One simple queue, that is one client of the router.
#[derive(Clone, Debug)]
pub struct Client {
    pub id: Vec<u8>,
    pub name: Vec<u8>,
    pub target: Vec<u8>,
    pub max_limit: Vec<u8>,
    pub burst_limit: Vec<u8>,
    pub burst_threshold: Vec<u8>,
    pub burst_time: Vec<u8>,
}

impl Client {
    /// A queue with every field empty.
    pub fn new() -> (r: Client)
        ensures
            r.id@ == Seq::<u8>::empty(),
            r.name@ == Seq::<u8>::empty(),
            r.target@ == Seq::<u8>::empty(),
            r.max_limit@ == Seq::<u8>::empty(),
            r.burst_limit@ == Seq::<u8>::empty(),
            r.burst_threshold@ == Seq::<u8>::empty(),
            r.burst_time@ == Seq::<u8>::empty(),
    {
        Client {
            id: Vec::new(),
            name: Vec::new(),
            target: Vec::new(),
            max_limit: Vec::new(),
            burst_limit: Vec::new(),
            burst_threshold: Vec::new(),
            burst_time: Vec::new(),
        }
    }
}

} // verus!
