use vstd::prelude::*;

verus! {

/// The network identity a worker is known by: an IPv4 address together with
/// a port.  A worker is keyed in the registry by the address it connects
/// *from*; the callback address it supplies on registration is a second
/// value of the same type.
#[derive(Clone, Copy, PartialEq, Eq, Hash, Debug, Structural)]
pub struct WorkerAddr {
    pub oct0: u8,
    pub oct1: u8,
    pub oct2: u8,
    pub oct3: u8,
    pub port: u16,
}

impl WorkerAddr {
    pub fn new(oct0: u8, oct1: u8, oct2: u8, oct3: u8, port: u16) -> (a: WorkerAddr)
        ensures
            a == (WorkerAddr { oct0, oct1, oct2, oct3, port }),
    {
        WorkerAddr { oct0, oct1, oct2, oct3, port }
    }
}

} // verus!
