use vstd::prelude::*;
use crate::wrap32::Wrap32;

verus! {

/// An acknowledgment from receiver to sender.
#[derive(Clone, Copy, Debug, PartialEq, Eq, Structural)]
pub struct TCPReceiverMessage {
    pub ackno: Option<Wrap32>,
    pub window_size: u16,
}

impl TCPReceiverMessage {
    pub fn new(ackno: Option<Wrap32>, window_size: u16) -> (r: Self)
        ensures
            r.ackno == ackno,
            r.window_size == window_size,
    {
        TCPReceiverMessage { ackno, window_size }
    }
}

} // verus!
