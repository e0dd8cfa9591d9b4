use vstd::prelude::*;
use crate::wrap32::Wrap32;

verus! {

/// A segment from sender to receiver.
pub struct TCPSenderMessage {
    pub seqno: Wrap32,
    pub syn: bool,
    pub payload: Vec<u8>,
    pub fin: bool,
}

/// Sequence numbers a segment occupies: SYN and FIN take one each.
pub open spec fn seg_len(m: TCPSenderMessage) -> nat {
    (if m.syn { 1nat } else { 0nat }) + m.payload@.len() + (if m.fin { 1nat } else { 0nat })
}

/// The segment's contents as plain values.
pub open spec fn seg_view(m: TCPSenderMessage) -> (u32, bool, Seq<u8>, bool) {
    (m.seqno.raw_value, m.syn, m.payload@, m.fin)
}

impl TCPSenderMessage {
    pub fn sequence_length(&self) -> (r: u64)
        requires
            self.payload@.len() <= u64::MAX - 2,
        ensures
            r == seg_len(*self),
    {
        self.syn as u64 + self.payload.len() as u64 + self.fin as u64
    }

    /// An equal segment with its own payload.
    pub fn duplicate(&self) -> (r: Self)
        ensures
            seg_view(r) == seg_view(*self),
    {
        TCPSenderMessage {
            seqno: self.seqno,
            syn: self.syn,
            payload: self.payload.clone(),
            fin: self.fin,
        }
    }
}

} // verus!
