use vstd::prelude::*;
use crate::reassembler::{Reassembler, fits, insert_post};
use crate::stream::Writer;
use crate::tcp_receiver_message::TCPReceiverMessage;
use crate::tcp_sender_message::TCPSenderMessage;
use crate::wrap32::{Wrap32, modulus, offset_spec, unwrap_spec, wrap_spec};

verus! {

/// The acknowledgment for a stream whose first byte has sequence number
/// `start`: one past the last byte delivered, and one more once the sink
/// has closed, for the FIN.
pub open spec fn ackno_spec(start: u32, delivered: nat, closed: bool) -> u32 {
    ((wrap_spec(delivered as int, start) as int + if closed { 1int } else { 0 }) % modulus()) as u32
}

/// Absolute stream index of the first payload byte of `m`, for a stream
/// whose first byte has sequence number `start`, read near `checkpoint`.
pub open spec fn first_index_spec(m: TCPSenderMessage, start: Wrap32, checkpoint: nat) -> u64 {
    unwrap_spec(
        offset_spec(
            ((m.seqno.raw_value + if m.syn { 1int } else { 0 }) % modulus()) as u32,
            start.raw_value,
        ),
        checkpoint as int,
    ) as u64
}

/// The receiving half: places incoming segments into a reassembler and
/// says what to acknowledge and how much room is left.
pub struct TCPReceiver {
    syn: bool,
    start: Wrap32,
    ackno: Option<Wrap32>,
}

impl TCPReceiver {
    /// Whether a SYN has been seen.
    pub closed spec fn syn_seen(&self) -> bool {
        self.syn
    }

    /// Sequence number of the stream's first byte, once a SYN has been seen.
    pub closed spec fn start_spec(&self) -> Wrap32 {
        self.start
    }

    pub closed spec fn ackno_view(&self) -> Option<Wrap32> {
        self.ackno
    }

    pub fn new() -> (r: Self)
        ensures
            !r.syn_seen(),
            r.ackno_view() is None,
    {
        TCPReceiver { syn: false, start: Wrap32::new(0), ackno: None }
    }

    /// Ignores everything until a SYN arrives; the first SYN fixes the
    /// sequence number of the stream's first byte. Unless the sink has
    /// already closed, hands the payload to
    /// `reassembler` at its absolute index, read near the count of bytes
    /// already delivered, and sets the acknowledgment from what has been
    /// delivered and whether the stream has ended.
    pub fn receive<W: Writer>(
        &mut self,
        message: TCPSenderMessage,
        reassembler: &mut Reassembler,
        inbound_stream: &mut W,
    )
        requires
            old(reassembler).wf(),
            old(inbound_stream).inv(),
            old(reassembler).delivered() == old(inbound_stream).written().len(),
        ensures
            final(reassembler).wf(),
            final(inbound_stream).inv(),
            final(reassembler).delivered() == final(inbound_stream).written().len(),
            !message.syn && !old(self).syn_seen() ==> {
                &&& *final(self) == *old(self)
                &&& *final(reassembler) == *old(reassembler)
                &&& *final(inbound_stream) == *old(inbound_stream)
            },
            message.syn || old(self).syn_seen() ==> {
                &&& final(self).syn_seen()
                &&& final(self).start_spec() == if old(self).syn_seen() {
                    old(self).start_spec()
                } else {
                    Wrap32 { raw_value: ((message.seqno.raw_value + 1) % modulus()) as u32 }
                }
                &&& final(self).ackno_view() == Some(
                    Wrap32 {
                        raw_value: ackno_spec(
                            final(self).start_spec().raw_value,
                            final(inbound_stream).written().len(),
                            final(inbound_stream).closed(),
                        ),
                    },
                )
                &&& old(inbound_stream).closed() ==> {
                    &&& *final(reassembler) == *old(reassembler)
                    &&& *final(inbound_stream) == *old(inbound_stream)
                }
                &&& !old(inbound_stream).closed() ==> {
                    let fi = first_index_spec(
                        message,
                        final(self).start_spec(),
                        old(inbound_stream).written().len(),
                    );
                    let ok = fits(
                        old(reassembler).slots().len(),
                        old(inbound_stream).room(),
                        fi,
                        message.payload@.len(),
                    );
                    &&& ok ==> insert_post(
                        *old(reassembler),
                        *final(reassembler),
                        fi,
                        message.payload@,
                        message.fin,
                        old(inbound_stream).room(),
                        old(inbound_stream).written(),
                        final(inbound_stream).written(),
                    )
                    &&& ok ==> final(inbound_stream).room() == old(inbound_stream).room() - (
                    final(reassembler).delivered() - old(reassembler).delivered())
                    &&& ok ==> final(inbound_stream).closed() == (final(reassembler).last_seen()
                        && final(reassembler).delivered() == final(reassembler).end())
                    &&& !ok ==> {
                        &&& *final(reassembler) == *old(reassembler)
                        &&& *final(inbound_stream) == *old(inbound_stream)
                    }
                }
                &&& !old(inbound_stream).closed() ==> final(reassembler).last_seen() == (old(reassembler).last_seen() || (message.fin
                    && fits(
                    old(reassembler).slots().len(),
                    old(inbound_stream).room(),
                    first_index_spec(message, final(self).start_spec(), old(inbound_stream).written().len()),
                    message.payload@.len(),
                )))
                &&& final(inbound_stream).written().len() - old(inbound_stream).written().len()
                    <= old(inbound_stream).room()
            },
    {
        if message.syn || self.syn {
            let first_byte = message.seqno.add(message.syn as u32);
            if message.syn && !self.syn {
                self.syn = true;
                self.start = first_byte;
            }
            if !inbound_stream.is_closed() {
                let first_index = first_byte.unwrap(&self.start, inbound_stream.bytes_pushed());
                reassembler.insert(first_index, message.payload, message.fin, inbound_stream);
            }
            let delivered = inbound_stream.bytes_pushed();
            let closed = inbound_stream.is_closed();
            self.ackno = Some(Wrap32::wrap(delivered, &self.start).add(closed as u32));
        }
    }

    /// The acknowledgment to send: the current ackno, and the sink's room
    /// capped at what 16 bits hold.
    pub fn send<W: Writer>(&self, inbound_stream: &W) -> (r: TCPReceiverMessage)
        requires
            inbound_stream.inv(),
        ensures
            r.ackno == self.ackno_view(),
            r.window_size == if inbound_stream.room() < 65535 {
                inbound_stream.room()
            } else {
                65535
            },
    {
        let room = inbound_stream.available_capacity();
        let window: u16 = if room < 65535 { room as u16 } else { 65535 };
        TCPReceiverMessage::new(self.ackno, window)
    }
}

} // verus!
