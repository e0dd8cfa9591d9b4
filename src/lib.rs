//! A reliable byte-stream transport engine: 32-bit wrapping sequence
//! numbers, an out-of-order reassembler, a retransmission timer, and the
//! sender and receiver halves of a sliding-window protocol.

pub mod wrap32;
pub mod timer;
pub mod stream;
pub mod reassembler_buffer;
pub mod reassembler;
pub mod tcp_sender_message;
pub mod tcp_receiver_message;
pub mod tcp_sender;
pub mod tcp_receiver;
