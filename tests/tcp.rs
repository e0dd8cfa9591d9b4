use tcp_engine::reassembler::Reassembler;
use tcp_engine::stream::{ByteStream, Reader, Writer};
use tcp_engine::tcp_receiver::TCPReceiver;
use tcp_engine::tcp_receiver_message::TCPReceiverMessage;
use tcp_engine::tcp_sender::TCPSender;
use tcp_engine::tcp_sender_message::TCPSenderMessage;
use tcp_engine::wrap32::Wrap32;

fn bytes(s: &str) -> Vec<u8> {
    s.as_bytes().to_vec()
}

fn source(s: &str, closed: bool) -> ByteStream {
    let mut b = ByteStream::new(10000);
    b.push(bytes(s));
    if closed {
        b.close();
    }
    b
}

fn ack(n: Option<u32>, window: u16) -> TCPReceiverMessage {
    TCPReceiverMessage::new(n.map(Wrap32::new), window)
}

fn segment(seqno: u32, syn: bool, payload: &str, fin: bool) -> TCPSenderMessage {
    TCPSenderMessage { seqno: Wrap32::new(seqno), syn, payload: bytes(payload), fin }
}

#[test]
fn sequence_length_counts_flags() {
    assert_eq!(segment(0, true, "abc", true).sequence_length(), 5);
    assert_eq!(segment(0, false, "", false).sequence_length(), 0);
    assert_eq!(segment(0, true, "", false).sequence_length(), 1);
}

#[test]
fn sender_respects_window() {
    let mut s = TCPSender::new(Wrap32::new(0), 1000);
    s.receive(&ack(None, 3));
    let mut src = source("hello", false);
    s.push(&mut src);
    assert_eq!(s.seqnos_in_flight(), 3);
    let m = s.send().unwrap();
    assert!(m.syn);
    assert_eq!(m.payload, bytes("he"));
    assert!(!m.fin);
    assert!(s.send().is_none());
    s.push(&mut src);
    assert_eq!(s.seqnos_in_flight(), 3);
    assert_eq!(src.bytes_buffered(), 3);
    s.receive(&ack(Some(3), 3));
    assert_eq!(s.seqnos_in_flight(), 0);
    s.push(&mut src);
    assert_eq!(s.seqnos_in_flight(), 3);
    let m = s.send().unwrap();
    assert_eq!(m.seqno.raw_value, 3);
    assert_eq!(m.payload, bytes("llo"));
}

#[test]
fn sender_splits_large_payloads() {
    let mut s = TCPSender::new(Wrap32::new(7), 1000);
    s.receive(&ack(None, 5000));
    let text = "x".repeat(2500);
    let mut src = source(&text, true);
    s.push(&mut src);
    let a = s.send().unwrap();
    let b = s.send().unwrap();
    let c = s.send().unwrap();
    assert!(s.send().is_none());
    assert_eq!(a.seqno.raw_value, 7);
    assert!(a.syn);
    assert_eq!(a.payload.len(), 1000);
    assert_eq!(b.seqno.raw_value, 1008);
    assert_eq!(b.payload.len(), 1000);
    assert_eq!(c.payload.len(), 500);
    assert!(c.fin);
    assert_eq!(s.seqnos_in_flight(), 2502);
}

#[test]
fn timeout_doubles_rto_and_new_ack_resets() {
    let mut s = TCPSender::new(Wrap32::new(0), 100);
    s.receive(&ack(None, 10));
    let mut src = source("hi", false);
    s.push(&mut src);
    let first = s.send().unwrap();
    s.tick(99);
    assert_eq!(s.consecutive_retransmissions(), 0);
    s.tick(1);
    assert_eq!(s.consecutive_retransmissions(), 1);
    assert_eq!(s.timer().rto, 200);
    let again = s.send().unwrap();
    assert_eq!(again.seqno, first.seqno);
    assert_eq!(again.payload, first.payload);
    s.receive(&ack(Some(3), 10));
    assert_eq!(s.consecutive_retransmissions(), 0);
    assert_eq!(s.timer().rto, 100);
    assert_eq!(s.seqnos_in_flight(), 0);
    assert!(!s.timer().is_running());
}

#[test]
fn stale_or_future_ack_is_ignored() {
    let mut s = TCPSender::new(Wrap32::new(0), 100);
    s.receive(&ack(None, 10));
    let mut src = source("abc", false);
    s.push(&mut src);
    s.send();
    s.receive(&ack(Some(9), 10));
    assert_eq!(s.seqnos_in_flight(), 4);
    s.receive(&ack(Some(2), 10));
    assert_eq!(s.seqnos_in_flight(), 4);
    s.receive(&ack(Some(4), 10));
    assert_eq!(s.seqnos_in_flight(), 0);
}

#[test]
fn zero_window_probe() {
    let mut s = TCPSender::new(Wrap32::new(0), 100);
    let mut src = source("abc", false);
    s.push(&mut src);
    let syn = s.send().unwrap();
    assert!(syn.syn);
    assert!(syn.payload.is_empty());
    s.receive(&ack(Some(1), 0));
    s.push(&mut src);
    assert_eq!(s.seqnos_in_flight(), 1);
    let probe = s.send().unwrap();
    assert_eq!(probe.payload, bytes("a"));
    s.push(&mut src);
    assert_eq!(s.seqnos_in_flight(), 1);
    s.tick(100);
    assert_eq!(s.timer().rto, 100);
    assert_eq!(s.consecutive_retransmissions(), 1);
}

#[test]
fn fin_rides_on_queued_segment() {
    let mut s = TCPSender::new(Wrap32::new(0), 100);
    s.receive(&ack(None, 10));
    let mut src = source("ab", false);
    s.push(&mut src);
    assert_eq!(s.seqnos_in_flight(), 3);
    src.close();
    s.push(&mut src);
    assert_eq!(s.seqnos_in_flight(), 4);
    let m = s.send().unwrap();
    assert!(m.syn && m.fin);
    assert_eq!(m.payload, bytes("ab"));
    assert!(s.send().is_none());
    s.push(&mut src);
    assert_eq!(s.seqnos_in_flight(), 4);
}

#[test]
fn fin_goes_alone_when_nothing_is_queued() {
    let mut s = TCPSender::new(Wrap32::new(0), 100);
    s.receive(&ack(None, 10));
    let mut src = source("ab", false);
    s.push(&mut src);
    s.send().unwrap();
    src.close();
    s.push(&mut src);
    let m = s.send().unwrap();
    assert!(m.fin && !m.syn);
    assert!(m.payload.is_empty());
    assert_eq!(m.seqno.raw_value, 3);
}

#[test]
fn send_empty_uses_next_seqno() {
    let mut s = TCPSender::new(Wrap32::new(u32::MAX), 100);
    s.receive(&ack(None, 10));
    let mut src = source("abc", false);
    s.push(&mut src);
    let e = s.send_empty();
    assert_eq!(e.seqno.raw_value, 3);
    assert!(!e.syn && !e.fin && e.payload.is_empty());
    assert_eq!(e.sequence_length(), 0);
}

#[test]
fn receiver_ignores_segments_before_syn() {
    let mut r = TCPReceiver::new();
    let mut re = Reassembler::new();
    let mut sink = ByteStream::new(10);
    r.receive(segment(5, false, "abc", false), &mut re, &mut sink);
    assert_eq!(r.send(&sink).ackno, None);
    assert_eq!(sink.bytes_pushed(), 0);
}

#[test]
fn receiver_syn_then_fin() {
    let mut r = TCPReceiver::new();
    let mut re = Reassembler::new();
    let mut sink = ByteStream::new(10);
    r.receive(segment(1000, true, "", false), &mut re, &mut sink);
    assert_eq!(r.send(&sink).ackno, Some(Wrap32::new(1001)));
    r.receive(segment(1001, false, "", true), &mut re, &mut sink);
    assert!(sink.is_closed());
    assert_eq!(r.send(&sink).ackno, Some(Wrap32::new(1002)));
}

#[test]
fn receiver_window_is_capped() {
    let r = TCPReceiver::new();
    let sink = ByteStream::new(100000);
    assert_eq!(r.send(&sink).window_size, 65535);
    let small = ByteStream::new(7);
    assert_eq!(r.send(&small).window_size, 7);
}

#[test]
fn receiver_reorders_across_wrap() {
    let mut r = TCPReceiver::new();
    let mut re = Reassembler::new();
    let mut sink = ByteStream::new(10);
    r.receive(segment(u32::MAX, true, "", false), &mut re, &mut sink);
    r.receive(segment(2, false, "cd", false), &mut re, &mut sink);
    assert_eq!(r.send(&sink).ackno, Some(Wrap32::new(0)));
    r.receive(segment(0, false, "ab", false), &mut re, &mut sink);
    assert_eq!(sink.peek(), &bytes("abcd"));
    assert_eq!(r.send(&sink).ackno, Some(Wrap32::new(4)));
    assert_eq!(r.send(&sink).window_size, 6);
}

#[test]
fn end_to_end_hello() {
    let mut s = TCPSender::new(Wrap32::new(0), 1000);
    s.receive(&ack(None, 10));
    let mut src = source("hello", false);
    s.push(&mut src);
    let m = s.send().unwrap();
    assert_eq!(m.seqno.raw_value, 0);
    assert!(m.syn);
    assert_eq!(m.payload, bytes("hello"));
    assert!(!m.fin);
    assert_eq!(s.seqnos_in_flight(), 6);
    let mut r = TCPReceiver::new();
    let mut re = Reassembler::new();
    let mut sink = ByteStream::new(10);
    r.receive(m, &mut re, &mut sink);
    let a = r.send(&sink);
    assert_eq!(a.ackno, Some(Wrap32::new(6)));
    assert_eq!(a.window_size, 5);
    s.receive(&a);
    assert_eq!(s.seqnos_in_flight(), 0);
    assert_eq!(s.consecutive_retransmissions(), 0);
}

#[test]
fn errored_source_blocks_push() {
    let mut s = TCPSender::new(Wrap32::new(0), 100);
    s.receive(&ack(None, 10));
    let mut src = source("abc", false);
    src.set_error();
    s.push(&mut src);
    assert_eq!(s.seqnos_in_flight(), 0);
    assert!(s.send().is_none());
    assert_eq!(src.bytes_buffered(), 3);
}

#[test]
fn closed_sink_takes_no_more_data() {
    let mut r = TCPReceiver::new();
    let mut re = Reassembler::new();
    let mut sink = ByteStream::new(10);
    r.receive(segment(0, true, "ab", true), &mut re, &mut sink);
    assert!(sink.is_closed());
    assert_eq!(r.send(&sink).ackno, Some(Wrap32::new(4)));
    r.receive(segment(3, false, "zz", false), &mut re, &mut sink);
    assert_eq!(sink.peek(), &bytes("ab"));
    assert_eq!(r.send(&sink).ackno, Some(Wrap32::new(4)));
}

#[test]
fn retransmission_waits_while_backoff_counts() {
    let mut s = TCPSender::new(Wrap32::new(0), 100);
    s.receive(&ack(None, 4));
    let mut src = source("abcdef", false);
    s.push(&mut src);
    let first = s.send().unwrap();
    assert_eq!(first.sequence_length(), 4);
    s.tick(100);
    assert_eq!(s.consecutive_retransmissions(), 1);
    s.tick(1);
    assert!(s.send().is_none());
    s.tick(199);
    assert_eq!(s.consecutive_retransmissions(), 2);
    assert_eq!(s.timer().rto, 400);
    let again = s.send().unwrap();
    assert_eq!(again.payload, bytes("abc"));
    assert!(again.syn);
}
