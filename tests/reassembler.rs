use tcp_engine::reassembler::Reassembler;
use tcp_engine::stream::{ByteStream, Reader, Writer};

fn bytes(s: &str) -> Vec<u8> {
    s.as_bytes().to_vec()
}

#[test]
fn out_of_order_pieces_are_delivered_in_order() {
    let mut r = Reassembler::new();
    let mut sink = ByteStream::new(10);
    r.insert(2, bytes("cd"), false, &mut sink);
    assert_eq!(sink.peek(), &bytes(""));
    assert_eq!(r.bytes_pending(), 2);
    r.insert(0, bytes("ab"), false, &mut sink);
    assert_eq!(sink.peek(), &bytes("abcd"));
    assert_eq!(r.bytes_pending(), 0);
    r.insert(0, bytes("ab"), false, &mut sink);
    assert_eq!(sink.peek(), &bytes("abcd"));
    assert_eq!(sink.bytes_pushed(), 4);
}

#[test]
fn sink_capacity_bounds_delivery() {
    let mut r = Reassembler::new();
    let mut sink = ByteStream::new(2);
    r.insert(0, bytes("abcd"), false, &mut sink);
    assert_eq!(sink.peek(), &bytes("ab"));
    assert_eq!(sink.available_capacity(), 0);
    r.insert(2, bytes("cd"), false, &mut sink);
    assert_eq!(sink.peek(), &bytes("ab"));
    sink.drain(2);
    r.insert(2, bytes("cd"), false, &mut sink);
    assert_eq!(sink.peek(), &bytes("cd"));
    assert_eq!(sink.bytes_pushed(), 4);
}

#[test]
fn held_bytes_beyond_room_wait_for_it() {
    let mut r = Reassembler::new();
    let mut sink = ByteStream::new(4);
    r.insert(2, bytes("cd"), false, &mut sink);
    r.insert(4, bytes("ef"), false, &mut sink);
    r.insert(0, bytes("ab"), false, &mut sink);
    assert_eq!(sink.peek(), &bytes("abcd"));
    assert_eq!(r.bytes_pending(), 2);
    assert_eq!(sink.drain(4), bytes("abcd"));
    r.insert(6, bytes(""), false, &mut sink);
    assert_eq!(sink.peek(), &bytes("ef"));
    assert_eq!(sink.bytes_pushed(), 6);
}

#[test]
fn last_piece_closes_sink_once_delivered() {
    let mut r = Reassembler::new();
    let mut sink = ByteStream::new(10);
    r.insert(3, bytes("de"), true, &mut sink);
    assert!(!sink.is_closed());
    r.insert(0, bytes("abc"), false, &mut sink);
    assert_eq!(sink.peek(), &bytes("abcde"));
    assert!(sink.is_closed());
}

#[test]
fn empty_last_piece_closes_empty_stream() {
    let mut r = Reassembler::new();
    let mut sink = ByteStream::new(10);
    r.insert(0, bytes(""), true, &mut sink);
    assert!(sink.is_closed());
    assert!(sink.is_finished());
}

#[test]
fn stale_and_far_pieces_are_dropped() {
    let mut r = Reassembler::new();
    let mut sink = ByteStream::new(3);
    r.insert(0, bytes("abc"), false, &mut sink);
    r.insert(0, bytes("xyz"), false, &mut sink);
    assert_eq!(sink.peek(), &bytes("abc"));
    sink.drain(3);
    r.insert(100, bytes("q"), false, &mut sink);
    assert_eq!(r.bytes_pending(), 0);
    r.insert(1, bytes("bcdef"), false, &mut sink);
    assert_eq!(sink.peek(), &bytes("d"));
}

#[test]
fn byte_stream_truncates_and_counts() {
    let mut s = ByteStream::new(3);
    s.push(bytes("hello"));
    assert_eq!(s.peek(), &bytes("hel"));
    assert_eq!(s.bytes_pushed(), 3);
    assert_eq!(s.bytes_buffered(), 3);
    assert_eq!(s.drain(2), bytes("he"));
    assert_eq!(s.popped_bytes(), 2);
    assert_eq!(s.available_capacity(), 2);
    assert!(!s.is_finished());
    s.close();
    assert!(!s.is_finished());
    s.drain(1);
    assert!(s.is_finished());
    assert!(!s.has_error());
    s.set_error();
    assert!(s.has_error());
}
