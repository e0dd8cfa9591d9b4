use vstd::prelude::*;
use crate::stream::Reader;
use crate::tcp_receiver_message::TCPReceiverMessage;
use crate::tcp_sender_message::{TCPSenderMessage, seg_len, seg_view};
use crate::timer::{Timer, doubled};
use crate::wrap32::{Wrap32, offset_spec, unwrap_spec, wrap_spec};

verus! {

/// Largest payload carried by one segment.
pub const MAX_PAYLOAD_SIZE: usize = 1000;

/// Sequence numbers occupied by a run of segments.
pub open spec fn sum_len(s: Seq<TCPSenderMessage>) -> nat
    decreases s.len(),
{
    if s.len() == 0 {
        0
    } else {
        sum_len(s.drop_last()) + seg_len(s.last())
    }
}

/// The payloads of a run of segments, one after another.
pub open spec fn payloads(s: Seq<TCPSenderMessage>) -> Seq<u8>
    decreases s.len(),
{
    if s.len() == 0 {
        Seq::empty()
    } else {
        payloads(s.drop_last()) + s.last().payload@
    }
}

/// Absolute index at which a segment starts, as the sender reads it.
pub open spec fn seg_start(m: TCPSenderMessage, isn: Wrap32, checkpoint: int) -> int {
    unwrap_spec(offset_spec(m.seqno.raw_value, isn.raw_value), checkpoint)
}

/// How many segments at the front of `s` an acknowledgment of everything
/// before absolute index `ack` covers completely.
pub open spec fn acked_count(s: Seq<TCPSenderMessage>, isn: Wrap32, checkpoint: int, ack: int) -> nat
    decreases s.len(),
{
    if s.len() > 0 && seg_start(s[0], isn, checkpoint) + seg_len(s[0]) <= ack {
        1 + acked_count(s.skip(1), isn, checkpoint, ack)
    } else {
        0
    }
}

/// The larger of two integers.
pub open spec fn max_int(a: int, b: int) -> int {
    if a >= b { a } else { b }
}

proof fn lemma_sum_front(s: Seq<TCPSenderMessage>)
    requires
        s.len() > 0,
    ensures
        sum_len(s) == seg_len(s[0]) + sum_len(s.skip(1)),
    decreases s.len(),
{
    if s.len() > 1 {
        lemma_sum_front(s.drop_last());
        assert(s.drop_last().skip(1) =~= s.skip(1).drop_last());
    } else {
        assert(s.skip(1) =~= Seq::<TCPSenderMessage>::empty());
        assert(s.drop_last() =~= Seq::<TCPSenderMessage>::empty());
    }
}

proof fn lemma_sum_take(s: Seq<TCPSenderMessage>, i: int)
    requires
        0 <= i < s.len(),
    ensures
        sum_len(s.take(i + 1)) == sum_len(s.take(i)) + seg_len(s[i]),
{
    assert(s.take(i + 1).drop_last() =~= s.take(i));
}

proof fn lemma_payloads_push(s: Seq<TCPSenderMessage>, m: TCPSenderMessage)
    ensures
        payloads(s.push(m)) == payloads(s) + m.payload@,
{
    assert(s.push(m).drop_last() =~= s);
}

proof fn lemma_sum_push(s: Seq<TCPSenderMessage>, m: TCPSenderMessage)
    ensures
        sum_len(s.push(m)) == sum_len(s) + seg_len(m),
{
    assert(s.push(m).drop_last() =~= s);
}

/// What `receive` does to the acknowledgment, the outstanding segments,
/// the timer and the count of retransmissions.
pub open spec fn receive_post(old: TCPSender, new: TCPSender, msg: TCPReceiverMessage) -> bool {
    let isn = old.isn_spec();
    let cp = old.next_seqno() as int;
    let a = match msg.ackno {
        Some(w) => unwrap_spec(offset_spec(w.raw_value, isn.raw_value), cp),
        None => 0,
    };
    let accepted = msg.ackno is Some && old.acked() <= a <= cp;
    let k = acked_count(old.outstanding(), isn, cp, a) as int;
    let t0 = old.timer_spec();
    let t1 = new.timer_spec();
    &&& accepted ==> {
        &&& new.acked() == a
        &&& new.outstanding() == old.outstanding().skip(k)
        &&& new.in_flight() == old.in_flight() - sum_len(
            old.outstanding().take(k),
        )
        &&& k > 0 ==> new.retransmissions() == 0 && t1.rto == t0.initial_rto
            && t1.elapsed_time == 0
        &&& k == 0 ==> new.retransmissions() == old.retransmissions()
            && t1.rto == t0.rto && t1.elapsed_time == t0.elapsed_time
        &&& t1.is_running == (t0.is_running && k < old.outstanding().len())
    }
    &&& !accepted ==> {
        &&& new.acked() == old.acked()
        &&& new.outstanding() == old.outstanding()
        &&& new.in_flight() == old.in_flight()
        &&& new.retransmissions() == old.retransmissions()
        &&& t1 == t0
    }
    &&& t1.initial_rto == t0.initial_rto
}

/// What `tick` does to the timer, the count of retransmissions and the
/// queue of segments to send.
pub open spec fn tick_post(old: TCPSender, new: TCPSender, ms_since_last_tick: u64) -> bool {
    let t0 = old.timer_spec();
    let t1 = new.timer_spec();
    let elapsed = if t0.elapsed_time + ms_since_last_tick <= u64::MAX {
        t0.elapsed_time + ms_since_last_tick
    } else {
        u64::MAX as int
    };
    let fired = t0.is_running && elapsed >= t0.rto;
    &&& fired ==> {
        &&& t1.rto == if old.window() > 0 {
            doubled(t0.rto)
        } else {
            t0.initial_rto
        }
        &&& t1.elapsed_time == 0
        &&& new.retransmissions() == if old.retransmissions() < u64::MAX {
            old.retransmissions() + 1
        } else {
            u64::MAX as nat
        }
        &&& new.ready() == old.ready().push(new.ready().last())
        &&& seg_view(new.ready().last()) == seg_view(old.outstanding()[0])
    }
    &&& !fired ==> {
        &&& t1.rto == t0.rto
        &&& t1.elapsed_time == if t0.is_running { elapsed } else { t0.elapsed_time as int }
        &&& new.retransmissions() == old.retransmissions()
        &&& new.ready() == old.ready()
    }
    &&& t1.is_running == t0.is_running
    &&& t1.initial_rto == t0.initial_rto
}

/// Whether letting `ms` pass runs the sender's timer out.
pub open spec fn timer_fires(s: TCPSender, ms: u64) -> bool {
    let t = s.timer_spec();
    t.is_running && (if t.elapsed_time + ms <= u64::MAX {
        t.elapsed_time + ms
    } else {
        u64::MAX as int
    }) >= t.rto
}

/// An acknowledgment that `receive` accepts and that retires at least one
/// outstanding segment.
pub open spec fn acks_new_data(s: TCPSender, msg: TCPReceiverMessage) -> bool {
    match msg.ackno {
        Some(w) => {
            let cp = s.next_seqno() as int;
            let a = unwrap_spec(offset_spec(w.raw_value, s.isn_spec().raw_value), cp);
            &&& s.acked() <= a <= cp
            &&& acked_count(s.outstanding(), s.isn_spec(), cp, a) > 0
        },
        None => false,
    }
}

/// A timeout with the window open doubles the timeout and counts a
/// retransmission; an acknowledgment of new data after it brings the
/// count back to zero and the timeout back to its initial value.
pub proof fn lemma_backoff_then_recovery(
    s0: TCPSender,
    s1: TCPSender,
    s2: TCPSender,
    ms: u64,
    msg: TCPReceiverMessage,
)
    requires
        s0.retransmissions() < u64::MAX,
        s0.window() > 0,
        timer_fires(s0, ms),
        tick_post(s0, s1, ms),
        acks_new_data(s1, msg),
        receive_post(s1, s2, msg),
    ensures
        s1.timer_spec().rto == doubled(s0.timer_spec().rto),
        s1.retransmissions() == s0.retransmissions() + 1,
        s2.retransmissions() == 0,
        s2.timer_spec().rto == s0.timer_spec().initial_rto,
        s2.timer_spec().elapsed_time == 0,
{
}

/// `new` is `old` with FIN set on its last segment and nothing else
/// changed.
pub open spec fn with_fin(old: Seq<TCPSenderMessage>, new: Seq<TCPSenderMessage>) -> bool {
    &&& old.len() > 0
    &&& new.len() == old.len()
    &&& new.drop_last() == old.drop_last()
    &&& seg_view(new.last()) == (
        old.last().seqno.raw_value,
        old.last().syn,
        old.last().payload@,
        true,
    )
}

/// `new` is `old` followed by segments with the same contents as those
/// of `added`.
pub open spec fn appended(
    old: Seq<TCPSenderMessage>,
    new: Seq<TCPSenderMessage>,
    added: Seq<TCPSenderMessage>,
) -> bool {
    &&& new.len() == old.len() + added.len()
    &&& new.take(old.len() as int) == old
    &&& forall|j: int|
        0 <= j < added.len() ==> #[trigger] seg_view(new[old.len() + j]) == seg_view(added[j])
}

/// `added` are segments built one after another from absolute index
/// `start`: each at the sequence number that follows the ones before it,
/// SYN only on a first segment at index 0, payloads of at most
/// `MAX_PAYLOAD_SIZE` bytes, and FIN on the last one at most.
pub open spec fn fresh_segments(added: Seq<TCPSenderMessage>, start: int, isn: Wrap32) -> bool {
    forall|j: int|
        0 <= j < added.len() ==> {
            &&& (#[trigger] added[j]).seqno.raw_value == wrap_spec(
                start + sum_len(added.take(j)),
                isn.raw_value,
            )
            &&& added[j].syn == (j == 0 && start == 0)
            &&& added[j].payload@.len() <= MAX_PAYLOAD_SIZE
            &&& added[j].fin ==> j == added.len() - 1
        }
}

proof fn lemma_appended_one(
    old: Seq<TCPSenderMessage>,
    q: Seq<TCPSenderMessage>,
    q2: Seq<TCPSenderMessage>,
    added: Seq<TCPSenderMessage>,
    m: TCPSenderMessage,
)
    requires
        appended(old, q, added),
        q2.len() == q.len() + 1,
        q2.drop_last() == q,
        seg_view(q2.last()) == seg_view(m),
    ensures
        appended(old, q2, added.push(m)),
{
    assert(q2.take(old.len() as int) =~= q.take(old.len() as int));
    assert forall|j: int| 0 <= j < added.len() + 1 implies #[trigger] seg_view(q2[old.len() + j])
        == seg_view(added.push(m)[j]) by {
        if j < added.len() {
            assert(q2[old.len() + j] == q[old.len() + j]);
        }
    }
}

proof fn lemma_fresh_one(added: Seq<TCPSenderMessage>, start: int, isn: Wrap32, m: TCPSenderMessage)
    requires
        fresh_segments(added, start, isn),
        m.seqno.raw_value == wrap_spec(start + sum_len(added), isn.raw_value),
        m.syn == (added.len() == 0 && start == 0),
        m.payload@.len() <= MAX_PAYLOAD_SIZE,
        forall|j: int| 0 <= j < added.len() ==> !(#[trigger] added[j]).fin,
    ensures
        fresh_segments(added.push(m), start, isn),
{
    let a2 = added.push(m);
    assert forall|j: int| 0 <= j < a2.len() implies {
        &&& (#[trigger] a2[j]).seqno.raw_value == wrap_spec(
            start + sum_len(a2.take(j)),
            isn.raw_value,
        )
        &&& a2[j].syn == (j == 0 && start == 0)
        &&& a2[j].payload@.len() <= MAX_PAYLOAD_SIZE
        &&& a2[j].fin ==> j == a2.len() - 1
    } by {
        if j < added.len() {
            assert(a2.take(j) =~= added.take(j));
            assert(a2[j] == added[j]);
        } else {
            assert(a2.take(j) =~= added);
        }
    }
}

proof fn lemma_step(
    old_out: Seq<TCPSenderMessage>,
    old_ready: Seq<TCPSenderMessage>,
    q: Seq<TCPSenderMessage>,
    r: Seq<TCPSenderMessage>,
    q2: Seq<TCPSenderMessage>,
    r2: Seq<TCPSenderMessage>,
    start: int,
    isn: Wrap32,
    m: TCPSenderMessage,
)
    requires
        old_out.len() <= q.len(),
        appended(old_out, q, q.skip(old_out.len() as int)),
        appended(old_ready, r, q.skip(old_out.len() as int)),
        fresh_segments(q.skip(old_out.len() as int), start, isn),
        forall|j: int| 0 <= j < q.len() ==> !(#[trigger] q[j]).fin,
        q2 == q.push(m),
        r2 == r.push(r2.last()),
        seg_view(r2.last()) == seg_view(m),
        m.seqno.raw_value == wrap_spec(start + sum_len(q.skip(old_out.len() as int)), isn.raw_value),
        m.syn == (q.len() == old_out.len() && start == 0),
        m.payload@.len() <= MAX_PAYLOAD_SIZE,
    ensures
        q2.skip(old_out.len() as int) == q.skip(old_out.len() as int).push(m),
        appended(old_out, q2, q2.skip(old_out.len() as int)),
        appended(old_ready, r2, q2.skip(old_out.len() as int)),
        fresh_segments(q2.skip(old_out.len() as int), start, isn),
        sum_len(q2.skip(old_out.len() as int)) == sum_len(q.skip(old_out.len() as int)) + seg_len(m),
{
    let a = q.skip(old_out.len() as int);
    assert(q2.skip(old_out.len() as int) =~= a.push(m));
    assert(q2.drop_last() =~= q);
    assert(r2.drop_last() =~= r);
    assert(seg_view(q2.last()) == seg_view(m));
    lemma_appended_one(old_out, q, q2, a, m);
    lemma_appended_one(old_ready, r, r2, a, m);
    assert forall|j: int| 0 <= j < a.len() implies !(#[trigger] a[j]).fin by {
        assert(a[j] == q[old_out.len() + j]);
    }
    lemma_fresh_one(a, start, isn, m);
    lemma_sum_push(a, m);
}

proof fn lemma_nothing_added(old: Seq<TCPSenderMessage>, q: Seq<TCPSenderMessage>)
    requires
        appended(old, q, Seq::<TCPSenderMessage>::empty()),
    ensures
        q == old,
{
    assert(q =~= q.take(old.len() as int));
}

/// The sending half: cuts an outbound byte stream into segments that fit
/// the receiver's window, and retransmits the oldest unacknowledged one
/// when the timer runs out.
pub struct TCPSender {
    isn: Wrap32,
    timer: Timer,
    seqno_absolute: u64,
    ackno_absolute: u64,
    consecutive_retransmissions: u64,
    seqnos_in_flight: u64,
    messages: Vec<TCPSenderMessage>,
    messages_outstanding: Vec<TCPSenderMessage>,
    receiver_window_size: u16,
    receiver_free_space: u16,
    fin_sent: bool,
}

impl TCPSender {
    pub closed spec fn wf(&self) -> bool {
        &&& self.queues_wf()
        &&& self.timer.is_running ==> self.messages_outstanding@.len() > 0
    }

    /// The part of `wf` about the counters and the queues.
    closed spec fn queues_wf(&self) -> bool {
        &&& self.seqnos_in_flight == sum_len(self.messages_outstanding@)
        &&& self.seqnos_in_flight <= self.seqno_absolute
        &&& self.ackno_absolute <= self.seqno_absolute
        &&& self.fin_sent ==> self.seqno_absolute > 0
        &&& self.receiver_free_space <= self.receiver_window_size
        &&& forall|i: int|
            0 <= i < self.messages@.len() ==> #[trigger] self.messages@[i].payload@.len()
                <= MAX_PAYLOAD_SIZE
        &&& forall|i: int|
            0 <= i < self.messages_outstanding@.len()
                ==> #[trigger] self.messages_outstanding@[i].payload@.len() <= MAX_PAYLOAD_SIZE
        &&& !self.fin_sent ==> forall|i: int|
            0 <= i < self.messages_outstanding@.len()
                ==> !(#[trigger] self.messages_outstanding@[i]).fin
    }

    /// What a well-formed sender guarantees of its counters and queues.
    pub proof fn lemma_wf_facts(&self)
        requires
            self.wf(),
        ensures
            self.in_flight() == sum_len(self.outstanding()),
            self.in_flight() <= self.next_seqno(),
            self.acked() <= self.next_seqno(),
            self.free_space() <= self.window(),
            forall|i: int|
                0 <= i < self.ready().len() ==> #[trigger] self.ready()[i].payload@.len()
                    <= MAX_PAYLOAD_SIZE,
            forall|i: int|
                0 <= i < self.outstanding().len() ==> #[trigger] self.outstanding()[i].payload@.len()
                    <= MAX_PAYLOAD_SIZE,
            self.timer_spec().is_running ==> self.outstanding().len() > 0,
    {
    }

    /// The sequence number that stands for absolute index 0.
    pub closed spec fn isn_spec(&self) -> Wrap32 {
        self.isn
    }

    /// Absolute index of the next sequence number to assign.
    pub closed spec fn next_seqno(&self) -> nat {
        self.seqno_absolute as nat
    }

    /// Highest acknowledgment accepted, as an absolute index.
    pub closed spec fn acked(&self) -> nat {
        self.ackno_absolute as nat
    }

    pub closed spec fn in_flight(&self) -> nat {
        self.seqnos_in_flight as nat
    }

    pub closed spec fn retransmissions(&self) -> nat {
        self.consecutive_retransmissions as nat
    }

    pub closed spec fn window(&self) -> nat {
        self.receiver_window_size as nat
    }

    /// What may still be sent in the current window.
    pub closed spec fn free_space(&self) -> nat {
        self.receiver_free_space as nat
    }

    /// Segments waiting to go out, first to go first.
    pub closed spec fn ready(&self) -> Seq<TCPSenderMessage> {
        self.messages@
    }

    /// Segments sent and not yet acknowledged, oldest first.
    pub closed spec fn outstanding(&self) -> Seq<TCPSenderMessage> {
        self.messages_outstanding@
    }

    pub closed spec fn fin_done(&self) -> bool {
        self.fin_sent
    }

    pub closed spec fn timer_spec(&self) -> Timer {
        self.timer
    }

    /// A sender for a stream starting at `isn`, with no segment yet and a
    /// window of one until the receiver says otherwise.
    pub fn new(isn: Wrap32, initial_rto: u64) -> (r: Self)
        ensures
            r.wf(),
            r.isn_spec() == isn,
            r.next_seqno() == 0,
            r.acked() == 0,
            r.in_flight() == 0,
            r.retransmissions() == 0,
            r.window() == 1,
            r.free_space() == 1,
            r.ready().len() == 0,
            r.outstanding().len() == 0,
            !r.fin_done(),
            r.timer_spec() == Timer::new_spec(initial_rto),
    {
        let r = TCPSender {
            isn,
            timer: Timer::new(initial_rto),
            seqno_absolute: 0,
            ackno_absolute: 0,
            consecutive_retransmissions: 0,
            seqnos_in_flight: 0,
            messages: Vec::new(),
            messages_outstanding: Vec::new(),
            receiver_window_size: 1,
            receiver_free_space: 1,
            fin_sent: false,
        };
        assert(r.messages_outstanding@ =~= Seq::<TCPSenderMessage>::empty());
        r
    }

    pub fn consecutive_retransmissions(&self) -> (r: u64)
        ensures
            r == self.retransmissions(),
    {
        self.consecutive_retransmissions
    }

    /// The retransmission timer.
    pub fn timer(&self) -> (r: &Timer)
        ensures
            *r == self.timer_spec(),
    {
        &self.timer
    }

    pub fn seqnos_in_flight(&self) -> (r: u64)
        requires
            self.wf(),
        ensures
            r == self.in_flight(),
            r == sum_len(self.outstanding()),
    {
        self.seqnos_in_flight
    }

    /// Sending is held back while a retransmission is in progress on a
    /// timer that has already counted time.
    pub open spec fn sending_allowed(&self) -> bool {
        !(self.retransmissions() > 0 && self.timer_spec().is_running
            && self.timer_spec().elapsed_time > 0)
    }

    /// Whether sending is allowed now: not while a retransmission is in
    /// progress on a timer that has already counted time.
    fn can_send(&self) -> (r: bool)
        ensures
            r == self.sending_allowed(),
    {
        !(self.consecutive_retransmissions > 0 && self.timer.is_running()
            && self.timer.elapsed_time() > 0)
    }

    /// Whether the window, less what is in flight, has room for a segment
    /// that carries nothing but the given flags.
    fn receiver_has_room(&self, syn: bool, fin: bool) -> (r: bool)
        ensures
            r == (self.seqnos_in_flight + (if syn { 1int } else { 0 }) + (if fin { 1int } else { 0 })
                <= self.receiver_window_size),
    {
        let need: u64 = syn as u64 + fin as u64;
        self.seqnos_in_flight <= self.receiver_window_size as u64
            && need <= self.receiver_window_size as u64 - self.seqnos_in_flight
    }

    /// Builds a segment at the next sequence number and queues it both to
    /// go out and to await its acknowledgment; starts the timer.
    fn push_message(&mut self, syn: bool, payload: Vec<u8>, fin: bool)
        requires
            old(self).wf(),
            payload@.len() <= MAX_PAYLOAD_SIZE,
            old(self).seqno_absolute + payload@.len() + 2 <= u64::MAX,
            fin ==> !old(self).fin_sent,
        ensures
            final(self).wf(),
            ({
                let m = final(self).messages_outstanding@.last();
                &&& seg_view(m) == (
                    wrap_spec(old(self).seqno_absolute as int, old(self).isn.raw_value),
                    syn,
                    payload@,
                    fin,
                )
                &&& final(self).messages@ == old(self).messages@.push(final(self).messages@.last())
                &&& seg_view(final(self).messages@.last()) == seg_view(m)
                &&& final(self).messages_outstanding@ == old(self).messages_outstanding@.push(m)
                &&& final(self).seqno_absolute == old(self).seqno_absolute + seg_len(m)
                &&& final(self).seqnos_in_flight == old(self).seqnos_in_flight + seg_len(m)
            }),
            payloads(final(self).messages_outstanding@) == payloads(old(self).messages_outstanding@)
                + payload@,
            final(self).fin_sent == (old(self).fin_sent || fin),
            final(self).isn == old(self).isn,
            final(self).ackno_absolute == old(self).ackno_absolute,
            final(self).consecutive_retransmissions == old(self).consecutive_retransmissions,
            final(self).receiver_window_size == old(self).receiver_window_size,
            final(self).receiver_free_space == old(self).receiver_free_space,
            final(self).timer.initial_rto == old(self).timer.initial_rto,
            final(self).timer.is_running,
            old(self).timer.is_running ==> final(self).timer == old(self).timer,
    {
        let seqno = Wrap32::wrap(self.seqno_absolute, &self.isn);
        let message = TCPSenderMessage { seqno, syn, payload, fin };
        let seq_len = message.sequence_length();
        let copy = message.duplicate();
        self.fin_sent = self.fin_sent || fin;
        self.seqno_absolute = self.seqno_absolute + seq_len;
        self.seqnos_in_flight = self.seqnos_in_flight + seq_len;
        proof {
            lemma_sum_push(self.messages_outstanding@, message);
            lemma_payloads_push(self.messages_outstanding@, message);
        }
        self.messages.push(copy);
        self.messages_outstanding.push(message);
        assert(seg_len(copy) == seg_len(message));
        self.timer.start();
        assert(self.messages_outstanding@.last() == message);
        assert(self.messages@.last() == copy);
    }

    fn push_empty(&mut self, syn: bool, fin: bool)
        requires
            old(self).wf(),
            old(self).seqno_absolute + 2 <= u64::MAX,
            fin ==> !old(self).fin_sent,
        ensures
            final(self).wf(),
            ({
                let m = final(self).messages_outstanding@.last();
                &&& seg_view(m) == (
                    wrap_spec(old(self).seqno_absolute as int, old(self).isn.raw_value),
                    syn,
                    Seq::<u8>::empty(),
                    fin,
                )
                &&& final(self).messages@ == old(self).messages@.push(final(self).messages@.last())
                &&& seg_view(final(self).messages@.last()) == seg_view(m)
                &&& final(self).messages_outstanding@ == old(self).messages_outstanding@.push(m)
                &&& final(self).seqno_absolute == old(self).seqno_absolute + seg_len(m)
                &&& final(self).seqnos_in_flight == old(self).seqnos_in_flight + seg_len(m)
            }),
            payloads(final(self).messages_outstanding@) == payloads(old(self).messages_outstanding@),
            final(self).fin_sent == (old(self).fin_sent || fin),
            final(self).isn == old(self).isn,
            final(self).ackno_absolute == old(self).ackno_absolute,
            final(self).consecutive_retransmissions == old(self).consecutive_retransmissions,
            final(self).receiver_window_size == old(self).receiver_window_size,
            final(self).receiver_free_space == old(self).receiver_free_space,
            final(self).timer.initial_rto == old(self).timer.initial_rto,
    {
        let empty: Vec<u8> = Vec::new();
        assert(payloads(old(self).messages_outstanding@) + empty@ =~= payloads(
            old(self).messages_outstanding@,
        ));
        self.push_message(syn, empty, fin);
    }

    /// Sets FIN on the newest segment, both on its queued copy and on the
    /// one awaiting acknowledgment, instead of spending a segment on it.
    fn piggyback(&mut self)
        requires
            old(self).wf(),
            !old(self).fin_sent,
            old(self).messages@.len() > 0,
            old(self).messages_outstanding@.len() > 0,
            old(self).seqno_absolute + 1 <= u64::MAX,
        ensures
            final(self).wf(),
            final(self).fin_sent,
            final(self).seqno_absolute == old(self).seqno_absolute + 1,
            final(self).seqnos_in_flight == old(self).seqnos_in_flight + 1,
            payloads(final(self).messages_outstanding@) == payloads(old(self).messages_outstanding@),
            with_fin(old(self).messages@, final(self).messages@),
            with_fin(old(self).messages_outstanding@, final(self).messages_outstanding@),
            final(self).timer.is_running,
            old(self).timer.is_running ==> final(self).timer == old(self).timer,
            final(self).isn == old(self).isn,
            final(self).ackno_absolute == old(self).ackno_absolute,
            final(self).consecutive_retransmissions == old(self).consecutive_retransmissions,
            final(self).receiver_window_size == old(self).receiver_window_size,
            final(self).receiver_free_space == old(self).receiver_free_space,
            final(self).timer.initial_rto == old(self).timer.initial_rto,
    {
        let ghost out0 = self.messages_outstanding@;
        match self.messages.pop() {
            Some(m) => {
                let mut m = m;
                m.fin = true;
                self.messages.push(m);
                assert(self.messages@.drop_last() =~= old(self).messages@.drop_last());
            },
            None => {},
        }
        match self.messages_outstanding.pop() {
            Some(o) => {
                let mut o = o;
                o.fin = true;
                proof {
                    lemma_sum_push(self.messages_outstanding@, o);
                    lemma_payloads_push(self.messages_outstanding@, o);
                    assert(out0.drop_last() == self.messages_outstanding@);
                }
                self.messages_outstanding.push(o);
                assert(self.messages_outstanding@.drop_last() =~= out0.drop_last());
            },
            None => {},
        }
        self.seqno_absolute = self.seqno_absolute + 1;
        self.seqnos_in_flight = self.seqnos_in_flight + 1;
        self.fin_sent = true;
        self.timer.start();
    }

    /// With a window of zero, sends one probe if nothing is in flight: the
    /// SYN if it has not gone out, else one byte, else the FIN.
    fn push_if_window_empty<R: Reader>(&mut self, outbound: &mut R)
        requires
            old(self).wf(),
            old(outbound).inv(),
            !old(self).fin_sent,
            old(self).seqno_absolute + 3 <= u64::MAX,
        ensures
            final(self).wf(),
            final(outbound).inv(),
            final(self).seqno_absolute - old(self).seqno_absolute == final(self).seqnos_in_flight
                - old(self).seqnos_in_flight,
            final(self).seqnos_in_flight <= max_int(old(self).seqnos_in_flight as int, 1),
            old(outbound).buffered().len() >= final(outbound).buffered().len(),
            final(outbound).buffered() == old(outbound).buffered().skip(
                old(outbound).buffered().len() - final(outbound).buffered().len(),
            ),
            payloads(final(self).messages_outstanding@) == payloads(old(self).messages_outstanding@)
                + old(outbound).buffered().take(
                old(outbound).buffered().len() - final(outbound).buffered().len(),
            ),
            final(outbound).input_ended() == old(outbound).input_ended(),
            final(outbound).errored() == old(outbound).errored(),
            ({
                let added = final(self).messages_outstanding@.skip(
                    old(self).messages_outstanding@.len() as int,
                );
                &&& final(self).messages_outstanding@.len() >= old(self).messages_outstanding@.len()
                &&& appended(old(self).messages_outstanding@, final(self).messages_outstanding@, added)
                &&& appended(old(self).messages@, final(self).messages@, added)
                &&& fresh_segments(added, old(self).seqno_absolute as int, old(self).isn)
                &&& final(self).seqno_absolute == old(self).seqno_absolute + sum_len(added)
                &&& added.len() <= 1
                &&& added.len() == 1 ==> seg_len(added[0]) == 1
            }),
            final(self).fin_sent ==> final(outbound).buffered().len() == 0
                && final(outbound).input_ended(),
            old(self).seqnos_in_flight > 0 ==> *final(self) == *old(self)
                && *final(outbound) == *old(outbound),
            old(self).seqnos_in_flight == 0 && (old(self).seqno_absolute == 0 || old(
                outbound,
            ).buffered().len() > 0 || old(outbound).input_ended()) ==> final(self).seqnos_in_flight
                == 1,
            final(self).isn == old(self).isn,
            final(self).ackno_absolute == old(self).ackno_absolute,
            final(self).consecutive_retransmissions == old(self).consecutive_retransmissions,
            final(self).receiver_window_size == old(self).receiver_window_size,
            final(self).receiver_free_space == old(self).receiver_free_space,
            final(self).timer.initial_rto == old(self).timer.initial_rto,
    {
        let ghost q = self.messages_outstanding@;
        let ghost r = self.messages@;
        let ghost start = self.seqno_absolute as int;
        proof {
            assert(q.skip(q.len() as int) =~= Seq::<TCPSenderMessage>::empty());
            assert(q.take(q.len() as int) =~= q);
            assert(r.take(r.len() as int) =~= r);
            assert(sum_len(Seq::<TCPSenderMessage>::empty()) == 0);
            assert(old(outbound).buffered().skip(0) =~= old(outbound).buffered());
            assert(payloads(q) + old(outbound).buffered().take(0) =~= payloads(q));
        }
        if self.seqnos_in_flight > 0 {
        } else if self.seqno_absolute == 0 {
            self.push_empty(true, false);
            proof {
                lemma_step(q, r, q, r, self.messages_outstanding@, self.messages@, start, self.isn,
                    self.messages_outstanding@.last());
            }
        } else if outbound.bytes_buffered() > 0 {
            let payload = outbound.drain(1);
            assert(old(outbound).buffered().skip(1) =~= outbound.buffered());
            self.push_message(false, payload, false);
            proof {
                lemma_step(q, r, q, r, self.messages_outstanding@, self.messages@, start, self.isn,
                    self.messages_outstanding@.last());
            }
        } else if outbound.is_finished() {
            self.push_empty(false, true);
            proof {
                lemma_step(q, r, q, r, self.messages_outstanding@, self.messages@, start, self.isn,
                    self.messages_outstanding@.last());
            }
        }
    }

    /// Nothing is sent from a source in error, nor after the FIN.
    /// Otherwise cuts what `outbound` holds into segments that fit the receiver's
    /// window less what is in flight, at most `MAX_PAYLOAD_SIZE` bytes of
    /// payload each, the first carrying SYN. FIN goes on the last one once
    /// `outbound` is finished and the FIN fits too; with nothing new to
    /// send it rides on the newest queued segment, or goes alone. A window
    /// of zero counts as one while nothing is in flight, so that the
    /// receiver is probed.
    #[verifier::rlimit(100)]
    pub fn push<R: Reader>(&mut self, outbound: &mut R)
        requires
            old(self).wf(),
            old(outbound).inv(),
            old(self).next_seqno() + 0x2_0000 <= u64::MAX,
        ensures
            final(self).wf(),
            final(outbound).inv(),
            final(self).in_flight() <= max_int(
                old(self).in_flight() as int,
                max_int(old(self).window() as int, 1),
            ),
            final(self).next_seqno() - old(self).next_seqno() == final(self).in_flight()
                - old(self).in_flight(),
            old(self).fin_done() || old(outbound).errored() ==> *final(self) == *old(self),
            old(self).fin_done() || old(outbound).errored() ==> *final(outbound) == *old(outbound),
            old(self).fin_done() ==> final(self).fin_done(),
            !old(self).fin_done() && !old(outbound).errored() ==> ({
                let added = final(self).outstanding().skip(old(self).outstanding().len() as int);
                ||| {
                    &&& appended(old(self).outstanding(), final(self).outstanding(), added)
                    &&& appended(old(self).ready(), final(self).ready(), added)
                    &&& fresh_segments(added, old(self).next_seqno() as int, old(self).isn_spec())
                    &&& final(self).next_seqno() == old(self).next_seqno() + sum_len(added)
                }
                ||| {
                    &&& old(self).window() > 0
                    &&& with_fin(old(self).outstanding(), final(self).outstanding())
                    &&& with_fin(old(self).ready(), final(self).ready())
                    &&& final(self).next_seqno() == old(self).next_seqno() + 1
                    &&& final(self).fin_done()
                }
            }),
            !old(self).fin_done() && final(self).fin_done() ==> final(outbound).buffered().len() == 0
                && final(outbound).input_ended(),
            old(self).window() == 0 && old(self).in_flight() > 0 ==> *final(self) == *old(self)
                && *final(outbound) == *old(outbound),
            old(self).window() == 0 ==> final(self).outstanding().len() <= old(
                self,
            ).outstanding().len() + 1,
            old(self).window() == 0 && final(self).outstanding().len() == old(self).outstanding().len()
                + 1 ==> seg_len(final(self).outstanding().last()) == 1,
            old(outbound).buffered().len() >= final(outbound).buffered().len(),
            final(outbound).buffered() == old(outbound).buffered().skip(
                old(outbound).buffered().len() - final(outbound).buffered().len(),
            ),
            payloads(final(self).outstanding()) == payloads(old(self).outstanding()) + old(
                outbound,
            ).buffered().take(old(outbound).buffered().len() - final(outbound).buffered().len()),
            final(outbound).input_ended() == old(outbound).input_ended(),
            old(self).window() > 0 && !old(self).fin_done() && !old(outbound).errored() ==> {
                ||| final(self).fin_done()
                ||| final(self).in_flight() >= final(self).window()
                ||| final(outbound).buffered().len() == 0 && !final(outbound).input_ended()
            },
            old(self).window() > 0 && old(self).next_seqno() == 0 && old(self).in_flight()
                < old(self).window() && !old(outbound).errored() ==> final(self).next_seqno() > 0,
            old(self).window() == 0 && !old(self).fin_done() && !old(outbound).errored()
                && old(self).in_flight() == 0 && (old(self).next_seqno() == 0 || old(
                outbound,
            ).buffered().len() > 0 || old(outbound).input_ended()) ==> final(self).in_flight() == 1,
            final(self).isn_spec() == old(self).isn_spec(),
            final(self).acked() == old(self).acked(),
            final(self).retransmissions() == old(self).retransmissions(),
            final(self).window() == old(self).window(),
            final(self).free_space() == old(self).free_space(),
            final(self).timer_spec().initial_rto == old(self).timer_spec().initial_rto,
    {
        let ghost q0 = self.messages_outstanding@;
        let ghost r0 = self.messages@;
        let ghost start = self.seqno_absolute as int;
        proof {
            assert(old(outbound).buffered().skip(0) =~= old(outbound).buffered());
            assert(payloads(q0) + old(outbound).buffered().take(0) =~= payloads(q0));
            assert(q0.skip(q0.len() as int) =~= Seq::<TCPSenderMessage>::empty());
            assert(q0.take(q0.len() as int) =~= q0);
            assert(r0.take(r0.len() as int) =~= r0);
        }
        if self.fin_sent || outbound.has_error() {
            return;
        }
        if self.receiver_window_size == 0 {
            self.push_if_window_empty(outbound);
            return;
        }
        let window = self.receiver_window_size as u64;
        let old_len = self.messages_outstanding.len();
        let mut want_fin = false;
        loop
            invariant_except_break
                !want_fin,
            invariant
                self.wf(),
                outbound.inv(),
                !old(self).fin_sent,
                !old(outbound).errored(),
                window == self.receiver_window_size,
                window > 0,
                self.seqno_absolute - old(self).seqno_absolute == self.seqnos_in_flight
                    - old(self).seqnos_in_flight,
                self.seqnos_in_flight <= max_int(old(self).seqnos_in_flight as int, window as int),
                old(self).seqno_absolute + 0x2_0000 <= u64::MAX,
                self.seqnos_in_flight >= old(self).seqnos_in_flight,
                self.isn == old(self).isn,
                self.ackno_absolute == old(self).ackno_absolute,
                self.consecutive_retransmissions == old(self).consecutive_retransmissions,
                self.receiver_free_space == old(self).receiver_free_space,
                self.timer.initial_rto == old(self).timer.initial_rto,
                old(self).seqno_absolute == 0 && old(self).seqnos_in_flight < window
                    ==> self.seqno_absolute > 0 || self.seqnos_in_flight < window,
                old(outbound).buffered().len() >= outbound.buffered().len(),
                outbound.buffered() == old(outbound).buffered().skip(
                    old(outbound).buffered().len() - outbound.buffered().len(),
                ),
                payloads(self.messages_outstanding@) == payloads(old(self).messages_outstanding@)
                    + old(outbound).buffered().take(
                    old(outbound).buffered().len() - outbound.buffered().len(),
                ),
                outbound.input_ended() == old(outbound).input_ended(),
                outbound.errored() == old(outbound).errored(),
                q0 == old(self).messages_outstanding@,
                r0 == old(self).messages@,
                start == old(self).seqno_absolute,
                old_len == q0.len(),
                self.messages_outstanding@.len() >= old_len,
                appended(q0, self.messages_outstanding@, self.messages_outstanding@.skip(old_len as int)),
                appended(r0, self.messages@, self.messages_outstanding@.skip(old_len as int)),
                fresh_segments(self.messages_outstanding@.skip(old_len as int), start, self.isn),
                self.seqno_absolute == start + sum_len(self.messages_outstanding@.skip(old_len as int)),
                self.messages_outstanding@.len() > old_len ==> self.seqno_absolute > start,
                self.fin_sent ==> outbound.buffered().len() == 0 && outbound.input_ended(),
            ensures
                want_fin ==> !self.fin_sent && self.seqnos_in_flight + 1 <= window
                    && outbound.buffered().len() == 0 && outbound.input_ended()
                    && self.seqno_absolute > 0,
                !want_fin ==> self.fin_sent || self.seqnos_in_flight >= window || (
                outbound.buffered().len() == 0 && !outbound.input_ended()),
                old(self).seqno_absolute == 0 && old(self).seqnos_in_flight < window
                    ==> self.seqno_absolute > 0 || want_fin,
            decreases max_int(window as int - self.seqnos_in_flight as int, 0),
        {
            if self.fin_sent || self.seqnos_in_flight >= window {
                break;
            }
            let room = window - self.seqnos_in_flight;
            let syn = self.seqno_absolute == 0;
            let avail = (room - syn as u64) as usize;
            let buffered = outbound.bytes_buffered();
            let mut take = if avail < buffered { avail } else { buffered };
            if take > MAX_PAYLOAD_SIZE {
                take = MAX_PAYLOAD_SIZE;
            }
            let ghost before = outbound.buffered();
            let payload = outbound.drain(take);
            proof {
                let b0 = old(outbound).buffered();
                let d = b0.len() - before.len();
                assert(b0.take(d) + payload@ =~= b0.take(d + take));
                assert(b0.skip(d + take) =~= outbound.buffered());
            }
            let fin = outbound.is_finished() && syn as u64 + take as u64 + 1 <= room;
            if !syn && take == 0 {
                want_fin = fin;
                break;
            }
            let ghost q = self.messages_outstanding@;
            let ghost r = self.messages@;
            self.push_message(syn, payload, fin);
            proof {
                lemma_step(q0, r0, q, r, self.messages_outstanding@, self.messages@, start, self.isn,
                    self.messages_outstanding@.last());
            }
        }
        if want_fin {
            let ready = self.messages.len();
            let waiting = self.messages_outstanding.len();
            if waiting == old_len && ready > 0 && waiting > 0 && self.messages[ready - 1].seqno
                == self.messages_outstanding[waiting - 1].seqno {
                proof {
                    assert(self.messages_outstanding@.skip(old_len as int) =~= Seq::<
                        TCPSenderMessage,
                    >::empty());
                    lemma_nothing_added(q0, self.messages_outstanding@);
                    lemma_nothing_added(r0, self.messages@);
                }
                self.piggyback();
            } else {
                let ghost q = self.messages_outstanding@;
                let ghost r = self.messages@;
                self.push_empty(false, true);
                proof {
                    lemma_step(q0, r0, q, r, self.messages_outstanding@, self.messages@, start,
                        self.isn, self.messages_outstanding@.last());
                }
            }
        }
    }

    /// Takes in the receiver's window, and its acknowledgment if it lies
    /// between the last one accepted and the next sequence number. An
    /// accepted acknowledgment retires the segments it fully covers; if it
    /// retires any, the timer and the count of retransmissions start over.
    /// With nothing left outstanding the timer stops.
    pub fn receive(&mut self, msg: &TCPReceiverMessage)
        requires
            old(self).wf(),
        ensures
            final(self).wf(),
            final(self).window() == msg.window_size,
            final(self).free_space() == msg.window_size,
            receive_post(*old(self), *final(self), *msg),
            final(self).ready() == old(self).ready(),
            final(self).next_seqno() == old(self).next_seqno(),
            final(self).isn_spec() == old(self).isn_spec(),
            final(self).fin_done() == old(self).fin_done(),
    {
        self.receiver_window_size = msg.window_size;
        self.receiver_free_space = msg.window_size;
        match msg.ackno {
            None => {},
            Some(ackno_wrap) => {
                let ackno = ackno_wrap.unwrap(&self.isn, self.seqno_absolute);
                if ackno <= self.seqno_absolute && ackno >= self.ackno_absolute {
                    self.ackno_absolute = ackno;
                    let ghost s = self.messages_outstanding@;
                    let ghost cp = self.seqno_absolute as int;
                    let total = self.messages_outstanding.len();
                    let mut popped: usize = 0;
                    while self.messages_outstanding.len() > 0
                        invariant
                            self.queues_wf(),
                            self.isn == old(self).isn,
                            self.seqno_absolute == cp,
                            self.ackno_absolute == ackno,
                            self.timer == old(self).timer,
                            self.consecutive_retransmissions == old(self).consecutive_retransmissions,
                            self.messages == old(self).messages,
                            self.fin_sent == old(self).fin_sent,
                            self.receiver_window_size == msg.window_size,
                            self.receiver_free_space == msg.window_size,
                            s == old(self).messages_outstanding@,
                            popped <= s.len(),
                            total == s.len(),
                            self.messages_outstanding@.len() == s.len() - popped,
                            self.messages_outstanding@ == s.skip(popped as int),
                            acked_count(s, self.isn, cp, ackno as int) == popped + acked_count(
                                self.messages_outstanding@,
                                self.isn,
                                cp,
                                ackno as int,
                            ),
                            self.seqnos_in_flight == old(self).seqnos_in_flight - sum_len(
                                s.take(popped as int),
                            ),
                            old(self).seqnos_in_flight == sum_len(s),
                            self.timer.is_running ==> s.len() > 0,
                        ensures
                            acked_count(self.messages_outstanding@, self.isn, cp, ackno as int) == 0,
                        decreases self.messages_outstanding@.len(),
                    {
                        let start = self.messages_outstanding[0].seqno.unwrap(
                            &self.isn,
                            self.seqno_absolute,
                        );
                        let length = self.messages_outstanding[0].sequence_length();
                        if start <= self.ackno_absolute && length <= self.ackno_absolute - start {
                            let ghost cur = self.messages_outstanding@;
                            proof {
                                lemma_sum_front(cur);
                                lemma_sum_take(s, popped as int);
                                assert(cur.skip(1) =~= s.skip(popped + 1));
                                assert(s[popped as int] == cur[0]);
                            }
                            let _ = self.messages_outstanding.remove(0);
                            assert(self.messages_outstanding@ =~= cur.skip(1));
                            self.seqnos_in_flight = self.seqnos_in_flight - length;
                            popped = popped + 1;
                        } else {
                            break;
                        }
                    }
                    if self.messages_outstanding.len() == 0 {
                        self.timer.stop();
                    }
                    if popped > 0 {
                        self.timer.reset();
                        self.consecutive_retransmissions = 0;
                    }
                }
            },
        }
    }

    /// Hands out the next queued segment if sending is allowed and the
    /// segment fits what is left of the window; a retransmission, or a
    /// probe of a zero window, goes out regardless. A first transmission
    /// takes its length from what is left of the window.
    pub fn send(&mut self) -> (r: Option<TCPSenderMessage>)
        requires
            old(self).wf(),
        ensures
            final(self).wf(),
            ({
                let go = old(self).sending_allowed() && old(self).ready().len() > 0 && (seg_len(
                    old(self).ready()[0],
                ) <= old(self).free_space() || old(self).retransmissions() > 0
                    || old(self).window() == 0);
                &&& (r is Some) == go
                &&& go ==> {
                    &&& r.unwrap() == old(self).ready()[0]
                    &&& final(self).ready() == old(self).ready().skip(1)
                    &&& final(self).free_space() == if old(self).retransmissions() > 0 {
                        old(self).free_space() as int
                    } else {
                        max_int(old(self).free_space() - seg_len(old(self).ready()[0]), 0)
                    }
                }
                &&& !go ==> *final(self) == *old(self)
            }),
            final(self).outstanding() == old(self).outstanding(),
            final(self).in_flight() == old(self).in_flight(),
            final(self).next_seqno() == old(self).next_seqno(),
            final(self).acked() == old(self).acked(),
            final(self).retransmissions() == old(self).retransmissions(),
            final(self).window() == old(self).window(),
            final(self).timer_spec() == old(self).timer_spec(),
            final(self).isn_spec() == old(self).isn_spec(),
            final(self).fin_done() == old(self).fin_done(),
    {
        if !self.can_send() || self.messages.len() == 0 {
            return None;
        }
        let length = self.messages[0].sequence_length();
        let free = self.receiver_free_space as u64;
        if length <= free || self.consecutive_retransmissions > 0 || self.receiver_window_size == 0 {
            if self.consecutive_retransmissions == 0 {
                self.receiver_free_space = if length <= free {
                    (free - length) as u16
                } else {
                    0
                };
            }
            let ghost before = self.messages@;
            let m = self.messages.remove(0);
            assert(self.messages@ =~= before.skip(1));
            Some(m)
        } else {
            None
        }
    }

    /// A segment with no flags and no payload at the next sequence number,
    /// which occupies no sequence number.
    pub fn send_empty(&self) -> (r: TCPSenderMessage)
        ensures
            seg_view(r) == (
                wrap_spec(self.next_seqno() as int, self.isn_spec().raw_value),
                false,
                Seq::<u8>::empty(),
                false,
            ),
    {
        let seqno = Wrap32::wrap(self.seqno_absolute, &self.isn);
        TCPSenderMessage { seqno, syn: false, payload: Vec::new(), fin: false }
    }

    /// Lets `ms_since_last_tick` pass on the timer. When it runs out, the
    /// oldest outstanding segment is queued again and the count of
    /// retransmissions goes up; the timeout doubles if the window is open
    /// and returns to its initial value if it is closed.
    pub fn tick(&mut self, ms_since_last_tick: u64)
        requires
            old(self).wf(),
        ensures
            final(self).wf(),
            tick_post(*old(self), *final(self), ms_since_last_tick),
            final(self).outstanding() == old(self).outstanding(),
            final(self).in_flight() == old(self).in_flight(),
            final(self).next_seqno() == old(self).next_seqno(),
            final(self).acked() == old(self).acked(),
            final(self).window() == old(self).window(),
            final(self).free_space() == old(self).free_space(),
            final(self).isn_spec() == old(self).isn_spec(),
            final(self).fin_done() == old(self).fin_done(),
    {
        if self.timer.increment(ms_since_last_tick) {
            if self.receiver_window_size > 0 {
                self.timer.double_rto();
            } else {
                self.timer.reset();
            }
            if self.consecutive_retransmissions < u64::MAX {
                self.consecutive_retransmissions = self.consecutive_retransmissions + 1;
            }
            let copy = self.messages_outstanding[0].duplicate();
            self.messages.push(copy);
        }
    }
}

} // verus!
