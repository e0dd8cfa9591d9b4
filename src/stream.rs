use vstd::prelude::*;

verus! {

/// The smaller of two integers.
pub open spec fn min_int(a: int, b: int) -> int {
    if a <= b { a } else { b }
}

/// The writing end of a bounded byte queue.
pub trait Writer {
    /// The queue's internal consistency, kept by every operation.
    spec fn inv(&self) -> bool;

    /// Every byte accepted so far, in order.
    spec fn written(&self) -> Seq<u8>;

    /// How many more bytes the queue accepts now.
    spec fn room(&self) -> nat;

    spec fn closed(&self) -> bool;

    spec fn errored(&self) -> bool;

    /// Appends as much of `data` as there is room for; the rest is dropped.
    fn push(&mut self, data: Vec<u8>)
        requires
            old(self).inv(),
        ensures
            final(self).inv(),
            final(self).written() == old(self).written() + data@.take(
                min_int(data@.len() as int, old(self).room() as int),
            ),
            final(self).room() == old(self).room() - min_int(data@.len() as int, old(self).room() as int),
            final(self).closed() == old(self).closed(),
            final(self).errored() == old(self).errored(),
    ;

    fn close(&mut self)
        requires
            old(self).inv(),
        ensures
            final(self).inv(),
            final(self).closed(),
            final(self).written() == old(self).written(),
            final(self).room() == old(self).room(),
            final(self).errored() == old(self).errored(),
    ;

    fn set_error(&mut self)
        requires
            old(self).inv(),
        ensures
            final(self).inv(),
            final(self).errored(),
            final(self).written() == old(self).written(),
            final(self).room() == old(self).room(),
            final(self).closed() == old(self).closed(),
    ;

    fn is_closed(&self) -> (r: bool)
        requires
            self.inv(),
        ensures
            r == self.closed(),
    ;

    fn available_capacity(&self) -> (r: usize)
        requires
            self.inv(),
        ensures
            r == self.room(),
            self.written().len() + r <= u64::MAX,
    ;

    fn bytes_pushed(&self) -> (r: u64)
        requires
            self.inv(),
        ensures
            r == self.written().len(),
    ;
}

/// The reading end of a bounded byte queue.
pub trait Reader {
    /// The queue's internal consistency, kept by every operation.
    spec fn inv(&self) -> bool;

    /// The bytes waiting to be read, oldest first.
    spec fn buffered(&self) -> Seq<u8>;

    /// Whether the writing end has closed.
    spec fn input_ended(&self) -> bool;

    spec fn errored(&self) -> bool;

    /// How many bytes have been read out so far.
    spec fn popped(&self) -> nat;

    fn peek(&self) -> (r: &Vec<u8>)
        requires
            self.inv(),
        ensures
            r@ == self.buffered(),
    ;

    /// Removes and returns the first `n` buffered bytes.
    fn drain(&mut self, n: usize) -> (r: Vec<u8>)
        requires
            old(self).inv(),
            n <= old(self).buffered().len(),
        ensures
            final(self).inv(),
            r@ == old(self).buffered().take(n as int),
            final(self).buffered() == old(self).buffered().skip(n as int),
            final(self).popped() == old(self).popped() + n,
            final(self).input_ended() == old(self).input_ended(),
            final(self).errored() == old(self).errored(),
    ;

    /// The writing end has closed and every byte has been read.
    fn is_finished(&self) -> (r: bool)
        requires
            self.inv(),
        ensures
            r == (self.input_ended() && self.buffered().len() == 0),
    ;

    fn has_error(&self) -> (r: bool)
        requires
            self.inv(),
        ensures
            r == self.errored(),
    ;

    fn bytes_buffered(&self) -> (r: usize)
        requires
            self.inv(),
        ensures
            r == self.buffered().len(),
    ;

    fn popped_bytes(&self) -> (r: u64)
        requires
            self.inv(),
        ensures
            r == self.popped(),
    ;
}

/// A capacity-limited in-memory byte queue, usable as both ends.
pub struct ByteStream {
    capacity: usize,
    total_bytes: u64,
    popped_bytes: u64,
    buffer: Vec<u8>,
    closed: bool,
    error: bool,
    history: Ghost<Seq<u8>>,
}

impl ByteStream {
    /// Consistency of the counters, the buffer and the history.
    closed spec fn wf(&self) -> bool {
        &&& self.buffer@.len() <= self.capacity
        &&& self.total_bytes == self.history@.len()
        &&& self.popped_bytes + self.buffer@.len() == self.total_bytes
        &&& self.buffer@ == self.history@.skip(self.popped_bytes as int)
    }

    /// The queue's fixed capacity.
    pub closed spec fn capacity_spec(&self) -> nat {
        self.capacity as nat
    }

    pub fn new(capacity: usize) -> (r: Self)
        ensures
            r.capacity_spec() == capacity,
            Writer::written(&r) == Seq::<u8>::empty(),
            Reader::buffered(&r) == Seq::<u8>::empty(),
            Writer::room(&r) == capacity,
            !Writer::closed(&r),
            !Writer::errored(&r),
            Writer::inv(&r),
            Reader::inv(&r),
            Reader::popped(&r) == 0,
            !Reader::input_ended(&r),
    {
        let r = ByteStream {
            capacity,
            total_bytes: 0,
            popped_bytes: 0,
            buffer: Vec::new(),
            closed: false,
            error: false,
            history: Ghost(Seq::empty()),
        };
        assert(r.history@.skip(0) =~= r.buffer@);
        r
    }
}

impl ByteStream {
    /// How the writing end's view and the reading end's view of one queue
    /// relate: the buffered bytes are what was written less what was read,
    /// and the room is what the capacity leaves, within the `u64` count of
    /// bytes written.
    pub proof fn lemma_views(&self)
        requires
            Writer::inv(self),
        ensures
            Reader::inv(self),
            Reader::buffered(self) == Writer::written(self).skip(Reader::popped(self) as int),
            Reader::popped(self) + Reader::buffered(self).len() == Writer::written(self).len(),
            Writer::room(self) == min_int(
                self.capacity_spec() - Reader::buffered(self).len(),
                u64::MAX - Writer::written(self).len(),
            ),
            Reader::input_ended(self) == Writer::closed(self),
            Reader::errored(self) == Writer::errored(self),
    {
    }
}

impl Writer for ByteStream {
    closed spec fn inv(&self) -> bool {
        self.wf()
    }

    closed spec fn written(&self) -> Seq<u8> {
        self.history@
    }

    closed spec fn room(&self) -> nat {
        min_int(
            self.capacity - self.buffer@.len(),
            u64::MAX - self.total_bytes,
        ) as nat
    }

    closed spec fn closed(&self) -> bool {
        self.closed
    }

    closed spec fn errored(&self) -> bool {
        self.error
    }

    fn push(&mut self, data: Vec<u8>) {
        let room = self.available_capacity();
        let n: usize = if data.len() < room { data.len() } else { room };
        let ghost start = self.history@;
        let mut i: usize = 0;
        while i < n
            invariant
                0 <= i <= n,
                n <= data@.len(),
                n == min_int(data@.len() as int, old(self).room() as int),
                n <= old(self).room(),
                old(self).room() == min_int(
                    old(self).capacity - old(self).buffer@.len(),
                    u64::MAX - old(self).total_bytes,
                ),
                start == old(self).history@,
                self.capacity == old(self).capacity,
                self.popped_bytes == old(self).popped_bytes,
                self.closed == old(self).closed,
                self.error == old(self).error,
                self.history@ == start + data@.take(i as int),
                self.total_bytes == old(self).total_bytes + i,
                self.buffer@ == old(self).buffer@ + data@.take(i as int),
                old(self).popped_bytes + old(self).buffer@.len() == old(self).total_bytes,
                old(self).buffer@ == start.skip(old(self).popped_bytes as int),
                old(self).total_bytes == start.len(),
            decreases n - i,
        {
            self.buffer.push(data[i]);
            self.total_bytes = self.total_bytes + 1;
            self.history = Ghost(self.history@.push(data@[i as int]));
            i = i + 1;
            assert(data@.take(i as int) == data@.take(i - 1).push(data@[i - 1]));
            assert(self.history@.skip(self.popped_bytes as int) =~= self.buffer@);
        }
        assert(self.history@.skip(self.popped_bytes as int) =~= self.buffer@);
    }

    fn close(&mut self) {
        self.closed = true;
    }

    fn set_error(&mut self) {
        self.error = true;
    }

    fn is_closed(&self) -> (r: bool) {
        self.closed
    }

    fn available_capacity(&self) -> (r: usize) {
        let room = self.capacity - self.buffer.len();
        let limit = u64::MAX - self.total_bytes;
        if room as u64 > limit {
            limit as usize
        } else {
            room
        }
    }

    fn bytes_pushed(&self) -> (r: u64) {
        self.total_bytes
    }
}

impl Reader for ByteStream {
    closed spec fn inv(&self) -> bool {
        self.wf()
    }

    closed spec fn buffered(&self) -> Seq<u8> {
        self.buffer@
    }

    closed spec fn input_ended(&self) -> bool {
        self.closed
    }

    closed spec fn errored(&self) -> bool {
        self.error
    }

    closed spec fn popped(&self) -> nat {
        self.popped_bytes as nat
    }

    fn peek(&self) -> (r: &Vec<u8>) {
        &self.buffer
    }

    fn drain(&mut self, n: usize) -> (r: Vec<u8>) {
        let mut taken = self.buffer.split_off(n);
        core::mem::swap(&mut self.buffer, &mut taken);
        self.popped_bytes = self.popped_bytes + n as u64;
        assert(self.buffer@ =~= self.history@.skip(self.popped_bytes as int));
        assert(taken@ =~= old(self).buffer@.take(n as int));
        taken
    }

    fn is_finished(&self) -> (r: bool) {
        self.closed && self.buffer.len() == 0
    }

    fn has_error(&self) -> (r: bool) {
        self.error
    }

    fn bytes_buffered(&self) -> (r: usize) {
        self.buffer.len()
    }

    fn popped_bytes(&self) -> (r: u64) {
        self.popped_bytes
    }
}

} // verus!
