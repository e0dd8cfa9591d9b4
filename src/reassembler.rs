use vstd::prelude::*;
use crate::reassembler_buffer::{ReassemblerBuffer, count_filled, values};
use crate::stream::{Writer, min_int};

verus! {

/// Slots of a window that starts at absolute index `base`, after the bytes
/// of `data`, which starts at absolute index `first`, are written into the
/// slots they fall on. Bytes outside the window are left out.
pub open spec fn placed(slots: Seq<Option<u8>>, base: int, first: int, data: Seq<u8>) -> Seq<
    Option<u8>,
> {
    Seq::new(
        slots.len(),
        |i: int|
            if 0 <= base + i - first < data.len() {
                Some(data[base + i - first])
            } else {
                slots[i]
            },
    )
}

/// Slots of the window once `insert` has grown it by `room` and written
/// the first `room` bytes of `data` into it.
pub open spec fn inserted(
    slots: Seq<Option<u8>>,
    base: int,
    first: int,
    data: Seq<u8>,
    room: nat,
) -> Seq<Option<u8>> {
    placed(
        slots + Seq::new(room, |i: int| None::<u8>),
        base,
        first,
        data.take(min_int(data.len() as int, room as int)),
    )
}

/// Whether a piece fits the machine's integers: the window grown by
/// `room` slots stays within `usize`, and the piece ends within `u64`.
/// Pieces that do not are dropped.
pub open spec fn fits(slots_len: nat, room: nat, first: u64, data_len: nat) -> bool {
    slots_len + room <= usize::MAX && first + data_len <= u64::MAX
}

/// What `insert` does, given the sink's room and what the sink had
/// received before and after: the window grows by `room` slots, the
/// piece is placed, and the filled front of the window, as much of it as
/// fits `room`, moves to the sink.
pub open spec fn insert_post(
    old: Reassembler,
    new: Reassembler,
    first_index: u64,
    data: Seq<u8>,
    is_last_substring: bool,
    room: nat,
    written_before: Seq<u8>,
    written_after: Seq<u8>,
) -> bool {
    let filled = inserted(old.slots(), old.delivered() as int, first_index as int, data, room);
    let k = new.delivered() - old.delivered();
    &&& 0 <= k <= room
    &&& forall|i: int| 0 <= i < k ==> #[trigger] filled[i] is Some
    &&& k == room || k == filled.len() || filled[k] is None
    &&& written_after == written_before + values(filled.take(k))
    &&& new.slots() == filled.skip(k)
    &&& new.max_seen() == if old.max_seen() >= first_index + min_int(data.len() as int, room as int) {
        old.max_seen() as int
    } else {
        first_index + min_int(data.len() as int, room as int)
    }
    &&& new.last_seen() == (old.last_seen() || is_last_substring)
    &&& new.end() == if is_last_substring {
        first_index + data.len()
    } else {
        old.end() as int
    }
}

/// Inserting again a piece whose bytes have all been delivered gives the
/// sink nothing, when no filled slot was waiting at the front.
pub proof fn lemma_reinsert_delivered(
    old: Reassembler,
    new: Reassembler,
    first_index: u64,
    data: Seq<u8>,
    is_last_substring: bool,
    room: nat,
    written_before: Seq<u8>,
    written_after: Seq<u8>,
)
    requires
        insert_post(old, new, first_index, data, is_last_substring, room, written_before, written_after),
        first_index + data.len() <= old.delivered(),
        old.slots().len() == 0 || old.slots()[0] is None,
    ensures
        written_after == written_before,
        new.delivered() == old.delivered(),
{
    let filled = inserted(old.slots(), old.delivered() as int, first_index as int, data, room);
    let k = new.delivered() - old.delivered();
    if k > 0 {
        assert(filled[0] is Some);
    }
    assert(values(filled.take(0)) =~= Seq::<u8>::empty());
    assert(written_before + Seq::<u8>::empty() =~= written_before);
}

/// Puts possibly out-of-order, overlapping pieces of a byte stream back in
/// order and hands the contiguous front to a sink.
///
/// The window only ever grows: each insertion appends as many slots as the
/// sink has room for, and delivered slots are removed from its front, so
/// on a long connection the storage grows beyond the bytes in flight.
pub struct Reassembler {
    write_index: u64,
    max_index: u64,
    buffer: ReassemblerBuffer,
    last_index_read: bool,
    end_index: u64,
}

impl Reassembler {
    /// Bytes delivered to the sink so far.
    pub closed spec fn delivered(&self) -> nat {
        self.write_index as nat
    }

    /// The window's slots, the first standing for absolute index
    /// `delivered()`.
    pub closed spec fn slots(&self) -> Seq<Option<u8>> {
        self.buffer.slots()
    }

    /// Whether the last piece of the stream has been seen.
    pub closed spec fn last_seen(&self) -> bool {
        self.last_index_read
    }

    /// Absolute index one past the end of the last piece, once seen.
    pub closed spec fn end(&self) -> nat {
        self.end_index as nat
    }

    /// Highest absolute end of a piece seen, clipped as inserted.
    pub closed spec fn max_seen(&self) -> nat {
        self.max_index as nat
    }

    pub closed spec fn wf(&self) -> bool {
        self.buffer.wf()
    }

    pub fn new() -> (r: Self)
        ensures
            r.wf(),
            r.delivered() == 0,
            r.slots() == Seq::<Option<u8>>::empty(),
            !r.last_seen(),
            r.max_seen() == 0,
    {
        Reassembler {
            write_index: 0,
            max_index: 0,
            buffer: ReassemblerBuffer::new(),
            last_index_read: false,
            end_index: 0,
        }
    }

    /// Number of bytes held that cannot be delivered yet.
    pub fn bytes_pending(&self) -> (r: usize)
        requires
            self.wf(),
        ensures
            r == count_filled(self.slots()),
    {
        self.buffer.bytes_pending()
    }

    /// Takes `data`, the piece of the stream that starts at absolute index
    /// `first_index`, and delivers to `output` what has become contiguous.
    /// Only the first `output.room()` bytes of the piece are kept, and of
    /// those only the ones that fall in the window. Once the last piece has
    /// been seen and everything up to its end delivered, `output` is closed.
    pub fn insert<W: Writer>(
        &mut self,
        first_index: u64,
        data: Vec<u8>,
        is_last_substring: bool,
        output: &mut W,
    )
        requires
            old(self).wf(),
            old(output).inv(),
            old(self).delivered() == old(output).written().len(),
        ensures
            final(self).wf(),
            final(output).inv(),
            final(self).delivered() == final(output).written().len(),
            !fits(old(self).slots().len(), old(output).room(), first_index, data@.len()) ==> {
                &&& *final(self) == *old(self)
                &&& *final(output) == *old(output)
            },
            fits(old(self).slots().len(), old(output).room(), first_index, data@.len())
                ==> insert_post(
                *old(self),
                *final(self),
                first_index,
                data@,
                is_last_substring,
                old(output).room(),
                old(output).written(),
                final(output).written(),
            ),
            fits(old(self).slots().len(), old(output).room(), first_index, data@.len())
                ==> final(output).room() == old(output).room() - (final(self).delivered()
                - old(self).delivered()),
            fits(old(self).slots().len(), old(output).room(), first_index, data@.len())
                ==> final(output).closed() == (old(output).closed() || (final(self).last_seen()
                && final(self).delivered() == final(self).end())),
            final(output).errored() == old(output).errored(),
    {
        let room = output.available_capacity();
        if room > usize::MAX - self.buffer.len() || first_index > u64::MAX - data.len() as u64 {
            return;
        }
        self.last_index_read = self.last_index_read || is_last_substring;
        if is_last_substring {
            self.end_index = first_index + data.len() as u64;
        }
        self.buffer.resize(room);
        let read_length = if data.len() < room { data.len() } else { room };
        self.write_to_buffer(first_index, read_length, &data);
        let last_index = first_index + read_length as u64;
        if self.max_index < last_index {
            self.max_index = last_index;
        }
        self.write_to_stream(output);
        if self.last_index_read && self.write_index == self.end_index {
            output.close();
        }
    }

    /// Writes `data[..read_length]`, which starts at absolute index
    /// `first_index`, into the slots it falls on.
    fn write_to_buffer(&mut self, first_index: u64, read_length: usize, data: &Vec<u8>)
        requires
            old(self).wf(),
            read_length <= data@.len(),
            first_index + data@.len() <= u64::MAX,
        ensures
            final(self).wf(),
            final(self).write_index == old(self).write_index,
            final(self).max_index == old(self).max_index,
            final(self).last_index_read == old(self).last_index_read,
            final(self).end_index == old(self).end_index,
            final(self).slots() == placed(
                old(self).slots(),
                old(self).write_index as int,
                first_index as int,
                data@.take(read_length as int),
            ),
    {
        let base = self.write_index;
        let len = self.buffer.len();
        let ghost target = placed(
            old(self).slots(),
            base as int,
            first_index as int,
            data@.take(read_length as int),
        );
        if first_index >= base {
            let rel = first_index - base;
            if rel < len as u64 {
                let offset = rel as usize;
                let count = if read_length < len - offset { read_length } else { len - offset };
                self.buffer.replace(data.as_slice(), 0, count, offset);
            }
        } else {
            let skip = base - first_index;
            if skip < read_length as u64 {
                let from = skip as usize;
                let count = if read_length - from < len { read_length - from } else { len };
                self.buffer.replace(data.as_slice(), from, from + count, 0);
            }
        }
        assert(self.slots() =~= target);
    }

    /// Hands the contiguous front of the window to `output`, as much of it
    /// as `output` has room for.
    fn write_to_stream<W: Writer>(&mut self, output: &mut W)
        requires
            old(self).wf(),
            old(output).inv(),
            old(self).delivered() == old(output).written().len(),
        ensures
            final(self).wf(),
            final(output).inv(),
            final(self).delivered() == final(output).written().len(),
            final(self).max_index == old(self).max_index,
            final(self).last_index_read == old(self).last_index_read,
            final(self).end_index == old(self).end_index,
            final(output).closed() == old(output).closed(),
            final(output).errored() == old(output).errored(),
            final(output).room() == old(output).room() - (final(self).delivered()
                - old(self).delivered()),
            final(self).delivered() == old(self).delivered() ==> *final(output) == *old(output),
            ({
                let k = final(self).delivered() - old(self).delivered();
                &&& 0 <= k <= old(output).room()
                &&& forall|i: int| 0 <= i < k ==> #[trigger] old(self).slots()[i] is Some
                &&& k == old(output).room() || k == old(self).slots().len()
                    || old(self).slots()[k] is None
                &&& final(output).written() == old(output).written() + values(old(self).slots().take(k))
                &&& final(self).slots() == old(self).slots().skip(k)
            }),
    {
        let room = output.available_capacity();
        let bytes_to_write = self.buffer.pop(room);
        let n = bytes_to_write.len();
        if n > 0 {
            self.write_index = self.write_index + n as u64;
            output.push(bytes_to_write);
            assert(bytes_to_write@.take(n as int) =~= bytes_to_write@);
        }
    }
}

} // verus!
