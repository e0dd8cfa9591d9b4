use vstd::prelude::*;

verus! {

/// Number of filled slots.
pub open spec fn count_filled(s: Seq<Option<u8>>) -> nat
    decreases s.len(),
{
    if s.len() == 0 {
        0
    } else {
        count_filled(s.drop_last()) + if s.last() is Some { 1nat } else { 0nat }
    }
}

/// The bytes held in a run of filled slots.
pub open spec fn values(s: Seq<Option<u8>>) -> Seq<u8> {
    s.map_values(|o: Option<u8>| o.unwrap())
}

proof fn lemma_count_update(s: Seq<Option<u8>>, i: int, b: u8)
    requires
        0 <= i < s.len(),
    ensures
        count_filled(s.update(i, Some(b))) == count_filled(s) + if s[i] is None { 1nat } else { 0nat },
    decreases s.len(),
{
    let t = s.update(i, Some(b));
    if i == s.len() - 1 {
        assert(t.drop_last() =~= s.drop_last());
    } else {
        assert(t.drop_last() =~= s.drop_last().update(i, Some(b)));
        lemma_count_update(s.drop_last(), i, b);
    }
}

proof fn lemma_count_append_empty(s: Seq<Option<u8>>)
    ensures
        count_filled(s.push(None)) == count_filled(s),
{
    assert(s.push(None).drop_last() =~= s);
}

proof fn lemma_count_bound(s: Seq<Option<u8>>)
    ensures
        count_filled(s) <= s.len(),
    decreases s.len(),
{
    if s.len() > 0 {
        lemma_count_bound(s.drop_last());
    }
}

proof fn lemma_count_skip(s: Seq<Option<u8>>, k: int)
    requires
        0 <= k <= s.len(),
        forall|i: int| 0 <= i < k ==> #[trigger] s[i] is Some,
    ensures
        count_filled(s.skip(k)) + k == count_filled(s),
    decreases s.len(),
{
    if k == s.len() {
        assert(s.skip(k) =~= Seq::<Option<u8>>::empty());
        lemma_count_all(s);
    } else {
        assert(s.skip(k).drop_last() =~= s.drop_last().skip(k));
        lemma_count_skip(s.drop_last(), k);
    }
}

proof fn lemma_count_all(s: Seq<Option<u8>>)
    requires
        forall|i: int| 0 <= i < s.len() ==> #[trigger] s[i] is Some,
    ensures
        count_filled(s) == s.len(),
    decreases s.len(),
{
    if s.len() > 0 {
        lemma_count_all(s.drop_last());
    }
}

/// Byte slots with a parallel presence map, written sparsely and read from
/// the front.
pub struct ReassemblerBuffer {
    buffer: Vec<u8>,
    bitmap: Vec<bool>,
    pending: usize,
}

impl ReassemblerBuffer {
    /// The slots: `Some(b)` where byte `b` has been written, `None` where
    /// nothing has.
    pub closed spec fn slots(&self) -> Seq<Option<u8>> {
        Seq::new(
            self.bitmap@.len(),
            |i: int|
                if self.bitmap@[i] {
                    Some(self.buffer@[i])
                } else {
                    None
                },
        )
    }

    pub closed spec fn wf(&self) -> bool {
        &&& self.buffer@.len() == self.bitmap@.len()
        &&& self.pending == count_filled(self.slots())
    }

    pub fn new() -> (r: Self)
        ensures
            r.wf(),
            r.slots() == Seq::<Option<u8>>::empty(),
    {
        let r = ReassemblerBuffer { buffer: Vec::new(), bitmap: Vec::new(), pending: 0 };
        assert(r.slots() =~= Seq::<Option<u8>>::empty());
        r
    }

    /// Number of filled slots.
    pub fn bytes_pending(&self) -> (r: usize)
        requires
            self.wf(),
        ensures
            r == count_filled(self.slots()),
    {
        self.pending
    }

    pub fn is_empty(&self) -> (r: bool)
        requires
            self.wf(),
        ensures
            r == (self.slots().len() == 0),
    {
        self.buffer.len() == 0
    }

    pub fn len(&self) -> (r: usize)
        requires
            self.wf(),
        ensures
            r == self.slots().len(),
    {
        self.buffer.len()
    }

    /// Appends `size` empty slots. Storage only ever grows this way.
    pub fn resize(&mut self, size: usize)
        requires
            old(self).wf(),
            old(self).slots().len() + size <= usize::MAX,
        ensures
            final(self).wf(),
            final(self).slots() == old(self).slots() + Seq::new(size as nat, |i: int| None::<u8>),
    {
        let ghost start = self.slots();
        let mut i: usize = 0;
        while i < size
            invariant
                self.wf(),
                i <= size,
                start.len() + size <= usize::MAX,
                self.slots() =~= start + Seq::new(i as nat, |j: int| None::<u8>),
            decreases size - i,
        {
            let ghost before = self.slots();
            self.buffer.push(0);
            self.bitmap.push(false);
            i = i + 1;
            assert(self.slots() =~= before.push(None));
            proof {
                lemma_count_append_empty(before);
            }
            assert(self.slots() =~= start + Seq::new(i as nat, |j: int| None::<u8>));
        }
    }

    /// Writes `data[from..to]` into the slots starting at `offset`.
    pub fn replace(&mut self, data: &[u8], from: usize, to: usize, offset: usize)
        requires
            old(self).wf(),
            from <= to <= data@.len(),
            offset + (to - from) <= old(self).slots().len(),
        ensures
            final(self).wf(),
            final(self).slots().len() == old(self).slots().len(),
            forall|i: int|
                0 <= i < old(self).slots().len() ==> #[trigger] final(self).slots()[i] == if offset
                    <= i < offset + (to - from) {
                    Some(data@[from + i - offset])
                } else {
                    old(self).slots()[i]
                },
    {
        let total = self.bitmap.len();
        let mut j: usize = from;
        while j < to
            invariant
                self.wf(),
                total == self.slots().len(),
                from <= j <= to,
                to <= data@.len(),
                offset + (to - from) <= old(self).slots().len(),
                self.slots().len() == old(self).slots().len(),
                forall|i: int|
                    0 <= i < old(self).slots().len() ==> #[trigger] self.slots()[i] == if offset
                        <= i < offset + (j - from) {
                        Some(data@[from + i - offset])
                    } else {
                        old(self).slots()[i]
                    },
            decreases to - j,
        {
            let k = offset + (j - from);
            let ghost before = self.slots();
            let was_set = self.bitmap[k];
            self.buffer.set(k, data[j]);
            self.bitmap.set(k, true);
            assert(self.slots() =~= before.update(k as int, Some(data@[j as int])));
            proof {
                lemma_count_update(before, k as int, data@[j as int]);
                lemma_count_bound(self.slots());
            }
            if !was_set {
                self.pending = self.pending + 1;
            }
            j = j + 1;
        }
    }

    /// Removes and returns the filled run at the front, but no more than
    /// `limit` bytes of it.
    pub fn pop(&mut self, limit: usize) -> (r: Vec<u8>)
        requires
            old(self).wf(),
        ensures
            final(self).wf(),
            ({
                let k = r@.len() as int;
                &&& 0 <= k <= limit
                &&& forall|i: int| 0 <= i < k ==> #[trigger] old(self).slots()[i] is Some
                &&& k == limit || k == old(self).slots().len() || old(self).slots()[k] is None
                &&& r@ == values(old(self).slots().take(k))
                &&& final(self).slots() == old(self).slots().skip(k)
            }),
    {
        let n = self.bitmap.len();
        let mut k: usize = 0;
        while k < n && k < limit && self.bitmap[k]
            invariant
                self.wf(),
                n == self.slots().len(),
                k <= n,
                k <= limit,
                forall|i: int| 0 <= i < k ==> #[trigger] self.slots()[i] is Some,
            decreases n - k,
        {
            k = k + 1;
        }
        let ghost s = self.slots();
        let mut out: Vec<u8> = Vec::new();
        let mut i: usize = 0;
        while i < k
            invariant
                self.wf(),
                s == self.slots(),
                k <= n,
                n == s.len(),
                i <= k,
                forall|j: int| 0 <= j < k ==> #[trigger] s[j] is Some,
                out@ == values(s.take(i as int)),
            decreases k - i,
        {
            assert(s[i as int] is Some);
            out.push(self.buffer[i]);
            i = i + 1;
            assert(out@ =~= values(s.take(i as int)));
        }
        let rest_buffer = self.buffer.split_off(k);
        let rest_bitmap = self.bitmap.split_off(k);
        self.buffer = rest_buffer;
        self.bitmap = rest_bitmap;
        proof {
            lemma_count_skip(s, k as int);
        }
        assert(self.slots() =~= s.skip(k as int));
        self.pending = self.pending - k;
        out
    }
}

} // verus!
