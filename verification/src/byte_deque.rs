use vstd::prelude::*;

verus! {

/// A ring buffer of bytes: cheap to drop from the front, cheap to append,
/// and seen as two slices in order.
pub struct ByteDeque {
    buf: Vec<u8>,
    head: usize,
    len: usize,
}

impl ByteDeque {
    pub closed spec fn wf(&self) -> bool {
        &&& self.len <= self.buf@.len()
        &&& self.buf@.len() == 0 ==> self.head == 0
        &&& self.buf@.len() > 0 ==> self.head < self.buf@.len()
    }

    /// Where the `i`-th byte of the contents is stored.
    closed spec fn phys(&self, i: int) -> int {
        if self.head + i < self.buf@.len() { self.head + i } else { self.head + i - self.buf@.len() }
    }

    /// How many bytes fit before the buffer has to grow.
    pub closed spec fn capacity(&self) -> nat {
        self.buf@.len()
    }
}

impl View for ByteDeque {
    type V = Seq<u8>;

    closed spec fn view(&self) -> Seq<u8> {
        Seq::new(self.len as nat, |i: int| self.buf@[self.phys(i)])
    }
}

impl ByteDeque {
    pub fn with_capacity(capacity: usize) -> (d: ByteDeque)
        ensures
            d.wf(),
            d@ == Seq::<u8>::empty(),
            d.capacity() == capacity,
    {
        let d = ByteDeque { buf: vec![0u8; capacity], head: 0, len: 0 };
        assert(d@ =~= Seq::<u8>::empty());
        d
    }

    pub fn new() -> (d: ByteDeque)
        ensures
            d.wf(),
            d@ == Seq::<u8>::empty(),
    {
        ByteDeque::with_capacity(16)
    }

    /// A deque holding exactly `bytes`.
    pub fn from_vec(bytes: Vec<u8>) -> (d: ByteDeque)
        ensures
            d.wf(),
            d@ == bytes@,
    {
        let n = bytes.len();
        let d = ByteDeque { buf: bytes, head: 0, len: n };
        assert(d@ =~= bytes@);
        d
    }

    pub fn len(&self) -> (n: usize)
        requires
            self.wf(),
        ensures
            n == self@.len(),
    {
        self.len
    }

    /// The contents as two slices: the first part, then the part that
    /// wrapped around.
    pub fn as_slices(&self) -> (r: (&[u8], &[u8]))
        requires
            self.wf(),
        ensures
            r.0@ + r.1@ == self@,
            self@.len() <= usize::MAX,
    {
        let cap = self.buf.len();
        if self.len <= cap - self.head {
            let l = &self.buf[self.head..self.head + self.len];
            let r = &self.buf[0..0];
            assert(l@ + r@ =~= self@);
            (l, r)
        } else {
            let l = &self.buf[self.head..cap];
            let r = &self.buf[0..self.len - (cap - self.head)];
            assert(l@ + r@ =~= self@);
            (l, r)
        }
    }

    /// Removes the first `n` bytes.
    pub fn drop_front(&mut self, n: usize)
        requires
            old(self).wf(),
            n <= old(self)@.len(),
        ensures
            final(self).wf(),
            final(self)@ == old(self)@.subrange(n as int, old(self)@.len() as int),
            final(self).capacity() == old(self).capacity(),
    {
        let cap = self.buf.len();
        if n == 0 {
            assert(self@ =~= old(self)@.subrange(0, old(self)@.len() as int));
            return;
        }
        let new_head = if n < cap - self.head { self.head + n } else { n - (cap - self.head) };
        self.head = new_head;
        self.len = self.len - n;
        assert(self@ =~= old(self)@.subrange(n as int, old(self)@.len() as int));
    }

    /// Moves the contents to the front of a buffer of `new_cap` bytes.
    fn regrow(&mut self, new_cap: usize)
        requires
            old(self).wf(),
            old(self)@.len() <= new_cap,
            new_cap > 0,
        ensures
            final(self).wf(),
            final(self)@ == old(self)@,
            final(self).capacity() == new_cap,
    {
        let mut fresh: Vec<u8> = vec![0u8; new_cap];
        let (left, right) = self.as_slices();
        let llen = left.len();
        let mut i: usize = 0;
        while i < left.len()
            invariant
                fresh@.len() == new_cap,
                llen == left@.len(),
                left@ + right@ == self@,
                self@.len() <= new_cap,
                0 <= i <= llen,
                forall|k: int| 0 <= k < i ==> fresh@[k] == self@[k],
            decreases llen - i,
        {
            fresh.set(i, left[i]);
            i = i + 1;
        }
        let mut j: usize = 0;
        while j < right.len()
            invariant
                fresh@.len() == new_cap,
                llen == left@.len(),
                left@ + right@ == self@,
                self@.len() <= new_cap,
                0 <= j <= right@.len(),
                forall|k: int| 0 <= k < llen + j ==> fresh@[k] == self@[k],
            decreases right@.len() - j,
        {
            fresh.set(llen + j, right[j]);
            j = j + 1;
        }
        let ghost before = self@;
        self.buf = fresh;
        self.head = 0;
        assert(self@ =~= before);
    }

    /// Appends `bytes` at the back, growing the buffer when they do not fit.
    pub fn extend_from_slice(&mut self, bytes: &[u8])
        requires
            old(self).wf(),
            old(self)@.len() + bytes@.len() <= usize::MAX,
        ensures
            final(self).wf(),
            final(self)@ == old(self)@ + bytes@,
    {
        let ghost orig = self@;
        let needed = self.len + bytes.len();
        let cap = self.buf.len();
        if needed > cap {
            let new_cap = if cap <= usize::MAX / 2 && cap * 2 >= needed { cap * 2 } else { needed };
            self.regrow(new_cap);
        }
        if bytes.len() == 0 {
            assert(self@ =~= old(self)@ + bytes@);
            return;
        }
        let ghost start = self@;
        let cap = self.buf.len();
        let mut j: usize = 0;
        while j < bytes.len()
            invariant
                self.wf(),
                cap == self.buf@.len(),
                cap > 0,
                self.len + bytes@.len() - j <= cap,
                self.len == start.len() + j,
                start == orig,
                j <= bytes@.len(),
                self@ == start + bytes@.subrange(0, j as int),
            decreases bytes@.len() - j,
        {
            let p = if self.len < cap - self.head { self.head + self.len } else { self.len - (cap - self.head) };
            let ghost before = self@;
            let ghost old_self = *self;
            assert(p == self.phys(self.len as int));
            self.buf.set(p, bytes[j]);
            self.len = self.len + 1;
            j = j + 1;
            proof {
                assert forall|i: int| 0 <= i < before.len() implies self.phys(i) != p
                    && self.phys(i) == old_self.phys(i) by {}
                assert(self@ =~= before.push(bytes@[j - 1]));
            }
            assert(self@ =~= start + bytes@.subrange(0, j as int));
        }
        assert(bytes@.subrange(0, bytes@.len() as int) =~= bytes@);
    }

    /// The byte at position `i`.
    pub fn get(&self, i: usize) -> (b: u8)
        requires
            self.wf(),
            i < self@.len(),
        ensures
            b == self@[i as int],
    {
        let cap = self.buf.len();
        let p = if i < cap - self.head { self.head + i } else { i - (cap - self.head) };
        self.buf[p]
    }
}

} // verus!
