use crate::moves::copy_region;
use crate::moves::splice_from_slice;
use vstd::prelude::*;
use vstd::slice::slice_index_get;

verus! {

/// A staging byte buffer: one owned backing store and two cursors that
/// delimit the pending bytes.  `[start, end)` is the data region (written
/// but not yet consumed), `[end, capacity)` is the space region (free for
/// new writes), and `[0, start)` is the already-consumed prefix that a
/// `shift` reclaims.
#[derive(Debug, Clone)]
pub struct Buffer {
    /// backing storage
    buf: Vec<u8>,
    /// offset of the first unread byte
    start: usize,
    /// offset one past the last written byte
    end: usize,
}

impl Buffer {
    /// The bytes of the backing storage.
    pub closed spec fn storage(&self) -> Seq<u8> {
        self.buf@
    }

    /// Offset of the first unread byte.
    pub closed spec fn spec_position(&self) -> int {
        self.start as int
    }

    /// Offset one past the last written byte.
    pub closed spec fn spec_end(&self) -> int {
        self.end as int
    }

    /// Size of the backing storage.
    pub open spec fn spec_capacity(&self) -> int {
        self.storage().len() as int
    }

    /// The cursors sit in order inside the backing storage; every operation
    /// preserves this.
    pub open spec fn wf(&self) -> bool {
        0 <= self.spec_position() <= self.spec_end() <= self.spec_capacity()
    }

    /// The data region: bytes written but not yet consumed.
    pub open spec fn data_view(&self) -> Seq<u8> {
        self.storage().subrange(self.spec_position(), self.spec_end())
    }

    /// The space region: bytes free for new writes.
    pub open spec fn space_view(&self) -> Seq<u8> {
        self.storage().subrange(self.spec_end(), self.spec_capacity())
    }

    /// Number of pending bytes.
    pub open spec fn spec_data_len(&self) -> int {
        self.spec_end() - self.spec_position()
    }

    /// Number of free bytes after the data region.
    pub open spec fn spec_space_len(&self) -> int {
        self.spec_capacity() - self.spec_end()
    }

    /// create buffer with given capacity, zero-filled, with no pending data
    pub fn with_capacity(capacity: usize) -> (r: Buffer)
        ensures
            r.wf(),
            r.spec_capacity() == capacity,
            r.spec_position() == 0,
            r.spec_end() == 0,
            r.storage() == Seq::new(capacity as nat, |i: int| 0u8),
    {
        let mut buf: Vec<u8> = Vec::new();
        while buf.len() < capacity
            invariant
                buf@.len() <= capacity,
                buf@ == Seq::new(buf@.len(), |i: int| 0u8),
            decreases capacity - buf@.len(),
        {
            buf.push(0);
            proof {
                assert(buf@ =~= Seq::new(buf@.len(), |i: int| 0u8));
            }
        }
        let r = Buffer { buf, start: 0, end: 0 };
        proof {
            assert(r.storage() =~= Seq::new(capacity as nat, |i: int| 0u8));
        }
        r
    }

    /// create buffer by copying a slice; the copy is pending in full
    pub fn from_slice(data: &[u8]) -> (r: Buffer)
        ensures
            r.wf(),
            r.spec_capacity() == data@.len(),
            r.spec_position() == 0,
            r.spec_end() == data@.len(),
            r.data_view() == data@,
    {
        let buf = vstd::slice::slice_to_vec(data);
        let end = data.len();
        let r = Buffer { buf, start: 0, end };
        proof {
            assert(r.data_view() =~= data@);
        }
        r
    }

    /// resize the backing storage to `new_size` bytes, the new bytes
    /// zeroed; a `new_size` within the current capacity is a no-op and
    /// reports `false`, so storage never shrinks and never moves the
    /// cursors
    pub fn grow(&mut self, new_size: usize) -> (grew: bool)
        requires
            old(self).wf(),
        ensures
            final(self).wf(),
            grew == (new_size > old(self).spec_capacity()),
            !grew ==> *final(self) == *old(self),
            grew ==> final(self).spec_capacity() == new_size,
            final(self).spec_position() == old(self).spec_position(),
            final(self).spec_end() == old(self).spec_end(),
            final(self).data_view() == old(self).data_view(),
            final(self).storage() == old(self).storage() + Seq::new(
                (final(self).spec_capacity() - old(self).spec_capacity()) as nat,
                |i: int| 0u8,
            ),
    {
        if new_size <= self.buf.len() {
            proof {
                assert(self.storage() =~= old(self).storage() + Seq::new(0nat, |i: int| 0u8));
            }
            return false;
        }
        let ghost pre = *self;
        let ghost orig = self.buf@;
        while self.buf.len() < new_size
            invariant
                self.start == pre.start,
                self.end == pre.end,
                orig.len() <= self.buf@.len() <= new_size,
                self.buf@ == orig + Seq::new((self.buf@.len() - orig.len()) as nat, |i: int| 0u8),
            decreases new_size - self.buf@.len(),
        {
            self.buf.push(0);
            proof {
                assert(self.buf@ =~= orig + Seq::new(
                    (self.buf@.len() - orig.len()) as nat,
                    |i: int| 0u8,
                ));
            }
        }
        proof {
            assert(self.data_view() =~= old(self).data_view());
        }
        true
    }

    /// return data currently available to consume
    pub fn available_data(&self) -> (r: usize)
        requires
            self.wf(),
        ensures
            r == self.spec_data_len(),
    {
        self.end - self.start
    }

    /// return available space for new data
    pub fn available_space(&self) -> (r: usize)
        requires
            self.wf(),
        ensures
            r == self.spec_space_len(),
    {
        self.buf.len() - self.end
    }

    /// return capacity of backing storage
    pub fn capacity(&self) -> (r: usize)
        ensures
            r == self.spec_capacity(),
    {
        self.buf.len()
    }

    /// return whether the buffer holds no data to read
    pub fn empty(&self) -> (r: bool)
        ensures
            r == (self.spec_data_len() == 0),
    {
        self.end == self.start
    }

    /// return offset of the start of data: bytes consumed since the last
    /// reset or shift
    pub fn position(&self) -> (r: usize)
        ensures
            r == self.spec_position(),
    {
        self.start
    }

    /// reset cursors to the beginning of the backing storage without
    /// touching its bytes
    pub fn reset(&mut self)
        ensures
            final(self).wf(),
            final(self).spec_position() == 0,
            final(self).spec_end() == 0,
            final(self).storage() == old(self).storage(),
    {
        self.start = 0;
        self.end = 0;
    }

    /// mark `count` bytes of data as having been consumed; calling it with
    /// more than `available_data()` is a caller error, ruled out by contract
    pub fn consume(&mut self, count: usize) -> (r: usize)
        requires
            old(self).wf(),
            count <= old(self).spec_data_len(),
        ensures
            final(self).wf(),
            r == count,
            final(self).spec_position() == old(self).spec_position() + count,
            final(self).spec_end() == old(self).spec_end(),
            final(self).storage() == old(self).storage(),
            final(self).data_view() == old(self).data_view().skip(count as int),
    {
        if count > self.available_data() {
            // a caller that consumes more than it has lost track of the
            // buffer; the contract rules this out, and an unverified
            // caller that reaches it aborts instead of corrupting state
            return unreached();
        }
        self.start += count;
        proof {
            assert(self.data_view() =~= old(self).data_view().skip(count as int));
        }
        count
    }

    /// mark `count` bytes of data as having been consumed; alias of
    /// `consume`, which never compacts
    pub fn consume_noshift(&mut self, count: usize) -> (r: usize)
        requires
            old(self).wf(),
            count <= old(self).spec_data_len(),
        ensures
            final(self).wf(),
            r == count,
            final(self).spec_position() == old(self).spec_position() + count,
            final(self).spec_end() == old(self).spec_end(),
            final(self).storage() == old(self).storage(),
            final(self).data_view() == old(self).data_view().skip(count as int),
    {
        self.consume(count)
    }

    /// declare that `count` bytes have been written into the space region;
    /// calling it with more than `available_space()` is a caller error,
    /// ruled out by contract
    pub fn fill(&mut self, count: usize) -> (r: usize)
        requires
            old(self).wf(),
            count <= old(self).spec_space_len(),
        ensures
            final(self).wf(),
            r == count,
            final(self).spec_position() == old(self).spec_position(),
            final(self).spec_end() == old(self).spec_end() + count,
            final(self).storage() == old(self).storage(),
            final(self).data_view() == old(self).data_view()
                + old(self).space_view().take(count as int),
    {
        if count > self.available_space() {
            // a caller that fills more than the space region holds wrote
            // past the owned storage; the contract rules this out, and an
            // unverified caller that reaches it aborts instead
            return unreached();
        }
        let cap = self.buf.len();
        proof {
            assert(self.end + count <= cap);
        }
        self.end += count;
        proof {
            assert(self.data_view() =~= old(self).data_view()
                + old(self).space_view().take(count as int));
        }
        count
    }

    /// returns the data region as a slice
    pub fn data(&self) -> (r: &[u8])
        requires
            self.wf(),
        ensures
            r@ == self.data_view(),
    {
        vstd::slice::slice_subrange(self.buf.as_slice(), self.start, self.end)
    }

    /// returns the space region as a mutable slice; an external writer
    /// fills it and then declares the written count with `fill`
    pub fn space(&mut self) -> (r: &mut [u8])
        requires
            old(self).wf(),
        ensures
            r@ == old(self).space_view(),
            final(self).wf(),
            final(self).spec_position() == old(self).spec_position(),
            final(self).spec_end() == old(self).spec_end(),
            final(self).storage() == old(self).storage().take(old(self).spec_end()) + final(r)@,
            final(self).data_view() =~= old(self).data_view(),
            final(self).space_view() =~= final(r)@,
    {
        let mid = self.end;
        let whole = self.buf.as_mut_slice();
        let (_, tail) = whole.split_at_mut(mid);
        tail
    }

    /// How `shift` relates the state before the call to the state after it:
    /// the data region keeps its bytes but now begins at offset 0, the
    /// capacity is untouched, and a buffer whose position already is 0 is
    /// left exactly as it was.
    pub open spec fn shift_relates(pre: Buffer, post: Buffer) -> bool {
        &&& post.wf()
        &&& post.spec_position() == 0
        &&& post.spec_capacity() == pre.spec_capacity()
        &&& post.data_view() == pre.data_view()
        &&& (pre.spec_position() == 0 ==> post == pre)
    }

    /// move the data region to the beginning of the backing storage,
    /// reclaiming the consumed prefix as space; a no-op when `position()`
    /// is already 0
    pub fn shift(&mut self)
        requires
            old(self).wf(),
        ensures
            Buffer::shift_relates(*old(self), *final(self)),
    {
        if self.start == 0 {
            return ;
        }
        let len = self.end - self.start;
        copy_region(&mut self.buf, self.start, 0, len);
        self.start = 0;
        self.end = len;
        proof {
            assert(self.data_view() =~= old(self).data_view());
        }
    }

    /// copy as many pending bytes as fit into `dst`, consuming them:
    /// `min(available_data(), dst.len())` bytes move to the front of `dst`
    /// and `start` advances by that count
    pub fn read(&mut self, dst: &mut [u8]) -> (r: usize)
        requires
            old(self).wf(),
        ensures
            final(self).wf(),
            r == vstd::math::min(old(self).spec_data_len(), old(dst)@.len() as int),
            final(dst)@.len() == old(dst)@.len(),
            final(dst)@ == old(self).data_view().take(r as int) + old(dst)@.skip(r as int),
            final(self).spec_position() == old(self).spec_position() + r,
            final(self).spec_end() == old(self).spec_end(),
            final(self).storage() == old(self).storage(),
            final(self).data_view() == old(self).data_view().skip(r as int),
    {
        let avail = self.available_data();
        let n = if avail < dst.len() {
            avail
        } else {
            dst.len()
        };
        let ghost orig_dst = dst@;
        let mut i: usize = 0;
        while i < n
            invariant
                self.wf(),
                n <= self.spec_data_len(),
                n <= orig_dst.len(),
                0 <= i <= n,
                dst@.len() == orig_dst.len(),
                forall|j: int| 0 <= j < i ==> #[trigger] dst@[j] == self.data_view()[j],
                forall|j: int| i <= j < orig_dst.len() ==> #[trigger] dst@[j] == orig_dst[j],
            decreases n - i,
        {
            let b = self.buf[self.start + i];
            dst[i] = b;
            i += 1;
        }
        self.start += n;
        proof {
            assert(dst@ =~= old(self).data_view().take(n as int) + orig_dst.skip(n as int));
            assert(self.data_view() =~= old(self).data_view().skip(n as int));
        }
        n
    }

    /// copy as many bytes of `src` as fit into the space region:
    /// `min(available_space(), src.len())` bytes are appended to the data
    /// region and `end` advances by that count; never compacts, so a large
    /// consumed prefix must be reclaimed with `shift` by the caller
    pub fn write(&mut self, src: &[u8]) -> (r: usize)
        requires
            old(self).wf(),
        ensures
            final(self).wf(),
            r == vstd::math::min(old(self).spec_space_len(), src@.len() as int),
            final(self).spec_position() == old(self).spec_position(),
            final(self).spec_end() == old(self).spec_end() + r,
            final(self).spec_capacity() == old(self).spec_capacity(),
            final(self).data_view() == old(self).data_view() + src@.take(r as int),
    {
        let space = self.available_space();
        let n = if space < src.len() {
            space
        } else {
            src.len()
        };
        let ghost orig = *self;
        let cap = self.buf.len();
        let mut i: usize = 0;
        while i < n
            invariant
                self.start == orig.start,
                self.end == orig.end,
                orig.wf(),
                n <= orig.spec_space_len(),
                n <= src@.len(),
                0 <= i <= n,
                self.buf@.len() == cap,
                cap == orig.spec_capacity(),
                forall|j: int|
                    orig.spec_end() <= j < orig.spec_end() + i ==> #[trigger] self.buf@[j]
                        == src@[j - orig.spec_end()],
                forall|j: int|
                    0 <= j < self.buf@.len() && !(orig.spec_end() <= j < orig.spec_end() + i)
                        ==> #[trigger] self.buf@[j] == orig.storage()[j],
            decreases n - i,
        {
            let b = *slice_index_get(src, i);
            self.buf.set(self.end + i, b);
            i += 1;
        }
        self.end += n;
        proof {
            assert(self.data_view() =~= old(self).data_view() + src@.take(n as int));
        }
        n
    }

    /// Whether `delete_slice(offset, len)` applies: the deleted range must
    /// end strictly before the last pending byte.
    pub open spec fn delete_applicable(&self, offset: int, len: int) -> bool {
        &&& 0 <= offset
        &&& 0 <= len
        &&& offset + len < self.spec_data_len()
    }

    /// delete `len` bytes of data beginning `offset` bytes after the read
    /// position; rejected (`None`, nothing changed) when the range reaches
    /// through the final pending byte
    pub fn delete_slice(&mut self, start: usize, len: usize) -> (r: Option<usize>)
        requires
            old(self).wf(),
        ensures
            final(self).wf(),
            final(self).spec_capacity() == old(self).spec_capacity(),
            !old(self).delete_applicable(start as int, len as int) ==> {
                &&& r is None
                &&& *final(self) == *old(self)
            },
            old(self).delete_applicable(start as int, len as int) ==> {
                &&& r == Some((old(self).spec_data_len() - len) as usize)
                &&& final(self).spec_position() == old(self).spec_position()
                &&& final(self).spec_end() == old(self).spec_end() - len
                &&& final(self).data_view() == old(self).data_view().take(start as int)
                    + old(self).data_view().skip(start as int + len as int)
            },
    {
        let avail = self.available_data();
        if start >= avail || len >= avail - start {
            return None;
        }
        let copy_from = self.start + start + len;
        let copy_to = self.start + start;
        copy_region(&mut self.buf, copy_from, copy_to, self.end - copy_from);
        self.end -= len;
        proof {
            assert(self.data_view() =~= old(self).data_view().take(start as int)
                + old(self).data_view().skip(start as int + len as int));
        }
        Some(self.available_data())
    }

    /// Whether `insert_slice(data, offset)` applies: the offset must lie
    /// strictly inside the pending data, the coarse fit test
    /// `available_space() + data.len() <= capacity()` must pass, and the
    /// grown result must fit once the consumed prefix is reclaimed.
    pub open spec fn insert_applicable(&self, data: Seq<u8>, offset: int) -> bool {
        &&& 0 <= offset < self.spec_data_len()
        &&& self.spec_space_len() + data.len() <= self.spec_capacity()
        &&& self.spec_data_len() + data.len() <= self.spec_capacity()
    }

    /// insert `data` into the data region `offset` bytes after the read
    /// position; rejected (`None`, nothing changed) when the offset is not
    /// strictly inside the pending data or the result cannot be held; the
    /// one operation that compacts by itself, when the insert fits only
    /// once the consumed prefix is reclaimed
    pub fn insert_slice(&mut self, data: &[u8], start: usize) -> (r: Option<usize>)
        requires
            old(self).wf(),
        ensures
            final(self).wf(),
            final(self).spec_capacity() == old(self).spec_capacity(),
            !old(self).insert_applicable(data@, start as int) ==> {
                &&& r is None
                &&& *final(self) == *old(self)
            },
            old(self).insert_applicable(data@, start as int) ==> {
                &&& r == Some((old(self).spec_data_len() + data@.len()) as usize)
                &&& final(self).data_view() == old(self).data_view().take(start as int) + data@
                    + old(self).data_view().skip(start as int)
                &&& final(self).spec_position() == (if old(self).spec_end() + data@.len()
                    > old(self).spec_capacity() {
                    0int
                } else {
                    old(self).spec_position()
                })
            },
    {
        let avail = self.available_data();
        let cap = self.buf.len();
        if start >= avail {
            return None;
        }
        if data.len() > self.end {
            // more than even an empty space region could absorb
            return None;
        }
        if data.len() > cap - avail {
            // cannot hold the result even once the consumed prefix is reclaimed
            return None;
        }
        if data.len() > self.available_space() {
            // fits only after reclaiming the consumed prefix
            self.shift();
            proof {
                assert(self.data_view().len() == old(self).data_view().len());
            }
        }
        let ghost mid = *self;
        proof {
            assert(mid.spec_data_len() == old(self).spec_data_len());
            assert(mid.spec_end() + data@.len() <= mid.spec_capacity());
        }
        let remain_start = self.start + start;
        let remain_len = self.end - remain_start;
        copy_region(&mut self.buf, remain_start, remain_start + data.len(), remain_len);
        splice_from_slice(&mut self.buf, remain_start, data);
        self.end += data.len();
        proof {
            assert(self.data_view() =~= mid.data_view().take(start as int) + data@
                + mid.data_view().skip(start as int));
            assert(self.data_view() =~= old(self).data_view().take(start as int) + data@
                + old(self).data_view().skip(start as int));
        }
        Some(self.available_data())
    }

    /// Whether `replace_slice(data, offset, len)` applies.  A shrinking or
    /// same-size replacement (window at least as long as `data`) must keep
    /// its window inside the pending data; a growing one must keep the
    /// window that receives `data`'s fitting prefix inside the pending
    /// data, and the grown result must fit once the consumed prefix is
    /// reclaimed.
    pub open spec fn replace_applicable(&self, data: Seq<u8>, offset: int, len: int) -> bool {
        if len > data.len() {
            0 <= offset && offset + len <= self.spec_data_len()
        } else if len < data.len() {
            &&& 0 <= offset
            &&& offset + data.len() <= self.spec_data_len()
            &&& self.spec_data_len() + (data.len() - len) <= self.spec_capacity()
        } else {
            0 <= offset && offset + len <= self.spec_data_len()
        }
    }

    /// replace the `len` bytes of data at logical offset `offset` with
    /// `data`, whose length may differ from `len`; rejected (`None`,
    /// nothing changed) when the window does not fit the pending data or a
    /// grown result cannot be held
    #[verifier::rlimit(60)]
    pub fn replace_slice(&mut self, data: &[u8], start: usize, len: usize) -> (r: Option<usize>)
        requires
            old(self).wf(),
        ensures
            final(self).wf(),
            final(self).spec_capacity() == old(self).spec_capacity(),
            !old(self).replace_applicable(data@, start as int, len as int) ==> {
                &&& r is None
                &&& *final(self) == *old(self)
            },
            old(self).replace_applicable(data@, start as int, len as int) ==> {
                &&& r == Some((old(self).spec_data_len() - len + data@.len()) as usize)
                &&& final(self).data_view() == old(self).data_view().take(start as int) + data@
                    + old(self).data_view().skip(start as int + len as int)
                &&& final(self).spec_position() == (if data@.len() > len && old(self).spec_end()
                    + (data@.len() - len) > old(self).spec_capacity() {
                    0int
                } else {
                    old(self).spec_position()
                })
            },
    {
        let avail = self.available_data();
        if len > data.len() {
            if start > avail || len > avail - start {
                return None;
            }
            // overwrite the window's fitting prefix, then close the gap by
            // moving the tail left over the window's excess
            self.overwrite_data(start, data);
            let ghost mid = *self;
            let tail_from = self.start + start + len;
            let tail_to = self.start + start + data.len();
            copy_region(&mut self.buf, tail_from, tail_to, self.end - tail_from);
            self.end -= len - data.len();
            proof {
                assert(self.data_view() =~= mid.data_view().take(start as int + data@.len() as int)
                    + mid.data_view().skip(start as int + len as int));
                assert(self.data_view() =~= old(self).data_view().take(start as int) + data@
                    + old(self).data_view().skip(start as int + len as int));
            }
        } else if len < data.len() {
            if start > avail || data.len() > avail - start {
                return None;
            }
            let extra_len = data.len() - len;
            if extra_len > self.capacity() - avail {
                // cannot hold the grown result even once compacted
                return None;
            }
            // open the window for the part of `data` past the original
            // `len` bytes, then overwrite those `len` bytes in place
            let extra = vstd::slice::slice_subrange(data, len, data.len());
            proof {
                assert(old(self).insert_applicable(extra@, start as int + len as int));
            }
            self.insert_slice(extra, start + len);
            proof {
                assert(self.data_view() == old(self).data_view().take(start as int + len as int)
                    + extra@ + old(self).data_view().skip(start as int + len as int));
                assert(old(self).data_view().take(start as int + len as int).len() == start as int
                    + len as int);
                assert(self.spec_data_len() == old(self).spec_data_len() + extra@.len());
            }
            let fits = vstd::slice::slice_subrange(data, 0, len);
            self.overwrite_data(start, fits);
            proof {
                assert(self.data_view() =~= old(self).data_view().take(start as int) + data@
                    + old(self).data_view().skip(start as int + len as int));
            }
        } else {
            if start > avail || len > avail - start {
                return None;
            }
            self.overwrite_data(start, data);
            proof {
                assert(self.data_view() =~= old(self).data_view().take(start as int) + data@
                    + old(self).data_view().skip(start as int + len as int));
            }
        }
        Some(self.available_data())
    }

    /// Overwrites the `data.len()` pending bytes at logical offset `at`
    /// with the bytes of `data`.
    fn overwrite_data(&mut self, at: usize, data: &[u8])
        requires
            old(self).wf(),
            at + data@.len() <= old(self).spec_data_len(),
        ensures
            final(self).wf(),
            final(self).spec_position() == old(self).spec_position(),
            final(self).spec_end() == old(self).spec_end(),
            final(self).spec_capacity() == old(self).spec_capacity(),
            final(self).data_view() == old(self).data_view().take(at as int) + data@
                + old(self).data_view().skip(at as int + data@.len() as int),
    {
        splice_from_slice(&mut self.buf, self.start + at, data);
        proof {
            assert(self.data_view() =~= old(self).data_view().take(at as int) + data@
                + old(self).data_view().skip(at as int + data@.len() as int));
        }
    }
}

} // verus!
