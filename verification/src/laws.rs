use crate::buffer::Buffer;
use vstd::prelude::*;

verus! {

/// In every well-formed state the three offsets account for each other:
/// the pending bytes end exactly at `end`, which never passes the
/// capacity, and data and space together cover the storage past the
/// consumed prefix.
pub proof fn lemma_region_arithmetic(b: Buffer)
    requires
        b.wf(),
    ensures
        b.spec_data_len() + b.spec_position() == b.spec_end(),
        b.spec_end() <= b.spec_capacity(),
        b.spec_data_len() + b.spec_space_len() == b.spec_capacity() - b.spec_position(),
        b.data_view().len() == b.spec_data_len(),
        b.space_view().len() == b.spec_space_len(),
{
}

/// Compacting twice is the same as compacting once: a second `shift`
/// finds the position at 0 and leaves the buffer exactly as the first
/// left it.
pub proof fn lemma_shift_idempotent(pre: Buffer, once: Buffer, twice: Buffer)
    requires
        pre.wf(),
        Buffer::shift_relates(pre, once),
        Buffer::shift_relates(once, twice),
    ensures
        twice == once,
{
}

/// Writing exactly `available_space()` bytes and then reading the whole
/// pending region back yields the previously pending bytes followed by
/// the written bytes, in order; from a buffer with no pending data, it
/// yields exactly the written bytes.  The premises are what `write`
/// ensures when all of `s` fits and what `read` ensures when the
/// destination takes the whole data region.
pub proof fn lemma_write_read_round_trip(pre: Buffer, s: Seq<u8>, written: Buffer, out: Seq<u8>)
    requires
        pre.wf(),
        s.len() == pre.spec_space_len(),
        written.data_view() == pre.data_view() + s.take(s.len() as int),
        out == written.data_view().take(written.data_view().len() as int),
    ensures
        out == pre.data_view() + s,
        pre.spec_data_len() == 0 ==> out == s,
{
    assert(s.take(s.len() as int) =~= s);
    assert(written.data_view().take(written.data_view().len() as int) =~= written.data_view());
    if pre.spec_data_len() == 0 {
        assert(pre.data_view() + s =~= s);
    }
}

/// The boundary of `delete_slice`: a range that ends exactly at the last
/// pending byte is rejected, while one that stops one byte short of it is
/// accepted.
pub proof fn lemma_delete_boundary(b: Buffer, offset: int, len: int)
    requires
        b.wf(),
        0 <= offset,
        0 <= len,
    ensures
        offset + len == b.spec_data_len() ==> !b.delete_applicable(offset, len),
        offset + len == b.spec_data_len() - 1 ==> b.delete_applicable(offset, len),
{
}

} // verus!
