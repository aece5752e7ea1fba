use vstd::prelude::*;
use vstd::slice::slice_index_get;

verus! {

/// Copies the `n` bytes at `[src, src + n)` of `v` onto `[dst, dst + n)`.
/// The two ranges may overlap: the copy behaves like a whole-block move and
/// never reads a byte it has already overwritten.
pub(crate) fn copy_region(v: &mut Vec<u8>, src: usize, dst: usize, n: usize)
    requires
        src + n <= old(v)@.len(),
        dst + n <= old(v)@.len(),
    ensures
        final(v)@.len() == old(v)@.len(),
        final(v)@ == old(v)@.take(dst as int) + old(v)@.subrange(src as int, src as int + n as int)
            + old(v)@.skip(dst as int + n as int),
{
    let ghost orig = v@;
    let total = v.len();
    if dst <= src {
        let mut i: usize = 0;
        while i < n
            invariant
                dst <= src,
                src + n <= orig.len(),
                orig.len() == total,
                0 <= i <= n,
                v@.len() == orig.len(),
                forall|j: int| dst <= j < dst + i ==> #[trigger] v@[j] == orig[j - dst + src],
                forall|j: int| 0 <= j < orig.len() && !(dst <= j < dst + i) ==> #[trigger] v@[j]
                    == orig[j],
            decreases n - i,
        {
            let b = v[src + i];
            v.set(dst + i, b);
            i += 1;
        }
    } else {
        let mut i: usize = n;
        while i > 0
            invariant
                dst > src,
                src + n <= orig.len(),
                dst + n <= orig.len(),
                orig.len() == total,
                0 <= i <= n,
                v@.len() == orig.len(),
                forall|j: int| dst + i <= j < dst + n ==> #[trigger] v@[j] == orig[j - dst + src],
                forall|j: int| 0 <= j < orig.len() && !(dst + i <= j < dst + n) ==> #[trigger] v@[j]
                    == orig[j],
            decreases i,
        {
            i -= 1;
            let b = v[src + i];
            v.set(dst + i, b);
        }
    }
    proof {
        assert(v@ =~= orig.take(dst as int) + orig.subrange(src as int, src as int + n as int)
            + orig.skip(dst as int + n as int));
    }
}

/// Overwrites `[at, at + data.len())` of `v` with the bytes of `data`.
pub(crate) fn splice_from_slice(v: &mut Vec<u8>, at: usize, data: &[u8])
    requires
        at + data@.len() <= old(v)@.len(),
    ensures
        final(v)@.len() == old(v)@.len(),
        final(v)@ == old(v)@.take(at as int) + data@
            + old(v)@.skip(at as int + data@.len() as int),
{
    let ghost orig = v@;
    let total = v.len();
    let mut i: usize = 0;
    while i < data.len()
        invariant
            at + data@.len() <= orig.len(),
            orig.len() == total,
            0 <= i <= data@.len(),
            v@.len() == orig.len(),
            forall|j: int| at <= j < at + i ==> #[trigger] v@[j] == data@[j - at],
            forall|j: int| 0 <= j < orig.len() && !(at <= j < at + i) ==> #[trigger] v@[j]
                == orig[j],
        decreases data@.len() - i,
    {
        let b = *slice_index_get(data, i);
        v.set(at + i, b);
        i += 1;
    }
    proof {
        assert(v@ =~= orig.take(at as int) + data@ + orig.skip(at as int + data@.len() as int));
    }
}

} // verus!
