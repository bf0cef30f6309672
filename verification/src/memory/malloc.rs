//! Blocks of any length up to `MAX_VARALLOC_LEN`, on top of the heap. Each block is
//! preceded by a word that holds its length, marked with a fixed pattern.
use vstd::prelude::*;
use crate::mantle::kio::extends;
use crate::kobject::steps::group_record;
use crate::crust::capalloc::SlotAllocator;
use crate::kobject::PageTables;
use crate::mantle::kio::{Syscalls, Machine};
use crate::mantle::calls::{agreed, willing};
use crate::memory::heap::{
    alloc_fix,
    dealloc_fix,
    out_of_frames,
    short_of_frames,
    recycled,
    reused,
    words_for,
    Heap,
    HEAP_U64,
    VREGION_SIZE,
};
use crate::memory::untyped::UntypedAllocator;

verus! {

broadcast use group_record;

/// The largest length that `malloc` serves.
pub const MAX_VARALLOC_LEN: usize = 2032;

/// The pattern that marks a length word.
pub const VARALLOC_MAGIC: u64 = 0x737A_2007_37A2_0000;

/// The bits of a length word that hold the pattern.
pub const VARALLOC_MAGIC_MASK: u64 = 0xFFFF_FFFF_FFFF_F800;

/// The length word of a block of `len` bytes: the pattern and the length of the block
/// with its length word.
pub open spec fn header_of(len: int) -> int {
    VARALLOC_MAGIC + len + 8
}

/// Whether `header` is the length word of a block.
pub open spec fn is_header(header: u64) -> bool {
    exists|len: int| 0 <= len <= MAX_VARALLOC_LEN && header == #[trigger] header_of(len)
}

/// The length word of a block of `len` bytes.
pub fn header_for(len: usize) -> (r: u64)
    requires
        len <= MAX_VARALLOC_LEN,
    ensures
        r == header_of(len as int),
        is_header(r),
{
    let total_len = (len + 8) as u64;
    assert(total_len | 0x737A_2007_37A2_0000u64 == 0x737A_2007_37A2_0000u64 + total_len)
        by (bit_vector)
        requires
            total_len <= 2040u64,
    ;
    let r = total_len | VARALLOC_MAGIC;
    assert(r == header_of(len as int));
    r
}

/// Reserves a block of `len` bytes. Returns the address of its first byte and the length
/// word that belongs into the eight bytes before it.
pub fn malloc<S: Syscalls>(
    heap: &mut Heap,
    len: usize,
    untyped: &mut UntypedAllocator,
    slots: &mut SlotAllocator,
    tables: &mut PageTables,
    k: &mut Machine<S>,
) -> (r: Option<(usize, u64)>)
    requires
        old(heap).wf(),
        old(untyped).wf(),
        old(slots).wf(),
        len <= MAX_VARALLOC_LEN,
    ensures
        final(heap).wf(),
        final(untyped).wf(),
        final(slots).wf(),
        final(slots).free().subset_of(old(slots).free()),
        r matches Some((ptr, header)) ==> header == header_of(len as int) && ptr >= 8,
        old(heap).recycle@[words_for(len + 8) - 1].len() > 0 && old(heap).recycle@[words_for(
            len + 8,
        ) - 1][0] + 8 <= usize::MAX ==> r == Some(
            (
                (old(heap).recycle@[words_for(len + 8) - 1][0] + 8) as usize,
                header_of(len as int) as u64,
            ),
        ),
        extends(old(k)@, final(k)@),
        old(heap).recycle@[words_for(len + 8) - 1].len() > 0 ==> final(heap).fixed == old(
            heap,
        ).fixed && final(heap).dynamic == old(heap).dynamic && final(slots)@ == old(slots)@
            && final(k)@ == old(k)@ && final(heap).recycle@ == if r is Some {
            reused(old(heap).recycle@, words_for(len + 8))
        } else {
            old(heap).recycle@
        },
        old(heap).recycle@[words_for(len + 8) - 1].len() == 0 ==> final(heap).recycle@ == old(
            heap,
        ).recycle@,
        old(heap).recycle@[words_for(len + 8) - 1].len() == 0 && old(heap).fixed.used() + words_for(
            len + 8,
        ) <= HEAP_U64 ==> r == Some(
            (
                (old(heap).fixed.base() + 8 * old(heap).fixed.used() + 8) as usize,
                header_of(len as int) as u64,
            ),
        ) && final(heap).fixed.used() == old(heap).fixed.used() + words_for(len + 8)
            && final(heap).dynamic == old(heap).dynamic && final(slots)@ == old(slots)@ && final(k)@
            == old(k)@,
        old(heap).recycle@[words_for(len + 8) - 1].len() == 0 && old(heap).fixed.used() + words_for(
            len + 8,
        ) > HEAP_U64 ==> final(heap).fixed == old(heap).fixed && (old(heap).dynamic is None ==> r
            is None && final(heap).dynamic is None && final(k)@ == old(k)@) && (old(heap).dynamic
            matches Some(d) ==> final(heap).dynamic is Some && (r matches Some((ptr, _)) ==> ptr
            == d@.region.start + d@.next_avail + 8 && final(heap).dynamic.unwrap()@.next_avail
            == d@.next_avail + 8 * words_for(len + 8)) && (r is None && agreed(
            old(k)@,
            final(k)@,
        ) ==> d@.next_avail + 8 * words_for(len + 8) > VREGION_SIZE || out_of_frames(
            final(slots)@,
            final(untyped)@,
        )) && (r is None && willing(old(k)@, final(k)@) ==> d@.next_avail + 8 * words_for(len + 8)
            > VREGION_SIZE || short_of_frames(final(slots)@, final(untyped)@))),
{
    let total_len = len + 8;
    proof {
        heap.recycle.lemma_wf();
        if heap.dynamic is Some {
            heap.dynamic.unwrap().lemma_wf();
        }
    }
    match alloc_fix(heap, total_len as u16, untyped, slots, tables, k) {
        Some(ptr) => {
            if ptr <= usize::MAX - 8 {
                Some((ptr + 8, header_for(len)))
            } else {
                dealloc_fix(heap, ptr, total_len as u16);
                proof {
                    let w = words_for(len + 8);
                    let bucket = old(heap).recycle@[w - 1];
                    if bucket.len() > 0 {
                        assert(seq![ptr] + bucket.skip(1) =~= bucket);
                        assert(heap.recycle@ =~= old(heap).recycle@);
                    }
                }
                None
            }
        },
        None => None,
    }
}

/// The length of the block whose length word is `header`.
pub fn get_len(header: u64) -> (r: usize)
    requires
        is_header(header),
    ensures
        header == header_of(r as int),
        r <= MAX_VARALLOC_LEN,
{
    assert((header & 0xFFFF_FFFF_FFFF_F800u64) == 0x737A_2007_37A2_0000u64
        && (header & !0xFFFF_FFFF_FFFF_F800u64)
        == header - 0x737A_2007_37A2_0000u64) by (bit_vector)
        requires
            0x737A_2007_37A2_0000u64 <= header <= 0x737A_2007_37A2_0000u64 + 2040u64,
    ;
    let reallen = header & !VARALLOC_MAGIC_MASK;
    (reallen - 8) as usize
}

/// Gives back the block at `ptr`, whose length word is `header`.
pub fn free(heap: &mut Heap, ptr: usize, header: u64)
    requires
        old(heap).wf(),
        is_header(header),
        ptr >= 8,
    ensures
        final(heap).wf(),
        final(heap).recycle@ == recycled(
            old(heap).recycle@,
            words_for(header - VARALLOC_MAGIC),
            (ptr - 8) as usize,
        ),
        final(heap).fixed == old(heap).fixed,
        final(heap).dynamic == old(heap).dynamic,
{
    let len = get_len(header);
    dealloc_fix(heap, ptr - 8, (len + 8) as u16);
}

/// Reserves a block of `len` bytes in place of the block at `ptr`, which is given back.
/// Returns the new block's address and length word, and how many bytes of the old block
/// belong into it: as many as both hold. If no block can be had, the old one stays.
pub fn realloc<S: Syscalls>(
    heap: &mut Heap,
    ptr: usize,
    header: u64,
    len: usize,
    untyped: &mut UntypedAllocator,
    slots: &mut SlotAllocator,
    tables: &mut PageTables,
    k: &mut Machine<S>,
) -> (r: Option<(usize, u64, usize)>)
    requires
        old(heap).wf(),
        old(untyped).wf(),
        old(slots).wf(),
        is_header(header),
        ptr >= 8,
        len <= MAX_VARALLOC_LEN,
    ensures
        final(heap).wf(),
        final(untyped).wf(),
        final(slots).wf(),
        final(slots).free().subset_of(old(slots).free()),
        r matches Some((new_ptr, new_header, kept)) ==> new_header == header_of(len as int)
            && new_ptr >= 8 && kept == if len < header - VARALLOC_MAGIC - 8 {
            len as int
        } else {
            header - VARALLOC_MAGIC - 8
        },
        extends(old(k)@, final(k)@),
        r is Some ==> final(heap).recycle@ == recycled(
            if old(heap).recycle@[words_for(len + 8) - 1].len() > 0 {
                reused(old(heap).recycle@, words_for(len + 8))
            } else {
                old(heap).recycle@
            },
            words_for(header - VARALLOC_MAGIC),
            (ptr - 8) as usize,
        ),
        r is None ==> final(heap).recycle@ == old(heap).recycle@ && final(heap).fixed == old(
            heap,
        ).fixed,
        old(heap).recycle@[words_for(len + 8) - 1].len() > 0 && old(heap).recycle@[words_for(
            len + 8,
        ) - 1][0] + 8 <= usize::MAX ==> r is Some && r.unwrap().0 == old(heap).recycle@[words_for(
            len + 8,
        ) - 1][0] + 8 && final(k)@ == old(k)@,
        old(heap).recycle@[words_for(len + 8) - 1].len() == 0 && old(heap).fixed.used() + words_for(
            len + 8,
        ) <= HEAP_U64 ==> r is Some && r.unwrap().0 == old(heap).fixed.base() + 8 * old(
            heap,
        ).fixed.used() + 8 && final(k)@ == old(k)@,
        old(heap).recycle@[words_for(len + 8) - 1].len() == 0 && old(heap).fixed.used() + words_for(
            len + 8,
        ) > HEAP_U64 ==> (old(heap).dynamic is None ==> r is None)
            && (old(heap).dynamic matches Some(
            d,
        ) ==> (r matches Some((new_ptr, _, _)) ==> new_ptr == d@.region.start + d@.next_avail + 8)
            && (r is None && agreed(old(k)@, final(k)@) ==> d@.next_avail + 8 * words_for(len + 8)
            > VREGION_SIZE || out_of_frames(final(slots)@, final(untyped)@)) && (r is None
            && willing(old(k)@, final(k)@) ==> d@.next_avail + 8 * words_for(len + 8) > VREGION_SIZE
            || short_of_frames(final(slots)@, final(untyped)@))),
{
    let old_len = get_len(header);
    let min_len = if len < old_len {
        len
    } else {
        old_len
    };
    match malloc(heap, len, untyped, slots, tables, k) {
        Some((n_alloc, n_header)) => {
            free(heap, ptr, header);
            Some((n_alloc, n_header, min_len))
        },
        None => None,
    }
}

} // verus!
