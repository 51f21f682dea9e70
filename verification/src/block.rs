//! Blocks of a block device, viewed as bytes and back.
//!
//! A run of blocks that a device transfers is a whole number of blocks, and a
//! block is a whole number of `ALIGN`-byte words, the unit of a DMA burst. The
//! four functions here change the view only: nothing is copied.

use vstd::prelude::*;

verus! {

/// Erasing at the level of a stream that wraps a block device.
///
/// Separate from reading and writing, so that a consumer of bytes can ask for it
/// without naming a block size.
pub trait Erase {
    /// Error type for erase operations.
    type Error: core::fmt::Debug;

    /// Erase the block range `[start_block, end_block]` (inclusive).
    ///
    /// After an erase the content of a block depends on the device (0x00 or 0xFF).
    /// No-op if the underlying device does not support erasing.
    fn erase_blocks(&mut self, start_block: u32, end_block: u32) -> Result<(), Self::Error>;
}

/// The bytes of a run of blocks, one block after the other.
pub open spec fn joined<const SIZE: usize>(blocks: Seq<[u8; SIZE]>) -> Seq<u8> {
    Seq::new(blocks.len() * SIZE as nat, |k: int| blocks[k / SIZE as int]@[k % SIZE as int])
}

/// `slice::as_chunks` of std: the longest prefix that is a whole number of
/// `N`-element chunks, seen as chunks, and the elements that are left over. It
/// does not compile for `N == 0`.
pub assume_specification<T, const N: usize>[ <[T]>::as_chunks::<N> ](s: &[T]) -> (r: (
    &[[T; N]],
    &[T],
))
    requires
        N > 0,
    ensures
        r.0@.len() == s@.len() / N as nat,
        forall|i: int, j: int|
            #![trigger r.0@[i]@[j]]
            0 <= i < r.0@.len() && 0 <= j < N ==> r.0@[i]@[j] == s@[i * N + j],
        r.1@ == s@.skip(r.0@.len() * N),
;

/// `slice::as_chunks_mut` of std: as `as_chunks`, and what is written to the
/// chunks and to the rest is written to the slice.
pub assume_specification<T, const N: usize>[ <[T]>::as_chunks_mut::<N> ](s: &mut [T]) -> (r: (
    &mut [[T; N]],
    &mut [T],
))
    requires
        N > 0,
    ensures
        r.0@.len() == old(s)@.len() / N as nat,
        forall|i: int, j: int|
            #![trigger r.0@[i]@[j]]
            0 <= i < r.0@.len() && 0 <= j < N ==> r.0@[i]@[j] == old(s)@[i * N + j],
        r.1@ == old(s)@.skip(r.0@.len() * N),
        final(r.0)@.len() == r.0@.len(),
        final(s)@.len() == old(s)@.len(),
        forall|k: int|
            #![trigger final(s)@[k]]
            0 <= k < r.0@.len() * N ==> final(s)@[k] == final(r.0)@[k / N as int]@[k % N as int],
        final(s)@.skip(r.0@.len() * N) == final(r.1)@,
;

/// `slice::as_flattened` of std: the elements of a slice of arrays, one array
/// after the other. It panics where their number does not fit in a `usize`.
pub assume_specification<T, const N: usize>[ <[[T; N]]>::as_flattened ](s: &[[T; N]]) -> (r: &[T])
    requires
        s@.len() * N <= usize::MAX,
    ensures
        r@.len() == s@.len() * N,
        forall|k: int|
            #![trigger r@[k]]
            0 <= k < r@.len() ==> r@[k] == s@[k / N as int]@[k % N as int],
;

/// `slice::as_flattened_mut` of std: as `as_flattened`, and what is written to
/// the elements is written to the arrays.
pub assume_specification<T, const N: usize>[ <[[T; N]]>::as_flattened_mut ](
    s: &mut [[T; N]],
) -> (r: &mut [T])
    requires
        old(s)@.len() * N <= usize::MAX,
    ensures
        r@.len() == old(s)@.len() * N,
        forall|k: int|
            #![trigger r@[k]]
            0 <= k < r@.len() ==> r@[k] == old(s)@[k / N as int]@[k % N as int],
        final(r)@.len() == r@.len(),
        final(s)@.len() == old(s)@.len(),
        forall|k: int|
            #![trigger final(r)@[k]]
            0 <= k < final(r)@.len() ==> final(r)@[k] == final(s)@[k / N as int]@[k % N as int],
;

/// Byte `k` of a run of blocks lies in block `k / size`, at `k % size`.
proof fn lemma_place(k: int, size: int, count: int)
    requires
        size > 0,
        0 <= k < count * size,
    ensures
        0 <= k / size < count,
        0 <= k % size < size,
        (k / size) * size + k % size == k,
{
    vstd::arithmetic::div_mod::lemma_fundamental_div_mod(k, size);
    vstd::arithmetic::div_mod::lemma_div_is_ordered(0, k, size);
    assert(count * size == size * count) by (nonlinear_arith);
    vstd::arithmetic::div_mod::lemma_multiply_divide_lt(k, size, count);
    assert(size * (k / size) == (k / size) * size) by (nonlinear_arith);
}

/// Bytes that lie at `i * size + j` are those of the blocks, joined.
proof fn lemma_joined<const SIZE: usize>(blocks: Seq<[u8; SIZE]>, bytes: Seq<u8>)
    requires
        SIZE > 0,
        bytes.len() == blocks.len() * SIZE,
        forall|i: int, j: int|
            #![trigger blocks[i]@[j]]
            0 <= i < blocks.len() && 0 <= j < SIZE ==> blocks[i]@[j] == bytes[i * SIZE + j],
    ensures
        joined(blocks) == bytes,
{
    assert forall|k: int| 0 <= k < bytes.len() implies joined(blocks)[k] == bytes[k] by {
        lemma_place(k, SIZE as int, blocks.len() as int);
    }
    assert(joined(blocks) =~= bytes);
}

/// Cast a byte slice to a slice of blocks.
///
/// The slice is a whole number of blocks, and a block a whole number of
/// `ALIGN`-byte words.
pub fn slice_to_blocks<const ALIGN: usize, const SIZE: usize>(slice: &[u8]) -> (blocks: &[[u8;
    SIZE]])
    requires
        ALIGN > 0,
        SIZE > 0,
        SIZE % ALIGN == 0,
        slice@.len() % SIZE as nat == 0,
    ensures
        blocks@.len() == slice@.len() / SIZE as nat,
        joined(blocks@) == slice@,
{
    let (blocks, _rest) = slice.as_chunks::<SIZE>();
    proof {
        vstd::arithmetic::div_mod::lemma_fundamental_div_mod(slice@.len() as int, SIZE as int);
        assert(SIZE * (slice@.len() / SIZE as nat) == (slice@.len() / SIZE as nat) * SIZE)
            by (nonlinear_arith);
        lemma_joined(blocks@, slice@);
    }
    blocks
}

/// Cast a mutable byte slice to a mutable slice of blocks.
///
/// The slice is a whole number of blocks, and a block a whole number of
/// `ALIGN`-byte words. What is written to the blocks is written to the slice.
pub fn slice_to_blocks_mut<const ALIGN: usize, const SIZE: usize>(
    slice: &mut [u8],
) -> (blocks: &mut [[u8; SIZE]])
    requires
        ALIGN > 0,
        SIZE > 0,
        SIZE % ALIGN == 0,
        old(slice)@.len() % SIZE as nat == 0,
    ensures
        blocks@.len() == old(slice)@.len() / SIZE as nat,
        joined(blocks@) == old(slice)@,
        joined(final(blocks)@) == final(slice)@,
{
    let ghost before = slice@;
    let (blocks, _rest) = slice.as_chunks_mut::<SIZE>();
    proof {
        vstd::arithmetic::div_mod::lemma_fundamental_div_mod(before.len() as int, SIZE as int);
        assert(SIZE * (before.len() / SIZE as nat) == (before.len() / SIZE as nat) * SIZE)
            by (nonlinear_arith);
        lemma_joined(blocks@, before);
    }
    blocks
}

/// Cast a slice of blocks to a byte slice.
pub fn blocks_to_slice<const ALIGN: usize, const SIZE: usize>(buf: &[[u8; SIZE]]) -> (bytes: &[u8])
    requires
        ALIGN > 0,
        SIZE % ALIGN == 0,
        buf@.len() * SIZE <= usize::MAX,
    ensures
        bytes@ == joined(buf@),
{
    buf.as_flattened()
}

/// Cast a mutable slice of blocks to a mutable byte slice. What is written to the
/// bytes is written to the blocks.
pub fn blocks_to_slice_mut<const ALIGN: usize, const SIZE: usize>(
    buf: &mut [[u8; SIZE]],
) -> (bytes: &mut [u8])
    requires
        ALIGN > 0,
        SIZE % ALIGN == 0,
        old(buf)@.len() * SIZE <= usize::MAX,
    ensures
        bytes@ == joined(old(buf)@),
        final(buf)@.len() == old(buf)@.len(),
        final(bytes)@ == joined(final(buf)@),
{
    buf.as_flattened_mut()
}

/// The bytes of a run of blocks determine the blocks, so that casting blocks to
/// bytes and the bytes back to blocks gives the blocks again.
pub proof fn law_conversion_round_trip<const SIZE: usize>(a: Seq<[u8; SIZE]>, b: Seq<[u8; SIZE]>)
    requires
        SIZE > 0,
        joined(a) == joined(b),
    ensures
        a == b,
{
    assert(joined(a).len() == a.len() * SIZE as nat && joined(b).len() == b.len() * SIZE as nat);
    assert(a.len() == b.len()) by (nonlinear_arith)
        requires
            a.len() * SIZE == b.len() * SIZE,
            SIZE > 0,
    ;
    assert forall|i: int| 0 <= i < a.len() implies a[i] == b[i] by {
        assert forall|j: int| 0 <= j < SIZE implies a[i]@[j] == b[i]@[j] by {
            let k = i * SIZE + j;
            assert(0 <= k < a.len() * SIZE) by (nonlinear_arith)
                requires
                    0 <= i < a.len(),
                    0 <= j < SIZE,
                    k == i * SIZE + j,
            ;
            vstd::arithmetic::div_mod::lemma_fundamental_div_mod_converse(k, SIZE as int, i, j);
            assert(joined(a)[k] == a[i]@[j] && joined(b)[k] == b[i]@[j]);
        }
        assert(a[i] =~= b[i]);
    }
    assert(a =~= b);
}

/// Blocks are joined one behind the other, each of them byte by byte.
pub proof fn law_blocks_are_joined_in_order<const SIZE: usize>(
    blocks: Seq<[u8; SIZE]>,
    i: int,
    j: int,
)
    requires
        0 <= i < blocks.len(),
        0 <= j < SIZE,
    ensures
        joined(blocks).len() == blocks.len() * SIZE,
        0 <= i * SIZE + j < blocks.len() * SIZE,
        joined(blocks)[i * SIZE + j] == blocks[i]@[j],
{
    let k = i * SIZE + j;
    assert(0 <= k < blocks.len() * SIZE) by (nonlinear_arith)
        requires
            0 <= i < blocks.len(),
            0 <= j < SIZE,
            k == i * SIZE + j,
    ;
    vstd::arithmetic::div_mod::lemma_fundamental_div_mod_converse(k, SIZE as int, i, j);
}

} // verus!
