//! The checksum of a header block.
//!
//! The checksum is the sum of the 512 bytes of the block, each taken as an
//! unsigned number, with the eight bytes of the checksum field itself
//! counted as spaces whatever they hold.
use vstd::prelude::*;
use crate::tar::layout::BLOCK_SIZE;
use crate::tar::layout::CHECKSUM_OFFSET;
use crate::tar::layout::CHECKSUM_WIDTH;
use crate::tar::layout::SPACE;

verus! {

/// What the byte at `i` adds to the checksum of `block`.
pub open spec fn checksum_term(block: Seq<u8>, i: int) -> nat {
    if CHECKSUM_OFFSET <= i < CHECKSUM_OFFSET + CHECKSUM_WIDTH {
        SPACE as nat
    } else {
        block[i] as nat
    }
}

/// The sum of the terms of the first `n` bytes of `block`.
pub open spec fn checksum_upto(block: Seq<u8>, n: nat) -> nat
    decreases n,
{
    if n == 0 {
        0
    } else {
        checksum_upto(block, (n - 1) as nat) + checksum_term(block, n - 1)
    }
}

/// The checksum of `data`: the sum over its first block, and zero where it
/// is shorter than a block.
pub open spec fn checksum(data: Seq<u8>) -> nat {
    if data.len() < BLOCK_SIZE {
        0
    } else {
        checksum_upto(data, BLOCK_SIZE as nat)
    }
}

/// No term is above 255, so the sum of `n` terms is at most `255 * n`.
pub proof fn lemma_checksum_upto_bound(block: Seq<u8>, n: nat)
    ensures
        checksum_upto(block, n) <= 255 * n,
    decreases n,
{
    if n > 0 {
        lemma_checksum_upto_bound(block, (n - 1) as nat);
    }
}

/// A checksum is below `8^6`, so six octal digits hold it.
pub proof fn lemma_checksum_bound(data: Seq<u8>)
    ensures
        checksum(data) <= 130560,
{
    lemma_checksum_upto_bound(data, BLOCK_SIZE as nat);
}

/// Two blocks that differ in the checksum field only have the same sum.
pub proof fn lemma_checksum_upto_ignores_field(a: Seq<u8>, b: Seq<u8>, n: nat)
    requires
        forall|i: int|
            0 <= i < n && !(CHECKSUM_OFFSET <= i < CHECKSUM_OFFSET + CHECKSUM_WIDTH) ==> a[i]
                == b[i],
    ensures
        checksum_upto(a, n) == checksum_upto(b, n),
    decreases n,
{
    if n > 0 {
        lemma_checksum_upto_ignores_field(a, b, (n - 1) as nat);
    }
}

/// Computes the checksum of a header block.
pub fn calc_checksum(data: &[u8]) -> (sum: u32)
    ensures
        sum == checksum(data@),
{
    if data.len() < BLOCK_SIZE {
        return 0;
    }
    let mut sum: u32 = 0;
    let mut i: usize = 0;
    while i < BLOCK_SIZE
        invariant
            i <= BLOCK_SIZE <= data@.len(),
            sum == checksum_upto(data@, i as nat),
            sum <= 255 * i,
        decreases BLOCK_SIZE - i,
    {
        if CHECKSUM_OFFSET <= i && i < CHECKSUM_OFFSET + CHECKSUM_WIDTH {
            sum += SPACE as u32;
        } else {
            sum += data[i] as u32;
        }
        i += 1;
    }
    sum
}

} // verus!
