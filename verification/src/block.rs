use vstd::arithmetic::power2::{lemma_pow2_strictly_increases, lemma_pow2_unfold, pow2};
use vstd::prelude::*;

verus! {

/// Why a block could not be had.
#[derive(Debug, PartialEq, Eq, Structural)]
pub enum BlockError {
    /// The size asked for is not a power of two.
    BadRequest,
    /// The memory could not be reserved.
    OutOfMemory,
}

/// Whether `n` is a power of two.
pub open spec fn is_power_of_two(n: int) -> bool {
    exists|k: nat| pow2(k) == n
}

proof fn lemma_pow2_zero()
    ensures
        pow2(0) == 1,
{
    reveal(vstd::arithmetic::power::pow);
}

/// Whether `n` is a power of two.
pub fn power_of_two(n: usize) -> (r: bool)
    ensures
        r == is_power_of_two(n as int),
{
    proof {
        lemma_pow2_zero();
    }
    let mut p: usize = 1;
    let ghost mut k: nat = 0;
    while p < n && p <= usize::MAX / 2
        invariant
            p == pow2(k),
            p >= 1,
            forall|j: nat| j < k ==> #[trigger] pow2(j) < n,
        decreases usize::MAX - p,
    {
        proof {
            lemma_pow2_unfold(k + 1);
        }
        p = p * 2;
        proof {
            k = k + 1;
        }
    }
    if p == n {
        return true;
    }
    proof {
        assert forall|j: nat| pow2(j) != n by {
            if j < k {
            } else if j == k {
            } else {
                lemma_pow2_strictly_increases(k, j);
                if p < n {
                    lemma_pow2_unfold(k + 1);
                    if j > k + 1 {
                        lemma_pow2_strictly_increases(k + 1, j);
                    }
                }
            }
        }
    }
    false
}

/// A block of memory, of a size that is a power of two.
pub struct Block {
    pub size: usize,
    memory: Vec<u8>,
}

impl Block {
    /// The bytes of the block.
    pub closed spec fn contents(&self) -> Seq<u8> {
        self.memory@
    }

    /// The size the block was made with.
    pub closed spec fn block_size(&self) -> nat {
        self.size as nat
    }

    /// A new block of `size` bytes, all zero.
    pub fn new(size: usize) -> (r: Result<Block, BlockError>)
        ensures
            !is_power_of_two(size as int) <==> r == Err::<Block, BlockError>(BlockError::BadRequest),
            r matches Ok(b) ==> b.block_size() == size && b.contents() == Seq::new(size as nat, |i: int| 0u8),
    {
        if !power_of_two(size) {
            return Err(BlockError::BadRequest);
        }
        let mut memory: Vec<u8> = Vec::new();
        if memory.try_reserve(size).is_err() {
            return Err(BlockError::OutOfMemory);
        }
        let mut i: usize = 0;
        while i < size
            invariant
                i <= size,
                memory@ == Seq::new(i as nat, |j: int| 0u8),
            decreases size - i,
        {
            memory.push(0);
            i += 1;
            assert(memory@ =~= Seq::new(i as nat, |j: int| 0u8));
        }
        Ok(Block { size, memory })
    }

    /// Gives the block's memory back.
    pub fn drop(self) {
        let Block { size, memory } = self;
    }

    /// The bytes of the block.
    pub fn as_ptr(&self) -> (r: &[u8])
        ensures
            r@ == self.contents(),
    {
        self.memory.as_slice()
    }

    /// The bytes of the block, to write.
    pub fn as_mut_ptr(&mut self) -> (r: &mut [u8])
        ensures
            r@ == old(self).contents(),
            final(self).contents() == final(r)@,
            final(self).block_size() == old(self).block_size(),
    {
        self.memory.as_mut_slice()
    }
}

} // verus!
