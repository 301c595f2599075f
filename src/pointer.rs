use vstd::prelude::*;

verus! {

/// An address of one word, or of a whole block, of the heap: a block identifier,
/// an offset into the block and the block's length in words.
#[derive(Copy, Clone, Eq, PartialEq, Structural, Default, Debug)]
pub struct Pointer {
    block: usize,
    offset: usize,
    size: usize,
}

impl Pointer {
    /// The block identifier this address refers to.
    pub closed spec fn spec_block(&self) -> usize {
        self.block
    }

    /// The offset, in words, from the start of the block.
    pub closed spec fn spec_offset(&self) -> usize {
        self.offset
    }

    /// The length, in words, of the block.
    pub closed spec fn spec_len(&self) -> usize {
        self.size
    }

    /// The address of the whole block `block` of `size` words (offset zero).
    pub fn new(block: usize, size: usize) -> (r: Self)
        ensures
            r.spec_block() == block,
            r.spec_offset() == 0,
            r.spec_len() == size,
    {
        Self { block, offset: 0, size }
    }

    /// The address of word `offset` of the same block.
    pub fn with_offset(&self, offset: usize) -> (r: Self)
        ensures
            r.spec_block() == self.spec_block(),
            r.spec_offset() == offset,
            r.spec_len() == self.spec_len(),
    {
        Self { block: self.block, offset, size: self.size }
    }

    /// The sequence of word addresses from this address's offset up to the
    /// block's length, each with the same block and length.
    pub fn iter(&self) -> (r: PointerIter)
        ensures
            r.spec_next() == *self,
    {
        PointerIter { next_ptr: *self }
    }

    #[verifier::when_used_as_spec(spec_len)]
    pub fn len(&self) -> (r: usize)
        ensures
            r == self.spec_len(),
    {
        self.size
    }

    #[verifier::when_used_as_spec(spec_block)]
    pub fn block_num(&self) -> (r: usize)
        ensures
            r == self.spec_block(),
    {
        self.block
    }

    #[verifier::when_used_as_spec(spec_offset)]
    pub fn offset(&self) -> (r: usize)
        ensures
            r == self.spec_offset(),
    {
        self.offset
    }
}

/// Two addresses with the same block, offset and length are the same address.
pub proof fn lemma_pointer_ext(a: Pointer, b: Pointer)
    requires
        a.spec_block() == b.spec_block(),
        a.spec_offset() == b.spec_offset(),
        a.spec_len() == b.spec_len(),
    ensures
        a == b,
{
}

/// The addresses still to come, as offsets, from an address `p`.
pub open spec fn remaining_offsets(p: Pointer) -> Seq<usize> {
    if p.spec_offset() < p.spec_len() {
        Seq::new((p.spec_len() - p.spec_offset()) as nat, |i: int| (p.spec_offset() + i) as usize)
    } else {
        Seq::empty()
    }
}

/// A walk over the word addresses of a block, produced by [`Pointer::iter`].
/// It holds nothing but the next address, so a fresh walk from the same
/// address always yields the same addresses.
pub struct PointerIter {
    next_ptr: Pointer,
}

impl PointerIter {
    /// The address that the next step yields, if it is inside the block.
    pub closed spec fn spec_next(&self) -> Pointer {
        self.next_ptr
    }

    /// Yields the next word address of the block, or `None` past its end.
    pub fn next(&mut self) -> (r: Option<Pointer>)
        ensures
            old(self).spec_next().spec_offset() < old(self).spec_next().spec_len() ==> {
                &&& r == Some(old(self).spec_next())
                &&& final(self).spec_next().spec_block() == old(self).spec_next().spec_block()
                &&& final(self).spec_next().spec_len() == old(self).spec_next().spec_len()
                &&& final(self).spec_next().spec_offset() == old(self).spec_next().spec_offset() + 1
            },
            old(self).spec_next().spec_offset() >= old(self).spec_next().spec_len() ==> {
                &&& r is None
                &&& *final(self) == *old(self)
            },
    {
        if self.next_ptr.offset < self.next_ptr.size {
            let result = Some(self.next_ptr);
            self.next_ptr.offset = self.next_ptr.offset + 1;
            result
        } else {
            None
        }
    }

    /// Every remaining address of the walk, in order.
    pub fn collect_all(&mut self) -> (r: Vec<Pointer>)
        ensures
            r@.len() == remaining_offsets(old(self).spec_next()).len(),
            forall|i: int| 0 <= i < r@.len() ==> {
                &&& (#[trigger] r@[i]).spec_offset() == remaining_offsets(old(self).spec_next())[i]
                &&& r@[i].spec_block() == old(self).spec_next().spec_block()
                &&& r@[i].spec_len() == old(self).spec_next().spec_len()
            },
    {
        let ghost start = self.next_ptr;
        let mut out: Vec<Pointer> = Vec::new();
        while self.next_ptr.offset < self.next_ptr.size
            invariant
                self.next_ptr.block == start.block,
                self.next_ptr.size == start.size,
                start.offset <= self.next_ptr.offset,
                start.offset < start.size ==> self.next_ptr.offset <= start.size,
                start.offset >= start.size ==> self.next_ptr.offset == start.offset,
                out@.len() == self.next_ptr.offset - start.offset,
                forall|i: int| 0 <= i < out@.len() ==> {
                    &&& (#[trigger] out@[i]).offset == start.offset + i
                    &&& out@[i].block == start.block
                    &&& out@[i].size == start.size
                },
            decreases self.next_ptr.size - self.next_ptr.offset,
        {
            out.push(self.next_ptr);
            self.next_ptr.offset = self.next_ptr.offset + 1;
        }
        out
    }
}

} // verus!
