use vstd::prelude::*;

use crate::error::HeapError;
use crate::pointer::Pointer;
use crate::view::{
    access_error, allocation, allocation_after_collection, fits, layout_valid, live_ids,
    load_result, stored, HeapView,
};

verus! {

/// What a collection asks of the runtime that owns the roots: given one flag
/// per block identifier, all false, set the flag of every identifier that is
/// reachable from the roots.
pub trait Tracer {
    fn trace(&self, blocks_used: &mut [bool]);
}

/// A heap of words addressed by block and offset, whose allocation collects
/// unreachable blocks when storage runs out.
pub trait GarbageCollectingHeap: Sized {
    /// The heap's internal consistency.
    spec fn wf(&self) -> bool;

    /// The heap's abstract state.
    spec fn heap_view(&self) -> HeapView;

    /// A consistent heap has a valid block table layout.
    proof fn lemma_layout(&self)
        requires
            self.wf(),
        ensures
            layout_valid(self.heap_view()),
    ;

    /// An empty heap: no live block, all storage free.
    fn new() -> (r: Self)
        ensures
            r.wf(),
            r.heap_view().blocks == Map::<usize, Seq<u64>>::empty(),
            r.heap_view().starts == Map::<usize, nat>::empty(),
            r.heap_view().copies == Map::<usize, usize>::empty(),
    ;

    /// The word at `p`.
    fn load(&self, p: Pointer) -> (r: Result<u64, HeapError>)
        requires
            self.wf(),
        ensures
            r == load_result(self.heap_view(), p),
    ;

    /// Writes `value` at `p`; nothing changes when `p` is not valid.
    fn store(&mut self, p: Pointer, value: u64) -> (r: Result<(), HeapError>)
        requires
            old(self).wf(),
        ensures
            final(self).wf(),
            match access_error(old(self).heap_view(), p) {
                Some(e) => r == Err::<(), HeapError>(e) && final(self).heap_view() == old(self).heap_view(),
                None => r is Ok && final(self).heap_view() == stored(old(self).heap_view(), p, value),
            },
    ;

    /// The physical word that `p` currently denotes.
    fn address(&self, p: Pointer) -> (r: Result<usize, HeapError>)
        requires
            self.wf(),
        ensures
            match access_error(self.heap_view(), p) {
                Some(e) => r == Err::<usize, HeapError>(e),
                None => r == Ok::<usize, HeapError>(
                    (self.heap_view().starts[p.spec_block()] + p.spec_offset()) as usize,
                ),
            },
            r is Ok ==> r->Ok_0 < self.heap_view().capacity,
    ;

    /// The live block identifiers in ascending order.
    fn blocks_in_use(&self) -> (r: Vec<usize>)
        requires
            self.wf(),
        ensures
            r@ == live_ids(self.heap_view(), self.heap_view().max_blocks),
    ;

    /// The whole-block address of `block`, if it is live.
    fn allocated_block_ptr(&self, block: usize) -> (r: Option<Pointer>)
        requires
            self.wf(),
        ensures
            self.heap_view().blocks.contains_key(block) <==> r is Some,
            r matches Some(p) ==> {
                &&& p.spec_block() == block
                &&& p.spec_offset() == 0
                &&& p.spec_len() == self.heap_view().blocks[block].len()
            },
    ;

    /// Each live block identifier, ascending, with its copy count.
    fn blocks_num_copies(&self) -> (r: Vec<(usize, usize)>)
        requires
            self.wf(),
        ensures
            r@ == live_ids(self.heap_view(), self.heap_view().max_blocks).map_values(
                |id: usize| (id, self.heap_view().copies[id]),
            ),
    ;

    /// Allocates a block of `num_words` words. Where storage or identifiers
    /// run out, hands `tracer` one flag per block identifier, all unmarked,
    /// runs one collection cycle with the marking it returns, then tries once
    /// more. What the tracer marks is up to it: the outcome is the one that
    /// some marking gives.
    fn malloc<T: Tracer>(&mut self, num_words: usize, tracer: &T) -> (r: Result<Pointer, HeapError>)
        requires
            old(self).wf(),
        ensures
            final(self).wf(),
            fits(old(self).heap_view(), num_words) ==> allocation(
                old(self).heap_view(),
                num_words,
                final(self).heap_view(),
                r,
            ),
            !fits(old(self).heap_view(), num_words) ==> exists|m: Seq<bool>|
                allocation_after_collection(
                    old(self).heap_view(),
                    m,
                    num_words,
                    final(self).heap_view(),
                    r,
                ),
    ;

    /// The number of live blocks.
    fn num_allocated_blocks(&self) -> (r: usize)
        requires
            self.wf(),
        ensures
            r == live_ids(self.heap_view(), self.heap_view().max_blocks).len(),
    {
        self.blocks_in_use().len()
    }
}

} // verus!
