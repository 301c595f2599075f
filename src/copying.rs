use vstd::prelude::*;

use crate::error::HeapError;
use crate::heap::{GarbageCollectingHeap, Tracer};
use crate::pointer::Pointer;
use crate::view::{
    all_live, allocation, allocation_at, allocation_after_collection, bumped, collected, collection,
    illegal_mark, kept, lemma_words_congruent, lemma_words_insert, lemma_words_monotone,
    lemma_words_split, live_ids, lowest_free, lowest_illegal_mark, marked, marking_valid, stored,
    used, with_block, words_below, HeapView,
};

verus! {

/// Where a live block lies in storage, and how often it has been relocated.
#[derive(Clone, Copy)]
struct BlockInfo {
    start: usize,
    size: usize,
    num_times_copied: usize,
}

/// A heap of `HEAP_SIZE` words and `MAX_BLOCKS` block identifiers. Blocks are
/// placed one after another; a collection copies every reachable block, in
/// ascending identifier order, into fresh storage and drops the rest.
pub struct CopyingHeap<const HEAP_SIZE: usize, const MAX_BLOCKS: usize> {
    words: Vec<u64>,
    table: Vec<Option<BlockInfo>>,
    next_address: usize,
}

/// The contents of the block that `b` describes, in storage `words`.
spec fn block_contents(words: Seq<u64>, b: BlockInfo) -> Seq<u64> {
    words.subrange(b.start as int, b.start + b.size)
}

/// The abstract state of a table and its storage.
spec fn view_of(words: Seq<u64>, table: Seq<Option<BlockInfo>>, capacity: nat) -> HeapView {
    HeapView {
        capacity,
        max_blocks: table.len(),
        blocks: Map::new(
            |id: usize| id < table.len() && table[id as int] is Some,
            |id: usize| block_contents(words, table[id as int]->Some_0),
        ),
        starts: Map::new(
            |id: usize| id < table.len() && table[id as int] is Some,
            |id: usize| table[id as int]->Some_0.start as nat,
        ),
        copies: Map::new(
            |id: usize| id < table.len() && table[id as int] is Some,
            |id: usize| table[id as int]->Some_0.num_times_copied,
        ),
    }
}

/// Live blocks lie below `next`, none overlaps another, and storage from
/// `next` on holds zeros.
spec fn layout_ok(words: Seq<u64>, table: Seq<Option<BlockInfo>>, next: nat) -> bool {
    &&& next <= words.len()
    &&& forall|i: int|
        0 <= i < table.len() && table[i] is Some ==> table[i]->Some_0.start + table[i]->Some_0.size
            <= next
    &&& forall|i: int, j: int|
        0 <= i < table.len() && 0 <= j < table.len() && i != j && table[i] is Some
            && table[j] is Some ==> table[i]->Some_0.start + table[i]->Some_0.size
            <= table[j]->Some_0.start || table[j]->Some_0.start + table[j]->Some_0.size
            <= table[i]->Some_0.start
    &&& forall|k: int| next <= k < words.len() ==> words[k] == 0
}

/// A vector of `n` zero words.
fn zeroed(n: usize) -> (r: Vec<u64>)
    ensures
        r@ == Seq::new(n as nat, |i: int| 0u64),
{
    let mut v: Vec<u64> = Vec::new();
    let mut i: usize = 0;
    while i < n
        invariant
            i <= n,
            v@ == Seq::new(i as nat, |k: int| 0u64),
        decreases n - i,
    {
        v.push(0);
        i = i + 1;
        assert(v@ =~= Seq::new(i as nat, |k: int| 0u64));
    }
    v
}

/// A marking of `n` identifiers, none of them marked.
fn unmarked(n: usize) -> (r: Vec<bool>)
    ensures
        r@ == Seq::new(n as nat, |i: int| false),
{
    let mut v: Vec<bool> = Vec::new();
    let mut i: usize = 0;
    while i < n
        invariant
            i <= n,
            v@ == Seq::new(i as nat, |k: int| false),
        decreases n - i,
    {
        v.push(false);
        i = i + 1;
        assert(v@ =~= Seq::new(i as nat, |k: int| false));
    }
    v
}

/// Copies `len` words of `src` from `from` into `dst` at `to`.
fn copy_words(dst: &mut Vec<u64>, src: &Vec<u64>, from: usize, to: usize, len: usize)
    requires
        from + len <= src@.len(),
        to + len <= old(dst)@.len(),
    ensures
        final(dst)@.len() == old(dst)@.len(),
        final(dst)@.subrange(to as int, to + len) == src@.subrange(from as int, from + len),
        forall|k: int|
            0 <= k < old(dst)@.len() && !(to <= k < to + len) ==> final(dst)@[k] == old(dst)@[k],
{
    let dst_len = dst.len();
    let src_len = src.len();
    let mut i: usize = 0;
    while i < len
        invariant
            i <= len,
            dst_len == old(dst)@.len(),
            src_len == src@.len(),
            from + len <= src@.len(),
            to + len <= old(dst)@.len(),
            dst@.len() == old(dst)@.len(),
            forall|k: int| 0 <= k < i ==> #[trigger] dst@[to + k] == src@[from + k],
            forall|k: int|
                0 <= k < old(dst)@.len() && !(to <= k < to + i) ==> dst@[k] == old(dst)@[k],
        decreases len - i,
    {
        dst.set(to + i, src[from + i]);
        i = i + 1;
    }
    assert forall|k: int| 0 <= k < len implies #[trigger] dst@.subrange(to as int, to + len)[k]
        == src@.subrange(from as int, from + len)[k] by {
        assert(dst@[to + k] == src@[from + k]);
    }
    assert(dst@.subrange(to as int, to + len) =~= src@.subrange(from as int, from + len));
}

impl<const HEAP_SIZE: usize, const MAX_BLOCKS: usize> CopyingHeap<HEAP_SIZE, MAX_BLOCKS> {
    /// The identifier of the lowest free table entry, if any.
    fn free_block(&self) -> (r: Option<usize>)
        requires
            self.wf(),
        ensures
            r matches Some(id) ==> lowest_free(self.heap_view(), id),
            r is None ==> all_live(self.heap_view()),
    {
        let mut i: usize = 0;
        while i < self.table.len()
            invariant
                self.wf(),
                i <= self.table@.len(),
                forall|j: int| 0 <= j < i ==> self.table@[j] is Some,
            decreases self.table@.len() - i,
        {
            if self.table[i].is_none() {
                return Some(i);
            }
            i = i + 1;
        }
        None
    }

    /// Places block `id` of `num_words` zero words at the end of the used storage.
    fn place(&mut self, id: usize, num_words: usize) -> (r: Pointer)
        requires
            old(self).wf(),
            id < MAX_BLOCKS,
            !old(self).heap_view().blocks.contains_key(id),
            used(old(self).heap_view()) + num_words <= HEAP_SIZE,
        ensures
            final(self).wf(),
            final(self).heap_view() == with_block(old(self).heap_view(), id, num_words),
            r.spec_block() == id,
            r.spec_offset() == 0,
            r.spec_len() == num_words,
    {
        let ghost v0 = self.heap_view();
        let start = self.next_address;
        self.table.set(id, Some(BlockInfo { start, size: num_words, num_times_copied: 0 }));
        self.next_address = start + num_words;
        let ghost v1 = self.heap_view();
        proof {
            lemma_words_insert(v0.blocks, id, Seq::new(num_words as nat, |i: int| 0u64), MAX_BLOCKS as nat);
            assert(v1.blocks[id] =~= Seq::new(num_words as nat, |i: int| 0u64));
            assert forall|j: usize| j < MAX_BLOCKS && j != id && #[trigger] v1.blocks.contains_key(j)
                implies v1.blocks[j] == v0.blocks[j] by {
                assert(v1.blocks[j] =~= v0.blocks[j]);
            }
            assert(v1.blocks =~= with_block(v0, id, num_words).blocks);
            assert(v1.starts =~= with_block(v0, id, num_words).starts);
            assert(v1.copies =~= with_block(v0, id, num_words).copies);
            lemma_words_congruent(v1.blocks, with_block(v0, id, num_words).blocks, MAX_BLOCKS as nat);
        }
        Pointer::new(id, num_words)
    }

    /// Allocates a block of `num_words` zero words without collecting: the
    /// lowest free identifier, at the end of the used storage. Where the
    /// unused storage is too small the result is `OutOfMemory`; where it
    /// suffices but every identifier is live, `OutOfBlocks`. A block of zero
    /// words takes an identifier like any other, so it too fails with
    /// `OutOfBlocks` when none is free.
    pub fn allocate(&mut self, num_words: usize) -> (r: Result<Pointer, HeapError>)
        requires
            old(self).wf(),
        ensures
            final(self).wf(),
            allocation(old(self).heap_view(), num_words, final(self).heap_view(), r),
    {
        if num_words > HEAP_SIZE - self.next_address {
            return Err(HeapError::OutOfMemory);
        }
        match self.free_block() {
            None => Err(HeapError::OutOfBlocks),
            Some(id) => Ok(self.place(id, num_words)),
        }
    }

    /// Allocates block `block` of `num_words` zero words without collecting,
    /// at the end of the used storage. An identifier out of range or already
    /// live is refused with `IllegalBlock`.
    pub fn allocate_at(&mut self, block: usize, num_words: usize) -> (r: Result<Pointer, HeapError>)
        requires
            old(self).wf(),
        ensures
            final(self).wf(),
            allocation_at(old(self).heap_view(), block, num_words, final(self).heap_view(), r),
    {
        if block >= MAX_BLOCKS || self.table[block].is_some() {
            let largest = if MAX_BLOCKS == 0 {
                0
            } else {
                MAX_BLOCKS - 1
            };
            return Err(HeapError::IllegalBlock(block, largest));
        }
        if num_words > HEAP_SIZE - self.next_address {
            return Err(HeapError::OutOfMemory);
        }
        Ok(self.place(block, num_words))
    }

    /// The steps of an allocation after the tracer has run: one collection
    /// cycle under `marks` (see [`CopyingHeap::collect`]), then one more
    /// attempt to allocate `num_words` words. A failed cycle changes nothing
    /// and its error is returned.
    pub fn malloc_with_marks(&mut self, num_words: usize, marks: &[bool]) -> (r: Result<Pointer, HeapError>)
        requires
            old(self).wf(),
        ensures
            final(self).wf(),
            allocation_after_collection(old(self).heap_view(), marks@, num_words, final(self).heap_view(), r),
    {
        let ghost v0 = self.heap_view();
        let ghost m = marks@;
        match self.collect(marks) {
            Err(e) => {
                proof {
                    let id = choose|id: usize|
                        lowest_illegal_mark(v0, m, id) && e == HeapError::IllegalBlock(
                            id,
                            (v0.max_blocks - 1) as usize,
                        );
                    assert(illegal_mark(v0, m, id));
                }
                Err(e)
            },
            Ok(()) => self.allocate(num_words),
        }
    }

    /// The lowest identifier that `marks` holds reachable and that names no
    /// live block, if any.
    fn find_illegal_mark(&self, marks: &[bool]) -> (r: Option<usize>)
        requires
            self.wf(),
        ensures
            r matches Some(id) ==> lowest_illegal_mark(self.heap_view(), marks@, id),
            r is None ==> marking_valid(self.heap_view(), marks@),
    {
        let mut i: usize = 0;
        while i < self.table.len()
            invariant
                self.wf(),
                i <= self.table@.len(),
                forall|j: usize| j < i ==> !illegal_mark(self.heap_view(), marks@, j),
            decreases self.table@.len() - i,
        {
            if i < marks.len() && marks[i] && self.table[i].is_none() {
                return Some(i);
            }
            i = i + 1;
        }
        None
    }

    /// One collection cycle under the marking `marks`, where entry `id` holds
    /// block `id` reachable (an identifier past its end is not). The marked
    /// blocks are copied, in ascending identifier order, into fresh storage
    /// from word zero, each copy count going up by one; all other blocks are
    /// dropped. Where a marked identifier names no live block, nothing changes
    /// and the lowest such identifier is reported.
    pub fn collect(&mut self, marks: &[bool]) -> (r: Result<(), HeapError>)
        requires
            old(self).wf(),
        ensures
            final(self).wf(),
            collection(old(self).heap_view(), marks@, final(self).heap_view(), r),
    {
        if let Some(id) = self.find_illegal_mark(marks) {
            return Err(HeapError::IllegalBlock(id, MAX_BLOCKS - 1));
        }
        let ghost v0 = self.heap_view();
        let ghost m = marks@;
        let ghost kp = kept(v0, m);
        proof {
            lemma_words_split(v0.blocks, Set::new(|id: usize| marked(m, id)), MAX_BLOCKS as nat);
        }
        let mut new_words = zeroed(HEAP_SIZE);
        let mut new_table: Vec<Option<BlockInfo>> = Vec::new();
        let mut cursor: usize = 0;
        let mut i: usize = 0;
        while i < MAX_BLOCKS
            invariant
                self.wf(),
                v0 == self.heap_view(),
                m == marks@,
                kp == kept(v0, m),
                marking_valid(v0, m),
                i <= MAX_BLOCKS,
                new_table@.len() == i,
                new_words@.len() == HEAP_SIZE,
                cursor == words_below(kp, i as nat),
                words_below(kp, MAX_BLOCKS as nat) <= HEAP_SIZE,
                forall|j: int| 0 <= j < i ==> (new_table@[j] is Some <==> kp.contains_key(j as usize)),
                forall|j: int|
                    0 <= j < i && #[trigger] new_table@[j] is Some ==> {
                        &&& new_table@[j]->Some_0.start == words_below(kp, j as nat)
                        &&& new_table@[j]->Some_0.size == self.table@[j]->Some_0.size
                        &&& new_table@[j]->Some_0.num_times_copied == bumped(
                            self.table@[j]->Some_0.num_times_copied,
                        )
                        &&& block_contents(new_words@, new_table@[j]->Some_0) == block_contents(
                            self.words@,
                            self.table@[j]->Some_0,
                        )
                    },
                forall|k: int| cursor <= k < HEAP_SIZE ==> new_words@[k] == 0,
            decreases MAX_BLOCKS - i,
        {
            let take = i < marks.len() && marks[i];
            let ghost before = new_words@;
            if take {
                assert(!illegal_mark(v0, m, i));
                match self.table[i] {
                    None => {},
                    Some(info) => {
                        proof {
                            assert(kp.contains_key(i));
                            assert(kp[i].len() == info.size);
                            lemma_words_monotone(kp, (i + 1) as nat, MAX_BLOCKS as nat);
                        }
                        copy_words(&mut new_words, &self.words, info.start, cursor, info.size);
                        let copies = if info.num_times_copied < usize::MAX {
                            info.num_times_copied + 1
                        } else {
                            info.num_times_copied
                        };
                        new_table.push(Some(BlockInfo { start: cursor, size: info.size, num_times_copied: copies }));
                        proof {
                            assert forall|j: int| 0 <= j < i && #[trigger] new_table@[j] is Some implies
                                block_contents(new_words@, new_table@[j]->Some_0) == block_contents(
                                    before,
                                    new_table@[j]->Some_0,
                                ) by {
                                lemma_words_monotone(kp, (j + 1) as nat, i as nat);
                                assert(kp[j as usize].len() == new_table@[j]->Some_0.size);
                                assert(block_contents(new_words@, new_table@[j]->Some_0) =~= block_contents(
                                    before,
                                    new_table@[j]->Some_0,
                                ));
                            }
                        }
                        cursor = cursor + info.size;
                    },
                }
            } else {
                new_table.push(None);
            }
            i = i + 1;
        }
        proof {
            let nt = new_table@;
            let v1 = view_of(new_words@, nt, HEAP_SIZE as nat);
            let target = collected(v0, m);
            assert forall|j: int| 0 <= j < MAX_BLOCKS && #[trigger] nt[j] is Some implies
                nt[j]->Some_0.start + nt[j]->Some_0.size == words_below(kp, (j + 1) as nat) by {
                assert(kp[j as usize].len() == nt[j]->Some_0.size);
            }
            assert forall|j: int| 0 <= j < MAX_BLOCKS && #[trigger] nt[j] is Some implies
                nt[j]->Some_0.start + nt[j]->Some_0.size <= cursor by {
                lemma_words_monotone(kp, (j + 1) as nat, MAX_BLOCKS as nat);
            }
            assert forall|a: int, b: int|
                0 <= a < MAX_BLOCKS && 0 <= b < MAX_BLOCKS && a != b && #[trigger] nt[a] is Some
                    && #[trigger] nt[b] is Some implies nt[a]->Some_0.start + nt[a]->Some_0.size
                <= nt[b]->Some_0.start || nt[b]->Some_0.start + nt[b]->Some_0.size
                <= nt[a]->Some_0.start by {
                if a < b {
                    lemma_words_monotone(kp, (a + 1) as nat, b as nat);
                } else {
                    lemma_words_monotone(kp, (b + 1) as nat, a as nat);
                }
            }
            assert(v1.blocks =~= target.blocks);
            assert(v1.starts =~= target.starts);
            assert(v1.copies =~= target.copies);
        }
        self.words = new_words;
        self.table = new_table;
        self.next_address = cursor;
        Ok(())
    }
}

impl<const HEAP_SIZE: usize, const MAX_BLOCKS: usize> GarbageCollectingHeap for CopyingHeap<
    HEAP_SIZE,
    MAX_BLOCKS,
> {
    closed spec fn wf(&self) -> bool {
        &&& self.words@.len() == HEAP_SIZE
        &&& self.table@.len() == MAX_BLOCKS
        &&& layout_ok(self.words@, self.table@, self.next_address as nat)
        &&& self.next_address == used(self.heap_view())
    }

    closed spec fn heap_view(&self) -> HeapView {
        view_of(self.words@, self.table@, HEAP_SIZE as nat)
    }

    fn new() -> (r: Self) {
        let words = zeroed(HEAP_SIZE);
        let mut table: Vec<Option<BlockInfo>> = Vec::new();
        let mut i: usize = 0;
        while i < MAX_BLOCKS
            invariant
                i <= MAX_BLOCKS,
                table@.len() == i,
                forall|j: int| 0 <= j < i ==> table@[j] is None,
            decreases MAX_BLOCKS - i,
        {
            table.push(None);
            i = i + 1;
        }
        let r = CopyingHeap { words, table, next_address: 0 };
        proof {
            assert(r.heap_view().blocks =~= Map::<usize, Seq<u64>>::empty());
            assert(r.heap_view().starts =~= Map::<usize, nat>::empty());
            assert(r.heap_view().copies =~= Map::<usize, usize>::empty());
            lemma_words_congruent(r.heap_view().blocks, Map::<usize, Seq<u64>>::empty(), MAX_BLOCKS as nat);
            lemma_no_words(MAX_BLOCKS as nat);
        }
        r
    }

    fn load(&self, p: Pointer) -> (r: Result<u64, HeapError>) {
        let b = p.block_num();
        let o = p.offset();
        if b >= self.table.len() {
            return Err(HeapError::UnallocatedBlock(b));
        }
        match self.table[b] {
            None => Err(HeapError::UnallocatedBlock(b)),
            Some(info) => {
                if o >= info.size {
                    Err(HeapError::OffsetTooBig(o, b, info.size))
                } else {
                    Ok(self.words[info.start + o])
                }
            },
        }
    }

    fn store(&mut self, p: Pointer, value: u64) -> (r: Result<(), HeapError>) {
        let ghost v0 = self.heap_view();
        let b = p.block_num();
        let o = p.offset();
        if b >= self.table.len() {
            return Err(HeapError::UnallocatedBlock(b));
        }
        match self.table[b] {
            None => Err(HeapError::UnallocatedBlock(b)),
            Some(info) => {
                if o >= info.size {
                    Err(HeapError::OffsetTooBig(o, b, info.size))
                } else {
                    self.words.set(info.start + o, value);
                    let ghost v1 = self.heap_view();
                    proof {
                        let target = stored(v0, p, value);
                        assert forall|j: usize| #[trigger] v1.blocks.contains_key(j) implies v1.blocks[j]
                            == target.blocks[j] by {
                            assert(v1.blocks[j] =~= target.blocks[j]);
                        }
                        assert(v1.blocks =~= target.blocks);
                        assert(v1.starts =~= target.starts);
                        assert(v1.copies =~= target.copies);
                        lemma_words_congruent(v1.blocks, v0.blocks, MAX_BLOCKS as nat);
                    }
                    Ok(())
                }
            },
        }
    }

    fn address(&self, p: Pointer) -> (r: Result<usize, HeapError>) {
        let b = p.block_num();
        let o = p.offset();
        if b >= self.table.len() {
            return Err(HeapError::UnallocatedBlock(b));
        }
        match self.table[b] {
            None => Err(HeapError::UnallocatedBlock(b)),
            Some(info) => {
                if o >= info.size {
                    Err(HeapError::OffsetTooBig(o, b, info.size))
                } else {
                    Ok(info.start + o)
                }
            },
        }
    }

    fn blocks_in_use(&self) -> (r: Vec<usize>) {
        let mut out: Vec<usize> = Vec::new();
        let mut i: usize = 0;
        while i < self.table.len()
            invariant
                self.wf(),
                i <= self.table@.len(),
                out@ == live_ids(self.heap_view(), i as nat),
            decreases self.table@.len() - i,
        {
            if self.table[i].is_some() {
                out.push(i);
            }
            i = i + 1;
        }
        out
    }

    fn allocated_block_ptr(&self, block: usize) -> (r: Option<Pointer>) {
        if block >= self.table.len() {
            return None;
        }
        match self.table[block] {
            None => None,
            Some(info) => Some(Pointer::new(block, info.size)),
        }
    }

    fn blocks_num_copies(&self) -> (r: Vec<(usize, usize)>) {
        let ghost v = self.heap_view();
        let ghost f = |id: usize| (id, v.copies[id]);
        let mut out: Vec<(usize, usize)> = Vec::new();
        let mut i: usize = 0;
        while i < self.table.len()
            invariant
                self.wf(),
                v == self.heap_view(),
                f == (|id: usize| (id, v.copies[id])),
                i <= self.table@.len(),
                out@ == live_ids(v, i as nat).map_values(f),
            decreases self.table@.len() - i,
        {
            match self.table[i] {
                Some(info) => {
                    out.push((i, info.num_times_copied));
                    assert(live_ids(v, (i + 1) as nat).map_values(f) =~= live_ids(v, i as nat).map_values(f).push(f(i)));
                },
                None => {},
            }
            i = i + 1;
        }
        out
    }

    fn malloc<T: Tracer>(&mut self, num_words: usize, tracer: &T) -> (r: Result<Pointer, HeapError>) {
        let first = self.allocate(num_words);
        if first.is_ok() {
            return first;
        }
        let mut marks = unmarked(MAX_BLOCKS);
        tracer.trace(marks.as_mut_slice());
        self.malloc_with_marks(num_words, marks.as_slice())
    }

    proof fn lemma_layout(&self) {
        let v = self.heap_view();
        assert forall|id: usize| #[trigger] v.blocks.contains_key(id) implies v.starts[id] + v.blocks[id].len()
            <= used(v) by {
            assert(v.blocks[id].len() == self.table@[id as int]->Some_0.size);
        }
        assert forall|a: usize, b: usize|
            a != b && #[trigger] v.blocks.contains_key(a) && #[trigger] v.blocks.contains_key(b)
                implies v.starts[a] + v.blocks[a].len() <= v.starts[b] || v.starts[b] + v.blocks[b].len()
                <= v.starts[a] by {
            assert(v.blocks[a].len() == self.table@[a as int]->Some_0.size);
            assert(v.blocks[b].len() == self.table@[b as int]->Some_0.size);
        }
    }
}

/// However a heap was reached, its live blocks never take more words than it has.
pub proof fn lemma_capacity<const HEAP_SIZE: usize, const MAX_BLOCKS: usize>(
    h: &CopyingHeap<HEAP_SIZE, MAX_BLOCKS>,
)
    requires
        h.wf(),
    ensures
        used(h.heap_view()) <= h.heap_view().capacity,
        h.heap_view().capacity == HEAP_SIZE,
        h.heap_view().max_blocks == MAX_BLOCKS,
{
}

/// No block takes no words.
proof fn lemma_no_words(k: nat)
    ensures
        words_below(Map::<usize, Seq<u64>>::empty(), k) == 0,
    decreases k,
{
    if k > 0 {
        lemma_no_words((k - 1) as nat);
    }
}

} // verus!
