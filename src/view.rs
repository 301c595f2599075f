use vstd::prelude::*;

use crate::error::HeapError;
use crate::pointer::Pointer;

verus! {

/// The abstract state of a heap: which identifiers are live, what each live
/// block holds, where it starts in storage and how often it has been copied.
pub struct HeapView {
    /// Words of storage in the heap.
    pub capacity: nat,
    /// Number of block identifiers; they run from zero below this bound.
    pub max_blocks: nat,
    /// Each live identifier with the contents of its block.
    pub blocks: Map<usize, Seq<u64>>,
    /// Each live identifier with the physical word where its block starts.
    pub starts: Map<usize, nat>,
    /// Each live identifier with the number of times its block was relocated.
    pub copies: Map<usize, usize>,
}

/// Total length of the live blocks whose identifiers are below `k`.
pub open spec fn words_below(blocks: Map<usize, Seq<u64>>, k: nat) -> nat
    decreases k,
{
    if k == 0 {
        0
    } else {
        words_below(blocks, (k - 1) as nat) + if blocks.contains_key((k - 1) as usize) {
            blocks[(k - 1) as usize].len()
        } else {
            0
        }
    }
}

/// Words of storage taken by live blocks.
pub open spec fn used(v: HeapView) -> nat {
    words_below(v.blocks, v.max_blocks)
}

/// The live identifiers below `k`, in ascending order.
pub open spec fn live_ids(v: HeapView, k: nat) -> Seq<usize>
    decreases k,
{
    if k == 0 {
        Seq::empty()
    } else if v.blocks.contains_key((k - 1) as usize) {
        live_ids(v, (k - 1) as nat).push((k - 1) as usize)
    } else {
        live_ids(v, (k - 1) as nat)
    }
}

/// The error that an access through `p` meets, if any.
pub open spec fn access_error(v: HeapView, p: Pointer) -> Option<HeapError> {
    if !v.blocks.contains_key(p.spec_block()) {
        Some(HeapError::UnallocatedBlock(p.spec_block()))
    } else if p.spec_offset() >= v.blocks[p.spec_block()].len() {
        Some(
            HeapError::OffsetTooBig(
                p.spec_offset(),
                p.spec_block(),
                v.blocks[p.spec_block()].len() as usize,
            ),
        )
    } else {
        None
    }
}

/// What a load through `p` returns.
pub open spec fn load_result(v: HeapView, p: Pointer) -> Result<u64, HeapError> {
    match access_error(v, p) {
        Some(e) => Err(e),
        None => Ok(v.blocks[p.spec_block()][p.spec_offset() as int]),
    }
}

/// The state after a store of `value` through a valid address `p`.
pub open spec fn stored(v: HeapView, p: Pointer, value: u64) -> HeapView {
    HeapView {
        blocks: v.blocks.insert(
            p.spec_block(),
            v.blocks[p.spec_block()].update(p.spec_offset() as int, value),
        ),
        ..v
    }
}

/// `id` is the lowest identifier that names no live block.
pub open spec fn lowest_free(v: HeapView, id: usize) -> bool {
    &&& id < v.max_blocks
    &&& !v.blocks.contains_key(id)
    &&& forall|j: usize| j < id ==> v.blocks.contains_key(j)
}

/// Every identifier names a live block.
pub open spec fn all_live(v: HeapView) -> bool {
    forall|j: usize| j < v.max_blocks ==> v.blocks.contains_key(j)
}

/// The state after block `id` of `n` zero words is placed at the end of the used storage.
pub open spec fn with_block(v: HeapView, id: usize, n: usize) -> HeapView {
    HeapView {
        blocks: v.blocks.insert(id, Seq::new(n as nat, |i: int| 0u64)),
        starts: v.starts.insert(id, used(v)),
        copies: v.copies.insert(id, 0),
        ..v
    }
}

/// `r` and `after` are a correct outcome of allocating `n` words from `v`,
/// without collection: the lowest free identifier is taken when one is free
/// and the unused storage holds `n` words; otherwise the state is unchanged,
/// with `OutOfMemory` where the words do not suffice, else `OutOfBlocks`.
/// A block of zero words takes an identifier too, so it fails with
/// `OutOfBlocks` where every identifier is live.
pub open spec fn allocation(v: HeapView, n: usize, after: HeapView, r: Result<Pointer, HeapError>) -> bool {
    match r {
        Ok(p) => {
            &&& lowest_free(v, p.spec_block())
            &&& used(v) + n <= v.capacity
            &&& p.spec_offset() == 0
            &&& p.spec_len() == n
            &&& after == with_block(v, p.spec_block(), n)
        },
        Err(e) => {
            &&& after == v
            &&& if used(v) + n > v.capacity {
                e == HeapError::OutOfMemory
            } else {
                all_live(v) && e == HeapError::OutOfBlocks
            }
        },
    }
}

/// The largest block identifier, or zero where there is none.
pub open spec fn largest_id(v: HeapView) -> usize {
    if v.max_blocks == 0 {
        0
    } else {
        (v.max_blocks - 1) as usize
    }
}

/// `r` and `after` are the correct outcome of allocating `n` words as block
/// `id`, chosen by the caller: the identifier must be in range and free, and
/// the unused storage must hold `n` words; otherwise the state is unchanged.
pub open spec fn allocation_at(
    v: HeapView,
    id: usize,
    n: usize,
    after: HeapView,
    r: Result<Pointer, HeapError>,
) -> bool {
    match r {
        Ok(p) => {
            &&& id < v.max_blocks
            &&& !v.blocks.contains_key(id)
            &&& used(v) + n <= v.capacity
            &&& p.spec_block() == id
            &&& p.spec_offset() == 0
            &&& p.spec_len() == n
            &&& after == with_block(v, id, n)
        },
        Err(e) => {
            &&& after == v
            &&& if id >= v.max_blocks || v.blocks.contains_key(id) {
                e == HeapError::IllegalBlock(id, largest_id(v))
            } else {
                used(v) + n > v.capacity && e == HeapError::OutOfMemory
            }
        },
    }
}

/// The block table's layout: the live blocks take no more words than the heap
/// has, each lies inside the used storage, and no two of them overlap.
pub open spec fn layout_valid(v: HeapView) -> bool {
    &&& used(v) <= v.capacity
    &&& forall|id: usize| #[trigger]
        v.blocks.contains_key(id) ==> {
            &&& id < v.max_blocks
            &&& v.starts.contains_key(id)
            &&& v.copies.contains_key(id)
            &&& v.starts[id] + v.blocks[id].len() <= used(v)
        }
    &&& forall|a: usize, b: usize|
        a != b && #[trigger] v.blocks.contains_key(a) && #[trigger] v.blocks.contains_key(b)
            ==> v.starts[a] + v.blocks[a].len() <= v.starts[b] || v.starts[b] + v.blocks[b].len()
            <= v.starts[a]
}

/// Allocating `n` words from `v` succeeds without a collection.
pub open spec fn fits(v: HeapView, n: usize) -> bool {
    !all_live(v) && used(v) + n <= v.capacity
}

/// The tracer's marking holds identifier `id` reachable.
pub open spec fn marked(m: Seq<bool>, id: usize) -> bool {
    id < m.len() && m[id as int]
}

/// `id` is marked reachable but names no live block.
pub open spec fn illegal_mark(v: HeapView, m: Seq<bool>, id: usize) -> bool {
    id < v.max_blocks && marked(m, id) && !v.blocks.contains_key(id)
}

/// `id` is the lowest identifier marked reachable that names no live block.
pub open spec fn lowest_illegal_mark(v: HeapView, m: Seq<bool>, id: usize) -> bool {
    illegal_mark(v, m, id) && forall|j: usize| j < id ==> !illegal_mark(v, m, j)
}

/// The marking holds no identifier that names no live block.
pub open spec fn marking_valid(v: HeapView, m: Seq<bool>) -> bool {
    forall|id: usize| !illegal_mark(v, m, id)
}

/// The live blocks that the marking holds reachable.
pub open spec fn kept(v: HeapView, m: Seq<bool>) -> Map<usize, Seq<u64>> {
    v.blocks.restrict(Set::new(|id: usize| marked(m, id)))
}

/// A copy count after one more relocation; it stays at the largest value.
pub open spec fn bumped(c: usize) -> usize {
    if c < usize::MAX {
        (c + 1) as usize
    } else {
        c
    }
}

/// The state after a collection cycle under marking `m`: the marked blocks,
/// with unchanged contents, packed from word zero in ascending identifier
/// order, each copied once more; every other block is gone.
pub open spec fn collected(v: HeapView, m: Seq<bool>) -> HeapView {
    HeapView {
        blocks: kept(v, m),
        starts: Map::new(
            |id: usize| kept(v, m).contains_key(id),
            |id: usize| words_below(kept(v, m), id as nat),
        ),
        copies: Map::new(|id: usize| kept(v, m).contains_key(id), |id: usize| bumped(v.copies[id])),
        ..v
    }
}

/// `r` and `after` are the correct outcome of a collection cycle under marking `m`.
pub open spec fn collection(v: HeapView, m: Seq<bool>, after: HeapView, r: Result<(), HeapError>) -> bool {
    match r {
        Ok(()) => marking_valid(v, m) && after == collected(v, m),
        Err(e) => after == v && exists|id: usize|
            lowest_illegal_mark(v, m, id) && e == HeapError::IllegalBlock(id, (v.max_blocks - 1) as usize),
    }
}

/// `r` and `after` are a correct outcome of an allocation of `n` words that
/// ran one collection cycle under marking `m` and then tried once more.
pub open spec fn allocation_after_collection(
    v: HeapView,
    m: Seq<bool>,
    n: usize,
    after: HeapView,
    r: Result<Pointer, HeapError>,
) -> bool {
    if marking_valid(v, m) {
        allocation(collected(v, m), n, after, r)
    } else {
        after == v && exists|id: usize|
            lowest_illegal_mark(v, m, id) && r == Err::<Pointer, HeapError>(
                HeapError::IllegalBlock(id, (v.max_blocks - 1) as usize),
            )
    }
}


/// Two block maps that agree below `k` on which identifiers are live and on
/// the lengths of their blocks take the same number of words below `k`.
pub proof fn lemma_words_congruent(a: Map<usize, Seq<u64>>, b: Map<usize, Seq<u64>>, k: nat)
    requires
        forall|id: usize| (id as nat) < k ==> (a.contains_key(id) <==> b.contains_key(id)),
        forall|id: usize|
            (id as nat) < k && a.contains_key(id) ==> a[id].len() == b[id].len(),
    ensures
        words_below(a, k) == words_below(b, k),
    decreases k,
{
    if k > 0 {
        lemma_words_congruent(a, b, (k - 1) as nat);
    }
}

/// Adding block `id` below `k` adds its length to the words taken below `k`.
pub proof fn lemma_words_insert(a: Map<usize, Seq<u64>>, id: usize, s: Seq<u64>, k: nat)
    requires
        (id as nat) < k,
        k <= usize::MAX,
        !a.contains_key(id),
    ensures
        words_below(a.insert(id, s), k) == words_below(a, k) + s.len(),
    decreases k,
{
    if k - 1 == id {
        lemma_words_congruent(a.insert(id, s), a, (k - 1) as nat);
    } else {
        lemma_words_insert(a, id, s, (k - 1) as nat);
    }
}

/// The words taken below `k` grow with `k`.
pub proof fn lemma_words_monotone(a: Map<usize, Seq<u64>>, k1: nat, k2: nat)
    requires
        k1 <= k2,
    ensures
        words_below(a, k1) <= words_below(a, k2),
    decreases k2,
{
    if k1 < k2 {
        lemma_words_monotone(a, k1, (k2 - 1) as nat);
    }
}

/// Splitting the blocks by a set of identifiers splits the words they take.
pub proof fn lemma_words_split(a: Map<usize, Seq<u64>>, keys: Set<usize>, k: nat)
    ensures
        words_below(a.restrict(keys), k) + words_below(a.remove_keys(keys), k) == words_below(a, k),
    decreases k,
{
    if k > 0 {
        lemma_words_split(a, keys, (k - 1) as nat);
    }
}

} // verus!
