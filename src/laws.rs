use vstd::prelude::*;

use crate::error::HeapError;
use crate::pointer::{lemma_pointer_ext, Pointer};
use crate::view::{
    access_error, all_live, allocation, allocation_after_collection, collected, collection, fits,
    illegal_mark, layout_valid, lemma_words_split, load_result, lowest_free, lowest_illegal_mark,
    marked, marking_valid, stored, used, with_block, words_below, HeapView,
};

verus! {

/// A word stored through a valid address is what a load through that address
/// then returns, and a load of any other word returns what it did before.
pub proof fn lemma_store_then_load(v: HeapView, p: Pointer, q: Pointer, value: u64)
    requires
        access_error(v, p) is None,
    ensures
        load_result(stored(v, p, value), p) == Ok::<u64, HeapError>(value),
        q.spec_block() != p.spec_block() || q.spec_offset() != p.spec_offset() ==> load_result(
            stored(v, p, value),
            q,
        ) == load_result(v, q),
{
}

/// After a collection every block marked reachable is still live, with the
/// same contents.
pub proof fn lemma_collection_keeps_reachable(v: HeapView, m: Seq<bool>, id: usize)
    requires
        marking_valid(v, m),
        id < v.max_blocks,
        marked(m, id),
    ensures
        v.blocks.contains_key(id),
        collected(v, m).blocks.contains_key(id),
        collected(v, m).blocks[id] == v.blocks[id],
{
    assert(!illegal_mark(v, m, id));
}

/// After a collection no block that was not marked reachable is live, and the
/// words of the dropped blocks are free again: what stays takes exactly the
/// words of before less those of the dropped blocks.
pub proof fn lemma_collection_reclaims(v: HeapView, m: Seq<bool>, id: usize)
    ensures
        !marked(m, id) ==> !collected(v, m).blocks.contains_key(id),
        used(collected(v, m)) + words_below(
            v.blocks.remove_keys(Set::new(|j: usize| marked(m, j))),
            v.max_blocks,
        ) == used(v),
{
    lemma_words_split(v.blocks, Set::new(|j: usize| marked(m, j)), v.max_blocks);
}

/// An allocation without collection has one outcome only: the same state and
/// the same request give the same state and the same result.
pub proof fn lemma_allocation_deterministic(
    v: HeapView,
    n: usize,
    a1: HeapView,
    r1: Result<Pointer, HeapError>,
    a2: HeapView,
    r2: Result<Pointer, HeapError>,
)
    requires
        allocation(v, n, a1, r1),
        allocation(v, n, a2, r2),
    ensures
        a1 == a2,
        r1 == r2,
{
    if r1 is Ok && r2 is Ok {
        let p1 = r1->Ok_0;
        let p2 = r2->Ok_0;
        if p1.spec_block() < p2.spec_block() {
            assert(v.blocks.contains_key(p1.spec_block()));
        } else if p2.spec_block() < p1.spec_block() {
            assert(v.blocks.contains_key(p2.spec_block()));
        }
        lemma_pointer_ext(p1, p2);
    } else if r1 is Ok {
        assert(!all_live(v)) by {
            assert(!v.blocks.contains_key(r1->Ok_0.spec_block()));
        }
    } else if r2 is Ok {
        assert(!all_live(v)) by {
            assert(!v.blocks.contains_key(r2->Ok_0.spec_block()));
        }
    }
}

/// A collection has one outcome only: the same state and the same marking give
/// the same blocks, at the same places, with the same copy counts.
pub proof fn lemma_collection_deterministic(
    v: HeapView,
    m: Seq<bool>,
    a1: HeapView,
    r1: Result<(), HeapError>,
    a2: HeapView,
    r2: Result<(), HeapError>,
)
    requires
        collection(v, m, a1, r1),
        collection(v, m, a2, r2),
    ensures
        a1 == a2,
        r1 == r2,
{
    if r1 is Err && r2 is Err {
        let i1 = choose|id: usize|
            lowest_illegal_mark(v, m, id) && r1->Err_0 == HeapError::IllegalBlock(id, (v.max_blocks - 1) as usize);
        let i2 = choose|id: usize|
            lowest_illegal_mark(v, m, id) && r2->Err_0 == HeapError::IllegalBlock(id, (v.max_blocks - 1) as usize);
        if i1 < i2 {
            assert(!illegal_mark(v, m, i1));
        } else if i2 < i1 {
            assert(!illegal_mark(v, m, i2));
        }
        assert(r1->Err_0 == r2->Err_0);
    } else if r1 is Err {
        let i1 = choose|id: usize|
            lowest_illegal_mark(v, m, id) && r1->Err_0 == HeapError::IllegalBlock(id, (v.max_blocks - 1) as usize);
        assert(illegal_mark(v, m, i1));
    } else if r2 is Err {
        let i2 = choose|id: usize|
            lowest_illegal_mark(v, m, id) && r2->Err_0 == HeapError::IllegalBlock(id, (v.max_blocks - 1) as usize);
        assert(illegal_mark(v, m, i2));
    } else {
        assert(r1->Ok_0 == r2->Ok_0);
    }
}

/// An allocation that needed a collection runs exactly one: where the storage
/// that the collection freed is still too small, it fails with `OutOfMemory`
/// and leaves the heap as that single collection left it.
pub proof fn lemma_single_collection(
    v: HeapView,
    m: Seq<bool>,
    n: usize,
    after: HeapView,
    r: Result<Pointer, HeapError>,
)
    requires
        allocation_after_collection(v, m, n, after, r),
        marking_valid(v, m),
        used(collected(v, m)) + n > v.capacity,
    ensures
        r == Err::<Pointer, HeapError>(HeapError::OutOfMemory),
        after == collected(v, m),
{
}

/// In a valid layout the words of live blocks have distinct physical
/// addresses inside the storage: two valid addresses that differ in block or
/// offset denote different words.
pub proof fn lemma_addresses_distinct(v: HeapView, p: Pointer, q: Pointer)
    requires
        layout_valid(v),
        access_error(v, p) is None,
        access_error(v, q) is None,
    ensures
        v.starts[p.spec_block()] + p.spec_offset() < v.capacity,
        q.spec_block() != p.spec_block() || q.spec_offset() != p.spec_offset() ==> v.starts[p.spec_block()]
            + p.spec_offset() != v.starts[q.spec_block()] + q.spec_offset(),
{
    assert(v.blocks.contains_key(p.spec_block()));
    assert(v.blocks.contains_key(q.spec_block()));
}

/// An allocation that collected keeps every block marked reachable live, with
/// the same contents.
pub proof fn lemma_collecting_allocation_keeps_reachable(
    v: HeapView,
    m: Seq<bool>,
    n: usize,
    after: HeapView,
    r: Result<Pointer, HeapError>,
    id: usize,
)
    requires
        allocation_after_collection(v, m, n, after, r),
        marking_valid(v, m),
        id < v.max_blocks,
        marked(m, id),
    ensures
        after.blocks.contains_key(id),
        after.blocks[id] == v.blocks[id],
{
    lemma_collection_keeps_reachable(v, m, id);
    if r is Ok {
        assert(lowest_free(collected(v, m), r->Ok_0.spec_block()));
        assert(after == with_block(collected(v, m), r->Ok_0.spec_block(), n));
    }
}

/// After an allocation that collected, a block that was not marked reachable
/// (and was not handed out anew) is gone: a load through any address of it
/// reports it unallocated instead of returning stale data.
pub proof fn lemma_collecting_allocation_reclaims(
    v: HeapView,
    m: Seq<bool>,
    n: usize,
    after: HeapView,
    r: Result<Pointer, HeapError>,
    p: Pointer,
)
    requires
        allocation_after_collection(v, m, n, after, r),
        marking_valid(v, m),
        !marked(m, p.spec_block()),
        !(r is Ok && r->Ok_0.spec_block() == p.spec_block()),
    ensures
        !after.blocks.contains_key(p.spec_block()),
        load_result(after, p) == Err::<u64, HeapError>(HeapError::UnallocatedBlock(p.spec_block())),
{
    if r is Ok {
        assert(after == with_block(collected(v, m), r->Ok_0.spec_block(), n));
    }
}

/// An allocation that collected succeeds where the blocks marked reachable
/// leave room for it and a free identifier: the words of the unmarked blocks
/// serve the request.
pub proof fn lemma_collecting_allocation_succeeds(
    v: HeapView,
    m: Seq<bool>,
    n: usize,
    after: HeapView,
    r: Result<Pointer, HeapError>,
)
    requires
        allocation_after_collection(v, m, n, after, r),
        marking_valid(v, m),
        !all_live(collected(v, m)),
        used(collected(v, m)) + n <= v.capacity,
    ensures
        r is Ok,
        r->Ok_0.spec_len() == n,
        r->Ok_0.spec_offset() == 0,
{
}

/// An allocation that collected has one outcome only: the same state, the
/// same marking and the same request give the same state and the same result.
pub proof fn lemma_collecting_allocation_deterministic(
    v: HeapView,
    m: Seq<bool>,
    n: usize,
    a1: HeapView,
    r1: Result<Pointer, HeapError>,
    a2: HeapView,
    r2: Result<Pointer, HeapError>,
)
    requires
        allocation_after_collection(v, m, n, a1, r1),
        allocation_after_collection(v, m, n, a2, r2),
    ensures
        a1 == a2,
        r1 == r2,
{
    if marking_valid(v, m) {
        lemma_allocation_deterministic(collected(v, m), n, a1, r1, a2, r2);
    } else {
        let i1 = choose|id: usize|
            lowest_illegal_mark(v, m, id) && r1 == Err::<Pointer, HeapError>(
                HeapError::IllegalBlock(id, (v.max_blocks - 1) as usize),
            );
        let i2 = choose|id: usize|
            lowest_illegal_mark(v, m, id) && r2 == Err::<Pointer, HeapError>(
                HeapError::IllegalBlock(id, (v.max_blocks - 1) as usize),
            );
        if i1 < i2 {
            assert(!illegal_mark(v, m, i1));
        } else if i2 < i1 {
            assert(!illegal_mark(v, m, i2));
        }
    }
}

/// A request that changes a heap, as a history records it.
pub enum Request {
    /// An allocation of this many words; where it has to collect, the tracer
    /// marks the identifiers that the flags hold.
    Malloc(usize, Seq<bool>),
    /// A store of a word through an address.
    Store(Pointer, u64),
}

/// `after` is a state that request `q` can leave behind in state `v`, by the
/// contracts of `malloc` and `store`.
pub open spec fn step(v: HeapView, q: Request, after: HeapView) -> bool {
    match q {
        Request::Malloc(n, m) => if fits(v, n) {
            exists|r: Result<Pointer, HeapError>| allocation(v, n, after, r)
        } else {
            exists|r: Result<Pointer, HeapError>| allocation_after_collection(v, m, n, after, r)
        },
        Request::Store(p, x) => after == match access_error(v, p) {
            Some(_) => v,
            None => stored(v, p, x),
        },
    }
}

/// `states` are the states that the requests `qs` pass through from `v0`.
pub open spec fn history(v0: HeapView, qs: Seq<Request>, states: Seq<HeapView>) -> bool {
    &&& states.len() == qs.len() + 1
    &&& states[0] == v0
    &&& forall|i: int| 0 <= i < qs.len() ==> step(states[i], #[trigger] qs[i], states[i + 1])
}

/// One request has one outcome only.
pub proof fn lemma_step_deterministic(v: HeapView, q: Request, a1: HeapView, a2: HeapView)
    requires
        step(v, q, a1),
        step(v, q, a2),
    ensures
        a1 == a2,
{
    match q {
        Request::Malloc(n, m) => {
            if fits(v, n) {
                let r1 = choose|r: Result<Pointer, HeapError>| allocation(v, n, a1, r);
                let r2 = choose|r: Result<Pointer, HeapError>| allocation(v, n, a2, r);
                lemma_allocation_deterministic(v, n, a1, r1, a2, r2);
            } else {
                let r1 = choose|r: Result<Pointer, HeapError>| allocation_after_collection(v, m, n, a1, r);
                let r2 = choose|r: Result<Pointer, HeapError>| allocation_after_collection(v, m, n, a2, r);
                lemma_collecting_allocation_deterministic(v, m, n, a1, r1, a2, r2);
            }
        },
        Request::Store(_, _) => {},
    }
}

/// Two histories from the same state agree on the state after `k` requests.
proof fn lemma_history_prefix(v0: HeapView, qs: Seq<Request>, s1: Seq<HeapView>, s2: Seq<HeapView>, k: int)
    requires
        history(v0, qs, s1),
        history(v0, qs, s2),
        0 <= k <= qs.len(),
    ensures
        s1[k] == s2[k],
    decreases k,
{
    if k > 0 {
        lemma_history_prefix(v0, qs, s1, s2, k - 1);
        assert(step(s1[k - 1], qs[k - 1], s1[k]));
        assert(step(s2[k - 1], qs[k - 1], s2[k]));
        lemma_step_deterministic(s1[k - 1], qs[k - 1], s1[k], s2[k]);
    }
}

/// The same requests made of the same heap, with the tracer marking the same
/// identifiers at each collection, pass through the same states: the same
/// live identifiers, contents, places and copy counts after every request.
pub proof fn lemma_history_deterministic(v0: HeapView, qs: Seq<Request>, s1: Seq<HeapView>, s2: Seq<HeapView>)
    requires
        history(v0, qs, s1),
        history(v0, qs, s2),
    ensures
        s1 == s2,
{
    assert forall|k: int| 0 <= k < s1.len() implies s1[k] == s2[k] by {
        lemma_history_prefix(v0, qs, s1, s2, k);
    }
    assert(s1 =~= s2);
}

} // verus!
