//! Tables of optional entries whose ids are handed out lowest-free-first:
//! file descriptors, mutexes, semaphores and condition variables.

use vstd::prelude::*;

verus! {

/// Slot `i` is the first free one in `list`.
pub open spec fn first_free<T>(list: Seq<Option<T>>, i: int) -> bool {
    &&& 0 <= i < list.len()
    &&& list[i] is None
    &&& forall|k: int| 0 <= k < i ==> #[trigger] list[k] is Some
}

/// The id that `alloc_slot` hands out: the first free slot, or a new one
/// at the end when every slot is taken.
pub open spec fn slot_for<T>(list: Seq<Option<T>>) -> int {
    if exists|i: int| first_free(list, i) {
        choose|i: int| first_free(list, i)
    } else {
        list.len() as int
    }
}

proof fn lemma_first_free_unique<T>(list: Seq<Option<T>>, i: int, j: int)
    requires
        first_free(list, i),
        first_free(list, j),
    ensures
        i == j,
{
    if i < j {
        assert(list[i] is Some);
    } else if j < i {
        assert(list[j] is Some);
    }
}

/// A slot just freed is handed out again before any higher one.
pub proof fn lemma_freed_slot_reused<T>(list: Seq<Option<T>>, i: int)
    requires
        0 <= i < list.len(),
    ensures
        slot_for(list.update(i, None)) <= i,
{
    let l = list.update(i, None);
    if !first_free(l, i) {
        let k = choose|k: int| 0 <= k < i && !(l[k] is Some);
        assert(l[k] is None);
        lemma_lowest_free(l, k);
        let c = choose|c: int| first_free(l, c);
        lemma_first_free_below(l, c, k);
    } else {
        let c = choose|c: int| first_free(l, c);
        lemma_first_free_unique(l, i, c);
    }
}

/// Some slot at or below a free slot is the first free one.
proof fn lemma_lowest_free<T>(list: Seq<Option<T>>, i: int)
    requires
        0 <= i < list.len(),
        list[i] is None,
    ensures
        exists|c: int| first_free(list, c),
    decreases i,
{
    if exists|k: int| 0 <= k < i && list[k] is None {
        let k = choose|k: int| 0 <= k < i && list[k] is None;
        lemma_lowest_free(list, k);
    } else {
        assert(first_free(list, i));
    }
}

proof fn lemma_first_free_below<T>(list: Seq<Option<T>>, c: int, k: int)
    requires
        first_free(list, c),
        0 <= k < list.len(),
        list[k] is None,
    ensures
        c <= k,
{
    if k < c {
        assert(list[k] is Some);
    }
}

/// Put `item` into the lowest free slot of `list`, or append it when no
/// slot is free, and return its id.
pub fn alloc_slot<T>(list: &mut Vec<Option<T>>, item: T) -> (id: usize)
    requires
        old(list)@.len() < usize::MAX,
    ensures
        id == slot_for(old(list)@),
        id < old(list)@.len() ==> final(list)@ == old(list)@.update(id as int, Some(item)),
        id == old(list)@.len() ==> final(list)@ == old(list)@.push(Some(item)),
{
    let mut i: usize = 0;
    while i < list.len()
        invariant
            list@ == old(list)@,
            i <= list@.len(),
            forall|k: int| 0 <= k < i ==> #[trigger] list@[k] is Some,
        decreases list@.len() - i,
    {
        if list[i].is_none() {
            proof {
                assert(first_free(list@, i as int));
                let c = choose|c: int| first_free(list@, c);
                lemma_first_free_unique(list@, i as int, c);
            }
            list.set(i, Some(item));
            return i;
        }
        i = i + 1;
    }
    proof {
        if exists|c: int| first_free(list@, c) {
            let c = choose|c: int| first_free(list@, c);
            assert(list@[c] is Some);
        }
    }
    list.push(Some(item));
    list.len() - 1
}

} // verus!
