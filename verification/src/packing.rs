use vstd::prelude::*;

verus! {

/// Number of items that fit when `len` items are written into `cap` slots.
pub open spec fn kept_count(len: nat, cap: nat) -> nat {
    if len <= cap { len } else { cap }
}

/// Slot `i` of a fixed array of `cap` slots filled from the front with
/// `items`: the `i`-th item while there is one and it fits, `fill` past it.
pub open spec fn packed_slot<T>(items: Seq<T>, cap: nat, fill: T, i: int) -> T {
    if 0 <= i < kept_count(items.len(), cap) { items[i] } else { fill }
}

/// The full contents of such a fixed array.
pub open spec fn packed_slots<T>(items: Seq<T>, cap: nat, fill: T) -> Seq<T> {
    Seq::new(cap, |i: int| packed_slot(items, cap, fill, i))
}

/// A fixed-size uniform array filled from the front, with the number of
/// populated entries.
pub struct Packed<T> {
    /// All `cap` slots; the ones past `count` hold the fill value.
    pub slots: Vec<T>,
    /// Number of populated slots.
    pub count: usize,
}

/// Writes `items` into an array of `cap` slots, front to back, dropping the
/// items that do not fit and filling the remaining slots with `fill`.
pub fn pack_prefix<T: Copy>(items: &[T], cap: usize, fill: T) -> (r: Packed<T>)
    ensures
        r.count == kept_count(items@.len(), cap as nat),
        r.slots@ == packed_slots(items@, cap as nat, fill),
        r.slots@.len() == cap,
        r.count <= cap && r.count <= items@.len(),
        r.count == items@.len() || r.count == cap,
        forall|i: int| 0 <= i < r.count ==> r.slots@[i] == items@[i],
        forall|i: int| r.count <= i < cap ==> r.slots@[i] == fill,
{
    let count = if items.len() <= cap { items.len() } else { cap };
    let mut slots: Vec<T> = Vec::with_capacity(cap);
    let mut i: usize = 0;
    while i < cap
        invariant
            i <= cap,
            count == kept_count(items@.len(), cap as nat),
            slots@.len() == i,
            forall|k: int| 0 <= k < i ==> slots@[k] == packed_slot(items@, cap as nat, fill, k),
        decreases cap - i,
    {
        if i < count {
            slots.push(items[i]);
        } else {
            slots.push(fill);
        }
        i = i + 1;
    }
    assert(slots@ =~= packed_slots(items@, cap as nat, fill));
    Packed { slots, count }
}

/// Number of items left out when `len` items go into `cap` slots.
pub fn dropped_count(len: usize, cap: usize) -> (r: usize)
    ensures
        r == len - kept_count(len as nat, cap as nat),
        r > 0 <==> len > cap,
{
    if len > cap { len - cap } else { 0 }
}

/// Each slot depends on its own item alone: replacing item `j` changes slot
/// `j` at most, and leaves every other slot as it was.
pub proof fn lemma_slot_sees_only_its_own_item<T>(items: Seq<T>, cap: nat, fill: T, j: int, x: T, i: int)
    requires
        0 <= j < items.len(),
        i != j,
    ensures
        packed_slot(items.update(j, x), cap, fill, i) == packed_slot(items, cap, fill, i),
{
}

/// Items past the capacity never reach the array: appending more items to
/// a list that already fills every slot leaves the array unchanged, and the
/// array of a list is that of its first `cap` items.
pub proof fn lemma_tail_is_dropped<T>(items: Seq<T>, cap: nat, fill: T)
    ensures
        packed_slots(items, cap, fill) == packed_slots(
            if items.len() <= cap { items } else { items.take(cap as int) },
            cap,
            fill,
        ),
{
    let short = if items.len() <= cap { items } else { items.take(cap as int) };
    assert(packed_slots(items, cap, fill) =~= packed_slots(short, cap, fill));
}

} // verus!
