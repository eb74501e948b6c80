use vstd::prelude::*;
use crate::packing::{kept_count, packed_slots, pack_prefix, dropped_count};

verus! {

broadcast use vstd::seq_lib::group_to_multiset_ensures;

/// Maximum number of visual lenses combined in a single display pass.
pub const MAX_LENSES: usize = 64;

/// Maximum number of deflection sources injected into the field per frame.
pub const MAX_DEFLECTION_SOURCES: usize = 64;

/// Grid resolution of the velocity field along one axis.
pub const LENSING_FIELD_RES: u32 = 512;

/// A visible lens gathered this frame, before the cap.
#[derive(Debug, Clone, Copy)]
pub struct LensCandidate<T, Q> {
    /// Ordering key of the lens's influence (halo size times photon-ring
    /// intensity): a larger rank is a larger influence.
    pub rank: i32,
    /// The lens's display data.
    pub lens: T,
    /// The palette carried by the lens's entity, if any.
    pub quantization: Option<Q>,
}

/// Position at which a candidate of rank `k` enters a list kept in
/// descending rank order: after every entry of rank `k` or more.
pub open spec fn insert_pos<T, Q>(s: Seq<LensCandidate<T, Q>>, k: i32) -> int
    decreases s.len(),
{
    if s.len() == 0 {
        0
    } else if s[0].rank < k {
        0
    } else {
        1 + insert_pos(s.drop_first(), k)
    }
}

/// Stable sort by descending rank: candidates of equal rank keep their
/// relative order.
pub open spec fn sort_desc<T, Q>(s: Seq<LensCandidate<T, Q>>) -> Seq<LensCandidate<T, Q>>
    decreases s.len(),
{
    if s.len() == 0 {
        s
    } else {
        let r = sort_desc(s.drop_last());
        r.insert(insert_pos(r, s.last().rank), s.last())
    }
}

/// Ranks never increase along the sequence.
pub open spec fn rank_sorted<T, Q>(s: Seq<LensCandidate<T, Q>>) -> bool {
    forall|i: int, j: int| 0 <= i < j < s.len() ==> s[i].rank >= s[j].rank
}

/// The candidates that keep a slot: all of them, in gather order, when they
/// fit; otherwise the `MAX_LENSES` of largest rank, largest first.
pub open spec fn kept_candidates<T, Q>(s: Seq<LensCandidate<T, Q>>) -> Seq<LensCandidate<T, Q>> {
    if s.len() <= MAX_LENSES {
        s
    } else {
        sort_desc(s).take(MAX_LENSES as int)
    }
}

/// The palette of the first candidate that carries one.
pub open spec fn first_quantization<T, Q>(s: Seq<LensCandidate<T, Q>>) -> Option<Q>
    decreases s.len(),
{
    if s.len() == 0 {
        None
    } else if s[0].quantization is Some {
        s[0].quantization
    } else {
        first_quantization(s.drop_first())
    }
}

/// The lenses sent to the display pass and the palette it quantizes with.
pub struct LensSelection<T, Q> {
    /// At most `MAX_LENSES` lenses.
    pub lenses: Vec<T>,
    /// Palette for the photon-ring region, if any candidate carries one.
    pub quantization: Option<Q>,
}

proof fn lemma_insert_pos_is<T, Q>(s: Seq<LensCandidate<T, Q>>, k: i32, p: int)
    requires
        0 <= p <= s.len(),
        forall|q: int| 0 <= q < p ==> s[q].rank >= k,
        p == s.len() || s[p].rank < k,
    ensures
        insert_pos(s, k) == p,
    decreases p,
{
    if p > 0 {
        lemma_insert_pos_is(s.drop_first(), k, p - 1);
    }
}

proof fn lemma_insert_pos_bounds<T, Q>(s: Seq<LensCandidate<T, Q>>, k: i32)
    ensures
        0 <= insert_pos(s, k) <= s.len(),
        forall|q: int| 0 <= q < insert_pos(s, k) ==> s[q].rank >= k,
        insert_pos(s, k) == s.len() || s[insert_pos(s, k)].rank < k,
    decreases s.len(),
{
    if s.len() > 0 && s[0].rank >= k {
        let t = s.drop_first();
        lemma_insert_pos_bounds(t, k);
        assert forall|q: int| 0 <= q < insert_pos(s, k) implies s[q].rank >= k by {
            if q > 0 {
                assert(s[q] == t[q - 1]);
            }
        }
    }
}

proof fn lemma_insert_keeps_sorted<T, Q>(s: Seq<LensCandidate<T, Q>>, x: LensCandidate<T, Q>)
    requires
        rank_sorted(s),
    ensures
        rank_sorted(s.insert(insert_pos(s, x.rank), x)),
{
    lemma_insert_pos_bounds(s, x.rank);
    let p = insert_pos(s, x.rank);
    let r = s.insert(p, x);
    assert forall|i: int, j: int| 0 <= i < j < r.len() implies r[i].rank >= r[j].rank by {
        if j < p {
        } else if j == p {
        } else if i < p {
            assert(s[i].rank >= x.rank);
            if p < s.len() {
                assert(s[p].rank < x.rank);
            }
        } else if i == p {
            assert(s[p].rank < x.rank);
            assert(s[p].rank >= s[j - 1].rank || p == j - 1);
        } else {
        }
    }
}

/// The stable descending sort orders candidates by rank, largest first.
pub proof fn lemma_sort_desc_is_sorted<T, Q>(s: Seq<LensCandidate<T, Q>>)
    ensures
        rank_sorted(sort_desc(s)),
        sort_desc(s).len() == s.len(),
    decreases s.len(),
{
    if s.len() > 0 {
        lemma_sort_desc_is_sorted(s.drop_last());
        let r = sort_desc(s.drop_last());
        lemma_insert_keeps_sorted(r, s.last());
        lemma_insert_pos_bounds(r, s.last().rank);
    }
}

/// The stable descending sort only reorders: it holds each candidate
/// exactly as often as the input does.
pub proof fn lemma_sort_desc_permutes<T, Q>(s: Seq<LensCandidate<T, Q>>)
    ensures
        sort_desc(s).to_multiset() == s.to_multiset(),
    decreases s.len(),
{
    if s.len() > 0 {
        lemma_sort_desc_permutes(s.drop_last());
        let r = sort_desc(s.drop_last());
        lemma_insert_pos_bounds(r, s.last().rank);
        vstd::seq_lib::to_multiset_insert(r, insert_pos(r, s.last().rank), s.last());
        assert(s =~= s.drop_last().push(s.last()));
        vstd::seq_lib::to_multiset_build(s.drop_last(), s.last());
    }
}

/// The candidates of rank `k`, in the order they appear.
pub open spec fn with_rank<T, Q>(s: Seq<LensCandidate<T, Q>>, k: i32) -> Seq<LensCandidate<T, Q>>
    decreases s.len(),
{
    if s.len() == 0 {
        s
    } else {
        let r = with_rank(s.drop_last(), k);
        if s.last().rank == k { r.push(s.last()) } else { r }
    }
}

proof fn lemma_with_rank_concat<T, Q>(a: Seq<LensCandidate<T, Q>>, b: Seq<LensCandidate<T, Q>>, k: i32)
    ensures
        with_rank(a + b, k) == with_rank(a, k) + with_rank(b, k),
    decreases b.len(),
{
    if b.len() == 0 {
        assert(a + b =~= a);
        assert(with_rank(a, k) + with_rank(b, k) =~= with_rank(a, k));
    } else {
        lemma_with_rank_concat(a, b.drop_last(), k);
        assert((a + b).drop_last() =~= a + b.drop_last());
        assert((a + b).last() == b.last());
        if b.last().rank == k {
            assert(with_rank(a, k) + with_rank(b.drop_last(), k).push(b.last()) =~= (with_rank(
                a,
                k,
            ) + with_rank(b.drop_last(), k)).push(b.last()));
        }
    }
}

proof fn lemma_with_rank_none<T, Q>(s: Seq<LensCandidate<T, Q>>, k: i32)
    requires
        forall|i: int| 0 <= i < s.len() ==> s[i].rank != k,
    ensures
        with_rank(s, k).len() == 0,
    decreases s.len(),
{
    if s.len() > 0 {
        lemma_with_rank_none(s.drop_last(), k);
    }
}

proof fn lemma_with_rank_single<T, Q>(x: LensCandidate<T, Q>, k: i32)
    ensures
        with_rank(seq![x], k) == if x.rank == k { seq![x] } else { Seq::<LensCandidate<T, Q>>::empty() },
{
    let s = seq![x];
    assert(s.drop_last() =~= Seq::<LensCandidate<T, Q>>::empty());
    assert(with_rank(s.drop_last(), k) =~= Seq::<LensCandidate<T, Q>>::empty());
    assert(s.last() == x);
    if x.rank == k {
        assert(Seq::<LensCandidate<T, Q>>::empty().push(x) =~= seq![x]);
    }
}

/// The sort is stable: for every rank, the candidates of that rank come out
/// in the order they went in.
pub proof fn lemma_sort_desc_is_stable<T, Q>(s: Seq<LensCandidate<T, Q>>, k: i32)
    ensures
        with_rank(sort_desc(s), k) == with_rank(s, k),
    decreases s.len(),
{
    if s.len() > 0 {
        let x = s.last();
        let r = sort_desc(s.drop_last());
        lemma_sort_desc_is_stable(s.drop_last(), k);
        lemma_sort_desc_is_sorted(s.drop_last());
        lemma_insert_pos_bounds(r, x.rank);
        let p = insert_pos(r, x.rank);
        let head = r.take(p);
        let tail = r.skip(p);
        assert(r.insert(p, x) =~= head + seq![x] + tail);
        assert(r =~= head + tail);
        lemma_with_rank_concat(head + seq![x], tail, k);
        lemma_with_rank_concat(head, seq![x], k);
        lemma_with_rank_concat(head, tail, k);
        lemma_with_rank_single(x, k);
        if x.rank == k {
            assert forall|i: int| 0 <= i < tail.len() implies tail[i].rank != k by {
                assert(tail[i] == r[p + i]);
                assert(r[p].rank < x.rank);
                if i > 0 {
                    assert(r[p].rank >= r[p + i].rank);
                }
            }
            lemma_with_rank_none(tail, k);
            assert(with_rank(tail, k) =~= Seq::<LensCandidate<T, Q>>::empty());
            assert(with_rank(head, k) + with_rank(tail, k) =~= with_rank(head, k));
            assert(with_rank(head, k) + seq![x] + with_rank(tail, k) =~= with_rank(head, k).push(x));
        } else {
            assert(with_rank(head, k) + Seq::<LensCandidate<T, Q>>::empty() =~= with_rank(head, k));
        }
    }
}

/// Lenses are dropped only past the cap: when the candidates fit, every one
/// of them is kept, in gather order; when they do not, exactly `MAX_LENSES`
/// are kept.
pub proof fn lemma_lenses_dropped_only_past_the_cap<T, Q>(s: Seq<LensCandidate<T, Q>>)
    ensures
        s.len() <= MAX_LENSES ==> kept_candidates(s) == s,
        s.len() > MAX_LENSES ==> kept_candidates(s).len() == MAX_LENSES,
{
    lemma_sort_desc_is_sorted(s);
}

/// The palette comes from the first candidate that carries one: it is
/// absent exactly when no candidate carries a palette, and otherwise it is
/// the palette of a carrier with no carrier before it.
pub proof fn lemma_palette_of_first_carrier<T, Q>(s: Seq<LensCandidate<T, Q>>)
    ensures
        first_quantization(s) is Some <==> exists|i: int|
            0 <= i < s.len() && (#[trigger] s[i]).quantization is Some,
        first_quantization(s) is Some ==> exists|p: int|
            0 <= p < s.len() && (#[trigger] s[p]).quantization == first_quantization(s) && forall|
                q: int,
            | 0 <= q < p ==> (#[trigger] s[q]).quantization is None,
    decreases s.len(),
{
    if s.len() > 0 {
        let t = s.drop_first();
        lemma_palette_of_first_carrier(t);
        if s[0].quantization is Some {
            assert(s[0].quantization == first_quantization(s));
        } else {
            if first_quantization(t) is Some {
                let p = choose|p: int|
                    0 <= p < t.len() && (#[trigger] t[p]).quantization == first_quantization(t)
                        && forall|q: int| 0 <= q < p ==> (#[trigger] t[q]).quantization is None;
                assert(s[p + 1] == t[p]);
                assert forall|q: int| 0 <= q < p + 1 implies (#[trigger] s[q]).quantization is None by {
                    if q > 0 {
                        assert(s[q] == t[q - 1]);
                    }
                }
            }
            assert forall|i: int| 0 <= i < s.len() && (#[trigger] s[i]).quantization is Some implies
                first_quantization(s) is Some by {
                assert(s[i] == t[i - 1]);
            }
            if first_quantization(s) is Some {
                let i = choose|i: int| 0 <= i < t.len() && (#[trigger] t[i]).quantization is Some;
                assert(s[i + 1] == t[i]);
            }
        }
    }
}

/// When there are more candidates than slots, every kept lens ranks at
/// least as high as every dropped one, and the kept lenses are drawn from
/// the candidates.
pub proof fn lemma_kept_outrank_dropped<T, Q>(s: Seq<LensCandidate<T, Q>>, i: int, j: int)
    requires
        s.len() > MAX_LENSES,
        0 <= i < MAX_LENSES <= j < s.len(),
    ensures
        kept_candidates(s).len() == MAX_LENSES,
        kept_candidates(s)[i].rank >= sort_desc(s)[j].rank,
        s.to_multiset().contains(kept_candidates(s)[i]),
        sort_desc(s).to_multiset() == s.to_multiset(),
{
    lemma_sort_desc_is_sorted(s);
    lemma_sort_desc_permutes(s);
    assert(sort_desc(s).to_multiset().contains(sort_desc(s)[i]));
}

proof fn lemma_first_quantization_is<T, Q>(s: Seq<LensCandidate<T, Q>>, p: int)
    requires
        0 <= p <= s.len(),
        forall|q: int| 0 <= q < p ==> s[q].quantization is None,
        p == s.len() || s[p].quantization is Some,
    ensures
        first_quantization(s) == if p == s.len() { None } else { s[p].quantization },
    decreases p,
{
    if p > 0 {
        lemma_first_quantization_is(s.drop_first(), p - 1);
    }
}

fn insert_by_rank<T: Copy, Q: Copy>(v: &mut Vec<LensCandidate<T, Q>>, x: LensCandidate<T, Q>)
    ensures
        final(v)@ == old(v)@.insert(insert_pos(old(v)@, x.rank), x),
{
    let mut p: usize = 0;
    while p < v.len()
        invariant
            p <= v@.len(),
            forall|q: int| 0 <= q < p ==> v@[q].rank >= x.rank,
        ensures
            p <= v@.len(),
            forall|q: int| 0 <= q < p ==> v@[q].rank >= x.rank,
            p == v@.len() || v@[p as int].rank < x.rank,
        decreases v@.len() - p,
    {
        if v[p].rank < x.rank {
            break;
        }
        p = p + 1;
    }
    proof {
        lemma_insert_pos_is(v@, x.rank, p as int);
    }
    v.insert(p, x);
}

/// Sorts candidates by descending rank, keeping equal ranks in their
/// original order.
pub fn sort_by_rank_desc<T: Copy, Q: Copy>(candidates: &[LensCandidate<T, Q>]) -> (r: Vec<
    LensCandidate<T, Q>,
>)
    ensures
        r@ == sort_desc(candidates@),
{
    let mut sorted: Vec<LensCandidate<T, Q>> = Vec::new();
    let mut i: usize = 0;
    while i < candidates.len()
        invariant
            i <= candidates@.len(),
            sorted@ == sort_desc(candidates@.take(i as int)),
        decreases candidates@.len() - i,
    {
        let ghost prefix = candidates@.take(i as int + 1);
        assert(prefix.drop_last() =~= candidates@.take(i as int));
        insert_by_rank(&mut sorted, candidates[i]);
        i = i + 1;
    }
    assert(candidates@.take(i as int) =~= candidates@);
    sorted
}

/// Picks the lenses sent to the display pass from this frame's visible
/// candidates. The palette comes from the first candidate that carries
/// one. When the candidates exceed `MAX_LENSES`, the ones of largest rank
/// win a slot, largest first and ties in gather order; otherwise every
/// candidate is kept in gather order.
pub fn select_lenses<T: Copy, Q: Copy>(candidates: &[LensCandidate<T, Q>]) -> (r: LensSelection<T, Q>)
    ensures
        r.quantization == first_quantization(candidates@),
        r.lenses@ == kept_candidates(candidates@).map_values(|c: LensCandidate<T, Q>| c.lens),
        r.lenses@.len() <= MAX_LENSES,
        candidates@.len() <= MAX_LENSES ==> r.lenses@ == candidates@.map_values(
            |c: LensCandidate<T, Q>| c.lens,
        ),
        candidates@.len() > MAX_LENSES ==> r.lenses@.len() == MAX_LENSES,
        r.quantization is Some <==> exists|i: int|
            0 <= i < candidates@.len() && (#[trigger] candidates@[i]).quantization is Some,
        r.quantization is Some ==> exists|p: int|
            0 <= p < candidates@.len() && (#[trigger] candidates@[p]).quantization
                == r.quantization && forall|q: int|
                0 <= q < p ==> (#[trigger] candidates@[q]).quantization is None,
{
    let mut quantization: Option<Q> = None;
    let mut p: usize = 0;
    while p < candidates.len()
        invariant_except_break
            quantization is None,
        invariant
            p <= candidates@.len(),
            forall|q: int| 0 <= q < p ==> candidates@[q].quantization is None,
        ensures
            p <= candidates@.len(),
            forall|q: int| 0 <= q < p ==> candidates@[q].quantization is None,
            p == candidates@.len() ==> quantization is None,
            p < candidates@.len() ==> candidates@[p as int].quantization is Some
                && quantization == candidates@[p as int].quantization,
        decreases candidates@.len() - p,
    {
        if candidates[p].quantization.is_some() {
            quantization = candidates[p].quantization;
            break;
        }
        p = p + 1;
    }
    proof {
        lemma_first_quantization_is(candidates@, p as int);
        if p < candidates.len() {
            assert(candidates@[p as int].quantization is Some);
        }
        lemma_sort_desc_is_sorted(candidates@);
    }
    let ghost kept = kept_candidates(candidates@);
    let mut lenses: Vec<T> = Vec::new();
    if candidates.len() <= MAX_LENSES {
        let mut i: usize = 0;
        while i < candidates.len()
            invariant
                i <= candidates@.len(),
                kept == candidates@,
                lenses@ == kept.take(i as int).map_values(|c: LensCandidate<T, Q>| c.lens),
            decreases candidates@.len() - i,
        {
            lenses.push(candidates[i].lens);
            assert(kept.take(i as int + 1).map_values(|c: LensCandidate<T, Q>| c.lens)
                =~= lenses@);
            i = i + 1;
        }
        assert(kept.take(i as int) =~= kept);
    } else {
        let sorted = sort_by_rank_desc(candidates);
        proof {
            lemma_sort_desc_is_sorted(candidates@);
        }
        let mut i: usize = 0;
        while i < MAX_LENSES
            invariant
                i <= MAX_LENSES,
                sorted@.len() == candidates@.len(),
                candidates@.len() > MAX_LENSES,
                kept == sorted@.take(MAX_LENSES as int),
                lenses@ == kept.take(i as int).map_values(|c: LensCandidate<T, Q>| c.lens),
            decreases MAX_LENSES - i,
        {
            lenses.push(sorted[i].lens);
            assert(kept.take(i as int + 1).map_values(|c: LensCandidate<T, Q>| c.lens)
                =~= lenses@);
            i = i + 1;
        }
        assert(kept.take(i as int) =~= kept);
    }
    LensSelection { lenses, quantization }
}

/// The deflection-source array handed to the inject pass: `MAX_DEFLECTION_SOURCES`
/// slots, of which the first `source_count` are populated.
pub struct DeflectionSourceArray<T> {
    sources: Vec<T>,
    source_count: u32,
}

impl<T: Copy> DeflectionSourceArray<T> {
    /// All slots of the array.
    pub closed spec fn slots(&self) -> Seq<T> {
        self.sources@
    }

    /// Number of populated slots.
    pub closed spec fn count(&self) -> nat {
        self.source_count as nat
    }

    /// The array always has `MAX_DEFLECTION_SOURCES` slots and at most that
    /// many populated.
    pub closed spec fn wf(&self) -> bool {
        &&& self.sources@.len() == MAX_DEFLECTION_SOURCES
        &&& self.source_count <= MAX_DEFLECTION_SOURCES
    }

    /// An array with no populated slot, every slot holding `fill`.
    pub fn new(fill: T) -> (r: Self)
        ensures
            r.wf(),
            r.count() == 0,
            r.slots() == Seq::new(MAX_DEFLECTION_SOURCES as nat, |i: int| fill),
    {
        let empty: [T; 0] = [];
        let packed = pack_prefix(&empty, MAX_DEFLECTION_SOURCES, fill);
        assert(packed.slots@ =~= Seq::new(MAX_DEFLECTION_SOURCES as nat, |i: int| fill));
        DeflectionSourceArray { sources: packed.slots, source_count: 0 }
    }

    /// Overwrites the array with `sources`, capping at `MAX_DEFLECTION_SOURCES`:
    /// the first sources that fit fill the front slots in order and every
    /// other slot is reset to `fill`. Returns how many sources were dropped,
    /// so a full array never silently reads as complete coverage.
    pub fn set_sources(&mut self, sources: &[T], fill: T) -> (dropped: usize)
        ensures
            final(self).wf(),
            final(self).count() == kept_count(sources@.len(), MAX_DEFLECTION_SOURCES as nat),
            final(self).slots() == packed_slots(sources@, MAX_DEFLECTION_SOURCES as nat, fill),
            dropped == sources@.len() - final(self).count(),
            dropped > 0 <==> sources@.len() > MAX_DEFLECTION_SOURCES,
            final(self).slots().len() == MAX_DEFLECTION_SOURCES,
            final(self).count() == sources@.len() || final(self).count() == MAX_DEFLECTION_SOURCES,
            final(self).count() <= sources@.len(),
            forall|i: int| 0 <= i < final(self).count() ==> final(self).slots()[i] == sources@[i],
            forall|i: int|
                final(self).count() <= i < MAX_DEFLECTION_SOURCES ==> final(self).slots()[i] == fill,
    {
        let packed = pack_prefix(sources, MAX_DEFLECTION_SOURCES, fill);
        self.sources = packed.slots;
        self.source_count = packed.count as u32;
        dropped_count(sources.len(), MAX_DEFLECTION_SOURCES)
    }

    /// All `MAX_DEFLECTION_SOURCES` slots.
    pub fn sources(&self) -> (r: &[T])
        ensures
            r@ == self.slots(),
    {
        self.sources.as_slice()
    }

    /// Number of populated slots.
    pub fn source_count(&self) -> (r: u32)
        ensures
            r == self.count(),
    {
        self.source_count
    }
}

} // verus!
