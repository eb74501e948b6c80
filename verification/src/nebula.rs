use vstd::prelude::*;
use crate::packing::kept_count;

verus! {

/// Maximum nebula cloud layers uploaded to the shader (fixed uniform array).
pub const MAX_NEBULA_LAYERS: usize = 6;

/// Maximum star layers uploaded to the shader (fixed uniform array).
pub const MAX_STAR_LAYERS: usize = 4;

/// Maximum star colors uploaded to the shader, summed over every star layer.
pub const MAX_STAR_COLORS: usize = 8;

/// Lowest and highest fbm octave counts the shader accepts.
pub const MIN_OCTAVES: u32 = 1;
pub const MAX_OCTAVES: u32 = 8;

/// `octaves` clamped to `MIN_OCTAVES..=MAX_OCTAVES`.
pub open spec fn clamped_octaves(octaves: u32) -> u32 {
    if octaves < MIN_OCTAVES {
        MIN_OCTAVES
    } else if octaves > MAX_OCTAVES {
        MAX_OCTAVES
    } else {
        octaves
    }
}

/// Clamps a cloud or domain-warp octave count to the range the shader loops
/// over.
pub fn clamp_octaves(octaves: u32) -> (r: u32)
    ensures
        r == clamped_octaves(octaves),
        MIN_OCTAVES <= r <= MAX_OCTAVES,
        octaves < MIN_OCTAVES ==> r == MIN_OCTAVES,
        octaves > MAX_OCTAVES ==> r == MAX_OCTAVES,
        MIN_OCTAVES <= octaves <= MAX_OCTAVES ==> r == octaves,
{
    if octaves < MIN_OCTAVES {
        MIN_OCTAVES
    } else if octaves > MAX_OCTAVES {
        MAX_OCTAVES
    } else {
        octaves
    }
}

/// The clamped count is the count in `1..=8` nearest to the requested one:
/// no count of the range lies closer. Counts already in range are kept, and
/// clamping never reorders two requests.
pub proof fn lemma_octaves_clamp_to_nearest(octaves: u32, v: u32, other: u32)
    ensures
        MIN_OCTAVES <= clamped_octaves(octaves) <= MAX_OCTAVES,
        MIN_OCTAVES <= v <= MAX_OCTAVES ==> {
            let r = clamped_octaves(octaves) as int;
            let d_r = if r >= octaves { r - octaves } else { octaves - r };
            let d_v = if v >= octaves { v - octaves } else { octaves - v };
            d_r <= d_v
        },
        MIN_OCTAVES <= octaves <= MAX_OCTAVES ==> clamped_octaves(octaves) == octaves,
        octaves <= other ==> clamped_octaves(octaves) <= clamped_octaves(other),
        clamped_octaves(clamped_octaves(octaves)) == clamped_octaves(octaves),
{
}

/// Number of star colors written after the first `i` star layers have been
/// packed: each layer takes as many of its colors as still fit.
pub open spec fn star_used<T>(layers: Seq<Seq<T>>, i: int) -> int
    decreases i,
{
    if i <= 0 {
        0
    } else {
        let u = star_used(layers, i - 1);
        let room = MAX_STAR_COLORS - u;
        let len = layers[i - 1].len() as int;
        u + if len <= room { len } else { room }
    }
}

/// Number of star layers that reach the shader.
pub open spec fn star_layer_count<T>(layers: Seq<Seq<T>>) -> int {
    kept_count(layers.len(), MAX_STAR_LAYERS as nat) as int
}

/// Total number of colors authored on the first `i` star layers.
pub open spec fn authored_colors<T>(layers: Seq<Seq<T>>, i: int) -> int
    decreases i,
{
    if i <= 0 {
        0
    } else {
        authored_colors(layers, i - 1) + layers[i - 1].len()
    }
}

/// The `(first, count)` slice of the shared color array that one star layer
/// addresses.
#[derive(Debug, Clone, Copy, PartialEq, Eq, Structural)]
pub struct StarSlice {
    /// Index of the layer's first color in the shared array.
    pub first: usize,
    /// Number of the layer's colors in the shared array.
    pub count: usize,
}

/// The slice star layer `k` is given: `(used before it, what it added)` for
/// a layer that reaches the shader, `(0, 0)` for an empty slot.
pub open spec fn star_slice<T>(layers: Seq<Seq<T>>, k: int) -> StarSlice {
    if 0 <= k < star_layer_count(layers) {
        StarSlice {
            first: star_used(layers, k) as usize,
            count: (star_used(layers, k + 1) - star_used(layers, k)) as usize,
        }
    } else {
        StarSlice { first: 0, count: 0 }
    }
}

/// Star colors of every layer packed into one flat array, with the slice
/// each layer slot reads.
pub struct StarPacking<T> {
    /// `MAX_STAR_COLORS` colors; the ones past the last slice hold the fill.
    pub colors: Vec<T>,
    /// `MAX_STAR_LAYERS` slices, one per layer slot.
    pub slices: Vec<StarSlice>,
    /// Number of star layers that reach the shader.
    pub layer_count: usize,
}

proof fn lemma_star_used_bounds<T>(layers: Seq<Seq<T>>, i: int)
    requires
        0 <= i,
    ensures
        0 <= star_used(layers, i) <= MAX_STAR_COLORS,
        i > 0 ==> star_used(layers, i - 1) <= star_used(layers, i),
    decreases i,
{
    if i > 0 {
        lemma_star_used_bounds(layers, i - 1);
    }
}

/// Packs the colors of the star layers that reach the shader (the first
/// `MAX_STAR_LAYERS`) into one flat array of `MAX_STAR_COLORS`, layer after
/// layer. Each layer takes as many of its own colors, from the front, as
/// still fit; colors past the cap are dropped from the tail. Slots past the
/// last packed color hold `fill`.
pub fn pack_star_colors<T: Copy>(layers: &[Vec<T>], fill: T) -> (r: StarPacking<T>)
    ensures
        r.layer_count == star_layer_count(layers@.map_values(|l: Vec<T>| l@)),
        r.slices@.len() == MAX_STAR_LAYERS,
        forall|k: int|
            0 <= k < MAX_STAR_LAYERS ==> r.slices@[k] == star_slice(
                layers@.map_values(|l: Vec<T>| l@),
                k,
            ),
        r.colors@.len() == MAX_STAR_COLORS,
        forall|k: int, j: int|
            0 <= k < r.layer_count && 0 <= j < r.slices@[k].count ==> r.colors@[r.slices@[k].first
                + j] == layers@[k]@[j],
        forall|c: int|
            star_used(layers@.map_values(|l: Vec<T>| l@), r.layer_count as int) <= c
                < MAX_STAR_COLORS ==> r.colors@[c] == fill,
        r.layer_count <= MAX_STAR_LAYERS,
        r.layer_count == layers@.len() || r.layer_count == MAX_STAR_LAYERS,
        r.layer_count > 0 ==> r.slices@[0].first == 0,
        forall|k: int|
            0 <= k < r.layer_count ==> r.slices@[k].count <= layers@[k]@.len()
                && r.slices@[k].first + r.slices@[k].count <= MAX_STAR_COLORS
                && (r.slices@[k].count == layers@[k]@.len() || r.slices@[k].first
                + r.slices@[k].count == MAX_STAR_COLORS),
        forall|k: int|
            0 <= k && k + 1 < r.layer_count ==> r.slices@[k].first + r.slices@[k].count
                == r.slices@[k + 1].first,
        forall|k: int|
            r.layer_count <= k < MAX_STAR_LAYERS ==> r.slices@[k] == (StarSlice {
                first: 0,
                count: 0,
            }),
{
    let ghost ls = layers@.map_values(|l: Vec<T>| l@);
    let n = if layers.len() <= MAX_STAR_LAYERS { layers.len() } else { MAX_STAR_LAYERS };
    let mut colors: Vec<T> = Vec::with_capacity(MAX_STAR_COLORS);
    let mut slices: Vec<StarSlice> = Vec::with_capacity(MAX_STAR_LAYERS);
    let mut used: usize = 0;
    let mut k: usize = 0;
    while k < n
        invariant
            n == star_layer_count(ls),
            n <= layers@.len(),
            ls == layers@.map_values(|l: Vec<T>| l@),
            k <= n,
            used == star_used(ls, k as int),
            used <= MAX_STAR_COLORS,
            colors@.len() == used,
            slices@.len() == k,
            forall|k2: int| 0 <= k2 < k ==> slices@[k2] == star_slice(ls, k2),
            forall|k2: int, j: int|
                0 <= k2 < k && 0 <= j < slices@[k2].count ==> colors@[slices@[k2].first + j]
                    == layers@[k2]@[j],
        decreases n - k,
    {
        proof {
            lemma_star_used_bounds(ls, k + 1);
        }
        let first = used;
        let layer = &layers[k];
        let room = MAX_STAR_COLORS - first;
        let take = if layer.len() <= room { layer.len() } else { room };
        assert(ls[k as int] == layer@);
        let ghost before = colors@;
        let mut j: usize = 0;
        while j < take
            invariant
                take <= layer@.len(),
                first + take <= MAX_STAR_COLORS,
                j <= take,
                colors@.len() == first + j,
                colors@.subrange(0, first as int) == before,
                forall|j2: int| 0 <= j2 < j ==> colors@[first + j2] == layer@[j2],
            decreases take - j,
        {
            colors.push(layer[j]);
            j = j + 1;
        }
        used = first + take;
        slices.push(StarSlice { first, count: take });
        proof {
            assert forall|k2: int, j2: int|
                0 <= k2 < k + 1 && 0 <= j2 < slices@[k2].count implies colors@[slices@[k2].first
                + j2] == layers@[k2]@[j2] by {
                if k2 < k {
                    lemma_star_used_bounds(ls, k2);
                    lemma_star_used_bounds(ls, k2 + 1);
                    lemma_star_used_mono(ls, k2 + 1, k as int);
                    assert(slices@[k2] == star_slice(ls, k2));
                    let idx = slices@[k2].first + j2;
                    assert(idx < first);
                    assert(colors@.subrange(0, first as int)[idx] == colors@[idx]);
                }
            }
        }
        k = k + 1;
    }
    let ghost packed = colors@;
    while colors.len() < MAX_STAR_COLORS
        invariant
            used <= colors@.len() <= MAX_STAR_COLORS,
            colors@.subrange(0, used as int) == packed.subrange(0, used as int),
            packed.len() == used,
            forall|c: int| used <= c < colors@.len() ==> colors@[c] == fill,
        decreases MAX_STAR_COLORS - colors.len(),
    {
        colors.push(fill);
    }
    while slices.len() < MAX_STAR_LAYERS
        invariant
            n <= slices@.len() <= MAX_STAR_LAYERS,
            n == star_layer_count(ls),
            forall|k2: int| 0 <= k2 < slices@.len() ==> slices@[k2] == star_slice(ls, k2),
        decreases MAX_STAR_LAYERS - slices.len(),
    {
        slices.push(StarSlice { first: 0, count: 0 });
    }
    proof {
        assert forall|k2: int, j: int|
            0 <= k2 < n && 0 <= j < slices@[k2].count implies colors@[slices@[k2].first + j]
            == layers@[k2]@[j] by {
            lemma_star_used_bounds(ls, k2);
            lemma_star_used_bounds(ls, k2 + 1);
            lemma_star_used_mono(ls, k2 + 1, n as int);
            let idx = slices@[k2].first + j;
            assert(idx < used);
            assert(colors@.subrange(0, used as int)[idx] == colors@[idx]);
            assert(packed.subrange(0, used as int)[idx] == packed[idx]);
        }
    }
    proof {
        assert forall|k: int| 0 <= k < n implies slices@[k].count <= layers@[k]@.len()
            && slices@[k].first + slices@[k].count <= MAX_STAR_COLORS && (slices@[k].count
            == layers@[k]@.len() || slices@[k].first + slices@[k].count == MAX_STAR_COLORS) by {
            lemma_star_used_bounds(ls, k);
            lemma_star_used_bounds(ls, k + 1);
            assert(ls[k] == layers@[k]@);
        }
        assert forall|k: int| 0 <= k && k + 1 < n implies slices@[k].first + slices@[k].count
            == slices@[k + 1].first by {
            lemma_star_used_bounds(ls, k);
            lemma_star_used_bounds(ls, k + 1);
            lemma_star_used_bounds(ls, k + 2);
        }
    }
    StarPacking { colors, slices, layer_count: n }
}

/// `star_used` never decreases along the layers.
pub proof fn lemma_star_used_mono<T>(layers: Seq<Seq<T>>, i: int, j: int)
    requires
        0 <= i <= j,
    ensures
        star_used(layers, i) <= star_used(layers, j),
    decreases j - i,
{
    if i < j {
        lemma_star_used_mono(layers, i, j - 1);
        lemma_star_used_bounds(layers, j);
    }
}

/// The colors written after `i` layers are the colors authored on them,
/// capped at `MAX_STAR_COLORS`.
pub proof fn lemma_star_used_is_capped_total<T>(layers: Seq<Seq<T>>, i: int)
    requires
        0 <= i <= layers.len(),
    ensures
        star_used(layers, i) == if authored_colors(layers, i) <= MAX_STAR_COLORS {
            authored_colors(layers, i)
        } else {
            MAX_STAR_COLORS as int
        },
    decreases i,
{
    if i > 0 {
        lemma_star_used_is_capped_total(layers, i - 1);
        lemma_authored_colors_mono(layers, i - 1, i);
    }
}

proof fn lemma_authored_colors_mono<T>(layers: Seq<Seq<T>>, i: int, j: int)
    requires
        0 <= i <= j <= layers.len(),
    ensures
        0 <= authored_colors(layers, i) <= authored_colors(layers, j),
    decreases j,
{
    if j > 0 {
        if i < j {
            lemma_authored_colors_mono(layers, i, j - 1);
        } else {
            lemma_authored_colors_mono(layers, 0, j - 1);
        }
    }
}

/// The slices of the layers that reach the shader follow one another with
/// no gap and no overlap: the first starts at 0, each next one starts where
/// the previous one ends, and none runs past `MAX_STAR_COLORS`.
pub proof fn lemma_star_slices_are_contiguous<T>(layers: Seq<Seq<T>>, k: int)
    requires
        0 <= k < star_layer_count(layers),
    ensures
        k == 0 ==> star_slice(layers, k).first == 0,
        k + 1 < star_layer_count(layers) ==> star_slice(layers, k).first + star_slice(
            layers,
            k,
        ).count == star_slice(layers, k + 1).first,
        star_slice(layers, k).first + star_slice(layers, k).count <= MAX_STAR_COLORS,
{
    lemma_star_used_bounds(layers, k);
    lemma_star_used_bounds(layers, k + 1);
    lemma_star_used_bounds(layers, k + 2);
}

/// Two different layers never address a common color.
pub proof fn lemma_star_slices_are_disjoint<T>(layers: Seq<Seq<T>>, k1: int, k2: int)
    requires
        0 <= k1 < k2 < star_layer_count(layers),
    ensures
        star_slice(layers, k1).first + star_slice(layers, k1).count <= star_slice(
            layers,
            k2,
        ).first,
{
    lemma_star_used_bounds(layers, k1);
    lemma_star_used_bounds(layers, k1 + 1);
    lemma_star_used_bounds(layers, k2);
    lemma_star_used_mono(layers, k1 + 1, k2);
}

/// A layer keeps every color it was authored with exactly when the colors
/// of it and of every layer before it fit under the cap (or it has none);
/// otherwise its colors are cut from the tail.
pub proof fn lemma_star_layer_keeps_all_colors<T>(layers: Seq<Seq<T>>, k: int)
    requires
        0 <= k < star_layer_count(layers),
    ensures
        star_slice(layers, k).count <= layers[k].len(),
        star_slice(layers, k).count == layers[k].len() <==> (authored_colors(layers, k + 1)
            <= MAX_STAR_COLORS || layers[k].len() == 0),
{
    lemma_star_used_bounds(layers, k);
    lemma_star_used_bounds(layers, k + 1);
    lemma_star_used_is_capped_total(layers, k);
    lemma_star_used_is_capped_total(layers, k + 1);
    lemma_authored_colors_mono(layers, k, k + 1);
}

/// A layer's slice depends only on the layers before it and on itself:
/// lists that agree on the color counts of their first `m` layers give
/// those layers the same slices, whatever follows.
pub proof fn lemma_star_slices_ignore_later_layers<T>(a: Seq<Seq<T>>, b: Seq<Seq<T>>, m: int, k: int)
    requires
        0 <= k < m,
        m <= a.len(),
        m <= b.len(),
        forall|i: int| 0 <= i < m ==> #[trigger] a[i].len() == b[i].len(),
        k < star_layer_count(a),
    ensures
        k < star_layer_count(b),
        star_slice(a, k) == star_slice(b, k),
{
    lemma_star_used_agree(a, b, k);
    lemma_star_used_agree(a, b, k + 1);
}

proof fn lemma_star_used_agree<T>(a: Seq<Seq<T>>, b: Seq<Seq<T>>, i: int)
    requires
        0 <= i <= a.len(),
        i <= b.len(),
        forall|j: int| 0 <= j < i ==> #[trigger] a[j].len() == b[j].len(),
    ensures
        star_used(a, i) == star_used(b, i),
    decreases i,
{
    if i > 0 {
        lemma_star_used_agree(a, b, i - 1);
    }
}

} // verus!
