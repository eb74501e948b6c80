use vstd::prelude::*;
use std::collections::hash_map::DefaultHasher;
use std::hash::Hasher;
use vstd::std_specs::hash::DefaultHasherAdditionalSpecFns;

verus! {

/// Maximum number of colors in a quantization palette; the shader's uniform
/// array has exactly this many slots.
pub const MAX_PALETTE_COLORS: usize = 64;

/// Dithering pattern for color quantization.
#[derive(Debug, Clone, Copy, PartialEq, Eq, Structural)]
pub enum DitherPattern {
    /// No dithering: pure nearest color matching.
    Off,
    /// Classic 4x4 Bayer matrix (16 threshold levels).
    Bayer4x4,
    /// Smoother 8x8 Bayer matrix (64 threshold levels).
    Bayer8x8,
}

/// The shader-side code of a dither pattern.
pub open spec fn dither_code(p: DitherPattern) -> u32 {
    match p {
        DitherPattern::Off => 0,
        DitherPattern::Bayer4x4 => 1,
        DitherPattern::Bayer8x8 => 2,
    }
}

impl DitherPattern {
    /// Convert to the shader uniform value (0 = none, 1 = 4x4, 2 = 8x8).
    pub fn as_u32(self) -> (r: u32)
        ensures
            r == dither_code(self),
            self == DitherPattern::Off ==> r == 0,
            self == DitherPattern::Bayer4x4 ==> r == 1,
            self == DitherPattern::Bayer8x8 ==> r == 2,
    {
        match self {
            DitherPattern::Off => 0,
            DitherPattern::Bayer4x4 => 1,
            DitherPattern::Bayer8x8 => 2,
        }
    }
}

impl Default for DitherPattern {
    fn default() -> (r: Self)
        ensures
            r == DitherPattern::Bayer4x4,
    {
        DitherPattern::Bayer4x4
    }
}

/// Distinct patterns reach the shader as distinct codes, and every code is
/// below 3.
pub proof fn lemma_dither_code_injective(a: DitherPattern, b: DitherPattern)
    ensures
        dither_code(a) < 3,
        dither_code(a) == dither_code(b) <==> a == b,
{
}

/// Number of palette entries that feed the lookup table: the configured
/// size, but no more entries than there are.
pub open spec fn active_palette_len(palette_size: u32, len: nat) -> int {
    if palette_size as nat <= len { palette_size as int } else { len as int }
}

/// The words hashed into the palette key: the palette size, then the red,
/// green and blue bit patterns of each active entry in order.
pub open spec fn palette_key_words(palette_size: u32, rgb_bits: Seq<[u32; 3]>) -> Seq<u32> {
    seq![palette_size] + Seq::new(
        (3 * active_palette_len(palette_size, rgb_bits.len())) as nat,
        |j: int| rgb_bits[j / 3][j % 3],
    )
}

/// The bytes of `w`, lowest first.
pub open spec fn u32_le_bytes(w: u32) -> Seq<u8> {
    seq![
        (w & 0xff) as u8,
        ((w >> 8) & 0xff) as u8,
        ((w >> 16) & 0xff) as u8,
        ((w >> 24) & 0xff) as u8,
    ]
}

/// The bytes of `w` in little-endian order, or in big-endian order.
pub open spec fn u32_bytes_in_order(w: u32, little_endian: bool) -> Seq<u8> {
    if little_endian { u32_le_bytes(w) } else { u32_le_bytes(w).reverse() }
}

/// The byte writes the hasher receives: each word in the given byte order.
pub open spec fn palette_key_writes(
    palette_size: u32,
    rgb_bits: Seq<[u32; 3]>,
    little_endian: bool,
) -> Seq<Seq<u8>> {
    palette_key_words(palette_size, rgb_bits).map_values(
        |w: u32| u32_bytes_in_order(w, little_endian),
    )
}

/// Calls `u32::to_ne_bytes`, which returns the memory representation of `x`
/// in the target's native byte order. Claimed: the bytes are those of `x`
/// lowest first (a little-endian target) or highest first (a big-endian
/// target). Which of the two holds is the machine's, and is left unsaid.
#[verifier::external_body]
fn u32_native_bytes(x: u32) -> (r: [u8; 4])
    ensures
        r@ == u32_le_bytes(x) || r@ == u32_le_bytes(x).reverse(),
{
    x.to_ne_bytes()
}

fn word_bytes(w: u32, little_endian: bool) -> (r: [u8; 4])
    ensures
        r@ == u32_bytes_in_order(w, little_endian),
{
    let b0 = (w & 0xff) as u8;
    let b1 = ((w >> 8) & 0xff) as u8;
    let b2 = ((w >> 16) & 0xff) as u8;
    let b3 = ((w >> 24) & 0xff) as u8;
    let r = if little_endian { [b0, b1, b2, b3] } else { [b3, b2, b1, b0] };
    assert(r@ =~= u32_bytes_in_order(w, little_endian));
    r
}

/// Hash of the active palette with every word written in the given byte
/// order. `rgb_bits[i]` holds the bit patterns of entry `i`'s red, green and
/// blue channels; only the size and the first `palette_size` entries are
/// hashed.
pub fn palette_key_in_order(little_endian: bool, palette_size: u32, rgb_bits: &[[u32; 3]]) -> (r:
    u64)
    ensures
        r == DefaultHasher::spec_finish(
            palette_key_writes(palette_size, rgb_bits@, little_endian),
        ),
{
    let n: usize = if (palette_size as usize) <= rgb_bits.len() {
        palette_size as usize
    } else {
        rgb_bits.len()
    };
    let ghost words = palette_key_words(palette_size, rgb_bits@);
    let ghost writes = palette_key_writes(palette_size, rgb_bits@, little_endian);
    let mut hasher = DefaultHasher::new();
    let size_bytes = word_bytes(palette_size, little_endian);
    hasher.write(&size_bytes);
    assert(hasher@ =~= writes.take(1));
    let mut i: usize = 0;
    while i < n
        invariant
            n == active_palette_len(palette_size, rgb_bits@.len()),
            n <= rgb_bits@.len(),
            i <= n,
            words == palette_key_words(palette_size, rgb_bits@),
            writes == palette_key_writes(palette_size, rgb_bits@, little_endian),
            writes.len() == 1 + 3 * n,
            hasher@ == writes.take(1 + 3 * i),
        decreases n - i,
    {
        let color = rgb_bits[i];
        let mut c: usize = 0;
        while c < 3
            invariant
                n == active_palette_len(palette_size, rgb_bits@.len()),
                n <= rgb_bits@.len(),
                i < n,
                c <= 3,
                color == rgb_bits@[i as int],
                words == palette_key_words(palette_size, rgb_bits@),
                writes == palette_key_writes(palette_size, rgb_bits@, little_endian),
                writes.len() == 1 + 3 * n,
                hasher@ == writes.take(1 + 3 * i + c),
            decreases 3 - c,
        {
            let bytes = word_bytes(color[c], little_endian);
            let ghost j = 3 * i + c;
            assert(j / 3 == i && j % 3 == c);
            assert(words[1 + j] == rgb_bits@[i as int][c as int]);
            assert(writes[1 + j] == u32_bytes_in_order(color[c as int], little_endian));
            hasher.write(&bytes);
            assert(hasher@ =~= writes.take(1 + 3 * i + c + 1));
            c = c + 1;
        }
        i = i + 1;
    }
    assert(writes.take(1 + 3 * n) =~= writes);
    hasher.finish()
}

/// Stable hash of the active palette, used to skip rebuilding the lookup
/// table when the palette is unchanged: each word goes to the hasher in the
/// target's native byte order, as hashing a `u32` writes it. Only the size
/// and the first `palette_size` entries are hashed, so alpha, dithering and
/// cutoff settings never change the key. Which byte order the target has is
/// the machine's; the key is the ordered hash for one of the two.
pub fn palette_key(palette_size: u32, rgb_bits: &[[u32; 3]]) -> (r: u64)
    ensures
        r == DefaultHasher::spec_finish(palette_key_writes(palette_size, rgb_bits@, true)) || r
            == DefaultHasher::spec_finish(palette_key_writes(palette_size, rgb_bits@, false)),
{
    let probe = u32_native_bytes(1);
    let little_endian = probe[0] == 1;
    palette_key_in_order(little_endian, palette_size, rgb_bits)
}

/// The key sees only what the lookup table is built from: two palettes of
/// the same size whose active entries have the same red, green and blue
/// bits get the same key, whatever lies past the active entries.
pub proof fn lemma_palette_key_ignores_inactive_entries(
    palette_size: u32,
    a: Seq<[u32; 3]>,
    b: Seq<[u32; 3]>,
    little_endian: bool,
)
    requires
        active_palette_len(palette_size, a.len()) == active_palette_len(palette_size, b.len()),
        forall|i: int| 0 <= i < active_palette_len(palette_size, a.len()) ==> #[trigger] a[i] == b[i],
    ensures
        palette_key_writes(palette_size, a, little_endian) == palette_key_writes(
            palette_size,
            b,
            little_endian,
        ),
{
    assert(palette_key_words(palette_size, a) =~= palette_key_words(palette_size, b));
}

/// The hashed words are the palette size followed by the red, green and
/// blue words of every active entry, in entry order: three words per active
/// entry and nothing else.
pub proof fn lemma_palette_key_words_layout(palette_size: u32, rgb_bits: Seq<[u32; 3]>, i: int, c: int)
    ensures
        palette_key_words(palette_size, rgb_bits).len() == 1 + 3 * active_palette_len(
            palette_size,
            rgb_bits.len(),
        ),
        active_palette_len(palette_size, rgb_bits.len()) == if palette_size as nat
            <= rgb_bits.len() {
            palette_size as int
        } else {
            rgb_bits.len() as int
        },
        palette_key_words(palette_size, rgb_bits)[0] == palette_size,
        0 <= i < active_palette_len(palette_size, rgb_bits.len()) && 0 <= c < 3 ==> palette_key_words(
            palette_size,
            rgb_bits,
        )[1 + 3 * i + c] == rgb_bits[i][c],
{
    if 0 <= i < active_palette_len(palette_size, rgb_bits.len()) && 0 <= c < 3 {
        let j = 3 * i + c;
        assert(j / 3 == i && j % 3 == c);
    }
}

/// Each word reaches the hasher as its four bytes, lowest first for a
/// little-endian order and highest first otherwise: the bytes read back in
/// that order rebuild the word.
pub proof fn lemma_word_bytes_rebuild_the_word(w: u32, little_endian: bool)
    ensures
        u32_bytes_in_order(w, little_endian).len() == 4,
        little_endian ==> ({
            let b = u32_bytes_in_order(w, little_endian);
            b[0] as int + 256 * b[1] + 65536 * b[2] + 16777216 * b[3] == w
        }),
        !little_endian ==> ({
            let b = u32_bytes_in_order(w, little_endian);
            b[3] as int + 256 * b[2] + 65536 * b[1] + 16777216 * b[0] == w
        }),
{
    let b0 = (w & 0xff) as u8;
    let b1 = ((w >> 8) & 0xff) as u8;
    let b2 = ((w >> 16) & 0xff) as u8;
    let b3 = ((w >> 24) & 0xff) as u8;
    assert(b0 as u32 + 256 * (b1 as u32) + 65536 * (b2 as u32) + 16777216 * (b3 as u32) == w)
        by (bit_vector)
        requires
            b0 == (w & 0xff) as u8,
            b1 == ((w >> 8) & 0xff) as u8,
            b2 == ((w >> 16) & 0xff) as u8,
            b3 == ((w >> 24) & 0xff) as u8,
    ;
    assert(u32_le_bytes(w) =~= seq![b0, b1, b2, b3]);
}

/// The writes the hasher receives are one per hashed word, each that word's
/// bytes in the chosen order.
pub proof fn lemma_palette_key_writes_layout(
    palette_size: u32,
    rgb_bits: Seq<[u32; 3]>,
    little_endian: bool,
    j: int,
)
    ensures
        palette_key_writes(palette_size, rgb_bits, little_endian).len() == palette_key_words(
            palette_size,
            rgb_bits,
        ).len(),
        0 <= j < palette_key_words(palette_size, rgb_bits).len() ==> palette_key_writes(
            palette_size,
            rgb_bits,
            little_endian,
        )[j] == u32_bytes_in_order(palette_key_words(palette_size, rgb_bits)[j], little_endian),
{
}

/// Every active channel reaches the key: two palettes of the same size that
/// differ in any channel of any active entry hand the hasher different
/// writes, so an edit to any active color forces a new key computation.
pub proof fn lemma_palette_key_sees_every_active_channel(
    palette_size: u32,
    a: Seq<[u32; 3]>,
    b: Seq<[u32; 3]>,
    little_endian: bool,
    i: int,
    c: int,
)
    requires
        active_palette_len(palette_size, a.len()) == active_palette_len(palette_size, b.len()),
        0 <= i < active_palette_len(palette_size, a.len()),
        0 <= c < 3,
        a[i][c] != b[i][c],
    ensures
        palette_key_writes(palette_size, a, little_endian) != palette_key_writes(
            palette_size,
            b,
            little_endian,
        ),
{
    lemma_palette_key_words_layout(palette_size, a, i, c);
    lemma_palette_key_words_layout(palette_size, b, i, c);
    let j = 1 + 3 * i + c;
    lemma_palette_key_writes_layout(palette_size, a, little_endian, j);
    lemma_palette_key_writes_layout(palette_size, b, little_endian, j);
    lemma_word_bytes_rebuild_the_word(a[i][c], little_endian);
    lemma_word_bytes_rebuild_the_word(b[i][c], little_endian);
    if palette_key_writes(palette_size, a, little_endian) == palette_key_writes(
        palette_size,
        b,
        little_endian,
    ) {
        assert(u32_bytes_in_order(a[i][c], little_endian) == u32_bytes_in_order(
            b[i][c],
            little_endian,
        ));
    }
}

} // verus!
