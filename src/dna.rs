//! Dna of kitties: the per-bit mixing rule used by breeding, and the random
//! value drawn from a seed context.
use vstd::prelude::*;
use parity_scale_codec::Encode;

verus! {

/// Number of bytes in a dna (and in a breeding selector).
pub const DNA_LEN: usize = 16;

/// The per-byte mixing rule: bits of `a` where `s` has a one, bits of `b`
/// where it has a zero.
pub open spec fn mix_byte(s: u8, a: u8, b: u8) -> u8 {
    (s & a) | (!s & b)
}

/// The dna of an offspring of `a` and `b` under `selector`, byte by byte.
pub open spec fn mixed(selector: Seq<u8>, a: Seq<u8>, b: Seq<u8>) -> Seq<u8> {
    Seq::new(16, |i: int| mix_byte(selector[i], a[i], b[i]))
}

/// Bit `j` of a byte sequence, counting from the lowest bit of the first byte.
pub open spec fn bit_of(s: Seq<u8>, j: int) -> u8 {
    (s[j / 8] >> ((j % 8) as u8)) & 1u8
}

/// Each bit of one mixed byte comes from `a` where the selector bit is set,
/// from `b` where it is clear.
pub proof fn lemma_mix_byte_bits(s: u8, a: u8, b: u8, k: u8)
    requires
        k < 8,
    ensures
        (mix_byte(s, a, b) >> k) & 1u8 == if (s >> k) & 1u8 == 1u8 {
            (a >> k) & 1u8
        } else {
            (b >> k) & 1u8
        },
{
    assert(((s & a) | (!s & b)) >> k & 1u8 == if (s >> k) & 1u8 == 1u8 {
        (a >> k) & 1u8
    } else {
        (b >> k) & 1u8
    }) by (bit_vector)
        requires
            k < 8,
    ;
}

/// Breeding is a per-bit law, independent of byte boundaries: every one of the
/// 128 bits of the offspring is the first parent's bit where the selector bit
/// is one, and the second parent's bit where it is zero.
pub proof fn lemma_mixed_bits(selector: Seq<u8>, a: Seq<u8>, b: Seq<u8>)
    requires
        selector.len() == 16,
        a.len() == 16,
        b.len() == 16,
    ensures
        forall|j: int|
            0 <= j < 128 ==> #[trigger] bit_of(mixed(selector, a, b), j) == if bit_of(selector, j)
                == 1u8 {
                bit_of(a, j)
            } else {
                bit_of(b, j)
            },
{
    assert forall|j: int| 0 <= j < 128 implies #[trigger] bit_of(mixed(selector, a, b), j)
        == if bit_of(selector, j) == 1u8 {
        bit_of(a, j)
    } else {
        bit_of(b, j)
    } by {
        let i = j / 8;
        let k = (j % 8) as u8;
        lemma_mix_byte_bits(selector[i], a[i], b[i], k);
    }
}

/// The dna of an offspring: each bit from `dna1` where `selector` has a one,
/// from `dna2` where it has a zero.
pub fn mix_dna(selector: &[u8; 16], dna1: &[u8; 16], dna2: &[u8; 16]) -> (r: [u8; 16])
    ensures
        r@ == mixed(selector@, dna1@, dna2@),
{
    let mut new_dna = [0u8; 16];
    let mut i: usize = 0;
    while i < DNA_LEN
        invariant
            i <= 16,
            new_dna@.len() == 16,
            forall|k: int| 0 <= k < i ==> new_dna@[k] == mix_byte(selector@[k], dna1@[k], dna2@[k]),
        decreases 16 - i,
    {
        let byte = (selector[i] & dna1[i]) | (!selector[i] & dna2[i]);
        new_dna[i] = byte;
        i += 1;
    }
    assert(new_dna@ =~= mixed(selector@, dna1@, dna2@));
    new_dna
}

/// The seed context that a random value is drawn from: the output of the
/// randomness source with the block it was taken at, and the index of the
/// pending request in its block.
#[derive(Clone, Copy, Debug, PartialEq, Eq)]
pub struct SeedContext {
    pub random_seed: [u8; 32],
    pub block_number: u64,
    pub extrinsic_index: Option<u32>,
}

/// The little-endian bytes of the lowest `n` bytes of `x`.
pub open spec fn le_bytes(x: nat, n: nat) -> Seq<u8> {
    Seq::new(n, |i: int| ((x / pow256(i as nat)) % 256) as u8)
}

/// 256 to the power `i`.
pub open spec fn pow256(i: nat) -> nat
    decreases i,
{
    if i == 0 {
        1
    } else {
        256 * pow256((i - 1) as nat)
    }
}

/// The SCALE encoding of an optional `u32`: a tag byte, then the value.
pub open spec fn option_u32_bytes(o: Option<u32>) -> Seq<u8> {
    match o {
        Some(v) => seq![1u8] + le_bytes(v as nat, 4),
        None => seq![0u8],
    }
}

/// The bytes that a random value is hashed from, for `sender` under `ctx`:
/// the SCALE encoding of `((random_seed, block_number), sender, extrinsic_index)`.
pub open spec fn seed_payload(ctx: SeedContext, sender: u64) -> Seq<u8> {
    ctx.random_seed@ + le_bytes(ctx.block_number as nat, 8) + le_bytes(sender as nat, 8)
        + option_u32_bytes(ctx.extrinsic_index)
}

/// The 128-bit Blake2 digest of a byte sequence.
pub uninterp spec fn blake2_128_of(data: Seq<u8>) -> Seq<u8>;

/// Relies on parity_scale_codec's `Encode` for a tuple: the encodings of its
/// parts one after the other; a byte array as its bytes, a `u64` in eight
/// little-endian bytes, an `Option` as a tag byte followed by the value.
#[verifier::external_body]
fn encode_seed_payload(ctx: &SeedContext, sender: u64) -> (r: Vec<u8>)
    ensures
        r@ == seed_payload(*ctx, sender),
{
    ((ctx.random_seed, ctx.block_number), sender, ctx.extrinsic_index).encode()
}

/// Relies on sp_io::hashing::blake2_128: a 16-byte digest that depends on the
/// bytes alone.
#[verifier::external_body]
fn blake2_128(data: &Vec<u8>) -> (r: [u8; 16])
    ensures
        r@ == blake2_128_of(data@),
{
    sp_io::hashing::blake2_128(data.as_slice())
}

/// The 16 random bytes drawn for `sender` under `ctx`: the Blake2 digest of
/// the encoded seed context.
pub fn random_value(ctx: &SeedContext, sender: u64) -> (r: [u8; 16])
    ensures
        r@ == blake2_128_of(seed_payload(*ctx, sender)),
{
    let payload = encode_seed_payload(ctx, sender);
    blake2_128(&payload)
}

} // verus!
