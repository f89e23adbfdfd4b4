//! File fingerprints: the SHA-512 hex digest used by Modrinth and the
//! whitespace-insensitive Murmur2 fingerprint used by CurseForge.

use sha2::Digest;
use vstd::prelude::*;

verus! {

/// The SHA-512 digest of `data`.
pub uninterp spec fn spec_sha512(data: Seq<u8>) -> Seq<u8>;

/// Lower-case hexadecimal digit of a value below 16.
pub open spec fn hex_digit_lower(d: int) -> char {
    if d < 10 {
        (48 + d) as char
    } else {
        (87 + d) as char
    }
}

/// Lower-case hexadecimal text of `data`: two digits per byte, high nibble first.
pub open spec fn hex_lower(data: Seq<u8>) -> Seq<char> {
    Seq::new(
        2 * data.len(),
        |i: int|
            if i % 2 == 0 {
                hex_digit_lower(data[i / 2] as int / 16)
            } else {
                hex_digit_lower(data[i / 2] as int % 16)
            },
    )
}

/// The text under which Modrinth knows a file: the lower-case hex SHA-512 of its bytes.
pub open spec fn spec_hash_bytes(data: Seq<u8>) -> Seq<char> {
    hex_lower(spec_sha512(data))
}

/// `sha2::Sha512::digest`: the 64-byte SHA-512 digest of `data`. Trusted: the
/// result is the named digest of the input, and its length is the documented
/// output size of SHA-512.
#[verifier::external_body]
fn sha512_digest(data: &[u8]) -> (digest: Vec<u8>)
    ensures
        digest@ == spec_sha512(data@),
        digest@.len() == 64,
{
    sha2::Sha512::digest(data).to_vec()
}

/// `hex::encode`: each byte becomes two lower-case hex digits, high nibble
/// first. Trusted as the crate's source shows it (table `0123456789abcdef`).
#[verifier::external_body]
fn hex_encode(data: &[u8]) -> (text: String)
    ensures
        text@ == hex_lower(data@),
{
    hex::encode(data)
}

/// Hex-encoded SHA-512 of `data`, the identity Modrinth looks files up by.
pub fn hash_bytes(data: &[u8]) -> (hash: String)
    ensures
        hash@ == spec_hash_bytes(data@),
        hash@.len() == 128,
{
    let digest = sha512_digest(data);
    hex_encode(digest.as_slice())
}

/// Multiplier of the Murmur2 mixing steps.
pub const MURMUR_M: u32 = 0x5bd1e995;

/// Bytes that the CurseForge fingerprint ignores: tab, line feed, carriage return, space.
pub open spec fn is_fingerprint_whitespace(b: u8) -> bool {
    b == 9 || b == 10 || b == 13 || b == 32
}

/// The input with every fingerprint-whitespace byte removed.
pub open spec fn strip_whitespace(data: Seq<u8>) -> Seq<u8> {
    data.filter(|b: u8| !is_fingerprint_whitespace(b))
}

/// Little-endian 32-bit word starting at byte `i`.
pub open spec fn le_word(data: Seq<u8>, i: int) -> u32 {
    (data[i] as int + data[i + 1] as int * 0x100 + data[i + 2] as int * 0x1_0000
        + data[i + 3] as int * 0x100_0000) as u32
}

/// One Murmur2 block step.
pub open spec fn mix_word(h: u32, k: u32) -> u32 {
    let k1 = k.wrapping_mul(MURMUR_M);
    let k2 = k1 ^ (k1 >> 24u32);
    let k3 = k2.wrapping_mul(MURMUR_M);
    h.wrapping_mul(MURMUR_M) ^ k3
}

/// The hash state after mixing the first `n` complete 4-byte blocks into `h`.
pub open spec fn mix_blocks(data: Seq<u8>, h: u32, n: nat) -> u32
    decreases n,
{
    if n == 0 {
        h
    } else {
        mix_word(mix_blocks(data, h, (n - 1) as nat), le_word(data, 4 * (n - 1)))
    }
}

/// Mixing of the 0 to 3 trailing bytes that do not fill a block.
pub open spec fn mix_tail(data: Seq<u8>, h: u32) -> u32 {
    let rem = data.len() % 4;
    let i = data.len() - rem;
    let h1 = if rem >= 3 { h ^ ((data[i + 2] as u32) << 16u32) } else { h };
    let h2 = if rem >= 2 { h1 ^ ((data[i + 1] as u32) << 8u32) } else { h1 };
    if rem >= 1 { (h2 ^ (data[i] as u32)).wrapping_mul(MURMUR_M) } else { h2 }
}

/// Final avalanche of Murmur2.
pub open spec fn avalanche(h: u32) -> u32 {
    let h1 = h ^ (h >> 13u32);
    let h2 = h1.wrapping_mul(MURMUR_M);
    h2 ^ (h2 >> 15u32)
}

/// 32-bit Murmur2 of `data` with the given seed; the length enters the
/// initial state truncated to 32 bits.
pub open spec fn murmur2_seeded(data: Seq<u8>, seed: u32) -> u32 {
    avalanche(mix_tail(data, mix_blocks(data, seed ^ (data.len() as u32), data.len() / 4)))
}

/// The CurseForge fingerprint: Murmur2 with seed 1 of the input stripped of whitespace bytes.
pub open spec fn spec_murmur2(data: Seq<u8>) -> u32 {
    murmur2_seeded(strip_whitespace(data), 1)
}

/// The whole length enters Murmur2, as its low 32 bits: the state before the
/// first block is the seed XOR the length modulo 2^32, at every length a
/// byte slice can have.
pub proof fn law_murmur2_length_low_bits(data: Seq<u8>, seed: u32)
    requires
        data.len() <= usize::MAX,
    ensures
        murmur2_seeded(data, seed) == avalanche(
            mix_tail(data, mix_blocks(data, seed ^ ((data.len() % 0x1_0000_0000) as u32), data.len() / 4)),
        ),
{
    let n: u64 = data.len() as u64;
    assert(n as int == data.len());
    assert(n as u32 == (n % 0x1_0000_0000u64) as u32) by (bit_vector);
    assert((n % 0x1_0000_0000u64) as int == data.len() % 0x1_0000_0000);
}

/// On empty data Murmur2 is the avalanche of the seed alone; with seed 0 it is 0.
pub proof fn law_murmur2_empty(seed: u32)
    ensures
        murmur2_seeded(Seq::empty(), seed) == avalanche(seed),
        murmur2_seeded(Seq::empty(), 0) == 0,
{
    assert(seed ^ 0u32 == seed) by (bit_vector);
    let h1: u32 = 0u32 ^ (0u32 >> 13u32);
    assert(h1 == 0u32) by (bit_vector)
        requires
            h1 == 0u32 ^ (0u32 >> 13u32),
    ;
    let h2: u32 = h1.wrapping_mul(MURMUR_M);
    assert(h2 == 0u32);
    let h3: u32 = h2 ^ (h2 >> 15u32);
    assert(h3 == 0u32) by (bit_vector)
        requires
            h2 == 0u32,
            h3 == h2 ^ (h2 >> 15u32),
    ;
    assert(avalanche(0u32) == h3);
    assert(0u32 ^ 0u32 == 0u32) by (bit_vector);
    let e = Seq::<u8>::empty();
    assert(mix_blocks(e, 0u32, 0) == 0u32);
    assert(mix_tail(e, 0u32) == 0u32);
    assert(murmur2_seeded(e, 0u32) == avalanche(0u32));
}

proof fn lemma_strip_idempotent(data: Seq<u8>)
    ensures
        strip_whitespace(strip_whitespace(data)) == strip_whitespace(data),
    decreases data.len(),
{
    reveal_with_fuel(Seq::<_>::filter, 1);
    if data.len() > 0 {
        lemma_strip_idempotent(data.drop_last());
        let r = strip_whitespace(data.drop_last());
        if !is_fingerprint_whitespace(data.last()) {
            assert(strip_whitespace(data) == r.push(data.last()));
            assert(r.push(data.last()).drop_last() =~= r);
        }
    }
}

/// Stripping removes exactly the whitespace bytes: none is left, every
/// other byte is kept in order, and a whitespace byte added at the end
/// changes nothing.
pub proof fn law_strip_whitespace(data: Seq<u8>, b: u8)
    ensures
        forall|i: int| 0 <= i < strip_whitespace(data).len() ==> !is_fingerprint_whitespace(
            #[trigger] strip_whitespace(data)[i],
        ),
        !is_fingerprint_whitespace(b) ==> strip_whitespace(data.push(b)) == strip_whitespace(data).push(b),
        is_fingerprint_whitespace(b) ==> strip_whitespace(data.push(b)) == strip_whitespace(data),
{
    let pred = |x: u8| !is_fingerprint_whitespace(x);
    assert forall|i: int| 0 <= i < strip_whitespace(data).len() implies !is_fingerprint_whitespace(
        #[trigger] strip_whitespace(data)[i],
    ) by {
        data.lemma_filter_pred(pred, i);
    }
    reveal_with_fuel(Seq::<_>::filter, 1);
    assert(data.push(b).drop_last() =~= data);
}

/// The fingerprint ignores whitespace: stripping whitespace first changes nothing.
pub proof fn law_fingerprint_ignores_whitespace(data: Seq<u8>)
    ensures
        spec_murmur2(strip_whitespace(data)) == spec_murmur2(data),
{
    lemma_strip_idempotent(data);
}

fn strip_fingerprint_whitespace(data: &[u8]) -> (out: Vec<u8>)
    ensures
        out@ == strip_whitespace(data@),
{
    let mut out: Vec<u8> = Vec::new();
    let mut i: usize = 0;
    while i < data.len()
        invariant
            i <= data@.len(),
            out@ == data@.take(i as int).filter(|b: u8| !is_fingerprint_whitespace(b)),
        decreases data@.len() - i,
    {
        let b = data[i];
        proof {
            reveal_with_fuel(Seq::<_>::filter, 1);
            assert(data@.take(i + 1).drop_last() =~= data@.take(i as int));
        }
        if !(b == 9 || b == 10 || b == 13 || b == 32) {
            out.push(b);
        }
        i = i + 1;
    }
    assert(data@.take(data@.len() as int) =~= data@);
    out
}

fn murmur2_raw(data: &[u8], seed: u32) -> (h: u32)
    ensures
        h == murmur2_seeded(data@, seed),
{
    let len = data.len();
    let mut h: u32 = seed ^ (len as u32);
    let ghost h0 = h;
    let mut i: usize = 0;
    while len - i >= 4
        invariant
            len == data@.len(),
            i <= len,
            i % 4 == 0,
            h0 == seed ^ (data@.len() as u32),
            h == mix_blocks(data@, h0, (i / 4) as nat),
        decreases len - i,
    {
        let k0: u32 = (data[i] as u32) + (data[i + 1] as u32) * 0x100 + (data[i + 2] as u32)
            * 0x1_0000 + (data[i + 3] as u32) * 0x100_0000;
        assert(k0 == le_word(data@, i as int));
        let mut k = k0.wrapping_mul(MURMUR_M);
        k = k ^ (k >> 24u32);
        k = k.wrapping_mul(MURMUR_M);
        h = h.wrapping_mul(MURMUR_M);
        h = h ^ k;
        assert(((i + 4) / 4) as nat == (i / 4) as nat + 1);
        i = i + 4;
    }
    assert(i == len - len % 4);
    assert(i / 4 == len / 4);
    let remaining = len - i;
    if remaining >= 3 {
        h = h ^ ((data[i + 2] as u32) << 16u32);
    }
    if remaining >= 2 {
        h = h ^ ((data[i + 1] as u32) << 8u32);
    }
    if remaining >= 1 {
        h = h ^ (data[i] as u32);
        h = h.wrapping_mul(MURMUR_M);
    }
    h = h ^ (h >> 13u32);
    h = h.wrapping_mul(MURMUR_M);
    h = h ^ (h >> 15u32);
    h
}

/// CurseForge Murmur2 fingerprint: strip whitespace bytes then hash with seed 1.
pub fn murmur2(data: &[u8]) -> (h: u32)
    ensures
        h == spec_murmur2(data@),
{
    let filtered = strip_fingerprint_whitespace(data);
    murmur2_raw(filtered.as_slice(), 1)
}

} // verus!
