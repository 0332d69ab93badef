//! The outside cryptographic primitives the generators are built on.

use vstd::prelude::*;
use rand::RngCore;
use rand::SeedableRng;
use aes::cipher::BlockEncrypt;
use aes::cipher::KeyInit;

verus! {

/// The first `len` bytes of the ChaCha8 stream of `rand_chacha` seeded from `seed`
/// through `SeedableRng::seed_from_u64`.
pub uninterp spec fn chacha8_stream(seed: u64, len: nat) -> Seq<u8>;

/// AES-128 encryption of the 16-byte `block` under the 16-byte `key`.
pub uninterp spec fn aes128_encrypt(key: Seq<u8>, block: Seq<u8>) -> Seq<u8>;

/// The first `len` bytes of the extendable output of BLAKE3 keyed with `key`
/// over `input`.
pub uninterp spec fn blake3_keyed_xof(key: Seq<u8>, input: Seq<u8>, len: nat) -> Seq<u8>;

/// Relies on `rand_chacha::ChaCha8Rng::seed_from_u64` followed by
/// `RngCore::fill_bytes`: `len` bytes drawn from the seeded stream.
#[verifier::external_body]
pub(crate) fn seeded_bytes(seed: u64, len: usize) -> (r: Vec<u8>)
    ensures
        r@ == chacha8_stream(seed, len as nat),
        r@.len() == len,
{
    let mut rng = rand_chacha::ChaCha8Rng::seed_from_u64(seed);
    let mut out = vec![0u8; len];
    rng.fill_bytes(&mut out);
    out
}

/// Relies on `aes::Aes128` (`KeyInit::new_from_slice`, then
/// `BlockEncrypt::encrypt_block`): one block encrypted under `key`.
#[verifier::external_body]
pub(crate) fn aes128_block(key: &[u8], block: &[u8]) -> (r: Vec<u8>)
    requires
        key@.len() == 16,
        block@.len() == 16,
    ensures
        r@ == aes128_encrypt(key@, block@),
        r@.len() == 16,
{
    let cipher = aes::Aes128::new_from_slice(key).unwrap();
    let mut b = aes::Block::clone_from_slice(block);
    cipher.encrypt_block(&mut b);
    b.to_vec()
}

/// Relies on `blake3::Hasher::new_keyed`, `Hasher::update`,
/// `Hasher::finalize_xof` and `OutputReader::fill`: `len` bytes of keyed
/// BLAKE3 output over `input`.
#[verifier::external_body]
pub(crate) fn keyed_xof(key: &[u8], input: &[u8], len: usize) -> (r: Vec<u8>)
    requires
        key@.len() == 32,
    ensures
        r@ == blake3_keyed_xof(key@, input@, len as nat),
        r@.len() == len,
{
    let key: [u8; 32] = key.try_into().unwrap();
    let mut out = vec![0u8; len];
    blake3::Hasher::new_keyed(&key).update(input).finalize_xof().fill(&mut out);
    out
}

} // verus!
