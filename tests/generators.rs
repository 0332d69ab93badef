use aes::cipher::{BlockEncrypt, KeyInit};
use disk_spinner::encoding::encode_le;
use disk_spinner::garbage::{GarbageGenerator, GarbageGeneratorVariant};
use rand::{RngCore, SeedableRng};
use std::collections::HashSet;

fn chacha_key(seed: u64, len: usize) -> Vec<u8> {
    let mut rng = rand_chacha::ChaCha8Rng::seed_from_u64(seed);
    let mut key = vec![0u8; len];
    rng.fill_bytes(&mut key);
    key
}

#[test]
fn same_parameters_give_the_same_bytes() {
    for variant in [GarbageGeneratorVariant::Aes, GarbageGeneratorVariant::Blake3] {
        let mut a = variant.to_generator(4096, 0xdead_beef);
        let mut b = variant.to_generator(4096, 0xdead_beef);
        for n in [4096usize, 8192, 4096, 3 * 4096] {
            assert_eq!(a.produce(n), b.produce(n));
        }
        assert_eq!(a.position(), b.position());
        assert_eq!(a.position(), 7 * 4096);
    }
}

#[test]
fn different_seeds_give_different_bytes() {
    for variant in [GarbageGeneratorVariant::Aes, GarbageGeneratorVariant::Blake3] {
        let mut a = variant.to_generator(512, 1);
        let mut b = variant.to_generator(512, 2);
        assert_ne!(a.produce(512), b.produce(512));
    }
}

#[test]
fn first_thousand_blocks_do_not_repeat() {
    for variant in [GarbageGeneratorVariant::Aes, GarbageGeneratorVariant::Blake3] {
        let mut g = variant.to_generator(64, 77);
        let mut seen: HashSet<Vec<u8>> = HashSet::new();
        for _ in 0..1200 {
            assert!(seen.insert(g.produce(64)));
        }
        assert_eq!(seen.len(), 1200);
    }
}

#[test]
fn aes_stream_is_counter_mode_over_zero_plaintext() {
    let seed = 1234u64;
    let key = chacha_key(seed, 16);
    let cipher = aes::Aes128::new_from_slice(&key).unwrap();
    let mut expected = Vec::new();
    for counter in 0u128..8 {
        let mut block = aes::Block::clone_from_slice(&counter.to_le_bytes());
        cipher.encrypt_block(&mut block);
        expected.extend_from_slice(&block);
    }
    let mut g = GarbageGeneratorVariant::Aes.to_generator(32, seed);
    let got = g.produce(128);
    assert_eq!(got, expected);
    assert_ne!(&got[..16], &0u128.to_le_bytes()[..]);
}

#[test]
fn aes_stream_continues_across_unaligned_block_sizes() {
    let mut whole = GarbageGeneratorVariant::Aes.to_generator(24, 8);
    let all = whole.produce(24 * 4);
    let mut parts = GarbageGeneratorVariant::Aes.to_generator(24, 8);
    let mut joined = Vec::new();
    for _ in 0..4 {
        joined.extend(parts.produce(24));
    }
    assert_eq!(all, joined);
}

#[test]
fn blake3_block_is_keyed_xof_over_block_index() {
    let seed = 99u64;
    let key: [u8; 32] = chacha_key(seed, 32).try_into().unwrap();
    let mut g = GarbageGeneratorVariant::Blake3.to_generator(100, seed);
    let got = g.produce(300);
    for i in 0u64..3 {
        let mut expected = vec![0u8; 100];
        blake3::Hasher::new_keyed(&key)
            .update(&i.to_le_bytes())
            .finalize_xof()
            .fill(&mut expected);
        assert_eq!(&got[(i as usize) * 100..(i as usize + 1) * 100], &expected[..]);
    }
}

#[test]
fn block_size_is_kept() {
    let g = GarbageGeneratorVariant::Blake3.to_generator(8192, 0);
    assert_eq!(g.block_size(), 8192);
    assert_eq!(g.position(), 0);
}

#[test]
fn variant_names() {
    assert_eq!(GarbageGeneratorVariant::from_name("AES"), Some(GarbageGeneratorVariant::Aes));
    assert_eq!(GarbageGeneratorVariant::from_name("BLAKE3"), Some(GarbageGeneratorVariant::Blake3));
    assert_eq!(GarbageGeneratorVariant::from_name("bLaKe3"), Some(GarbageGeneratorVariant::Blake3));
    assert_eq!(GarbageGeneratorVariant::from_name("shishua"), None);
    assert_eq!(GarbageGeneratorVariant::from_lowercase("AES"), None);
    assert_eq!(GarbageGeneratorVariant::from_lowercase("aes"), Some(GarbageGeneratorVariant::Aes));
    assert_eq!("Aes".parse::<GarbageGeneratorVariant>(), Ok(GarbageGeneratorVariant::Aes));
    assert!("rc4".parse::<GarbageGeneratorVariant>().is_err());
    assert_eq!(GarbageGeneratorVariant::Aes.label(), "AES");
    assert_eq!(GarbageGeneratorVariant::Blake3.label(), "BLAKE3");
}

#[test]
fn little_endian_encoding() {
    assert_eq!(encode_le(0x0102_0304, 4), vec![4, 3, 2, 1]);
    assert_eq!(encode_le(258, 8), vec![2, 1, 0, 0, 0, 0, 0, 0]);
    assert_eq!(encode_le(u128::MAX, 16), vec![255; 16]);
}
