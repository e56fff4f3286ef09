use kitties::dna::{mix_dna, random_value, SeedContext};

#[test]
fn mix_takes_each_bit_from_the_selected_parent() {
    let mut selector = [0u8; 16];
    selector[0] = 0b1111_0000;
    selector[1] = 0xff;
    selector[15] = 0b1010_1010;
    let a = [0xaau8; 16];
    let b = [0x55u8; 16];
    let child = mix_dna(&selector, &a, &b);
    assert_eq!(child[0], 0b1010_0101);
    assert_eq!(child[1], 0xaa);
    assert_eq!(child[2], 0x55);
    assert_eq!(child[15], 0b1010_1010 & 0xaa | 0b0101_0101 & 0x55);
    for i in 0..16 {
        for k in 0..8 {
            let s = (selector[i] >> k) & 1;
            let expect = if s == 1 { (a[i] >> k) & 1 } else { (b[i] >> k) & 1 };
            assert_eq!((child[i] >> k) & 1, expect);
        }
    }
}

#[test]
fn mix_with_full_or_empty_selector_copies_a_parent() {
    let a: [u8; 16] = core::array::from_fn(|i| i as u8 * 17);
    let b: [u8; 16] = core::array::from_fn(|i| 255 - i as u8);
    assert_eq!(mix_dna(&[0xff; 16], &a, &b), a);
    assert_eq!(mix_dna(&[0; 16], &a, &b), b);
}

#[test]
fn random_value_is_the_digest_of_the_encoded_context() {
    let ctx = SeedContext { random_seed: [1u8; 32], block_number: 0x0102, extrinsic_index: Some(5) };
    let mut payload: Vec<u8> = vec![1u8; 32];
    payload.extend_from_slice(&0x0102u64.to_le_bytes());
    payload.extend_from_slice(&42u64.to_le_bytes());
    payload.push(1);
    payload.extend_from_slice(&5u32.to_le_bytes());
    assert_eq!(random_value(&ctx, 42), sp_io::hashing::blake2_128(&payload));
    let none = SeedContext { extrinsic_index: None, ..ctx };
    let mut payload2: Vec<u8> = vec![1u8; 32];
    payload2.extend_from_slice(&0x0102u64.to_le_bytes());
    payload2.extend_from_slice(&42u64.to_le_bytes());
    payload2.push(0);
    assert_eq!(random_value(&none, 42), sp_io::hashing::blake2_128(&payload2));
}

#[test]
fn random_value_depends_on_sender_and_context() {
    let ctx = SeedContext { random_seed: [0u8; 32], block_number: 1, extrinsic_index: Some(0) };
    let other = SeedContext { extrinsic_index: Some(1), ..ctx };
    assert_ne!(random_value(&ctx, 1), random_value(&ctx, 2));
    assert_ne!(random_value(&ctx, 1), random_value(&other, 1));
    assert_eq!(random_value(&ctx, 1), random_value(&ctx, 1));
    assert_ne!(random_value(&ctx, 1), [0u8; 16]);
}
