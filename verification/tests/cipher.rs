use aes::cipher::{KeyIvInit, StreamCipher};
use hazmat::cipher::{split_key, BlockCipher, ARGON2_LANES, ARGON2_MEMORY, ARGON2_PASSES};

fn derived(seed: u8) -> [u8; 56] {
    let mut bytes = [0u8; 56];
    for (i, b) in bytes.iter_mut().enumerate() {
        *b = seed.wrapping_mul(31).wrapping_add(i as u8 * 7);
    }
    bytes
}

#[test]
fn sector_encryption_round_trips_without_overwriting_memory() {
    let cipher = BlockCipher::new("test password").unwrap();
    let original = [0x5a; 512];
    let mut block = original;

    cipher.encrypt_sector(42, &mut block);
    assert_ne!(block, original);

    cipher.decrypt_sector(42, &mut block);
    assert_eq!(block, original);
}

// The expected bytes were computed with the Argon2id of OpenSSL.
#[test]
fn keys_come_from_argon2id_with_the_fixed_salt() {
    let (key, iv, xor_key) = BlockCipher::derive_key("pass phrase").unwrap();
    assert_eq!(
        key,
        [
            0x63, 0xe5, 0x47, 0xc9, 0x20, 0xfd, 0xe6, 0x35, 0x1d, 0x4c, 0xaa, 0x31, 0x08, 0x2e,
            0xc3, 0x34, 0x58, 0x13, 0x9a, 0x90, 0x9c, 0xfb, 0x5a, 0x8e, 0x95, 0x58, 0x50, 0xbe,
            0x78, 0x6d, 0xb0, 0xfd,
        ]
    );
    assert_eq!(
        iv,
        [
            0xe9, 0xa9, 0x0c, 0x37, 0x5b, 0x6f, 0x8c, 0xca, 0xdc, 0xa6, 0x2c, 0x0a, 0x8f, 0x20,
            0x6b, 0x89,
        ]
    );
    assert_eq!(xor_key, 0x25972b430ee472a4);
    assert_eq!((ARGON2_MEMORY, ARGON2_PASSES, ARGON2_LANES), (262_144, 4, 4));
}

#[test]
fn derived_keys_are_cut_in_three() {
    let mut bytes = [0u8; 56];
    for (i, b) in bytes.iter_mut().enumerate() {
        *b = i as u8;
    }
    let (key, iv, xor_key) = split_key(&bytes);
    assert_eq!(key[0], 0);
    assert_eq!(key[31], 31);
    assert_eq!(iv[0], 32);
    assert_eq!(iv[15], 47);
    assert_eq!(xor_key, 0x3736_3534_3332_3130);
}

// The first block of the AES-256 counter mode example of NIST SP 800-38A.
#[test]
fn first_block_matches_the_published_example() {
    let key: [u8; 32] = [
        0x60, 0x3d, 0xeb, 0x10, 0x15, 0xca, 0x71, 0xbe, 0x2b, 0x73, 0xae, 0xf0, 0x85, 0x7d, 0x77,
        0x81, 0x1f, 0x35, 0x2c, 0x07, 0x3b, 0x61, 0x08, 0xd7, 0x2d, 0x98, 0x10, 0xa3, 0x09, 0x14,
        0xdf, 0xf4,
    ];
    let mut bytes = [0u8; 56];
    bytes[..32].copy_from_slice(&key);
    for i in 0..16u8 {
        bytes[32 + i as usize] = 0xf0 + i;
    }
    let cipher = BlockCipher::from_derived(&bytes);
    let mut block = [0u8; 16];
    cipher.encrypt_sector(0, &mut block);
    assert_eq!(
        block,
        [
            0x0b, 0xdf, 0x7d, 0xf1, 0x59, 0x17, 0x16, 0x33, 0x5f, 0x9a, 0x8b, 0x15, 0xc8, 0x60,
            0xc5, 0x02,
        ]
    );
}

#[test]
fn sectors_are_the_key_stream_and_the_sector_stream() {
    let bytes = derived(3);
    let (key, iv, xor_key) = split_key(&bytes);
    let cipher = BlockCipher::from_derived(&bytes);
    let lba = 0xffff_ffff_ffff_fff0_u64;
    let mut block: Vec<u8> = (0..512u32).map(|i| (i * 5) as u8).collect();
    let mut expected = block.clone();
    ctr::Ctr64LE::<aes::Aes256>::new(&key.into(), &iv.into()).apply_keystream(&mut expected);
    for (k, word) in expected.chunks_exact_mut(8).enumerate() {
        let stream = xor_key.wrapping_add(lba).wrapping_add(k as u64).to_le_bytes();
        for (b, s) in word.iter_mut().zip(stream) {
            *b ^= s;
        }
    }
    cipher.encrypt_sector(lba, &mut block);
    assert_eq!(block, expected);
}

#[test]
fn sector_stream_counts_up_and_wraps() {
    let mut bytes = [0u8; 56];
    bytes[48..].copy_from_slice(&u64::MAX.to_le_bytes());
    let cipher = BlockCipher::from_derived(&bytes);
    let mut block = [0u8; 24];
    cipher.xor_walk(0, &mut block);
    assert_eq!(block[..8], [0xff; 8]);
    assert_eq!(block[8..16], [0; 8]);
    assert_eq!(block[16..], [1, 0, 0, 0, 0, 0, 0, 0]);
    cipher.xor_walk(0, &mut block);
    assert_eq!(block, [0u8; 24]);
}

#[test]
fn equal_sectors_differ_on_disk() {
    let cipher = BlockCipher::from_derived(&derived(1));
    let mut a = [0x11u8; 512];
    let mut b = [0x11u8; 512];
    cipher.encrypt_sector(7, &mut a);
    cipher.encrypt_sector(8, &mut b);
    assert_ne!(a, b);
}

#[test]
fn another_sector_number_does_not_recover_the_plaintext() {
    let cipher = BlockCipher::from_derived(&derived(2));
    let original = [0x77u8; 512];
    let mut block = original;
    cipher.encrypt_sector(100, &mut block);
    cipher.decrypt_sector(101, &mut block);
    assert_ne!(block, original);
}

#[test]
fn empty_blocks_stay_empty() {
    let cipher = BlockCipher::from_derived(&derived(4));
    let mut block: [u8; 0] = [];
    cipher.encrypt_sector(1, &mut block);
    cipher.decrypt_sector(1, &mut block);
    assert_eq!(block.len(), 0);
}
