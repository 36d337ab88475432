//! The sector cipher of the hidden volume.

use aes::cipher::{KeyIvInit, StreamCipher};
use vstd::prelude::*;
use vstd::string::*;

use crate::error::HazmatError;
use crate::utils::{
    le_bytes, le_value, lemma_le_bytes_len, lemma_le_bytes_of_value, lemma_le_round_trip,
    lemma_pow256_values, put_le, read_le_u64,
};

verus! {

/// An error of the Argon2 implementation.
#[verifier::external_type_specification]
#[verifier::external_body]
pub struct ExArgonError(argon2::Error);

/// The Argon2id hash, version 0x13, of `len` bytes.
pub uninterp spec fn argon2id_hash(
    password: Seq<u8>,
    salt: Seq<u8>,
    m_cost: u32,
    t_cost: u32,
    p_cost: u32,
    len: nat,
) -> Seq<u8>;

/// The first `len` bytes of the AES-256-CTR key stream with a 64-bit
/// little-endian counter.
pub uninterp spec fn aes256_ctr64le_keystream(key: Seq<u8>, iv: Seq<u8>, len: nat) -> Seq<u8>;

/// Calls `argon2::Argon2::hash_password_into` for Argon2id, version 0x13, with
/// parameters that `argon2::Params::new` accepts. It fails exactly on a password
/// or a salt of a length out of its range, and then leaves `out` alone. Else
/// `out` holds the hash, which depends on nothing but the password, the salt,
/// the costs and the length asked for.
#[verifier::external_body]
fn argon2id(
    password: &[u8],
    salt: &[u8],
    m_cost: u32,
    t_cost: u32,
    p_cost: u32,
    out: &mut [u8],
) -> (result: Result<(), argon2::Error>)
    requires
        8 <= m_cost,
        p_cost * 8 <= m_cost,
        m_cost * 1024 <= isize::MAX,
        1 <= t_cost,
        1 <= p_cost <= 0xff_ffff,
        4 <= old(out)@.len() <= 0xffff_ffff,
    ensures
        match result {
            Ok(()) => {
                &&& password@.len() <= 0xffff_ffff
                &&& 8 <= salt@.len() <= 0xffff_ffff
                &&& final(out)@.len() == old(out)@.len()
                &&& final(out)@ == argon2id_hash(
                    password@,
                    salt@,
                    m_cost,
                    t_cost,
                    p_cost,
                    old(out)@.len(),
                )
            },
            Err(_) => {
                &&& password@.len() > 0xffff_ffff || salt@.len() < 8 || salt@.len() > 0xffff_ffff
                &&& final(out)@ == old(out)@
            },
        },
{
    let params = argon2::Params::new(m_cost, t_cost, p_cost, Some(out.len()))?;
    let argon2 = argon2::Argon2::new(argon2::Algorithm::Argon2id, argon2::Version::V0x13, params);
    argon2.hash_password_into(password, salt, out)
}

/// Calls `apply_keystream` of a fresh `ctr::Ctr64LE` over `aes::Aes256`. It
/// combines each byte by exclusive or with the byte of the key stream at its
/// place; the key stream depends on the key and the initial counter block
/// alone.
#[verifier::external_body]
fn aes256_ctr64le(key: &[u8; 32], iv: &[u8; 16], data: &mut [u8])
    ensures
        final(data)@ == xor_bytes(
            old(data)@,
            aes256_ctr64le_keystream(key@, iv@, old(data)@.len()),
        ),
{
    ctr::Ctr64LE::<aes::Aes256>::new(key.into(), iv.into()).apply_keystream(data)
}

/// Memory that a key derivation takes, in kibibytes.
pub const ARGON2_MEMORY: u32 = 262_144;

/// Passes of a key derivation.
pub const ARGON2_PASSES: u32 = 4;

/// Lanes of a key derivation.
pub const ARGON2_LANES: u32 = 4;

/// Salt of the first format version. It is fixed, as the same password must
/// give the same cipher each time a device is opened.
pub const VER1_SALT: [u8; 64] = [
    0x8f, 0x4e, 0xed, 0x36, 0x7a, 0x66, 0xaf, 0x12, 0x5c, 0x41, 0x7e, 0x3a, 0x6b, 0x6c, 0x1d, 0xc8,
    0x11, 0x15, 0x1a, 0x8a, 0x0c, 0x7a, 0x25, 0xb5, 0x6c, 0x71, 0x92, 0x23, 0x9f, 0xda, 0xa8, 0x79,
    0x2e, 0x7f, 0xb6, 0x0b, 0x5d, 0x06, 0xa7, 0x54, 0x4f, 0xeb, 0x26, 0x28, 0x74, 0x28, 0xd4, 0x82,
    0x8d, 0x98, 0xc5, 0x4a, 0x51, 0x17, 0x4b, 0xc2, 0xc9, 0xd3, 0x6d, 0x11, 0x54, 0x9f, 0x92, 0xb1,
];

/// `a` and `b` combined byte by byte by exclusive or.
pub open spec fn xor_bytes(a: Seq<u8>, b: Seq<u8>) -> Seq<u8> {
    Seq::new(a.len(), |i: int| a[i] ^ b[i])
}

/// The secrets of a cipher.
pub struct CipherKeys {
    /// AES key.
    pub key: Seq<u8>,
    /// Initial counter block.
    pub iv: Seq<u8>,
    /// Seed of the sector stream.
    pub xor_key: u64,
}

/// The secrets that a derived key is cut into.
pub open spec fn keys_of(derived: Seq<u8>) -> CipherKeys {
    CipherKeys {
        key: derived.subrange(0, 32),
        iv: derived.subrange(32, 48),
        xor_key: le_value(derived.subrange(48, 56)) as u64,
    }
}

/// The secrets that a password stands for.
pub open spec fn password_keys(password: Seq<u8>) -> CipherKeys {
    keys_of(
        argon2id_hash(password, VER1_SALT@, ARGON2_MEMORY, ARGON2_PASSES, ARGON2_LANES, 56),
    )
}

/// Word `k` of the stream that a sector is mixed with.
pub open spec fn walk_word(xor_key: u64, lba: u64, k: int) -> nat {
    ((xor_key + lba + k) % 0x1_0000_0000_0000_0000) as nat
}

/// Byte `i` of the stream that a sector is mixed with.
pub open spec fn walk_byte(xor_key: u64, lba: u64, i: int) -> u8 {
    le_bytes(walk_word(xor_key, lba, i / 8), 8)[i % 8]
}

/// A block mixed with the stream of its sector.
pub open spec fn walked(s: Seq<u8>, xor_key: u64, lba: u64) -> Seq<u8> {
    Seq::new(s.len(), |i: int| s[i] ^ walk_byte(xor_key, lba, i))
}

/// A block encrypted for sector `lba`.
pub open spec fn encrypted(k: CipherKeys, lba: u64, s: Seq<u8>) -> Seq<u8> {
    walked(xor_bytes(s, aes256_ctr64le_keystream(k.key, k.iv, s.len())), k.xor_key, lba)
}

/// A block decrypted for sector `lba`.
pub open spec fn decrypted(k: CipherKeys, lba: u64, s: Seq<u8>) -> Seq<u8> {
    xor_bytes(walked(s, k.xor_key, lba), aes256_ctr64le_keystream(k.key, k.iv, s.len()))
}

proof fn lemma_xor_cancels(a: u8, b: u8, c: u8)
    by (bit_vector)
    ensures
        (a ^ b) ^ b == a,
        ((a ^ b) ^ c) ^ c == a ^ b,
        a ^ b == a ^ c ==> b == c,
{
}

/// Password-derived sector cipher used for project-specific encrypted blocks.
///
/// The password is stretched with Argon2id into three independent values:
/// a 256-bit AES key, a 128-bit CTR IV, and a 64-bit XOR seed. Encryption first
/// applies AES-256-CTR and then folds in the sector LBA through `xor_walk`.
/// Decryption performs the same reversible operations in the opposite order.
pub struct BlockCipher {
    key: [u8; 32],
    iv: [u8; 16],
    xor_key: u64,
}

impl View for BlockCipher {
    type V = CipherKeys;

    closed spec fn view(&self) -> CipherKeys {
        CipherKeys { key: self.key@, iv: self.iv@, xor_key: self.xor_key }
    }
}

/// Cuts a derived key into AES key, CTR IV and XOR seed.
pub fn split_key(derived: &[u8; 56]) -> (parts: ([u8; 32], [u8; 16], u64))
    ensures
        parts.0@ == keys_of(derived@).key,
        parts.1@ == keys_of(derived@).iv,
        parts.2 == keys_of(derived@).xor_key,
{
    let mut key: [u8; 32] = [0; 32];
    let mut iv: [u8; 16] = [0; 16];
    let mut i: usize = 0;
    while i < 32
        invariant
            i <= 32,
            forall|j: int| 0 <= j < i ==> key@[j] == derived@[j],
        decreases 32 - i,
    {
        key[i] = derived[i];
        i = i + 1;
    }
    i = 0;
    while i < 16
        invariant
            i <= 16,
            forall|j: int| 0 <= j < i ==> iv@[j] == derived@[j + 32],
        decreases 16 - i,
    {
        iv[i] = derived[i + 32];
        i = i + 1;
    }
    proof {
        assert(key@ =~= derived@.subrange(0, 32));
        assert(iv@ =~= derived@.subrange(32, 48));
    }
    (key, iv, read_le_u64(derived, 48))
}

impl BlockCipher {
    /// Derives the AES key, CTR IV and XOR seed from `password`.
    ///
    /// The fixed salt makes this deterministic: the same password gives the
    /// same block transform each time a device is opened.
    pub fn derive_key(password: &str) -> (result: Result<([u8; 32], [u8; 16], u64), HazmatError>)
        ensures
            match result {
                Ok(parts) => {
                    let k = password_keys(password.spec_bytes());
                    &&& password.spec_bytes().len() <= 0xffff_ffff
                    &&& parts.0@ == k.key
                    &&& parts.1@ == k.iv
                    &&& parts.2 == k.xor_key
                },
                Err(e) => password.spec_bytes().len() > 0xffff_ffff && e == HazmatError::KeyDerivation,
            },
    {
        let mut derived: [u8; 56] = [0; 56];
        let hashed = argon2id(
            password.as_bytes(),
            &VER1_SALT,
            ARGON2_MEMORY,
            ARGON2_PASSES,
            ARGON2_LANES,
            &mut derived,
        );
        match hashed {
            Ok(()) => Ok(split_key(&derived)),
            Err(_) => Err(HazmatError::KeyDerivation),
        }
    }

    /// Builds a cipher from a user password.
    pub fn new(password: &str) -> (result: Result<BlockCipher, HazmatError>)
        ensures
            match result {
                Ok(cipher) => password.spec_bytes().len() <= 0xffff_ffff && cipher@
                    == password_keys(password.spec_bytes()),
                Err(e) => password.spec_bytes().len() > 0xffff_ffff && e == HazmatError::KeyDerivation,
            },
    {
        match Self::derive_key(password) {
            Ok((key, iv, xor_key)) => Ok(BlockCipher { key, iv, xor_key }),
            Err(e) => Err(e),
        }
    }

    /// Builds a cipher from a derived key.
    pub fn from_derived(derived: &[u8; 56]) -> (cipher: BlockCipher)
        ensures
            cipher@ == keys_of(derived@),
    {
        let (key, iv, xor_key) = split_key(derived);
        BlockCipher { key, iv, xor_key }
    }

    /// Mixes a block with a deterministic 64-bit stream derived from `lba`.
    ///
    /// This pass makes two equal plaintext sectors encrypt differently at
    /// different LBAs, while remaining reversible because XOR is its own
    /// inverse.
    pub fn xor_walk(&self, lba: u64, block: &mut [u8])
        requires
            old(block)@.len() % 8 == 0,
        ensures
            final(block)@ == walked(old(block)@, self@.xor_key, lba),
    {
        let word_count: usize = block.len() / 8;
        let base_key: u64 = self.xor_key.wrapping_add(lba);
        let ghost before = block@;
        let mut offset: usize = 0;
        proof {
            assert(block.len() == block@.len());
        }
        while offset < word_count
            invariant
                offset <= word_count,
                word_count * 8 == before.len() <= usize::MAX,
                block@.len() == before.len(),
                base_key == (self@.xor_key + lba) % 0x1_0000_0000_0000_0000,
                forall|i: int|
                    0 <= i < offset * 8 ==> #[trigger] block@[i] == before[i] ^ walk_byte(
                        self@.xor_key,
                        lba,
                        i,
                    ),
                forall|i: int| offset * 8 <= i < before.len() ==> #[trigger] block@[i] == before[i],
            decreases word_count - offset,
        {
            let xor_key: u64 = base_key.wrapping_add(offset as u64);
            let mut stream: [u8; 8] = [0; 8];
            put_le(&mut stream, 0, xor_key as u128, 8);
            proof {
                lemma_le_bytes_len(xor_key as nat, 8);
                assert(stream@ =~= le_bytes(xor_key as nat, 8));
                assert(xor_key == walk_word(self@.xor_key, lba, offset as int));
            }
            let mut j: usize = 0;
            while j < 8
                invariant
                    j <= 8,
                    offset < word_count,
                    word_count * 8 == before.len() <= usize::MAX,
                    block@.len() == before.len(),
                    stream@ == le_bytes(walk_word(self@.xor_key, lba, offset as int), 8),
                    forall|i: int|
                        0 <= i < offset * 8 + j ==> #[trigger] block@[i] == before[i] ^ walk_byte(
                            self@.xor_key,
                            lba,
                            i,
                        ),
                    forall|i: int|
                        offset * 8 + j <= i < before.len() ==> #[trigger] block@[i] == before[i],
                decreases 8 - j,
            {
                let at: usize = offset * 8 + j;
                proof {
                    assert(at as int / 8 == offset && at as int % 8 == j);
                }
                block[at] = block[at] ^ stream[j];
                j = j + 1;
            }
            offset = offset + 1;
        }
        proof {
            assert(block@ =~= walked(before, self@.xor_key, lba));
        }
    }

    /// Encrypts one sector in place.
    ///
    /// `lba` must be the logical block address of `block`; using a different
    /// LBA during decryption will not recover the original bytes.
    pub fn encrypt_sector(&self, lba: u64, block: &mut [u8])
        requires
            old(block)@.len() % 8 == 0,
        ensures
            final(block)@ == encrypted(self@, lba, old(block)@),
    {
        aes256_ctr64le(&self.key, &self.iv, block);
        self.xor_walk(lba, block);
    }

    /// Decrypts one sector in place using the same LBA passed to encryption.
    pub fn decrypt_sector(&self, lba: u64, block: &mut [u8])
        requires
            old(block)@.len() % 8 == 0,
        ensures
            final(block)@ == decrypted(self@, lba, old(block)@),
    {
        self.xor_walk(lba, block);
        aes256_ctr64le(&self.key, &self.iv, block);
    }
}

/// Decryption undoes encryption with the same secrets and the same sector, and
/// the other way round.
pub proof fn decryption_undoes_encryption(k: CipherKeys, lba: u64, s: Seq<u8>)
    ensures
        decrypted(k, lba, encrypted(k, lba, s)) == s,
        encrypted(k, lba, decrypted(k, lba, s)) == s,
{
    let stream = aes256_ctr64le_keystream(k.key, k.iv, s.len());
    assert forall|i: int| 0 <= i < s.len() implies decrypted(k, lba, encrypted(k, lba, s))[i]
        == s[i] && encrypted(k, lba, decrypted(k, lba, s))[i] == s[i] by {
        let w = walk_byte(k.xor_key, lba, i);
        lemma_xor_cancels(s[i], stream[i], w);
        lemma_xor_cancels(s[i], w, stream[i]);
    }
    assert(decrypted(k, lba, encrypted(k, lba, s)) =~= s);
    assert(encrypted(k, lba, decrypted(k, lba, s)) =~= s);
}

/// The streams of two sectors differ within the first word.
proof fn lemma_streams_differ(xor_key: u64, lba1: u64, lba2: u64) -> (i: int)
    requires
        lba1 != lba2,
    ensures
        0 <= i < 8,
        walk_byte(xor_key, lba1, i) != walk_byte(xor_key, lba2, i),
{
    let w1 = walk_word(xor_key, lba1, 0);
    let w2 = walk_word(xor_key, lba2, 0);
    lemma_pow256_values();
    lemma_le_bytes_len(w1, 8);
    lemma_le_bytes_len(w2, 8);
    lemma_le_round_trip(w1, 8);
    lemma_le_round_trip(w2, 8);
    assert(w1 != w2);
    let b1 = le_bytes(w1, 8);
    let b2 = le_bytes(w2, 8);
    if forall|i: int| 0 <= i < 8 ==> b1[i] == b2[i] {
        assert(b1 =~= b2);
    }
    let i = choose|i: int| 0 <= i < 8 && b1[i] != b2[i];
    assert(i / 8 == 0 && i % 8 == i);
    i
}

/// Equal plaintext sectors encrypt differently at different sectors.
pub proof fn equal_sectors_encrypt_differently(k: CipherKeys, lba1: u64, lba2: u64, s: Seq<u8>)
    requires
        lba1 != lba2,
        s.len() > 0,
        s.len() % 8 == 0,
    ensures
        encrypted(k, lba1, s) != encrypted(k, lba2, s),
{
    let i = lemma_streams_differ(k.xor_key, lba1, lba2);
    let t = xor_bytes(s, aes256_ctr64le_keystream(k.key, k.iv, s.len()));
    lemma_xor_cancels(t[i], walk_byte(k.xor_key, lba1, i), walk_byte(k.xor_key, lba2, i));
    assert(encrypted(k, lba1, s)[i] != encrypted(k, lba2, s)[i]);
}

/// Decryption for another sector than the one encrypted for does not recover
/// the plaintext.
pub proof fn another_sector_does_not_decrypt(k: CipherKeys, lba1: u64, lba2: u64, s: Seq<u8>)
    requires
        lba1 != lba2,
        s.len() > 0,
        s.len() % 8 == 0,
    ensures
        decrypted(k, lba2, encrypted(k, lba1, s)) != s,
{
    if decrypted(k, lba2, encrypted(k, lba1, s)) == s {
        decryption_undoes_encryption(k, lba2, encrypted(k, lba1, s));
        equal_sectors_encrypt_differently(k, lba1, lba2, s);
    }
}

/// Beside the AES key stream a sector is mixed with nothing but a count: word
/// `j` of the difference, read little-endian, is the seed plus the sector number
/// plus `j`, modulo 2^64.
pub proof fn sectors_are_mixed_with_a_count(k: CipherKeys, lba: u64, s: Seq<u8>, j: int)
    requires
        0 <= j,
        8 * j + 8 <= s.len(),
    ensures
        encrypted(k, lba, s).len() == s.len(),
        ({
            let stream = aes256_ctr64le_keystream(k.key, k.iv, s.len());
            let c = encrypted(k, lba, s);
            let word = Seq::new(
                8,
                |x: int| c[8 * j + x] ^ (s[8 * j + x] ^ stream[8 * j + x]),
            );
            le_value(word) == (k.xor_key + lba + j) % 0x1_0000_0000_0000_0000
        }),
{
    let stream = aes256_ctr64le_keystream(k.key, k.iv, s.len());
    let c = encrypted(k, lba, s);
    let word = Seq::new(8, |x: int| c[8 * j + x] ^ (s[8 * j + x] ^ stream[8 * j + x]));
    let w = walk_word(k.xor_key, lba, j);
    lemma_le_bytes_len(w, 8);
    lemma_pow256_values();
    lemma_le_round_trip(w, 8);
    assert forall|x: int| 0 <= x < 8 implies word[x] == le_bytes(w, 8)[x] by {
        let i = 8 * j + x;
        assert(i / 8 == j && i % 8 == x);
        let (a, b) = (s[i] ^ stream[i], walk_byte(k.xor_key, lba, i));
        assert(c[i] == a ^ b);
        assert((a ^ b) ^ a == b) by (bit_vector);
    }
    assert(word =~= le_bytes(w, 8));
}

/// The derived key is the AES key, the counter block and the little-endian seed,
/// one behind the other.
pub proof fn derived_keys_are_used_whole(derived: Seq<u8>)
    requires
        derived.len() == 56,
    ensures
        ({
            let k = keys_of(derived);
            &&& k.key.len() == 32
            &&& k.iv.len() == 16
            &&& k.key + k.iv + le_bytes(k.xor_key as nat, 8) == derived
        }),
{
    let k = keys_of(derived);
    lemma_le_bytes_of_value(derived.subrange(48, 56));
    lemma_pow256_values();
    assert(k.key + k.iv + le_bytes(k.xor_key as nat, 8) =~= derived);
}

/// A password stands for the secrets cut from the Argon2id hash of all its
/// bytes, with 256 MiB of memory, four passes and four lanes.
pub proof fn passwords_are_hashed_whole(password: Seq<u8>)
    ensures
        password_keys(password) == keys_of(
            argon2id_hash(password, VER1_SALT@, 262_144, 4, 4, 56),
        ),
        VER1_SALT@.len() == 64,
{
}

} // verus!
