//! The cryptographic primitives, behind one interface: three AEADs chosen by
//! algorithm, two password hashes chosen by hash algorithm, the random
//! generator, and the wiping of secrets.
//!
//! The primitives themselves are not part of this crate. What each of them
//! returns is given a name here, and the rest of the crate states its
//! contracts over these names.

use crate::format::{Algorithm, HashAlgorithm, Mode};
use vstd::prelude::*;

verus! {

/// How much work the two password hashes do.
#[derive(Clone, Copy, Debug, PartialEq, Eq, Structural)]
pub struct Costs {
    /// Memory of Argon2id, in KiB.
    pub argon2_memory_kib: u32,
    /// Passes of Argon2id over its memory.
    pub argon2_passes: u32,
    /// Lanes of Argon2id.
    pub argon2_lanes: u32,
    /// Space of BLAKE3-Balloon, in blocks of 32 bytes.
    pub balloon_space: u32,
    /// Rounds of BLAKE3-Balloon over its space.
    pub balloon_rounds: u32,
}

impl Costs {
    /// The costs that files are written and read with: Argon2id with 32 MiB
    /// of memory, 8 passes and 4 lanes; BLAKE3-Balloon with 32 MiB of space
    /// and 5 rounds.
    pub open spec fn standard_spec() -> Costs {
        Costs {
            argon2_memory_kib: 32_768,
            argon2_passes: 8,
            argon2_lanes: 4,
            balloon_space: 1_048_576,
            balloon_rounds: 5,
        }
    }

    /// Whether both hashes accept these costs.
    pub open spec fn valid(self) -> bool {
        &&& 8 <= self.argon2_memory_kib <= 0x0FFF_FFFF
        &&& 1 <= self.argon2_passes
        &&& 1 <= self.argon2_lanes <= 0xFF_FFFF
        &&& 8 * self.argon2_lanes <= self.argon2_memory_kib
        &&& 1 <= self.balloon_space
        &&& 1 <= self.balloon_rounds
    }

    /// The costs that files are written and read with.
    pub fn standard() -> (c: Costs)
        ensures
            c == Self::standard_spec(),
            c.valid(),
    {
        Costs {
            argon2_memory_kib: 32_768,
            argon2_passes: 8,
            argon2_lanes: 4,
            balloon_space: 1_048_576,
            balloon_rounds: 5,
        }
    }

    /// Whether both hashes accept these costs.
    pub fn is_valid(&self) -> (b: bool)
        ensures
            b == self.valid(),
    {
        8 <= self.argon2_memory_kib && self.argon2_memory_kib <= 0x0FFF_FFFF
            && 1 <= self.argon2_passes && 1 <= self.argon2_lanes && self.argon2_lanes
            <= 0xFF_FFFF && self.argon2_lanes <= self.argon2_memory_kib / 8 && 1
            <= self.balloon_space && 1 <= self.balloon_rounds
    }
}

/// The longest secret, salt, message or associated data that every
/// primitive accepts.
pub const MAX_INPUT_LEN: u64 = 0xFFFF_FFFF;

/// What the AEAD returns when it seals `msg`: the ciphertext followed by its
/// tag, or nothing where the cipher refuses the input.
pub uninterp spec fn sealed(
    alg: Algorithm,
    key: Seq<u8>,
    nonce: Seq<u8>,
    aad: Seq<u8>,
    msg: Seq<u8>,
) -> Option<Seq<u8>>;

/// What the AEAD returns when it opens `ct`: the plaintext, or nothing where
/// the tag does not verify.
pub uninterp spec fn opened(
    alg: Algorithm,
    key: Seq<u8>,
    nonce: Seq<u8>,
    aad: Seq<u8>,
    ct: Seq<u8>,
) -> Option<Seq<u8>>;

/// The Argon2id (version 1.3) hash of `secret` and `salt` under the given
/// costs, `len` bytes long, or nothing where Argon2 refuses the input.
pub uninterp spec fn argon2id_hash(
    secret: Seq<u8>,
    salt: Seq<u8>,
    m_cost: u32,
    t_cost: u32,
    p_cost: u32,
    len: usize,
) -> Option<Seq<u8>>;

/// The Balloon hash over BLAKE3 of `secret` and `salt` under the given
/// costs, or nothing where Balloon refuses the costs.
pub uninterp spec fn balloon_hash(
    secret: Seq<u8>,
    salt: Seq<u8>,
    s_cost: u32,
    t_cost: u32,
    p_cost: u32,
) -> Option<Seq<u8>>;

/// The bytes of an optional buffer.
pub open spec fn bytes_of(o: Option<Vec<u8>>) -> Option<Seq<u8>> {
    match o {
        Some(v) => Some(v@),
        None => None,
    }
}

/// Calls `dexios_core::cipher::Ciphers::encrypt` on a cipher made by
/// `Ciphers::initialize` from `key`. Believed of it: the result is a
/// function of the five arguments; a ciphertext is 16 bytes longer than its
/// message and opens again, under the same key, nonce and associated data,
/// to that message; and none of the three ciphers refuses a message and
/// associated data of less than 4 GiB each.
#[verifier::external_body]
fn cipher_encrypt(alg: Algorithm, key: &[u8], nonce: &[u8], aad: &[u8], msg: &[u8]) -> (out:
    Option<Vec<u8>>)
    requires
        key@.len() == 32,
        nonce@.len() == alg.aead_nonce_len(),
    ensures
        bytes_of(out) == sealed(alg, key@, nonce@, aad@, msg@),
        out matches Some(ct) ==> ct@.len() == msg@.len() + 16 && opened(
            alg,
            key@,
            nonce@,
            aad@,
            ct@,
        ) == Some(msg@),
        msg@.len() <= MAX_INPUT_LEN && aad@.len() <= MAX_INPUT_LEN ==> out is Some,
{
    let mut k = [0u8; 32];
    k.copy_from_slice(key);
    let a = match alg {
        Algorithm::Aes256Gcm => dexios_core::primitives::Algorithm::Aes256Gcm,
        Algorithm::XChaCha20Poly1305 => dexios_core::primitives::Algorithm::XChaCha20Poly1305,
        Algorithm::DeoxysII256 => dexios_core::primitives::Algorithm::DeoxysII256,
    };
    let k = dexios_core::protected::Protected::new(k);
    let cipher = dexios_core::cipher::Ciphers::initialize(k, &a).ok()?;
    cipher.encrypt(nonce, dexios_core::Payload { msg, aad }).ok()
}

/// Calls `dexios_core::cipher::Ciphers::decrypt` on a cipher made by
/// `Ciphers::initialize` from `key`. Believed of it: the result is a
/// function of the five arguments, a plaintext is 16 bytes shorter than its
/// ciphertext, and a ciphertext of less than 16 bytes is refused.
#[verifier::external_body]
fn cipher_decrypt(alg: Algorithm, key: &[u8], nonce: &[u8], aad: &[u8], ct: &[u8]) -> (out:
    Option<Vec<u8>>)
    requires
        key@.len() == 32,
        nonce@.len() == alg.aead_nonce_len(),
    ensures
        bytes_of(out) == opened(alg, key@, nonce@, aad@, ct@),
        out matches Some(msg) ==> msg@.len() + 16 == ct@.len(),
{
    let mut k = [0u8; 32];
    k.copy_from_slice(key);
    let a = match alg {
        Algorithm::Aes256Gcm => dexios_core::primitives::Algorithm::Aes256Gcm,
        Algorithm::XChaCha20Poly1305 => dexios_core::primitives::Algorithm::XChaCha20Poly1305,
        Algorithm::DeoxysII256 => dexios_core::primitives::Algorithm::DeoxysII256,
    };
    let k = dexios_core::protected::Protected::new(k);
    let cipher = dexios_core::cipher::Ciphers::initialize(k, &a).ok()?;
    cipher.decrypt(nonce, dexios_core::Payload { msg: ct, aad }).ok()
}

/// Calls `argon2::Argon2::hash_password_into` on a context of the variant
/// Argon2id, version 1.3, with parameters made by `argon2::Params::new`.
/// Believed of it: the result is a function of the six arguments and is
/// `len` bytes long; and the call succeeds where the costs, the output
/// length and the lengths of secret and salt are within the bounds that
/// `Params::new` and `hash_password_into` test.
#[verifier::external_body]
fn argon2id(secret: &[u8], salt: &[u8], m_cost: u32, t_cost: u32, p_cost: u32, len: usize) -> (out:
    Option<Vec<u8>>)
    ensures
        bytes_of(out) == argon2id_hash(secret@, salt@, m_cost, t_cost, p_cost, len),
        out matches Some(key) ==> key@.len() == len,
        ({
            &&& 8 <= m_cost <= 0x0FFF_FFFF
            &&& 1 <= t_cost
            &&& 1 <= p_cost <= 0xFF_FFFF
            &&& 8 * p_cost <= m_cost
            &&& 4 <= len <= 0xFFFF_FFFF
            &&& secret@.len() <= 0xFFFF_FFFF
            &&& 8 <= salt@.len() <= 0xFFFF_FFFF
        }) ==> out is Some,
{
    let params = argon2::Params::new(m_cost, t_cost, p_cost, Some(len)).ok()?;
    let variant = argon2::Algorithm::Argon2id;
    let hasher = argon2::Argon2::new(variant, argon2::Version::V0x13, params);
    let mut key = vec![0u8; len];
    hasher.hash_password_into(secret, salt, &mut key).ok()?;
    Some(key)
}

/// Calls `balloon_hash::Balloon::hash` on a context over `blake3::Hasher`
/// of the variant Balloon, with parameters made by
/// `balloon_hash::Params::new`. Believed of it: the result is a function of
/// the five arguments and is 32 bytes long, the length of a BLAKE3 digest;
/// and the call succeeds where space and time cost are not zero and there
/// is one thread.
#[verifier::external_body]
fn blake3_balloon(secret: &[u8], salt: &[u8], s_cost: u32, t_cost: u32, p_cost: u32) -> (out:
    Option<Vec<u8>>)
    ensures
        bytes_of(out) == balloon_hash(secret@, salt@, s_cost, t_cost, p_cost),
        out matches Some(key) ==> key@.len() == 32,
        1 <= s_cost && 1 <= t_cost && p_cost == 1 ==> out is Some,
{
    let params = balloon_hash::Params::new(s_cost, t_cost, p_cost).ok()?;
    let variant = balloon_hash::Algorithm::Balloon;
    let hasher = balloon_hash::Balloon::<blake3::Hasher>::new(variant, params, None);
    let digest = hasher.hash(secret, salt).ok()?;
    Some(digest.to_vec())
}

/// Calls `dexios_core::primitives::gen_master_key`, which returns 32 bytes
/// of the thread's random generator.
#[verifier::external_body]
fn gen_master_key() -> (key: Vec<u8>)
    ensures
        key@.len() == 32,
{
    dexios_core::primitives::gen_master_key().expose().to_vec()
}

/// Calls `dexios_core::primitives::gen_salt`, which returns 16 bytes of the
/// thread's random generator.
#[verifier::external_body]
fn gen_salt() -> (salt: Vec<u8>)
    ensures
        salt@.len() == 16,
{
    dexios_core::primitives::gen_salt().to_vec()
}

/// Calls `dexios_core::primitives::gen_nonce`, which returns random bytes:
/// as many as the AEAD's nonce has, and four fewer in stream mode.
#[verifier::external_body]
fn gen_nonce(alg: Algorithm, mode: Mode) -> (nonce: Vec<u8>)
    ensures
        nonce@.len() == alg.header_nonce_len(mode),
{
    let a = match alg {
        Algorithm::Aes256Gcm => dexios_core::primitives::Algorithm::Aes256Gcm,
        Algorithm::XChaCha20Poly1305 => dexios_core::primitives::Algorithm::XChaCha20Poly1305,
        Algorithm::DeoxysII256 => dexios_core::primitives::Algorithm::DeoxysII256,
    };
    let m = match mode {
        Mode::Stream => dexios_core::primitives::Mode::StreamMode,
        Mode::Memory => dexios_core::primitives::Mode::MemoryMode,
    };
    dexios_core::primitives::gen_nonce(&a, &m)
}

/// Calls `zeroize::Zeroize::zeroize` on the buffer, which overwrites its
/// bytes and its spare capacity with zeros and leaves it empty.
#[verifier::external_body]
fn zeroize(buf: &mut Vec<u8>)
    ensures
        final(buf)@.len() == 0,
{
    dexios_core::Zeroize::zeroize(buf)
}

/// What [`seal`] returns: nothing where the key or the nonce has the wrong
/// length, else what the AEAD returns.
pub open spec fn seal_spec(
    alg: Algorithm,
    key: Seq<u8>,
    nonce: Seq<u8>,
    aad: Seq<u8>,
    msg: Seq<u8>,
) -> Option<Seq<u8>> {
    if key.len() == 32 && nonce.len() == alg.aead_nonce_len() {
        sealed(alg, key, nonce, aad, msg)
    } else {
        None
    }
}

/// What [`open`] returns: nothing where the key or the nonce has the wrong
/// length, else what the AEAD returns.
pub open spec fn open_spec(
    alg: Algorithm,
    key: Seq<u8>,
    nonce: Seq<u8>,
    aad: Seq<u8>,
    ct: Seq<u8>,
) -> Option<Seq<u8>> {
    if key.len() == 32 && nonce.len() == alg.aead_nonce_len() {
        opened(alg, key, nonce, aad, ct)
    } else {
        None
    }
}

/// The key that [`derive_key`] derives, or nothing where the salt is not 16
/// bytes long or the hash refuses its input.
pub open spec fn derived(costs: Costs, hash: HashAlgorithm, secret: Seq<u8>, salt: Seq<u8>) -> Option<
    Seq<u8>,
> {
    if salt.len() != 16 {
        None
    } else {
        match hash {
            HashAlgorithm::Argon2id => argon2id_hash(
                secret,
                salt,
                costs.argon2_memory_kib,
                costs.argon2_passes,
                costs.argon2_lanes,
                32,
            ),
            HashAlgorithm::Blake3Balloon => balloon_hash(
                secret,
                salt,
                costs.balloon_space,
                costs.balloon_rounds,
                1,
            ),
        }
    }
}

/// Seals `msg` under a 32-byte key and a nonce of the algorithm's length,
/// binding `aad` into the tag. The result is the ciphertext followed by its
/// 16-byte tag.
pub fn seal(alg: Algorithm, key: &[u8], nonce: &[u8], aad: &[u8], msg: &[u8]) -> (out: Option<
    Vec<u8>,
>)
    ensures
        bytes_of(out) == seal_spec(alg, key@, nonce@, aad@, msg@),
        out matches Some(ct) ==> ct@.len() == msg@.len() + 16 && open_spec(
            alg,
            key@,
            nonce@,
            aad@,
            ct@,
        ) == Some(msg@),
        ({
            &&& key@.len() == 32
            &&& nonce@.len() == alg.aead_nonce_len()
            &&& msg@.len() <= MAX_INPUT_LEN
            &&& aad@.len() <= MAX_INPUT_LEN
        }) ==> out is Some,
{
    if key.len() != 32 || nonce.len() != alg.nonce_len() {
        return None;
    }
    cipher_encrypt(alg, key, nonce, aad, msg)
}

/// Opens what [`seal`] made: returns the plaintext where the tag verifies
/// under the same key, nonce and associated data, and nothing otherwise.
pub fn open(alg: Algorithm, key: &[u8], nonce: &[u8], aad: &[u8], ct: &[u8]) -> (out: Option<
    Vec<u8>,
>)
    ensures
        bytes_of(out) == open_spec(alg, key@, nonce@, aad@, ct@),
        out matches Some(msg) ==> msg@.len() + 16 == ct@.len() && key@.len() == 32,
{
    if key.len() != 32 || nonce.len() != alg.nonce_len() {
        return None;
    }
    cipher_decrypt(alg, key, nonce, aad, ct)
}

/// Derives a 32-byte key from a secret and a 16-byte salt.
pub fn derive_key(costs: &Costs, hash: HashAlgorithm, secret: &[u8], salt: &[u8]) -> (key: Vec<u8>)
    requires
        costs.valid(),
        salt@.len() == 16,
        secret@.len() <= MAX_INPUT_LEN,
    ensures
        derived(*costs, hash, secret@, salt@) == Some(key@),
        key@.len() == 32,
{
    match hash {
        HashAlgorithm::Argon2id => argon2id(
            secret,
            salt,
            costs.argon2_memory_kib,
            costs.argon2_passes,
            costs.argon2_lanes,
            32,
        ).unwrap(),
        HashAlgorithm::Blake3Balloon => blake3_balloon(
            secret,
            salt,
            costs.balloon_space,
            costs.balloon_rounds,
            1,
        ).unwrap(),
    }
}

/// A fresh random master key.
pub fn random_key() -> (key: Vec<u8>)
    ensures
        key@.len() == 32,
{
    gen_master_key()
}

/// A fresh random salt.
pub fn random_salt() -> (salt: Vec<u8>)
    ensures
        salt@.len() == 16,
{
    gen_salt()
}

/// A fresh random nonce of the length that a header records for the
/// algorithm and mode.
pub fn random_nonce(alg: Algorithm, mode: Mode) -> (nonce: Vec<u8>)
    ensures
        nonce@.len() == alg.header_nonce_len(mode),
{
    gen_nonce(alg, mode)
}

/// Overwrites a secret with zeros and empties the buffer.
pub fn wipe(buf: &mut Vec<u8>)
    ensures
        final(buf)@.len() == 0,
{
    zeroize(buf)
}

} // verus!
