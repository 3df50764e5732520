use argon2::{Algorithm, Argon2, Params, Version};
use chacha20::{ChaCha20, Key, Nonce};
use cipher::{KeyIvInit, StreamCipher};
use hmac::{Hmac, Mac};
use rand::RngCore;
use sha2::Sha256;
use subtle::ConstantTimeEq;
use vstd::prelude::*;

verus! {

/// Length of a key, in bytes: the content key and every key-encryption key.
pub const KEY_LEN: usize = 32;

/// Length of a ChaCha20 nonce, in bytes.
pub const NONCE_LEN: usize = 12;

/// Length of an entry's salt, in bytes.
pub const SALT_LEN: usize = 16;

/// Length of an HMAC-SHA256 tag, in bytes.
pub const MAC_SIZE: usize = 32;

/// Argon2id memory cost of the format, in KiB (32 MiB).
pub const KDF_MEMORY_KIB: u32 = 32768;

/// Argon2id number of passes of the format.
pub const KDF_PASSES: u32 = 2;

/// Argon2id number of lanes of the format.
pub const KDF_LANES: u32 = 4;

/// The longest password, in bytes, that Argon2 takes.
pub const MAX_PASSWORD_LEN: usize = 0xFFFF_FFFF;

/// The most blocks of 64 bytes that one ChaCha20 keystream yields.
pub const MAX_STREAM_BLOCKS: u64 = 0xFFFF_FFFF;

/// The Argon2id tag (version 0x13, no secret, no associated data) of a password
/// and a salt under the given costs.
pub uninterp spec fn argon2id_hash(
    password: Seq<u8>,
    salt: Seq<u8>,
    memory_kib: u32,
    passes: u32,
    lanes: u32,
    out_len: usize,
) -> Seq<u8>;

/// The first `len` bytes of the ChaCha20 keystream (RFC 8439, block counter
/// starting at 0) of a key and a nonce.
pub uninterp spec fn chacha20_keystream(key: Seq<u8>, nonce: Seq<u8>, len: nat) -> Seq<u8>;

/// The HMAC-SHA256 tag of `data` under `key`.
pub uninterp spec fn hmac_sha256(key: Seq<u8>, data: Seq<u8>) -> [u8; 32];

/// Whether a buffer of `len` bytes fits in one ChaCha20 keystream.
pub open spec fn spec_fits_stream(len: nat) -> bool {
    len <= 64 * MAX_STREAM_BLOCKS
}

/// `data` with `pad` XORed onto it, byte by byte.
pub open spec fn spec_xor(data: Seq<u8>, pad: Seq<u8>) -> Seq<u8> {
    Seq::new(data.len(), |i: int| data[i] ^ pad[i])
}

/// `data` under the ChaCha20 keystream of (`key`, `nonce`): encryption and
/// decryption alike.
pub open spec fn spec_chacha_xor(key: Seq<u8>, nonce: Seq<u8>, data: Seq<u8>) -> Seq<u8> {
    spec_xor(data, chacha20_keystream(key, nonce, data.len()))
}

/// The key-encryption key that a password and a salt give.
pub open spec fn spec_kek(password: Seq<u8>, salt: Seq<u8>) -> Seq<u8> {
    argon2id_hash(password, salt, KDF_MEMORY_KIB, KDF_PASSES, KDF_LANES, KEY_LEN)
}

/// Calls `Argon2::hash_password_into` of the argon2 crate, on a hasher built by
/// `Params::new` and `Argon2::new` for Argon2id at version 0x13.
///
/// Trusted: the tag has `out_len` bytes and depends on the six arguments alone.
/// The preconditions are the ranges outside which `Params::new` or
/// `hash_password_into` returns an error, and the size up to which the working
/// memory can be asked for.
#[verifier::external_body]
pub(crate) fn argon2id(
    password: &[u8],
    salt: &[u8],
    memory_kib: u32,
    passes: u32,
    lanes: u32,
    out_len: usize,
) -> (out: Vec<u8>)
    requires
        password@.len() <= 0xFFFF_FFFF,
        8 <= salt@.len() <= 0xFFFF_FFFF,
        1 <= lanes <= 0xFF_FFFF,
        8 * lanes <= memory_kib,
        memory_kib * 1024 <= isize::MAX,
        1 <= passes,
        4 <= out_len <= 0xFFFF_FFFF,
    ensures
        out@ == argon2id_hash(password@, salt@, memory_kib, passes, lanes, out_len),
        out@.len() == out_len,
{
    let params = Params::new(memory_kib, passes, lanes, Some(out_len)).unwrap();
    let hasher = Argon2::new(Algorithm::Argon2id, Version::V0x13, params);
    let mut out = vec![0u8; out_len];
    hasher.hash_password_into(password, salt, &mut out).unwrap();
    out
}

/// Calls `StreamCipher::apply_keystream` of a fresh `ChaCha20` (chacha20 and
/// cipher crates) on a copy of `content`.
///
/// Trusted: the result is `content` XORed with the keystream of the key and the
/// nonce, which depends on them and on the length alone. The preconditions are
/// the key and nonce lengths that `from_slice` asserts, and the length after
/// which `apply_keystream` panics for want of keystream.
#[verifier::external_body]
pub(crate) fn chacha_xor(key: &[u8], nonce: &[u8], content: &[u8]) -> (out: Vec<u8>)
    requires
        key@.len() == KEY_LEN,
        nonce@.len() == NONCE_LEN,
        spec_fits_stream(content@.len()),
    ensures
        out@ == spec_xor(content@, chacha20_keystream(key@, nonce@, content@.len())),
{
    let mut cipher = ChaCha20::new(Key::from_slice(key), Nonce::from_slice(nonce));
    let mut out = content.to_vec();
    cipher.apply_keystream(&mut out);
    out
}

/// Calls `Mac::new_from_slice`, `update` and `finalize` of `Hmac<Sha256>` (hmac
/// and sha2 crates).
///
/// Trusted: the tag depends on the key and the data alone. A key of any length
/// is taken.
#[verifier::external_body]
pub(crate) fn hmac(key: &[u8], data: &[u8]) -> (tag: [u8; 32])
    ensures
        tag == hmac_sha256(key@, data@),
{
    let mut mac = <Hmac<Sha256> as Mac>::new_from_slice(key).unwrap();
    mac.update(data);
    mac.finalize().into_bytes().into()
}

/// Calls `ConstantTimeEq::ct_eq` of the subtle crate on two byte slices.
///
/// Trusted: the answer is whether the slices are equal, in length and in every
/// byte. (That the time taken does not depend on the bytes is not stated here.)
#[verifier::external_body]
pub(crate) fn ct_eq(a: &[u8], b: &[u8]) -> (same: bool)
    ensures
        same == (a@ == b@),
{
    a.ct_eq(b).into()
}

/// Calls `RngCore::fill_bytes` of `rand::thread_rng()` on a fresh array.
///
/// Nothing is promised of the bytes.
#[verifier::external_body]
pub(crate) fn random_array<const N: usize>() -> [u8; N] {
    let mut out = [0u8; N];
    rand::thread_rng().fill_bytes(&mut out);
    out
}

/// Derives the key-encryption key of a password and a salt.
pub fn derive_kek(password: &[u8], salt: &[u8]) -> (kek: Vec<u8>)
    requires
        password@.len() <= MAX_PASSWORD_LEN,
        salt@.len() == SALT_LEN,
    ensures
        kek@ == spec_kek(password@, salt@),
        kek@.len() == KEY_LEN,
{
    argon2id(password, salt, KDF_MEMORY_KIB, KDF_PASSES, KDF_LANES, KEY_LEN)
}

/// A fresh random nonce.
pub fn gen_nonce() -> [u8; 12] {
    random_array::<12>()
}

/// A fresh random content key with its nonce.
pub fn gen_cek() -> ([u8; 32], [u8; 12]) {
    (random_array::<32>(), gen_nonce())
}

} // verus!
