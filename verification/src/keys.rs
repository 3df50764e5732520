use crate::bytes::take_array;
use crate::header::Entry;
use crate::header::EntryView;
use crate::header::FileHeader;
use crate::primitives::MAX_PASSWORD_LEN;
use crate::primitives::MAX_STREAM_BLOCKS;
use crate::primitives::chacha_xor;
use crate::primitives::ct_eq;
use crate::primitives::derive_kek;
use crate::primitives::hmac;
use crate::primitives::hmac_sha256;
use crate::primitives::spec_chacha_xor;
use crate::primitives::spec_fits_stream;
use crate::primitives::spec_kek;
use vstd::prelude::*;

verus! {

/// The content key of a file with its nonce.
#[derive(Debug)]
pub struct FileKey {
    pub cek: [u8; 32],
    pub cek_nonce: [u8; 12],
}

/// The fresh randomness that one entry takes.
#[derive(Debug)]
pub struct EntrySeed {
    pub salt: [u8; 16],
    pub kek_nonce: [u8; 12],
}

/// A content key and its nonce as byte strings.
pub struct KeyView {
    pub cek: Seq<u8>,
    pub cek_nonce: Seq<u8>,
}

/// An entry's randomness as byte strings.
pub struct EntrySeedView {
    pub salt: Seq<u8>,
    pub kek_nonce: Seq<u8>,
}

impl View for FileKey {
    type V = KeyView;

    open spec fn view(&self) -> KeyView {
        KeyView { cek: self.cek@, cek_nonce: self.cek_nonce@ }
    }
}

impl View for EntrySeed {
    type V = EntrySeedView;

    open spec fn view(&self) -> EntrySeedView {
        EntrySeedView { salt: self.salt@, kek_nonce: self.kek_nonce@ }
    }
}

impl KeyView {
    /// The key has 32 bytes and its nonce 12.
    pub open spec fn wf(self) -> bool {
        self.cek.len() == 32 && self.cek_nonce.len() == 12
    }
}

impl EntrySeedView {
    /// The salt has 16 bytes and the nonce 12.
    pub open spec fn wf(self) -> bool {
        self.salt.len() == 16 && self.kek_nonce.len() == 12
    }
}

/// The entry that wraps `key` for `password`: the key and its nonce, each under
/// the keystream of the password's key-encryption key and the entry's nonce.
pub open spec fn spec_wrap(password: Seq<u8>, seed: EntrySeedView, key: KeyView) -> EntryView {
    let kek = spec_kek(password, seed.salt);
    EntryView {
        salt: seed.salt,
        kek_nonce: seed.kek_nonce,
        encrypted_cek: spec_chacha_xor(kek, seed.kek_nonce, key.cek),
        encrypted_cek_nonce: spec_chacha_xor(kek, seed.kek_nonce, key.cek_nonce),
    }
}

/// What an entry yields under `password`: the key it wraps if the password is
/// the entry's, some other 44 bytes if not.
pub open spec fn spec_unwrap(e: EntryView, password: Seq<u8>) -> KeyView {
    let kek = spec_kek(password, e.salt);
    KeyView {
        cek: spec_chacha_xor(kek, e.kek_nonce, e.encrypted_cek),
        cek_nonce: spec_chacha_xor(kek, e.kek_nonce, e.encrypted_cek_nonce),
    }
}

/// Whether `key` passes the probe: the tag of the verify block that it decrypts
/// is the stored tag.
pub open spec fn spec_probe(key: KeyView, verify_block: Seq<u8>, tag: Seq<u8>) -> bool {
    spec_fits_stream(verify_block.len()) && hmac_sha256(
        key.cek,
        spec_chacha_xor(key.cek, key.cek_nonce, verify_block),
    )@ == tag
}

/// Whether an entry accepts a password: what it yields passes the probe. A
/// password longer than the key derivation takes is accepted by no entry.
pub open spec fn spec_accepts(
    e: EntryView,
    password: Seq<u8>,
    verify_block: Seq<u8>,
    tag: Seq<u8>,
) -> bool {
    password.len() <= MAX_PASSWORD_LEN && spec_probe(spec_unwrap(e, password), verify_block, tag)
}

/// The key of the first entry, in order, that accepts the password.
pub open spec fn spec_recover_key(
    entries: Seq<EntryView>,
    password: Seq<u8>,
    verify_block: Seq<u8>,
    tag: Seq<u8>,
) -> Option<KeyView>
    decreases entries.len(),
{
    if entries.len() == 0 {
        None
    } else if spec_accepts(entries[0], password, verify_block, tag) {
        Some(spec_unwrap(entries[0], password))
    } else {
        spec_recover_key(entries.drop_first(), password, verify_block, tag)
    }
}

/// Wraps `key` for `password` with an entry's fresh salt and nonce.
pub fn wrap_key(password: &[u8], seed: &EntrySeed, key: &FileKey) -> (e: Entry)
    requires
        password.len() <= MAX_PASSWORD_LEN,
    ensures
        e@ == spec_wrap(password@, seed@, key@),
{
    let kek = derive_kek(password, &seed.salt);
    let encrypted_cek = chacha_xor(kek.as_slice(), &seed.kek_nonce, &key.cek);
    let encrypted_cek_nonce = chacha_xor(kek.as_slice(), &seed.kek_nonce, &key.cek_nonce);
    assert(encrypted_cek@.subrange(0, 32) =~= encrypted_cek@);
    assert(encrypted_cek_nonce@.subrange(0, 12) =~= encrypted_cek_nonce@);
    Entry {
        salt: seed.salt,
        kek_nonce: seed.kek_nonce,
        encrypted_cek: take_array::<32>(encrypted_cek.as_slice(), 0),
        encrypted_cek_nonce: take_array::<12>(encrypted_cek_nonce.as_slice(), 0),
    }
}

/// Unwraps an entry under `password`.
pub fn unwrap_key(e: &Entry, password: &[u8]) -> (key: FileKey)
    requires
        password.len() <= MAX_PASSWORD_LEN,
    ensures
        key@ == spec_unwrap(e@, password@),
{
    let kek = derive_kek(password, &e.salt);
    let cek = chacha_xor(kek.as_slice(), &e.kek_nonce, &e.encrypted_cek);
    let cek_nonce = chacha_xor(kek.as_slice(), &e.kek_nonce, &e.encrypted_cek_nonce);
    assert(cek@.subrange(0, 32) =~= cek@);
    assert(cek_nonce@.subrange(0, 12) =~= cek_nonce@);
    FileKey {
        cek: take_array::<32>(cek.as_slice(), 0),
        cek_nonce: take_array::<12>(cek_nonce.as_slice(), 0),
    }
}

/// Whether `key` passes the probe of an envelope's verify block. The tags are
/// compared in constant time.
pub fn probe(key: &FileKey, verify_block: &[u8], tag: &[u8]) -> (ok: bool)
    ensures
        ok == spec_probe(key@, verify_block@, tag@),
{
    if verify_block.len() as u64 > 64 * MAX_STREAM_BLOCKS {
        return false;
    }
    let block = chacha_xor(&key.cek, &key.cek_nonce, verify_block);
    let sum = hmac(&key.cek, block.as_slice());
    ct_eq(&sum, tag)
}

/// Finds the key that `password` opens: the entries are tried in order, and the
/// first that accepts the password gives the key.
pub fn recover_key(h: &FileHeader, password: &[u8]) -> (r: Option<FileKey>)
    ensures
        match r {
            Some(key) => spec_recover_key(
                h@.entries,
                password@,
                h@.encrypted_verify_block,
                h@.verify_block_hmac,
            ) == Some(key@),
            None => spec_recover_key(
                h@.entries,
                password@,
                h@.encrypted_verify_block,
                h@.verify_block_hmac,
            ) is None,
        },
{
    let ghost evb = h@.encrypted_verify_block;
    let ghost tag = h@.verify_block_hmac;
    if password.len() > MAX_PASSWORD_LEN {
        proof {
            lemma_recover_none(h@.entries, password@, evb, tag);
        }
        return None;
    }
    let n = h.entries.len();
    let mut i: usize = 0;
    assert(h@.entries.skip(0) =~= h@.entries);
    while i < n
        invariant
            i <= n,
            n == h.entries@.len(),
            password.len() <= MAX_PASSWORD_LEN,
            evb == h@.encrypted_verify_block,
            tag == h@.verify_block_hmac,
            spec_recover_key(h@.entries, password@, evb, tag) == spec_recover_key(
                h@.entries.skip(i as int),
                password@,
                evb,
                tag,
            ),
        decreases n - i,
    {
        let key = unwrap_key(&h.entries[i], password);
        let ok = probe(&key, h.encrypted_verify_block.as_slice(), &h.verify_block_hmac);
        proof {
            let rest = h@.entries.skip(i as int);
            assert(rest[0] == h.entries@[i as int]@);
            assert(rest.drop_first() =~= h@.entries.skip(i + 1));
        }
        if ok {
            return Some(key);
        }
        i += 1;
    }
    assert(h@.entries.skip(n as int).len() == 0);
    None
}

/// No entry accepts: no key is recovered.
pub proof fn lemma_recover_none(
    entries: Seq<EntryView>,
    password: Seq<u8>,
    verify_block: Seq<u8>,
    tag: Seq<u8>,
)
    requires
        forall|i: int|
            0 <= i < entries.len() ==> !spec_accepts(
                #[trigger] entries[i],
                password,
                verify_block,
                tag,
            ),
    ensures
        spec_recover_key(entries, password, verify_block, tag) is None,
    decreases entries.len(),
{
    if entries.len() > 0 {
        let rest = entries.drop_first();
        assert forall|i: int| 0 <= i < rest.len() implies !spec_accepts(
            #[trigger] rest[i],
            password,
            verify_block,
            tag,
        ) by {
            assert(rest[i] == entries[i + 1]);
        }
        lemma_recover_none(rest, password, verify_block, tag);
    }
}

} // verus!
