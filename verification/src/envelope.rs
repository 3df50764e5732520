use crate::bytes::append;
use crate::error::Error;
use crate::header::Entry;
use crate::header::EntryView;
use crate::header::FileHeader;
use crate::header::HeaderView;
use crate::header::parse_envelope;
use crate::header::spec_magic;
use crate::header::spec_parse;
use crate::header::spec_write_header;
use crate::header::write_header;
use crate::keys::EntrySeed;
use crate::keys::EntrySeedView;
use crate::keys::FileKey;
use crate::keys::KeyView;
use crate::keys::recover_key;
use crate::keys::spec_recover_key;
use crate::keys::spec_wrap;
use crate::keys::wrap_key;
use crate::metadata::MAX_METADATA_LEN;
use crate::primitives::MAX_PASSWORD_LEN;
use crate::primitives::MAX_STREAM_BLOCKS;
use crate::primitives::chacha_xor;
use crate::primitives::ct_eq;
use crate::primitives::gen_cek;
use crate::primitives::gen_nonce;
use crate::primitives::hmac;
use crate::primitives::hmac_sha256;
use crate::primitives::random_array;
use crate::primitives::spec_chacha_xor;
use crate::primitives::spec_fits_stream;
use vstd::prelude::*;
use vstd::slice::slice_subrange;
use vstd::utf8::encode_utf8;

verus! {

/// The most passwords that one envelope takes.
pub const MAX_PASSWORDS: usize = 65535;

/// All the fresh randomness that one encryption takes.
#[derive(Debug)]
pub struct Seed {
    pub key: FileKey,
    pub verify_block: [u8; 128],
    pub entries: Vec<EntrySeed>,
}

/// What decryption gives back.
#[derive(Debug)]
pub struct Decrypted {
    /// Whether the tag of the recovered plaintext is the stored file tag.
    pub body_mac_matched: bool,
    /// The metadata of the envelope, empty where it has none.
    pub metadata: Vec<u8>,
    /// The recovered plaintext, whatever `body_mac_matched` says.
    pub plaintext: Vec<u8>,
}

/// A seed as plain values.
pub struct SeedView {
    pub key: KeyView,
    pub verify_block: Seq<u8>,
    pub entries: Seq<EntrySeedView>,
}

/// A decryption result as plain values.
pub struct DecryptedView {
    pub body_mac_matched: bool,
    pub metadata: Seq<u8>,
    pub plaintext: Seq<u8>,
}

impl View for Seed {
    type V = SeedView;

    open spec fn view(&self) -> SeedView {
        SeedView {
            key: self.key@,
            verify_block: self.verify_block@,
            entries: Seq::new(self.entries@.len(), |i: int| self.entries@[i]@),
        }
    }
}

impl View for Decrypted {
    type V = DecryptedView;

    open spec fn view(&self) -> DecryptedView {
        DecryptedView {
            body_mac_matched: self.body_mac_matched,
            metadata: self.metadata@,
            plaintext: self.plaintext@,
        }
    }
}

/// Whether an array of entry seeds serves `count` passwords.
pub open spec fn spec_seeds_fit(seeds: Seq<EntrySeedView>, count: nat) -> bool {
    seeds.len() == count && forall|i: int| 0 <= i < seeds.len() ==> (#[trigger] seeds[i]).wf()
}

impl SeedView {
    /// Whether the seed serves an encryption for `count` passwords.
    pub open spec fn fits(self, count: nat) -> bool {
        &&& self.key.wf()
        &&& self.verify_block.len() == 128
        &&& spec_seeds_fit(self.entries, count)
    }
}

/// The bytes of each password: its UTF-8 encoding.
pub open spec fn spec_password_bytes(passwords: Seq<String>) -> Seq<Seq<u8>> {
    Seq::new(passwords.len(), |i: int| encode_utf8(passwords[i]@))
}

/// The metadata that an optional blob stands for: none is empty.
pub open spec fn spec_metadata(metadata: Option<&[u8]>) -> Seq<u8> {
    match metadata {
        Some(m) => m@,
        None => Seq::<u8>::empty(),
    }
}

/// Whether a password list can stand in an envelope: between 1 and 65535
/// passwords, none longer than the key derivation takes.
pub open spec fn spec_passwords_ok(passwords: Seq<Seq<u8>>) -> bool {
    &&& 1 <= passwords.len() <= MAX_PASSWORDS
    &&& forall|i: int|
        0 <= i < passwords.len() ==> (#[trigger] passwords[i]).len() <= MAX_PASSWORD_LEN
}

/// Whether an encryption can be done at all.
pub open spec fn spec_seal_args_ok(
    plaintext: Seq<u8>,
    passwords: Seq<Seq<u8>>,
    metadata: Seq<u8>,
) -> bool {
    &&& spec_passwords_ok(passwords)
    &&& metadata.len() <= MAX_METADATA_LEN
    &&& spec_fits_stream(plaintext.len())
}

/// One entry per password, in the order of the passwords.
pub open spec fn spec_entries_for(
    passwords: Seq<Seq<u8>>,
    seeds: Seq<EntrySeedView>,
    key: KeyView,
) -> Seq<EntryView> {
    Seq::new(passwords.len(), |i: int| spec_wrap(passwords[i], seeds[i], key))
}

/// The header that an encryption writes.
pub open spec fn spec_seal_header(
    plaintext: Seq<u8>,
    passwords: Seq<Seq<u8>>,
    metadata: Seq<u8>,
    seed: SeedView,
) -> HeaderView {
    HeaderView {
        magic: spec_magic(),
        password_count: passwords.len() as u16,
        entries: spec_entries_for(passwords, seed.entries, seed.key),
        encrypted_verify_block: spec_chacha_xor(
            seed.key.cek,
            seed.key.cek_nonce,
            seed.verify_block,
        ),
        verify_block_hmac: hmac_sha256(seed.key.cek, seed.verify_block)@,
        file_hmac: hmac_sha256(seed.key.cek, plaintext)@,
        metadata_len: metadata.len() as u32,
        metadata,
    }
}

/// The envelope that an encryption gives: the header, then the plaintext under
/// the keystream of the content key.
pub open spec fn spec_seal(
    plaintext: Seq<u8>,
    passwords: Seq<Seq<u8>>,
    metadata: Seq<u8>,
    seed: SeedView,
) -> Seq<u8> {
    spec_write_header(spec_seal_header(plaintext, passwords, metadata, seed)) + spec_chacha_xor(
        seed.key.cek,
        seed.key.cek_nonce,
        plaintext,
    )
}

/// What decrypting `data` with `password` gives.
pub open spec fn spec_decrypt(data: Seq<u8>, password: Seq<u8>) -> Result<DecryptedView, Error> {
    match spec_parse(data) {
        Err(e) => Err(e),
        Ok(env) => match spec_recover_key(
            env.header.entries,
            password,
            env.header.encrypted_verify_block,
            env.header.verify_block_hmac,
        ) {
            None => Err(Error::WrongPassword),
            Some(key) => if !spec_fits_stream(env.body.len()) {
                Err(Error::InvalidFormat)
            } else {
                let plaintext = spec_chacha_xor(key.cek, key.cek_nonce, env.body);
                Ok(
                    DecryptedView {
                        body_mac_matched: hmac_sha256(key.cek, plaintext)@
                            == env.header.file_hmac,
                        metadata: env.header.metadata,
                        plaintext,
                    },
                )
            },
        },
    }
}

/// What replacing the passwords of `data` gives: new entries around the key
/// that `old_password` opens, every other field and the body as they were.
pub open spec fn spec_rekey(
    data: Seq<u8>,
    old_password: Seq<u8>,
    new_passwords: Seq<Seq<u8>>,
    seeds: Seq<EntrySeedView>,
) -> Result<Seq<u8>, Error> {
    if !spec_passwords_ok(new_passwords) || seeds.len() != new_passwords.len() {
        Err(Error::BadArgument)
    } else {
        match spec_parse(data) {
            Err(e) => Err(e),
            Ok(env) => match spec_recover_key(
                env.header.entries,
                old_password,
                env.header.encrypted_verify_block,
                env.header.verify_block_hmac,
            ) {
                None => Err(Error::WrongPassword),
                Some(key) => Ok(
                    spec_write_header(
                        HeaderView {
                            password_count: new_passwords.len() as u16,
                            entries: spec_entries_for(new_passwords, seeds, key),
                            ..env.header
                        },
                    ) + env.body,
                ),
            },
        }
    }
}

/// Why a rekeying is refused whatever the randomness, if it is: the checks come
/// in this order.
pub open spec fn spec_rekey_refusal(
    data: Seq<u8>,
    old_password: Seq<u8>,
    new_passwords: Seq<Seq<u8>>,
) -> Option<Error> {
    if !spec_passwords_ok(new_passwords) {
        Some(Error::BadArgument)
    } else {
        match spec_parse(data) {
            Err(e) => Some(e),
            Ok(env) => if spec_recover_key(
                env.header.entries,
                old_password,
                env.header.encrypted_verify_block,
                env.header.verify_block_hmac,
            ) is None {
                Some(Error::WrongPassword)
            } else {
                None
            },
        }
    }
}

/// Whether a password list can stand in an envelope.
pub fn passwords_ok(passwords: &[String]) -> (ok: bool)
    ensures
        ok == spec_passwords_ok(spec_password_bytes(passwords@)),
{
    let n = passwords.len();
    if n == 0 || n > MAX_PASSWORDS {
        return false;
    }
    let mut i: usize = 0;
    while i < n
        invariant
            i <= n,
            n == passwords@.len(),
            forall|k: int|
                0 <= k < i ==> (#[trigger] spec_password_bytes(passwords@)[k]).len()
                    <= MAX_PASSWORD_LEN,
        decreases n - i,
    {
        if passwords[i].as_str().as_bytes().len() > MAX_PASSWORD_LEN {
            assert(spec_password_bytes(passwords@)[i as int].len() > MAX_PASSWORD_LEN);
            return false;
        }
        i += 1;
    }
    true
}

/// Wraps `key` for each password, in order, each with its own seed.
fn wrap_all(passwords: &[String], seeds: &[EntrySeed], key: &FileKey) -> (entries: Vec<
    Entry,
>)
    requires
        spec_passwords_ok(spec_password_bytes(passwords@)),
        seeds@.len() == passwords@.len(),
    ensures
        entries@.len() == passwords@.len(),
        Seq::new(entries@.len(), |i: int| entries@[i]@) == spec_entries_for(
            spec_password_bytes(passwords@),
            Seq::new(seeds@.len(), |i: int| seeds@[i]@),
            key@,
        ),
{
    let n = passwords.len();
    let mut entries: Vec<Entry> = Vec::new();
    let mut i: usize = 0;
    while i < n
        invariant
            i <= n,
            n == passwords@.len(),
            n == seeds@.len(),
            spec_passwords_ok(spec_password_bytes(passwords@)),
            entries@.len() == i,
            forall|k: int|
                0 <= k < i ==> (#[trigger] entries@[k])@ == spec_wrap(
                    spec_password_bytes(passwords@)[k],
                    seeds@[k]@,
                    key@,
                ),
        decreases n - i,
    {
        let pw = passwords[i].as_str().as_bytes();
        assert(pw@ == spec_password_bytes(passwords@)[i as int]);
        let e = wrap_key(pw, &seeds[i], key);
        entries.push(e);
        i += 1;
    }
    assert(Seq::new(entries@.len(), |i: int| entries@[i]@) =~= spec_entries_for(
        spec_password_bytes(passwords@),
        Seq::new(seeds@.len(), |i: int| seeds@[i]@),
        key@,
    ));
    entries
}

/// Whether a buffer of `len` bytes fits in one keystream.
pub fn fits_stream(len: usize) -> (ok: bool)
    ensures
        ok == spec_fits_stream(len as nat),
{
    len as u64 <= 64 * MAX_STREAM_BLOCKS
}

/// Encrypts `plaintext` for `passwords` with the randomness of `seed`.
///
/// Every byte of the result is fixed by the arguments. Fails with `BadArgument`
/// where the password list, the metadata or the plaintext is outside what the
/// format holds, or the seed does not bring one entry seed per password.
pub fn seal(plaintext: &[u8], passwords: &[String], metadata: Option<&[u8]>, seed: &Seed) -> (r:
    Result<Vec<u8>, Error>)
    ensures
        match r {
            Ok(out) => {
                &&& spec_seal_args_ok(
                    plaintext@,
                    spec_password_bytes(passwords@),
                    spec_metadata(metadata),
                )
                &&& seed@.entries.len() == passwords@.len()
                &&& out@ == spec_seal(
                    plaintext@,
                    spec_password_bytes(passwords@),
                    spec_metadata(metadata),
                    seed@,
                )
            },
            Err(e) => {
                &&& e == Error::BadArgument
                &&& !(spec_seal_args_ok(
                    plaintext@,
                    spec_password_bytes(passwords@),
                    spec_metadata(metadata),
                ) && seed@.entries.len() == passwords@.len())
            },
        },
{
    let meta: Vec<u8> = match metadata {
        Some(m) => {
            if m.len() > MAX_METADATA_LEN {
                return Err(Error::BadArgument);
            }
            let mut copy: Vec<u8> = Vec::new();
            append(&mut copy, m);
            copy
        },
        None => Vec::new(),
    };
    assert(meta@ =~= spec_metadata(metadata));
    if !passwords_ok(passwords) || !fits_stream(plaintext.len()) || seed.entries.len()
        != passwords.len() {
        return Err(Error::BadArgument);
    }
    let key = &seed.key;
    let entries = wrap_all(passwords, seed.entries.as_slice(), key);
    let encrypted_verify_block = chacha_xor(&key.cek, &key.cek_nonce, &seed.verify_block);
    let verify_block_hmac = hmac(&key.cek, &seed.verify_block);
    let file_hmac = hmac(&key.cek, plaintext);
    let h = FileHeader {
        magic: [0x57, 0x43, 0x52, 0x59],
        password_count: passwords.len() as u16,
        entries,
        encrypted_verify_block,
        verify_block_hmac,
        file_hmac,
        metadata_len: meta.len() as u32,
        metadata: meta,
    };
    assert(h@.magic =~= spec_magic());
    assert(h@ == spec_seal_header(
        plaintext@,
        spec_password_bytes(passwords@),
        spec_metadata(metadata),
        seed@,
    ));
    let mut out: Vec<u8> = Vec::new();
    write_header(&h, &mut out);
    let body = chacha_xor(&key.cek, &key.cek_nonce, plaintext);
    append(&mut out, body.as_slice());
    Ok(out)
}

/// Fresh seeds for `count` entries.
pub fn gen_entry_seeds(count: usize) -> (seeds: Vec<EntrySeed>)
    ensures
        seeds@.len() == count,
{
    let mut seeds: Vec<EntrySeed> = Vec::new();
    let mut i: usize = 0;
    while i < count
        invariant
            i <= count,
            seeds@.len() == i,
        decreases count - i,
    {
        seeds.push(EntrySeed { salt: random_array::<16>(), kek_nonce: gen_nonce() });
        i += 1;
    }
    seeds
}

/// A fresh seed for an encryption for `count` passwords.
pub fn gen_seed(count: usize) -> (seed: Seed)
    ensures
        seed@.fits(count as nat),
{
    let (cek, cek_nonce) = gen_cek();
    let verify_block = random_array::<128>();
    let entries = gen_entry_seeds(count);
    Seed { key: FileKey { cek, cek_nonce }, verify_block, entries }
}

/// Encrypts `plaintext` so that each of `passwords` opens it, with `metadata`
/// beside it in the clear, and returns the envelope.
///
/// The content key, its nonce, the verify block and each entry's salt and nonce
/// are drawn afresh. Fails with `BadArgument` where there is no password or more
/// than 65535, or an argument is too long for the format.
pub fn encrypt_file(plaintext: &[u8], passwords: &[String], metadata: Option<&[u8]>) -> (r: Result<
    Vec<u8>,
    Error,
>)
    ensures
        match r {
            Ok(out) => {
                &&& spec_seal_args_ok(
                    plaintext@,
                    spec_password_bytes(passwords@),
                    spec_metadata(metadata),
                )
                &&& exists|seed: SeedView|
                    seed.fits(passwords@.len()) && out@ == #[trigger] spec_seal(
                        plaintext@,
                        spec_password_bytes(passwords@),
                        spec_metadata(metadata),
                        seed,
                    )
            },
            Err(e) => {
                &&& e == Error::BadArgument
                &&& !spec_seal_args_ok(
                    plaintext@,
                    spec_password_bytes(passwords@),
                    spec_metadata(metadata),
                )
            },
        },
{
    let metadata_fits = match metadata {
        Some(m) => m.len() <= MAX_METADATA_LEN,
        None => true,
    };
    if !metadata_fits || !passwords_ok(passwords) || !fits_stream(plaintext.len()) {
        return Err(Error::BadArgument);
    }
    let seed = gen_seed(passwords.len());
    seal(plaintext, passwords, metadata, &seed)
}

/// Decrypts an envelope with one password.
///
/// The entries are tried in order; the first whose verify-block probe accepts the
/// password gives the content key. The plaintext comes back whether or not its
/// tag matches: `body_mac_matched` says which. Fails with `InvalidFormat` where
/// `data` is no envelope or its body is longer than one keystream, and with
/// `WrongPassword` where no entry accepts the password.
pub fn decrypt_file(data: &[u8], password: &str) -> (r: Result<Decrypted, Error>)
    ensures
        match r {
            Ok(d) => spec_decrypt(data@, encode_utf8(password@)) == Ok::<DecryptedView, Error>(d@),
            Err(e) => spec_decrypt(data@, encode_utf8(password@)) == Err::<DecryptedView, Error>(
                e,
            ),
        },
{
    let (h, body_at) = match parse_envelope(data) {
        Ok(parts) => parts,
        Err(e) => {
            return Err(e);
        },
    };
    let key = match recover_key(&h, password.as_bytes()) {
        Some(key) => key,
        None => {
            return Err(Error::WrongPassword);
        },
    };
    let body = slice_subrange(data, body_at, data.len());
    if !fits_stream(body.len()) {
        return Err(Error::InvalidFormat);
    }
    let plaintext = chacha_xor(&key.cek, &key.cek_nonce, body);
    let computed = hmac(&key.cek, plaintext.as_slice());
    let body_mac_matched = ct_eq(&computed, &h.file_hmac);
    Ok(Decrypted { body_mac_matched, metadata: h.metadata, plaintext })
}

/// Replaces the passwords of an envelope with the randomness of `seeds`, and
/// returns the new envelope.
///
/// Every byte of the result is fixed by the arguments. The checks come in this
/// order: `BadArgument` for the new password list or the seed count,
/// `InvalidFormat` for `data`, `WrongPassword` for `old_password`.
pub fn rekey(data: &[u8], old_password: &str, new_passwords: &[String], seeds: &[EntrySeed]) -> (r:
    Result<Vec<u8>, Error>)
    ensures
        match r {
            Ok(out) => spec_rekey(
                data@,
                encode_utf8(old_password@),
                spec_password_bytes(new_passwords@),
                Seq::new(seeds@.len(), |i: int| seeds@[i]@),
            ) == Ok::<Seq<u8>, Error>(out@),
            Err(e) => spec_rekey(
                data@,
                encode_utf8(old_password@),
                spec_password_bytes(new_passwords@),
                Seq::new(seeds@.len(), |i: int| seeds@[i]@),
            ) == Err::<Seq<u8>, Error>(e),
        },
{
    if !passwords_ok(new_passwords) || seeds.len() != new_passwords.len() {
        return Err(Error::BadArgument);
    }
    let (mut h, body_at) = match parse_envelope(data) {
        Ok(parts) => parts,
        Err(e) => {
            return Err(e);
        },
    };
    let key = match recover_key(&h, old_password.as_bytes()) {
        Some(key) => key,
        None => {
            return Err(Error::WrongPassword);
        },
    };
    let ghost before = h@;
    h.password_count = new_passwords.len() as u16;
    h.entries = wrap_all(new_passwords, seeds, &key);
    assert(h@ == HeaderView {
        password_count: new_passwords@.len() as u16,
        entries: spec_entries_for(
            spec_password_bytes(new_passwords@),
            Seq::new(seeds@.len(), |i: int| seeds@[i]@),
            key@,
        ),
        ..before
    });
    let mut out: Vec<u8> = Vec::new();
    write_header(&h, &mut out);
    append(&mut out, slice_subrange(data, body_at, data.len()));
    Ok(out)
}

/// Replaces the passwords of an envelope: `old_password` opens the content
/// key, and fresh entries wrap it for `new_passwords`.
///
/// The verify block, both tags, the metadata and the body stay as they are.
/// Fails with `BadArgument` where there is no new password or more than 65535,
/// else with `InvalidFormat` where `data` is no envelope, else with
/// `WrongPassword` where no entry accepts `old_password`.
pub fn reset_passwords(data: &[u8], old_password: &str, new_passwords: &[String]) -> (r: Result<
    Vec<u8>,
    Error,
>)
    ensures
        match r {
            Ok(out) => exists|seeds: Seq<EntrySeedView>|
                spec_seeds_fit(seeds, new_passwords@.len()) && #[trigger] spec_rekey(
                    data@,
                    encode_utf8(old_password@),
                    spec_password_bytes(new_passwords@),
                    seeds,
                ) == Ok::<Seq<u8>, Error>(out@),
            Err(e) => spec_rekey_refusal(
                data@,
                encode_utf8(old_password@),
                spec_password_bytes(new_passwords@),
            ) == Some(e),
        },
{
    if !passwords_ok(new_passwords) {
        return Err(Error::BadArgument);
    }
    let seeds = gen_entry_seeds(new_passwords.len());
    let r = rekey(data, old_password, new_passwords, seeds.as_slice());
    proof {
        let witness = Seq::new(seeds@.len(), |i: int| seeds@[i]@);
        assert(spec_seeds_fit(witness, new_passwords@.len()));
    }
    r
}

} // verus!
