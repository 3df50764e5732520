use crate::envelope::DecryptedView;
use crate::envelope::SeedView;
use crate::envelope::spec_decrypt;
use crate::envelope::spec_entries_for;
use crate::envelope::spec_rekey;
use crate::envelope::spec_seal;
use crate::envelope::spec_seal_args_ok;
use crate::envelope::spec_seal_header;
use crate::envelope::spec_seeds_fit;
use crate::error::Error;
use crate::header::EntryView;
use crate::header::EnvelopeView;
use crate::header::HeaderView;
use crate::header::spec_fixed_len;
use crate::header::spec_parse;
use crate::keys::EntrySeedView;
use crate::keys::KeyView;
use crate::keys::spec_accepts;
use crate::keys::spec_recover_key;
use crate::keys::spec_unwrap;
use crate::keys::spec_wrap;
use crate::layout::lemma_body_edit_parses;
use crate::layout::lemma_parse_of_written;
use crate::layout::lemma_parsed_wf;
use crate::layout::lemma_verify_block_edit_parses;
use crate::layout::spec_body_at;
use crate::metadata::lemma_update_metadata_parses;
use crate::metadata::spec_update_metadata;
use crate::primitives::chacha20_keystream;
use crate::primitives::hmac_sha256;
use crate::primitives::spec_chacha_xor;
use crate::primitives::spec_kek;
use crate::primitives::spec_xor;
use vstd::prelude::*;

verus! {

/// XORing the same pad twice gives the data back.
pub proof fn lemma_xor_involutive(data: Seq<u8>, pad: Seq<u8>)
    ensures
        spec_xor(spec_xor(data, pad), pad) == data,
{
    assert forall|i: int| 0 <= i < data.len() implies spec_xor(spec_xor(data, pad), pad)[i]
        == data[i] by {
        let a = data[i];
        let b = pad[i];
        assert((a ^ b) ^ b == a) by (bit_vector);
    }
    assert(spec_xor(spec_xor(data, pad), pad) =~= data);
}

/// The stream cipher undoes itself: decryption is encryption.
pub proof fn lemma_chacha_involutive(key: Seq<u8>, nonce: Seq<u8>, data: Seq<u8>)
    ensures
        spec_chacha_xor(key, nonce, spec_chacha_xor(key, nonce, data)) == data,
        spec_chacha_xor(key, nonce, data).len() == data.len(),
{
    lemma_xor_involutive(data, chacha20_keystream(key, nonce, data.len()));
}

/// Under one key and nonce, different data give different ciphertexts.
pub proof fn lemma_chacha_injective(key: Seq<u8>, nonce: Seq<u8>, a: Seq<u8>, b: Seq<u8>)
    requires
        spec_chacha_xor(key, nonce, a) == spec_chacha_xor(key, nonce, b),
    ensures
        a == b,
{
    lemma_chacha_involutive(key, nonce, a);
    lemma_chacha_involutive(key, nonce, b);
}

/// An entry gives back, under its own password, the key that it wraps.
pub proof fn lemma_wrap_unwrap(password: Seq<u8>, seed: EntrySeedView, key: KeyView)
    ensures
        spec_unwrap(spec_wrap(password, seed, key), password) == key,
{
    let kek = spec_kek(password, seed.salt);
    lemma_chacha_involutive(kek, seed.kek_nonce, key.cek);
    lemma_chacha_involutive(kek, seed.kek_nonce, key.cek_nonce);
}

/// Two bodies of data that one key tags alike although they differ.
pub open spec fn spec_mac_collision(key: Seq<u8>, a: Seq<u8>, b: Seq<u8>) -> bool {
    a != b && hmac_sha256(key, a)@ == hmac_sha256(key, b)@
}

/// Whether every entry before `upto` that accepts `password` yields `key`: no
/// entry of another password passes the probe by a coincidence of tags.
pub open spec fn spec_no_stray_accept(
    entries: Seq<EntryView>,
    upto: int,
    password: Seq<u8>,
    verify_block: Seq<u8>,
    tag: Seq<u8>,
    key: KeyView,
) -> bool {
    forall|j: int|
        0 <= j < upto && j < entries.len() && spec_accepts(
            #[trigger] entries[j],
            password,
            verify_block,
            tag,
        ) ==> spec_unwrap(entries[j], password) == key
}

/// Where entry `i` accepts the password and yields `key`, and no entry before
/// it strays, the key recovered is `key`.
pub proof fn lemma_recover_at(
    entries: Seq<EntryView>,
    i: int,
    password: Seq<u8>,
    verify_block: Seq<u8>,
    tag: Seq<u8>,
    key: KeyView,
)
    requires
        0 <= i < entries.len(),
        spec_accepts(entries[i], password, verify_block, tag),
        spec_unwrap(entries[i], password) == key,
        spec_no_stray_accept(entries, i, password, verify_block, tag, key),
    ensures
        spec_recover_key(entries, password, verify_block, tag) == Some(key),
    decreases i,
{
    if i > 0 {
        if spec_accepts(entries[0], password, verify_block, tag) {
        } else {
            let rest = entries.drop_first();
            assert(rest[i - 1] == entries[i]);
            assert forall|j: int|
                0 <= j < i - 1 && j < rest.len() && spec_accepts(
                    #[trigger] rest[j],
                    password,
                    verify_block,
                    tag,
                ) implies spec_unwrap(rest[j], password) == key by {
                assert(rest[j] == entries[j + 1]);
            }
            lemma_recover_at(rest, i - 1, password, verify_block, tag, key);
        }
    }
}

/// Some entry accepts the password exactly where a key is recovered, and the
/// key recovered is what an accepting entry yields.
pub proof fn lemma_recover_iff(
    entries: Seq<EntryView>,
    password: Seq<u8>,
    verify_block: Seq<u8>,
    tag: Seq<u8>,
)
    ensures
        spec_recover_key(entries, password, verify_block, tag) is Some <==> exists|i: int|
            0 <= i < entries.len() && spec_accepts(
                #[trigger] entries[i],
                password,
                verify_block,
                tag,
            ),
        spec_recover_key(entries, password, verify_block, tag) matches Some(key) ==> exists|
            i: int,
        |
            0 <= i < entries.len() && spec_accepts(
                #[trigger] entries[i],
                password,
                verify_block,
                tag,
            ) && spec_unwrap(entries[i], password) == key,
    decreases entries.len(),
{
    if entries.len() > 0 {
        if spec_accepts(entries[0], password, verify_block, tag) {
        } else {
            let rest = entries.drop_first();
            lemma_recover_iff(rest, password, verify_block, tag);
            if spec_recover_key(rest, password, verify_block, tag) is Some {
                let key = spec_recover_key(rest, password, verify_block, tag)->Some_0;
                let i = choose|i: int|
                    0 <= i < rest.len() && spec_accepts(
                        #[trigger] rest[i],
                        password,
                        verify_block,
                        tag,
                    ) && spec_unwrap(rest[i], password) == key;
                assert(rest[i] == entries[i + 1]);
            } else {
                assert forall|i: int| 0 <= i < entries.len() implies !spec_accepts(
                    #[trigger] entries[i],
                    password,
                    verify_block,
                    tag,
                ) by {
                    if i > 0 {
                        assert(rest[i - 1] == entries[i]);
                    }
                }
            }
        }
    }
}

/// What an encryption writes parses to the header that it built and to the
/// encrypted plaintext.
pub proof fn lemma_seal_parses(
    plaintext: Seq<u8>,
    passwords: Seq<Seq<u8>>,
    metadata: Seq<u8>,
    seed: SeedView,
)
    requires
        spec_seal_args_ok(plaintext, passwords, metadata),
        seed.fits(passwords.len()),
    ensures
        spec_parse(spec_seal(plaintext, passwords, metadata, seed)) == Ok::<EnvelopeView, Error>(
            EnvelopeView {
                header: spec_seal_header(plaintext, passwords, metadata, seed),
                body: spec_chacha_xor(seed.key.cek, seed.key.cek_nonce, plaintext),
            },
        ),
        spec_seal_header(plaintext, passwords, metadata, seed).wf(),
{
    let h = spec_seal_header(plaintext, passwords, metadata, seed);
    assert forall|i: int| 0 <= i < h.entries.len() implies (#[trigger] h.entries[i]).wf() by {
        assert(seed.entries[i].wf());
    }
    lemma_parse_of_written(h, spec_chacha_xor(seed.key.cek, seed.key.cek_nonce, plaintext));
}

/// Round trip. An envelope decrypts, under password `i` of those it was made
/// for, to the plaintext and the metadata that went in, with a matching tag,
/// provided no entry before `i` strays. It never answers `WrongPassword` to one
/// of its passwords, and always gives the metadata back.
pub proof fn lemma_seal_decrypt(
    plaintext: Seq<u8>,
    passwords: Seq<Seq<u8>>,
    metadata: Seq<u8>,
    seed: SeedView,
    i: int,
)
    requires
        spec_seal_args_ok(plaintext, passwords, metadata),
        seed.fits(passwords.len()),
        0 <= i < passwords.len(),
    ensures
        spec_decrypt(spec_seal(plaintext, passwords, metadata, seed), passwords[i]) is Ok,
        spec_decrypt(
            spec_seal(plaintext, passwords, metadata, seed),
            passwords[i],
        )->Ok_0.metadata == metadata,
        spec_no_stray_accept(
            spec_seal_header(plaintext, passwords, metadata, seed).entries,
            i,
            passwords[i],
            spec_seal_header(plaintext, passwords, metadata, seed).encrypted_verify_block,
            spec_seal_header(plaintext, passwords, metadata, seed).verify_block_hmac,
            seed.key,
        ) ==> spec_decrypt(spec_seal(plaintext, passwords, metadata, seed), passwords[i]) == Ok::<
            DecryptedView,
            Error,
        >(DecryptedView { body_mac_matched: true, metadata, plaintext }),
{
    let h = spec_seal_header(plaintext, passwords, metadata, seed);
    let key = seed.key;
    let pw = passwords[i];
    lemma_seal_parses(plaintext, passwords, metadata, seed);
    lemma_wrap_unwrap(pw, seed.entries[i], key);
    lemma_chacha_involutive(key.cek, key.cek_nonce, seed.verify_block);
    lemma_chacha_involutive(key.cek, key.cek_nonce, plaintext);
    assert(h.entries[i] == spec_wrap(pw, seed.entries[i], key));
    assert(spec_accepts(h.entries[i], pw, h.encrypted_verify_block, h.verify_block_hmac));
    lemma_recover_iff(h.entries, pw, h.encrypted_verify_block, h.verify_block_hmac);
    if spec_no_stray_accept(
        h.entries,
        i,
        pw,
        h.encrypted_verify_block,
        h.verify_block_hmac,
        key,
    ) {
        lemma_recover_at(h.entries, i, pw, h.encrypted_verify_block, h.verify_block_hmac, key);
    }
}

/// Round trip for the first password: nothing stands before its entry, so the
/// plaintext, a matching tag and the metadata come back whatever the rest holds.
pub proof fn lemma_seal_decrypt_first(
    plaintext: Seq<u8>,
    passwords: Seq<Seq<u8>>,
    metadata: Seq<u8>,
    seed: SeedView,
)
    requires
        spec_seal_args_ok(plaintext, passwords, metadata),
        seed.fits(passwords.len()),
    ensures
        spec_decrypt(spec_seal(plaintext, passwords, metadata, seed), passwords[0]) == Ok::<
            DecryptedView,
            Error,
        >(DecryptedView { body_mac_matched: true, metadata, plaintext }),
{
    lemma_seal_decrypt(plaintext, passwords, metadata, seed, 0);
}

/// A password is refused exactly where the envelope parses and none of its
/// entries accepts the password.
pub proof fn lemma_wrong_password(data: Seq<u8>, password: Seq<u8>)
    ensures
        spec_decrypt(data, password) == Err::<DecryptedView, Error>(Error::WrongPassword) <==> (
        spec_parse(data) matches Ok(env) && forall|i: int|
            0 <= i < env.header.entries.len() ==> !spec_accepts(
                #[trigger] env.header.entries[i],
                password,
                env.header.encrypted_verify_block,
                env.header.verify_block_hmac,
            )),
{
    if spec_parse(data) is Ok {
        let h = spec_parse(data)->Ok_0.header;
        lemma_recover_iff(h.entries, password, h.encrypted_verify_block, h.verify_block_hmac);
    }
}

/// After a metadata update every password does what it did before: the same
/// error, or the same plaintext and tag verdict, now with the new metadata.
pub proof fn lemma_update_metadata_decrypt(data: Seq<u8>, metadata: Seq<u8>, password: Seq<u8>)
    requires
        spec_update_metadata(data, metadata) is Ok,
    ensures
        spec_decrypt(spec_update_metadata(data, metadata)->Ok_0, password) == match spec_decrypt(
            data,
            password,
        ) {
            Ok(d) => Ok::<DecryptedView, Error>(DecryptedView { metadata, ..d }),
            Err(e) => Err::<DecryptedView, Error>(e),
        },
{
    lemma_update_metadata_parses(data, metadata);
}

/// What a rekeying writes parses to the old header with the new entries, and
/// to the old body: verify block, tags and metadata stay.
pub proof fn lemma_rekey_parses(
    data: Seq<u8>,
    old_password: Seq<u8>,
    new_passwords: Seq<Seq<u8>>,
    seeds: Seq<EntrySeedView>,
)
    requires
        spec_rekey(data, old_password, new_passwords, seeds) is Ok,
        spec_seeds_fit(seeds, new_passwords.len()),
    ensures
        spec_parse(data) is Ok,
        spec_recover_key(
            spec_parse(data)->Ok_0.header.entries,
            old_password,
            spec_parse(data)->Ok_0.header.encrypted_verify_block,
            spec_parse(data)->Ok_0.header.verify_block_hmac,
        ) is Some,
        spec_parse(spec_rekey(data, old_password, new_passwords, seeds)->Ok_0) == Ok::<
            EnvelopeView,
            Error,
        >(
            EnvelopeView {
                header: HeaderView {
                    password_count: new_passwords.len() as u16,
                    entries: spec_entries_for(
                        new_passwords,
                        seeds,
                        spec_recover_key(
                            spec_parse(data)->Ok_0.header.entries,
                            old_password,
                            spec_parse(data)->Ok_0.header.encrypted_verify_block,
                            spec_parse(data)->Ok_0.header.verify_block_hmac,
                        )->Some_0,
                    ),
                    ..spec_parse(data)->Ok_0.header
                },
                body: spec_parse(data)->Ok_0.body,
            },
        ),
{
    let env = spec_parse(data)->Ok_0;
    let old = env.header;
    lemma_parsed_wf(data);
    let key = spec_recover_key(
        old.entries,
        old_password,
        old.encrypted_verify_block,
        old.verify_block_hmac,
    )->Some_0;
    lemma_recover_iff(
        old.entries,
        old_password,
        old.encrypted_verify_block,
        old.verify_block_hmac,
    );
    let h = HeaderView {
        password_count: new_passwords.len() as u16,
        entries: spec_entries_for(new_passwords, seeds, key),
        ..old
    };
    assert forall|i: int| 0 <= i < h.entries.len() implies (#[trigger] h.entries[i]).wf() by {
        assert(seeds[i].wf());
    }
    lemma_parse_of_written(h, env.body);
}

/// After a rekeying, new password `j` does exactly what the old password did
/// before: the same plaintext, tag verdict and metadata, provided no new entry
/// before `j` strays. The first new password does so whatever the rest holds.
pub proof fn lemma_rekey_decrypt(
    data: Seq<u8>,
    old_password: Seq<u8>,
    new_passwords: Seq<Seq<u8>>,
    seeds: Seq<EntrySeedView>,
    j: int,
)
    requires
        spec_rekey(data, old_password, new_passwords, seeds) is Ok,
        spec_seeds_fit(seeds, new_passwords.len()),
        0 <= j < new_passwords.len(),
        spec_no_stray_accept(
            spec_parse(spec_rekey(data, old_password, new_passwords, seeds)->Ok_0)->Ok_0.header.entries,
            j,
            new_passwords[j],
            spec_parse(data)->Ok_0.header.encrypted_verify_block,
            spec_parse(data)->Ok_0.header.verify_block_hmac,
            spec_recover_key(
                spec_parse(data)->Ok_0.header.entries,
                old_password,
                spec_parse(data)->Ok_0.header.encrypted_verify_block,
                spec_parse(data)->Ok_0.header.verify_block_hmac,
            )->Some_0,
        ),
    ensures
        spec_decrypt(
            spec_rekey(data, old_password, new_passwords, seeds)->Ok_0,
            new_passwords[j],
        ) == spec_decrypt(data, old_password),
{
    let old = spec_parse(data)->Ok_0.header;
    lemma_rekey_parses(data, old_password, new_passwords, seeds);
    let key = spec_recover_key(
        old.entries,
        old_password,
        old.encrypted_verify_block,
        old.verify_block_hmac,
    )->Some_0;
    lemma_recover_iff(
        old.entries,
        old_password,
        old.encrypted_verify_block,
        old.verify_block_hmac,
    );
    let entries = spec_entries_for(new_passwords, seeds, key);
    lemma_wrap_unwrap(new_passwords[j], seeds[j], key);
    assert(entries[j] == spec_wrap(new_passwords[j], seeds[j], key));
    lemma_recover_at(
        entries,
        j,
        new_passwords[j],
        old.encrypted_verify_block,
        old.verify_block_hmac,
        key,
    );
}

/// A changed byte of the ciphertext body changes the plaintext that comes out,
/// whatever the password; the password and the metadata fare as before, and the
/// tag can match before and after only if the two plaintexts collide under the
/// content key.
pub proof fn lemma_body_tamper(data: Seq<u8>, k: int, b: u8, password: Seq<u8>)
    requires
        spec_decrypt(data, password) is Ok,
        spec_body_at(data) <= k < data.len(),
        b != data[k],
    ensures
        spec_decrypt(data.update(k, b), password) is Ok,
        spec_decrypt(data.update(k, b), password)->Ok_0.metadata == spec_decrypt(
            data,
            password,
        )->Ok_0.metadata,
        spec_decrypt(data.update(k, b), password)->Ok_0.plaintext != spec_decrypt(
            data,
            password,
        )->Ok_0.plaintext,
        spec_decrypt(data, password)->Ok_0.body_mac_matched && spec_decrypt(
            data.update(k, b),
            password,
        )->Ok_0.body_mac_matched ==> spec_mac_collision(
            spec_recover_key(
                spec_parse(data)->Ok_0.header.entries,
                password,
                spec_parse(data)->Ok_0.header.encrypted_verify_block,
                spec_parse(data)->Ok_0.header.verify_block_hmac,
            )->Some_0.cek,
            spec_decrypt(data, password)->Ok_0.plaintext,
            spec_decrypt(data.update(k, b), password)->Ok_0.plaintext,
        ),
{
    let env = spec_parse(data)->Ok_0;
    let h = env.header;
    lemma_body_edit_parses(data, k, b);
    let key = spec_recover_key(
        h.entries,
        password,
        h.encrypted_verify_block,
        h.verify_block_hmac,
    )->Some_0;
    let body = env.body;
    let other = body.update(k - spec_body_at(data), b);
    assert(other[k - spec_body_at(data)] != body[k - spec_body_at(data)]);
    if spec_chacha_xor(key.cek, key.cek_nonce, other) == spec_chacha_xor(
        key.cek,
        key.cek_nonce,
        body,
    ) {
        lemma_chacha_injective(key.cek, key.cek_nonce, other, body);
    }
}

/// A changed byte of the encrypted verify block turns away every entry that
/// accepted a password, unless the two verify blocks that its key decrypts
/// collide under that key.
pub proof fn lemma_verify_block_tamper(data: Seq<u8>, k: int, b: u8, password: Seq<u8>, i: int)
    requires
        spec_parse(data) is Ok,
        0 <= k - (spec_fixed_len(spec_parse(data)->Ok_0.header.password_count as int) - 192)
            < 128,
        b != data[k],
        0 <= i < spec_parse(data)->Ok_0.header.entries.len(),
        spec_accepts(
            spec_parse(data)->Ok_0.header.entries[i],
            password,
            spec_parse(data)->Ok_0.header.encrypted_verify_block,
            spec_parse(data)->Ok_0.header.verify_block_hmac,
        ),
    ensures
        spec_parse(data.update(k, b)) is Ok,
        spec_parse(data.update(k, b))->Ok_0.header.entries == spec_parse(
            data,
        )->Ok_0.header.entries,
        spec_parse(data.update(k, b))->Ok_0.header.verify_block_hmac == spec_parse(
            data,
        )->Ok_0.header.verify_block_hmac,
        spec_accepts(
            spec_parse(data)->Ok_0.header.entries[i],
            password,
            spec_parse(data.update(k, b))->Ok_0.header.encrypted_verify_block,
            spec_parse(data)->Ok_0.header.verify_block_hmac,
        ) ==> spec_mac_collision(
            spec_unwrap(spec_parse(data)->Ok_0.header.entries[i], password).cek,
            spec_chacha_xor(
                spec_unwrap(spec_parse(data)->Ok_0.header.entries[i], password).cek,
                spec_unwrap(spec_parse(data)->Ok_0.header.entries[i], password).cek_nonce,
                spec_parse(data)->Ok_0.header.encrypted_verify_block,
            ),
            spec_chacha_xor(
                spec_unwrap(spec_parse(data)->Ok_0.header.entries[i], password).cek,
                spec_unwrap(spec_parse(data)->Ok_0.header.entries[i], password).cek_nonce,
                spec_parse(data.update(k, b))->Ok_0.header.encrypted_verify_block,
            ),
        ),
{
    let h = spec_parse(data)->Ok_0.header;
    lemma_parsed_wf(data);
    lemma_verify_block_edit_parses(data, k, b);
    let at = k - (spec_fixed_len(h.password_count as int) - 192);
    let before = h.encrypted_verify_block;
    let after = before.update(at, b);
    assert(after[at] != before[at]);
    let key = spec_unwrap(h.entries[i], password);
    if spec_chacha_xor(key.cek, key.cek_nonce, before) == spec_chacha_xor(
        key.cek,
        key.cek_nonce,
        after,
    ) {
        lemma_chacha_injective(key.cek, key.cek_nonce, before, after);
    }
}

/// Freshness. The envelope fixes the seed: two encryptions of the same
/// plaintext, passwords and metadata give the same bytes only where every
/// random value was drawn the same.
pub proof fn lemma_seal_injective(
    plaintext: Seq<u8>,
    passwords: Seq<Seq<u8>>,
    metadata: Seq<u8>,
    s1: SeedView,
    s2: SeedView,
)
    requires
        spec_seal_args_ok(plaintext, passwords, metadata),
        s1.fits(passwords.len()),
        s2.fits(passwords.len()),
        spec_seal(plaintext, passwords, metadata, s1) == spec_seal(
            plaintext,
            passwords,
            metadata,
            s2,
        ),
    ensures
        s1 == s2,
{
    let h1 = spec_seal_header(plaintext, passwords, metadata, s1);
    let h2 = spec_seal_header(plaintext, passwords, metadata, s2);
    lemma_seal_parses(plaintext, passwords, metadata, s1);
    lemma_seal_parses(plaintext, passwords, metadata, s2);
    assert(h1 == h2);
    assert forall|i: int| 0 <= i < passwords.len() implies s1.entries[i] == s2.entries[i] by {
        assert(h1.entries[i] == spec_wrap(passwords[i], s1.entries[i], s1.key));
        assert(h2.entries[i] == spec_wrap(passwords[i], s2.entries[i], s2.key));
    }
    assert(s1.entries =~= s2.entries);
    let kek = spec_kek(passwords[0], s1.entries[0].salt);
    let nonce = s1.entries[0].kek_nonce;
    assert(h1.entries[0] == spec_wrap(passwords[0], s1.entries[0], s1.key));
    assert(h2.entries[0] == spec_wrap(passwords[0], s2.entries[0], s2.key));
    lemma_chacha_injective(kek, nonce, s1.key.cek, s2.key.cek);
    lemma_chacha_injective(kek, nonce, s1.key.cek_nonce, s2.key.cek_nonce);
    lemma_chacha_injective(s1.key.cek, s1.key.cek_nonce, s1.verify_block, s2.verify_block);
}

} // verus!
